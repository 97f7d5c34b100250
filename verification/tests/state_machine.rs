use help_modal::{CommandEntry, HelpModalView, KeyPress, ModalView};

fn sample_commands() -> Vec<CommandEntry> {
    vec![
        CommandEntry::new("help".to_string(), "Show help".to_string()),
        CommandEntry::new("clear".to_string(), "Clear screen".to_string()),
    ]
}

#[test]
fn starts_active() {
    let view = HelpModalView::new(sample_commands());
    assert!(!view.is_complete());
}

#[test]
fn non_dismiss_keys_keep_it_active() {
    let mut view = HelpModalView::new(sample_commands());
    view.handle_key_event(KeyPress::Other);
    assert!(!view.is_complete());
    view.handle_key_event(KeyPress::Char('a'));
    assert!(!view.is_complete());
    view.handle_key_event(KeyPress::Char('Z'));
    assert!(!view.is_complete());
    view.handle_key_event(KeyPress::Char(' '));
    assert!(!view.is_complete());
}

#[test]
fn escape_completes() {
    let mut view = HelpModalView::new(sample_commands());
    view.handle_key_event(KeyPress::Esc);
    assert!(view.is_complete());
}

#[test]
fn lowercase_q_completes() {
    let mut view = HelpModalView::new(sample_commands());
    view.handle_key_event(KeyPress::Char('q'));
    assert!(view.is_complete());
}

#[test]
fn uppercase_q_completes() {
    let mut view = HelpModalView::new(sample_commands());
    view.handle_key_event(KeyPress::Char('Q'));
    assert!(view.is_complete());
}

#[test]
fn completion_is_absorbing() {
    let mut view = HelpModalView::new(sample_commands());
    view.handle_key_event(KeyPress::Esc);
    assert!(view.is_complete());
    view.handle_key_event(KeyPress::Other);
    assert!(view.is_complete());
    view.handle_key_event(KeyPress::Char('a'));
    assert!(view.is_complete());
    view.handle_key_event(KeyPress::Esc);
    assert!(view.is_complete());
}

#[test]
fn tab_then_escape() {
    let mut view = HelpModalView::new(sample_commands());
    view.handle_key_event(KeyPress::Other);
    assert!(!view.is_complete());
    view.handle_key_event(KeyPress::Esc);
    assert!(view.is_complete());
}
