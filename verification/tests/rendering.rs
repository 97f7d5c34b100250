use help_modal::{CommandEntry, HelpModalView, ModalView};
use ratatui::buffer::Buffer;
use ratatui::layout::Rect;

fn sample_view() -> HelpModalView {
    HelpModalView::new(vec![
        CommandEntry::new("help".to_string(), "Show help".to_string()),
        CommandEntry::new("clear".to_string(), "Clear screen".to_string()),
    ])
}

fn row_text(buf: &Buffer, area: Rect, y: u16) -> String {
    let mut s = String::new();
    for x in area.x..area.x + area.width {
        if let Some(cell) = buf.cell((x, y)) {
            s.push_str(cell.symbol());
        }
    }
    s
}

#[test]
fn required_height_is_command_count_plus_four() {
    let view = sample_view();
    let small = Rect::new(0, 0, 1, 1);
    let large = Rect::new(5, 7, 200, 100);
    assert_eq!(view.calculate_required_height(&small), 6);
    assert_eq!(view.calculate_required_height(&large), 6);
}

#[test]
fn required_height_with_no_commands_is_four() {
    let view = HelpModalView::new(Vec::new());
    let area = Rect::new(0, 0, 80, 24);
    assert_eq!(view.calculate_required_height(&area), 4);
}

#[test]
fn required_height_at_the_largest_command_count() {
    let many: Vec<CommandEntry> = (0..u16::MAX as usize - 4)
        .map(|i| CommandEntry::new(format!("c{i}"), String::new()))
        .collect();
    let view = HelpModalView::new(many);
    let area = Rect::new(0, 0, 80, 24);
    assert_eq!(view.calculate_required_height(&area), u16::MAX);
}

#[test]
fn render_twice_is_byte_identical() {
    let view = sample_view();
    let area = Rect::new(0, 0, 60, 16);
    let mut first = Buffer::empty(area);
    let mut second = Buffer::empty(area);
    view.render(area, &mut first);
    view.render(area, &mut second);
    assert_eq!(first, second);
}

#[test]
fn render_paints_title_and_body() {
    let view = sample_view();
    let area = Rect::new(0, 0, 60, 16);
    let mut buf = Buffer::empty(area);
    view.render(area, &mut buf);
    assert!(row_text(&buf, area, 0).contains("Press esc or q to close"));
    assert!(row_text(&buf, area, 1).contains("Available commands"));
    assert!(row_text(&buf, area, 3).contains("Slash-commands"));
    assert!(row_text(&buf, area, 4).contains("/clear – Clear screen"));
    assert!(row_text(&buf, area, 5).contains("/help – Show help"));
    assert!(row_text(&buf, area, 7).contains("Keyboard shortcuts"));
    assert!(row_text(&buf, area, 8).contains("Enter – send message"));
}

#[test]
fn zero_sized_area_renders_nothing() {
    let view = sample_view();
    let area = Rect::new(0, 0, 0, 0);
    let mut buf = Buffer::empty(area);
    let before = buf.clone();
    view.render(area, &mut buf);
    assert_eq!(buf, before);
}
