use help_modal::content::{build_body_lines, format_command_line, line_le_exec};
use help_modal::CommandEntry;

fn entries(pairs: &[(&str, &str)]) -> Vec<CommandEntry> {
    pairs
        .iter()
        .map(|(n, d)| CommandEntry::new(n.to_string(), d.to_string()))
        .collect()
}

fn body_texts(pairs: &[(&str, &str)]) -> Vec<(String, bool)> {
    build_body_lines(&entries(pairs))
        .iter()
        .map(|l| (l.text.clone(), l.emph))
        .collect()
}

#[test]
fn scenario_two_commands() {
    let body = body_texts(&[("help", "Show help"), ("clear", "Clear screen")]);
    let expected: Vec<(&str, bool)> = vec![
        ("Available commands", true),
        ("", false),
        ("Slash-commands", true),
        ("/clear – Clear screen", false),
        ("/help – Show help", false),
        ("", false),
        ("Keyboard shortcuts", true),
        ("Enter – send message", false),
        ("Ctrl+J – insert newline", false),
        ("Up/Down – scroll prompt history", false),
        ("Esc(✕2) – interrupt current action", false),
        ("Ctrl+C – quit Codex", false),
    ];
    assert_eq!(body.len(), expected.len());
    for (got, want) in body.iter().zip(expected.iter()) {
        assert_eq!(got.0.as_str(), want.0);
        assert_eq!(got.1, want.1);
    }
}

#[test]
fn zero_commands_still_shows_headers_and_shortcuts() {
    let body = body_texts(&[]);
    assert_eq!(body.len(), 10);
    assert_eq!(body[0].0.as_str(), "Available commands");
    assert_eq!(body[2].0.as_str(), "Slash-commands");
    assert_eq!(body[4].0.as_str(), "Keyboard shortcuts");
    assert_eq!(body[5].0.as_str(), "Enter – send message");
    assert_eq!(body[9].0.as_str(), "Ctrl+C – quit Codex");
}

#[test]
fn command_lines_come_out_sorted() {
    let body = body_texts(&[
        ("zeta", "last"),
        ("alpha", "first"),
        ("mid", "middle"),
        ("beta", "second"),
    ]);
    let lines: Vec<&str> = body[3..7].iter().map(|(t, _)| t.as_str()).collect();
    assert_eq!(
        lines,
        vec![
            "/alpha – first",
            "/beta – second",
            "/mid – middle",
            "/zeta – last"
        ]
    );
    for w in body[3..7].windows(2) {
        assert!(w[0].0 <= w[1].0);
    }
}

#[test]
fn sort_is_by_name_key_not_by_whole_line() {
    let body = body_texts(&[("log out", "b"), ("log", "a")]);
    assert_eq!(body[3].0.as_str(), "/log – a");
    assert_eq!(body[4].0.as_str(), "/log out – b");
}

#[test]
fn equal_keys_are_ordered_by_description() {
    let body = body_texts(&[("dup", "second"), ("dup", "first")]);
    assert_eq!(body[3].0.as_str(), "/dup – first");
    assert_eq!(body[4].0.as_str(), "/dup – second");
}

#[test]
fn leading_slash_from_the_source_is_not_doubled() {
    let body = body_texts(&[("/help", "Show help")]);
    assert_eq!(body[3].0.as_str(), "/help – Show help");
}

#[test]
fn empty_description_renders_verbatim() {
    let body = body_texts(&[("x", "")]);
    assert_eq!(body[3].0.as_str(), "/x – ");
}

#[test]
fn format_line_exact() {
    let line = format_command_line("help", "Show help");
    assert_eq!(line.as_str(), "/help – Show help");
}

#[test]
fn lexicographic_compare_matches_str_order() {
    let cases = [
        ("", ""),
        ("", "a"),
        ("a", ""),
        ("abc", "abd"),
        ("abd", "abc"),
        ("ab", "abc"),
        ("abc", "ab"),
        ("same", "same"),
        ("Zeta", "alpha"),
        ("/a", "/a – x"),
    ];
    for (a, b) in cases {
        assert_eq!(line_le_exec(a, b), a <= b, "comparing {a:?} and {b:?}");
    }
}
