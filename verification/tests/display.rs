use claw::display::{highlight_spans, layout_input_line, overlay_lines, OverlayLine};

fn chars(s: &str) -> Vec<char> {
    s.chars().collect()
}

#[test]
fn short_line_is_shown_after_the_prompt() {
    let (text, col) = layout_input_line("> ", &chars("hello"), 3, 80);
    assert_eq!(text, "hello");
    assert_eq!(col, 5);
}

#[test]
fn cursor_on_a_continuation_line_ignores_the_prompt() {
    let (text, col) = layout_input_line("> ", &chars("ab\ncde"), 5, 80);
    assert_eq!(text, "ab\ncde");
    assert_eq!(col, 2);
}

#[test]
fn long_line_shows_the_suffix_that_fits() {
    // room = 10 - 2 - 1 = 7 columns
    let (text, col) = layout_input_line("> ", &chars("abcdefghijkl"), 12, 10);
    assert_eq!(text, "fghijkl");
    assert_eq!(col, 7);
    let (text, col) = layout_input_line("> ", &chars("abcdefghijkl"), 7, 10);
    assert_eq!(text, "fghijkl");
    assert_eq!(col, 2);
    let (text, col) = layout_input_line("> ", &chars("abcdefghijkl"), 1, 10);
    assert_eq!(text, "fghijkl");
    assert_eq!(col, 0);
}

#[test]
fn wide_characters_take_two_columns() {
    // room = 8 - 2 - 1 = 5 columns; each of these takes 2
    let (text, col) = layout_input_line("> ", &chars("\u{4f60}\u{597d}\u{4e16}\u{754c}"), 4, 8);
    assert_eq!(text, "\u{4e16}\u{754c}");
    assert_eq!(col, 4);
}

#[test]
fn cursor_past_the_end_is_clamped() {
    let (text, col) = layout_input_line("$ ", &chars("ab"), 9, 80);
    assert_eq!(text, "ab");
    assert_eq!(col, 4);
}

#[test]
fn overlay_without_matches() {
    assert_eq!(overlay_lines(0, 0, 24), vec![OverlayLine::NoMatches]);
}

#[test]
fn overlay_short_list() {
    assert_eq!(
        overlay_lines(3, 1, 24),
        vec![
            OverlayLine::Item { index: 0, selected: false },
            OverlayLine::Item { index: 1, selected: true },
            OverlayLine::Item { index: 2, selected: false },
        ]
    );
}

#[test]
fn overlay_scrolls_to_the_selection() {
    let lines = overlay_lines(15, 12, 24);
    assert_eq!(lines.len(), 12);
    assert_eq!(lines[0], OverlayLine::More(3));
    assert_eq!(lines[1], OverlayLine::Item { index: 3, selected: false });
    assert_eq!(lines[10], OverlayLine::Item { index: 12, selected: true });
    assert_eq!(lines[11], OverlayLine::More(2));
}

#[test]
fn overlay_in_a_small_terminal() {
    // 6 rows leave 3 for the list
    let lines = overlay_lines(5, 0, 6);
    assert_eq!(
        lines,
        vec![
            OverlayLine::Item { index: 0, selected: true },
            OverlayLine::Item { index: 1, selected: false },
            OverlayLine::Item { index: 2, selected: false },
            OverlayLine::More(2),
        ]
    );
}

#[test]
fn highlight_splits_around_the_match() {
    assert_eq!(
        highlight_spans("Compact", "PAC"),
        Some(("Com".to_string(), "pac".to_string(), "t".to_string()))
    );
    assert_eq!(highlight_spans("help", ""), None);
    assert_eq!(highlight_spans("help", "xyz"), None);
    assert_eq!(
        highlight_spans("\u{c9}t\u{c9}", "\u{e9}"),
        Some(("".to_string(), "\u{c9}".to_string(), "t\u{c9}".to_string()))
    );
}
