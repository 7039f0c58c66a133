use claw::picker::{build_display, Key, KeyModifiers, PickerEvent, PickerResult, PickerState};

fn strings(v: &[&str]) -> Vec<String> {
    v.iter().map(|s| s.to_string()).collect()
}

fn state() -> PickerState {
    PickerState::new(
        strings(&["/help", "/clear", "/compact", "/Cost"]),
        strings(&["src/main.rs", "README.md", "src/lib.rs"]),
        strings(&["review", "refactor", "deploy"]),
        &strings(&["first", "second"]),
    )
}

fn key(k: Key) -> PickerEvent {
    PickerEvent::Key { key: k, modifiers: KeyModifiers::Plain, release: false }
}

fn press(s: &mut PickerState, k: Key) -> Option<PickerResult> {
    s.handle_event(&key(k))
}

fn type_str(s: &mut PickerState, text: &str) {
    for c in text.chars() {
        assert!(press(s, Key::Char(c)).is_none());
    }
}

fn submitted(r: Option<PickerResult>) -> String {
    match r {
        Some(PickerResult::Submit(line)) => line,
        other => panic!("expected a submitted line, got {other:?}"),
    }
}

#[test]
fn typing_and_submitting() {
    let mut s = state();
    type_str(&mut s, "hello world");
    assert_eq!(s.buffer_str(), "hello world");
    assert_eq!(s.cursor(), 11);
    assert_eq!(submitted(press(&mut s, Key::Enter)), "hello world");
}

#[test]
fn editing_keys() {
    let mut s = state();
    type_str(&mut s, "abcd");
    press(&mut s, Key::Left);
    press(&mut s, Key::Left);
    press(&mut s, Key::Backspace);
    assert_eq!(s.buffer_str(), "acd");
    assert_eq!(s.cursor(), 1);
    press(&mut s, Key::Delete);
    assert_eq!(s.buffer_str(), "ad");
    press(&mut s, Key::Home);
    assert_eq!(s.cursor(), 0);
    press(&mut s, Key::Backspace);
    assert_eq!(s.buffer_str(), "ad");
    press(&mut s, Key::End);
    assert_eq!(s.cursor(), 2);
    press(&mut s, Key::Right);
    assert_eq!(s.cursor(), 2);
}

#[test]
fn word_motion() {
    let mut s = state();
    type_str(&mut s, "one two three");
    s.word_left();
    assert_eq!(s.cursor(), 8);
    s.cursor_left();
    s.word_left();
    assert_eq!(s.cursor(), 4);
    s.cursor_home();
    s.word_right();
    assert_eq!(s.cursor(), 4);
    s.word_right();
    assert_eq!(s.cursor(), 8);
    s.word_right();
    assert_eq!(s.cursor(), 13);
}

#[test]
fn history_navigation() {
    let mut s = state();
    press(&mut s, Key::Up);
    assert_eq!(s.buffer_str(), "second");
    press(&mut s, Key::Up);
    assert_eq!(s.buffer_str(), "first");
    press(&mut s, Key::Up);
    assert_eq!(s.buffer_str(), "first");
    press(&mut s, Key::Down);
    assert_eq!(s.buffer_str(), "second");
    assert_eq!(s.cursor(), 6);
    press(&mut s, Key::Down);
    assert_eq!(s.buffer_str(), "");
    assert_eq!(s.cursor(), 0);
    // a non-empty buffer outside the history does not enter it
    type_str(&mut s, "x");
    press(&mut s, Key::Up);
    assert_eq!(s.buffer_str(), "x");
}

#[test]
fn submitted_lines_join_history_unless_blank() {
    let mut s = state();
    type_str(&mut s, "third");
    submitted(s.handle_event(&PickerEvent::Key {
        key: Key::Enter,
        modifiers: KeyModifiers::Control,
        release: false,
    }));
    for _ in 0..5 {
        press(&mut s, Key::Backspace);
    }
    press(&mut s, Key::Up);
    assert_eq!(s.buffer_str(), "third");

    let mut t = state();
    type_str(&mut t, "   ");
    assert_eq!(submitted(press(&mut t, Key::Enter)), "   ");
    for _ in 0..3 {
        press(&mut t, Key::Backspace);
    }
    press(&mut t, Key::Up);
    assert_eq!(t.buffer_str(), "second");
}

#[test]
fn shift_enter_inserts_a_line_break() {
    let mut s = state();
    type_str(&mut s, "a");
    let r = s.handle_event(&PickerEvent::Key {
        key: Key::Enter,
        modifiers: KeyModifiers::Shift,
        release: false,
    });
    assert!(r.is_none());
    assert_eq!(s.buffer_str(), "a\n");
}

#[test]
fn slash_picker_filters_and_applies() {
    let mut s = state();
    press(&mut s, Key::Char('/'));
    assert!(s.in_picker());
    // all commands, sorted by name ("/Cost" sorts before lower case)
    assert_eq!(s.picker_selected_item(), Some("/Cost".to_string()));
    type_str(&mut s, "c");
    // "/Cost", "/clear", "/compact" contain "c" ignoring case
    assert_eq!(s.picker_selected_item(), Some("/Cost".to_string()));
    press(&mut s, Key::Down);
    assert_eq!(s.picker_selected_item(), Some("/clear".to_string()));
    press(&mut s, Key::Up);
    press(&mut s, Key::Up);
    assert_eq!(s.picker_selected_item(), Some("/compact".to_string()));
    type_str(&mut s, "om");
    assert_eq!(s.picker_selected_item(), Some("/compact".to_string()));
    press(&mut s, Key::Enter);
    assert!(!s.in_picker());
    assert_eq!(s.buffer_str(), "/compact");
    assert_eq!(s.cursor(), 8);
}

#[test]
fn slash_picker_without_matches_stays_open() {
    let mut s = state();
    press(&mut s, Key::Char('/'));
    type_str(&mut s, "zzz");
    assert_eq!(s.picker_selected_item(), None);
    press(&mut s, Key::Enter);
    assert!(s.in_picker());
    assert_eq!(build_display(&s), ("/zzz".chars().collect(), 4));
}

#[test]
fn escape_from_picker_keeps_typed_text() {
    let mut s = state();
    press(&mut s, Key::Char('/'));
    type_str(&mut s, "he");
    press(&mut s, Key::Esc);
    assert!(!s.in_picker());
    assert_eq!(s.buffer_str(), "/he");
    assert_eq!(s.cursor(), 3);
}

#[test]
fn backspace_on_empty_filter_closes_picker() {
    let mut s = state();
    press(&mut s, Key::Char('/'));
    assert!(s.in_picker());
    press(&mut s, Key::Backspace);
    assert!(!s.in_picker());
    assert_eq!(s.buffer_str(), "");
    assert_eq!(s.cursor(), 0);
}

#[test]
fn backspace_in_filter_widens_matches() {
    let mut s = state();
    press(&mut s, Key::Char('/'));
    type_str(&mut s, "hx");
    assert_eq!(s.picker_selected_item(), None);
    press(&mut s, Key::Backspace);
    assert_eq!(s.picker_selected_item(), Some("/help".to_string()));
}

#[test]
fn mention_picker_completes_with_a_space() {
    let mut s = state();
    type_str(&mut s, "see ");
    press(&mut s, Key::Char('@'));
    assert!(s.in_picker());
    type_str(&mut s, "src");
    // prefix "src" after re-filtering by substring: both source files
    assert_eq!(s.picker_selected_item(), Some("src/lib.rs".to_string()));
    press(&mut s, Key::Tab);
    assert!(!s.in_picker());
    assert_eq!(s.buffer_str(), "see @src/lib.rs ");
    assert_eq!(s.cursor(), 16);
}

#[test]
fn enter_opens_mention_picker_on_trailing_word() {
    let mut s = state();
    type_str(&mut s, "look at @READ");
    // the first '@' opened the picker; leave it to type on
    press(&mut s, Key::Esc);
    assert!(!s.in_picker());
    assert_eq!(s.buffer_str(), "look at @READ");
    assert!(press(&mut s, Key::Enter).is_none());
    assert!(s.in_picker());
    assert_eq!(s.picker_selected_item(), Some("README.md".to_string()));
    press(&mut s, Key::Enter);
    assert_eq!(s.buffer_str(), "look at @README.md ");
}

#[test]
fn skill_picker_by_prefix() {
    let mut s = state();
    press(&mut s, Key::Char('$'));
    assert!(s.in_picker());
    assert_eq!(s.picker_selected_item(), Some("deploy".to_string()));
    press(&mut s, Key::Esc);
    type_str(&mut s, "re");
    assert!(press(&mut s, Key::Enter).is_none());
    assert!(s.in_picker());
    assert_eq!(s.picker_selected_item(), Some("refactor".to_string()));
    press(&mut s, Key::Down);
    assert_eq!(s.picker_selected_item(), Some("review".to_string()));
    press(&mut s, Key::Down);
    assert_eq!(s.picker_selected_item(), Some("refactor".to_string()));
}

#[test]
fn tab_chooses_picker_by_context() {
    let mut s = state();
    press(&mut s, Key::Tab);
    assert!(s.in_picker());
    assert_eq!(s.picker_selected_item(), Some("/Cost".to_string()));
}

#[test]
fn control_keys_end_editing() {
    let mut s = state();
    type_str(&mut s, "abc");
    let ctrl_c = PickerEvent::Key {
        key: Key::Char('c'),
        modifiers: KeyModifiers::Control,
        release: false,
    };
    assert!(matches!(s.handle_event(&ctrl_c), Some(PickerResult::Exit)));
    assert_eq!(s.buffer_str(), "abc");
    assert!(matches!(press(&mut s, Key::Esc), Some(PickerResult::Cancel)));
    press(&mut s, Key::Char('/'));
    let ctrl_d = PickerEvent::Key {
        key: Key::Char('d'),
        modifiers: KeyModifiers::Control,
        release: false,
    };
    assert!(matches!(s.handle_event(&ctrl_d), Some(PickerResult::Exit)));
}

#[test]
fn releases_and_other_events_are_ignored() {
    let mut s = state();
    let release = PickerEvent::Key { key: Key::Char('x'), modifiers: KeyModifiers::Plain, release: true };
    assert!(s.handle_event(&release).is_none());
    assert!(s.handle_event(&PickerEvent::Other).is_none());
    assert_eq!(s.buffer_str(), "");
}

#[test]
fn paste_inserts_text_or_filters() {
    let mut s = state();
    assert!(s.handle_event(&PickerEvent::Paste("ab\ncd".to_string())).is_none());
    assert_eq!(s.buffer_str(), "ab\ncd");
    let mut t = state();
    press(&mut t, Key::Char('/'));
    t.handle_event(&PickerEvent::Paste("cl\nea".to_string()));
    assert_eq!(build_display(&t), ("/clea".chars().collect(), 5));
    assert_eq!(t.picker_selected_item(), Some("/clear".to_string()));
}

#[test]
fn insert_then_backspace_restores_buffer() {
    let mut s = state();
    type_str(&mut s, "abc");
    press(&mut s, Key::Left);
    s.insert_char('x');
    assert_eq!(s.buffer_str(), "abxc");
    s.delete_before();
    assert_eq!(s.buffer_str(), "abc");
    assert_eq!(s.cursor(), 2);
}

#[test]
fn picker_up_then_down_returns_to_the_same_item() {
    let mut s = state();
    press(&mut s, Key::Char('/'));
    press(&mut s, Key::Down);
    let before = s.picker_selected_item();
    press(&mut s, Key::Up);
    press(&mut s, Key::Down);
    assert_eq!(s.picker_selected_item(), before);
    press(&mut s, Key::Down);
    press(&mut s, Key::Up);
    assert_eq!(s.picker_selected_item(), before);
}

#[test]
fn listing_shows_names_in_order_with_the_query() {
    let mut s = state();
    assert!(s.picker_listing().is_none());
    press(&mut s, Key::Char('/'));
    type_str(&mut s, "C");
    let (names, selected, query) = s.picker_listing().unwrap();
    assert_eq!(names, vec!["/Cost".to_string(), "/clear".to_string(), "/compact".to_string()]);
    assert_eq!(selected, 0);
    assert_eq!(query, "C");
}

#[test]
fn history_steps_back_and_forth() {
    let history = strings(&["one", "three", "fifteen", "x"]);
    let n = history.len();
    for k in 1..=n {
        let mut s = PickerState::new(vec![], vec![], vec![], &history);
        for _ in 0..k {
            s.enter_history_older();
        }
        assert_eq!(s.buffer_str(), history[n - k]);
        for j in 1..k {
            s.enter_history_newer();
            assert_eq!(s.buffer_str(), history[n - k + j]);
            assert_eq!(s.cursor(), history[n - k + j].chars().count());
        }
        s.enter_history_newer();
        assert_eq!(s.buffer_str(), "");
        assert_eq!(s.cursor(), 0);
        // the history is untouched: stepping back again finds the newest entry
        s.enter_history_older();
        assert_eq!(s.buffer_str(), "x");
    }
}
