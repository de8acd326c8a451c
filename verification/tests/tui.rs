//! The text field of the interactive screens.
use box_cli::tui::{Key, TextInput};

#[test]
fn test_text_input_insert() {
    let mut input = TextInput::new();
    input.handle_key(Key::Char('a'));
    input.handle_key(Key::Char('b'));
    input.handle_key(Key::Char('c'));
    assert_eq!(input.text, "abc");
    assert_eq!(input.cursor, 3);
}

#[test]
fn test_text_input_backspace() {
    let mut input = TextInput::new();
    input.handle_key(Key::Char('a'));
    input.handle_key(Key::Char('b'));
    input.handle_key(Key::Backspace);
    assert_eq!(input.text, "a");
    assert_eq!(input.cursor, 1);
}

#[test]
fn test_text_input_backspace_at_start() {
    let mut input = TextInput::new();
    input.handle_key(Key::Backspace);
    assert_eq!(input.text, "");
    assert_eq!(input.cursor, 0);
}

#[test]
fn test_text_input_delete() {
    let mut input = TextInput::new();
    input.handle_key(Key::Char('a'));
    input.handle_key(Key::Char('b'));
    input.handle_key(Key::Left);
    input.handle_key(Key::Delete);
    assert_eq!(input.text, "a");
    assert_eq!(input.cursor, 1);
}

#[test]
fn test_text_input_delete_at_end() {
    let mut input = TextInput::new();
    input.handle_key(Key::Char('a'));
    input.handle_key(Key::Delete);
    assert_eq!(input.text, "a");
    assert_eq!(input.cursor, 1);
}

#[test]
fn test_text_input_cursor_movement() {
    let mut input = TextInput::new();
    input.handle_key(Key::Char('a'));
    input.handle_key(Key::Char('b'));
    input.handle_key(Key::Char('c'));
    input.handle_key(Key::Left);
    input.handle_key(Key::Left);
    assert_eq!(input.cursor, 1);
    input.handle_key(Key::Right);
    assert_eq!(input.cursor, 2);
}

#[test]
fn test_text_input_left_at_start() {
    let mut input = TextInput::new();
    input.handle_key(Key::Char('a'));
    input.handle_key(Key::Left);
    input.handle_key(Key::Left);
    assert_eq!(input.cursor, 0);
}

#[test]
fn test_text_input_right_at_end() {
    let mut input = TextInput::new();
    input.handle_key(Key::Char('a'));
    input.handle_key(Key::Right);
    assert_eq!(input.cursor, 1);
}

#[test]
fn test_text_input_insert_at_cursor() {
    let mut input = TextInput::new();
    input.handle_key(Key::Char('a'));
    input.handle_key(Key::Char('c'));
    input.handle_key(Key::Left);
    input.handle_key(Key::Char('b'));
    assert_eq!(input.text, "abc");
    assert_eq!(input.cursor, 2);
}

#[test]
fn cursor_counts_bytes_of_wide_characters() {
    let mut input = TextInput::with_text("né".to_string());
    assert_eq!(input.cursor, 3);
    input.handle_key(Key::Left);
    assert_eq!(input.cursor, 1);
    input.handle_key(Key::Char('日'));
    assert_eq!(input.text, "n日é");
    assert_eq!(input.cursor, 4);
    input.handle_key(Key::Backspace);
    assert_eq!(input.text, "né");
    assert_eq!(input.cursor, 1);
    input.handle_key(Key::Other);
    assert_eq!(input.cursor, 1);
}

#[test]
fn left_then_right_returns_and_the_ends_hold() {
    let mut input = TextInput::new();
    for c in "aé€".chars() {
        input.handle_key(Key::Char(c));
    }
    assert_eq!(input.cursor, 6);
    input.handle_key(Key::Left);
    assert_eq!(input.cursor, 3);
    input.handle_key(Key::Right);
    assert_eq!(input.cursor, 6);
    input.handle_key(Key::Delete);
    assert_eq!(input.text, "aé€");
    input.handle_key(Key::Right);
    assert_eq!(input.cursor, 6);
    for _ in 0..3 {
        input.handle_key(Key::Left);
    }
    assert_eq!(input.cursor, 0);
    input.handle_key(Key::Backspace);
    assert_eq!(input.text, "aé€");
    assert_eq!(input.cursor, 0);
}
