//! Input of the multiplexer's client, and its header bar and scrollbar.
use box_cli::terminal::{header, parse_sgr_mouse, scrollbar_thumb, InputAction, InputState};

fn forwarded(actions: &[InputAction]) -> Vec<Vec<u8>> {
    actions
        .iter()
        .filter_map(|a| match a {
            InputAction::Forward(v) => Some(v.clone()),
            _ => None,
        })
        .collect()
}

#[test]
fn plain_input_is_forwarded_in_one_write() {
    let mut st = InputState::new(0x10);
    let acts = st.process(b"ls -la\r", 24, 80, 0);
    assert_eq!(forwarded(&acts), vec![b"ls -la\r".to_vec()]);
    assert!(!st.command_mode);
}

#[test]
fn prefix_key_enters_command_mode_and_keys_are_swallowed() {
    let mut st = InputState::new(0x10);
    let acts = st.process(b"ab\x10cd", 24, 80, 100);
    assert_eq!(forwarded(&acts), vec![b"ab".to_vec()]);
    assert!(st.command_mode);
    assert!(matches!(acts[1], InputAction::Redraw));
}

#[test]
fn command_mode_scrolls_and_escape_leaves() {
    let mut st = InputState::new(0x10);
    st.process(b"\x10", 24, 80, 100);
    st.process(b"\x10\x10", 24, 80, 100);
    assert_eq!(st.scroll_offset, 2);
    st.process(b"\x15", 24, 80, 100);
    assert_eq!(st.scroll_offset, 14);
    st.process(b"\x1b[B", 24, 80, 100);
    assert_eq!(st.scroll_offset, 13);
    st.process(b"\x1b[6~", 24, 80, 100);
    assert_eq!(st.scroll_offset, 1);
    st.process(b"\x04", 24, 80, 100);
    assert_eq!(st.scroll_offset, 0);
    st.process(b"\x1b[5~\x1b[5~\x1b[5~\x1b[5~\x1b[5~\x1b[5~\x1b[5~\x1b[5~\x1b[5~", 24, 80, 100);
    assert_eq!(st.scroll_offset, 100);
    let acts = st.process(b"\x1bx", 24, 80, 100);
    assert!(!st.command_mode);
    assert_eq!(st.scroll_offset, 0);
    assert_eq!(forwarded(&acts), vec![b"x".to_vec()]);
}

#[test]
fn command_mode_detach_and_kill() {
    let mut st = InputState::new(0x10);
    st.process(b"\x10", 24, 80, 0);
    let acts = st.process(b"\x18\x11zz", 24, 80, 0);
    assert!(matches!(acts[0], InputAction::Kill));
    assert!(matches!(acts[1], InputAction::Detach));
    assert_eq!(acts.len(), 2);
}

#[test]
fn split_escape_sequences_wait_for_the_rest() {
    let mut st = InputState::new(0x10);
    let acts = st.process(b"a\x1b[", 24, 80, 0);
    assert_eq!(forwarded(&acts), vec![b"a".to_vec()]);
    let acts = st.process(b"A", 24, 80, 0);
    assert_eq!(forwarded(&acts), vec![b"\x1b[A".to_vec()]);
}

#[test]
fn lone_escape_is_flushed_after_the_timeout() {
    let mut st = InputState::new(0x10);
    assert!(st.process(b"\x1b", 24, 80, 0).is_empty());
    let acts = st.flush_pending(24, 80, 0);
    assert_eq!(forwarded(&acts), vec![b"\x1b".to_vec()]);
    assert!(st.flush_pending(24, 80, 0).is_empty());
}

#[test]
fn wheel_scrolls_and_close_button_detaches() {
    let mut st = InputState::new(0x10);
    st.process(b"\x1b[<64;5;5M", 24, 80, 10);
    assert_eq!(st.scroll_offset, 3);
    st.process(b"\x1b[<64;5;5M\x1b[<64;5;5M\x1b[<64;5;5M", 24, 80, 10);
    assert_eq!(st.scroll_offset, 10);
    st.process(b"\x1b[<65;5;5M", 24, 80, 10);
    assert_eq!(st.scroll_offset, 7);
    let acts = st.process(b"\x1b[<0;79;1Mrest", 24, 80, 10);
    assert_eq!(acts.len(), 1);
    assert!(matches!(acts[0], InputAction::Detach));
}

#[test]
fn scrollbar_click_and_drag_set_the_offset() {
    let mut st = InputState::new(0x10);
    st.process(b"\x1b[<0;80;2M", 11, 80, 100);
    assert_eq!(st.scroll_offset, 100);
    st.process(b"\x1b[<32;80;12M", 11, 80, 100);
    assert_eq!(st.scroll_offset, 0);
    st.process(b"\x1b[<32;80;7M", 11, 80, 100);
    assert_eq!(st.scroll_offset, 50);
    st.process(b"\x1b[<0;80;7m", 11, 80, 100);
    st.process(b"\x1b[<32;80;2M", 11, 80, 100);
    assert_eq!(st.scroll_offset, 50);
}

#[test]
fn sgr_mouse_sequences_parse() {
    let (ev, n) = parse_sgr_mouse(b"xx\x1b[<0;12;3M", 2).unwrap();
    assert_eq!((ev.button, ev.col, ev.row, ev.pressed, n), (0, 12, 3, true, 10));
    assert!(parse_sgr_mouse(b"\x1b[<0;12M", 0).is_none());
    assert!(parse_sgr_mouse(b"\x1b[<0;1;2;3M", 0).is_none());
    assert!(parse_sgr_mouse(b"\x1b[<0;1;2", 0).is_none());
    let (ev, _) = parse_sgr_mouse(b"\x1b[<65;1;70000m", 0).unwrap();
    assert_eq!((ev.button, ev.row, ev.pressed), (65, 4464, false));
}

#[test]
fn header_pads_between_title_and_close_button() {
    assert_eq!(header(20, "dev", "", 0, 0, false), format!(" dev {}x ", " ".repeat(13)));
    assert_eq!(header(24, "dev", "app", 3, 10, false), format!(" app > dev {} [3/10] x ", " ".repeat(3)));
    assert_eq!(header(10, "dev", "", 0, 0, true), " COMMAND  ^P/^N scroll  ^Q detach  ^X stop  Esc exit x ");
}

#[test]
fn scrollbar_thumb_is_at_the_top_when_fully_scrolled_back() {
    assert_eq!(scrollbar_thumb(0, 10, 0), None);
    assert_eq!(scrollbar_thumb(90, 10, 90), Some((0, 1)));
    assert_eq!(scrollbar_thumb(90, 10, 0), Some((9, 1)));
    assert_eq!(scrollbar_thumb(10, 10, 5), Some((3, 5)));
}
