//! The session sidebar: width, selection and input.
use box_cli::sidebar::{
    process_sidebar_input, sidebar_move_down, sidebar_move_up, sidebar_width, EntryKind, SidebarAction, SidebarEntry,
    SidebarState,
};

fn header(ws: &str) -> SidebarEntry {
    SidebarEntry { kind: EntryKind::WorkspaceHeader, display: ws.to_string(), full_name: String::new(), running: false, local: false }
}

fn session(name: &str, full: &str, running: bool) -> SidebarEntry {
    SidebarEntry { kind: EntryKind::Session, display: name.to_string(), full_name: full.to_string(), running, local: false }
}

fn state() -> SidebarState {
    SidebarState {
        entries: vec![
            header("alpha"),
            session("one", "alpha/one", true),
            session("two", "alpha/two", false),
            header("beta"),
            session("three", "beta/three", true),
        ],
        selected: 1,
        new_session_input: None,
        focused: true,
    }
}

#[test]
fn width_is_clamped() {
    assert_eq!(sidebar_width(&vec![]), 20);
    assert_eq!(sidebar_width(&state().entries), 20);
    let long = vec![session("a-very-long-session-name-here", "x/y", true)];
    assert_eq!(sidebar_width(&long), 30);
    let mid = vec![session("twenty-chars-name", "x/y", true)];
    assert_eq!(sidebar_width(&mid), 22);
}

#[test]
fn moving_skips_headers_and_wraps() {
    let mut s = state();
    assert!(sidebar_move_down(&mut s));
    assert_eq!(s.selected, 2);
    assert!(sidebar_move_down(&mut s));
    assert_eq!(s.selected, 4);
    assert!(sidebar_move_down(&mut s));
    assert_eq!(s.selected, 1);
    assert!(sidebar_move_up(&mut s));
    assert_eq!(s.selected, 4);
    let mut lone = SidebarState { entries: vec![session("x", "w/x", true)], selected: 0, new_session_input: None, focused: true };
    assert!(!sidebar_move_down(&mut lone));
    assert_eq!(lone.selected, 0);
}

#[test]
fn keys_navigate_and_enter_switches() {
    let mut s = state();
    assert!(matches!(process_sidebar_input(b"jj", &mut s, "alpha/one", 20), SidebarAction::Redraw));
    assert_eq!(s.selected, 4);
    match process_sidebar_input(b"\r", &mut s, "alpha/one", 20) {
        SidebarAction::Switch { name, keep_sidebar } => {
            assert_eq!(name, "beta/three");
            assert!(keep_sidebar);
        }
        other => panic!("expected a switch, got {:?}", other),
    }
    assert!(!s.focused);
}

#[test]
fn enter_on_a_stopped_session_unfocuses() {
    let mut s = state();
    s.selected = 2;
    assert!(matches!(process_sidebar_input(b"\n", &mut s, "alpha/one", 20), SidebarAction::Unfocus));
}

#[test]
fn x_deletes_and_escape_unfocuses() {
    let mut s = state();
    match process_sidebar_input(b"kx", &mut s, "alpha/one", 20) {
        SidebarAction::DeleteSession(name) => assert_eq!(name, "beta/three"),
        other => panic!("expected a delete, got {:?}", other),
    }
    let mut s = state();
    assert!(matches!(process_sidebar_input(b"\x1b", &mut s, "alpha/one", 20), SidebarAction::Unfocus));
    assert!(!s.focused);
    let mut s = state();
    assert!(matches!(process_sidebar_input(b"?", &mut s, "alpha/one", 20), SidebarAction::Idle));
}

#[test]
fn clicks_switch_delete_or_open_the_command_line() {
    let mut s = state();
    match process_sidebar_input(b"\x1b[<0;5;5M", &mut s, "alpha/one", 20) {
        SidebarAction::Switch { name, keep_sidebar } => {
            assert_eq!(name, "beta/three");
            assert!(!keep_sidebar);
        }
        other => panic!("expected a switch, got {:?}", other),
    }
    assert_eq!(s.selected, 4);
    let mut s = state();
    match process_sidebar_input(b"\x1b[<0;19;3M", &mut s, "alpha/one", 20) {
        SidebarAction::DeleteSession(name) => assert_eq!(name, "alpha/two"),
        other => panic!("expected a delete, got {:?}", other),
    }
    let mut s = state();
    assert!(matches!(process_sidebar_input(b"\x1b[<0;19;1M", &mut s, "alpha/one", 20), SidebarAction::Redraw));
    assert_eq!(s.new_session_input.as_deref(), Some(""));
    let mut s = state();
    assert!(matches!(process_sidebar_input(b"\x1b[<0;5;2M", &mut s, "alpha/one", 20), SidebarAction::Idle));
}

#[test]
fn typing_a_new_session_command() {
    let mut s = state();
    s.new_session_input = Some(String::new());
    assert!(matches!(process_sidebar_input(b"vimx\x7f", &mut s, "alpha/one", 20), SidebarAction::Redraw));
    assert_eq!(s.new_session_input.as_deref(), Some("vim"));
    match process_sidebar_input(b"\x1b[<64;1;1M\r", &mut s, "alpha/one", 20) {
        SidebarAction::NewSession(cmd) => assert_eq!(cmd, "vim"),
        other => panic!("expected a new session, got {:?}", other),
    }
    assert!(s.new_session_input.is_none());
    let mut s = state();
    s.new_session_input = Some("abc".to_string());
    assert!(matches!(process_sidebar_input(b"\x15\r", &mut s, "alpha/one", 20), SidebarAction::Redraw));
    assert!(s.new_session_input.is_none());
}

#[test]
fn an_empty_sidebar_takes_a_typed_command() {
    let mut s = SidebarState { entries: vec![], selected: 0, new_session_input: Some(String::new()), focused: true };
    match process_sidebar_input(b"ls\r", &mut s, "main", 20) {
        SidebarAction::NewSession(cmd) => assert_eq!(cmd, "ls"),
        other => panic!("expected a new session, got {:?}", other),
    }
    assert!(s.new_session_input.is_none());
    assert!(s.focused);
    assert_eq!(s.selected, 0);
}

#[test]
fn a_stale_selection_is_moved_back_onto_a_row() {
    let mut s = state();
    s.selected = 7;
    assert!(matches!(process_sidebar_input(b"j", &mut s, "alpha/one", 20), SidebarAction::Redraw));
    assert_eq!(s.selected, 4);
    let mut s = state();
    s.selected = 7;
    assert!(sidebar_move_up(&mut s));
    assert_eq!(s.selected, 1);
    let mut empty = SidebarState { entries: vec![], selected: 3, new_session_input: None, focused: true };
    assert!(!sidebar_move_down(&mut empty));
    assert!(!sidebar_move_up(&mut empty));
    assert_eq!(empty.selected, 3);
}

#[test]
fn moving_up_after_down_returns_to_the_row() {
    for start in [1usize, 2, 4] {
        let mut s = state();
        s.selected = start;
        sidebar_move_down(&mut s);
        sidebar_move_up(&mut s);
        assert_eq!(s.selected, start);
    }
}
