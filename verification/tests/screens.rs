//! Checklists, the preset menu, the name history, the prefix keys of the
//! standalone multiplexer, the server's size and the sidebar's rows.
use box_cli::prefix::{process_prefix_input, PrefixAction, PrefixState, PREFIX};
use box_cli::screens::{
    checklist_line, history_file, initial_selection, menu_cursor, pick, preset_choice, remember, session_label,
    Checklist, HistoryCursor, ListOutcome, ScreenKey, MAX_HISTORY,
};
use box_cli::server::{apply_client_resize, recalc_size, ClientSize, ResizeReply};
use box_cli::sidebar::{build_sidebar_entries, parse_name, EntryKind, ListedSession, SidebarState};
use box_cli::create::{CreateKey, CreateMode, CreateScreen, CreateStep};
use box_cli::tui::Key;
use box_cli::client::{content_size, handshake, is_sidebar_mouse, routes_to_sidebar, running_changed, Handshake};
use box_cli::protocol::ServerMsg;
use box_cli::server::{append_history, MAX_HISTORY_BYTES};
use std::collections::VecDeque;

fn strings(v: &[&str]) -> Vec<String> {
    v.iter().map(|s| s.to_string()).collect()
}

#[test]
fn checklist_moves_toggles_and_confirms() {
    let mut c = Checklist::new(vec![false, false, false]);
    assert!(matches!(c.key(ScreenKey::Up), ListOutcome::Continue));
    assert_eq!(c.cursor, 0);
    assert!(matches!(c.key(ScreenKey::Enter), ListOutcome::NothingChecked));
    c.key(ScreenKey::Down);
    c.key(ScreenKey::Down);
    c.key(ScreenKey::Down);
    assert_eq!(c.cursor, 2);
    c.key(ScreenKey::Toggle);
    c.key(ScreenKey::Up);
    c.key(ScreenKey::Up);
    c.key(ScreenKey::Toggle);
    assert_eq!(c.checked, vec![true, false, true]);
    match c.key(ScreenKey::Enter) {
        ListOutcome::Confirm(v) => assert_eq!(v, vec![0, 2]),
        other => panic!("unexpected {:?}", other),
    }
    assert!(matches!(c.key(ScreenKey::Esc), ListOutcome::Quit));
    assert!(matches!(c.key(ScreenKey::Interrupt), ListOutcome::Quit));
}

#[test]
fn checklist_toggle_twice_restores() {
    let mut c = Checklist::new(vec![false, true]);
    c.key(ScreenKey::Down);
    c.key(ScreenKey::Toggle);
    assert_eq!(c.checked, vec![false, false]);
    c.key(ScreenKey::Toggle);
    assert_eq!(c.checked, vec![false, true]);
}

#[test]
fn pick_and_initial_selection() {
    let names = strings(&["a", "b", "c"]);
    assert_eq!(pick(&names, &vec![0, 2]), strings(&["a", "c"]));
    assert_eq!(initial_selection(&names, &strings(&["c", "x"])), vec![false, false, true]);
    assert_eq!(initial_selection(&names, &vec![]), vec![true, true, true]);
}

#[test]
fn preset_choice_keeps_registered_repos() {
    let registered = strings(&["a", "b"]);
    assert_eq!(preset_choice(&strings(&["b", "gone", "a"]), &registered).unwrap(), strings(&["b", "a"]));
    assert_eq!(
        preset_choice(&strings(&["gone"]), &registered).unwrap_err(),
        "All repos in this preset have been removed."
    );
}

#[test]
fn menu_cursor_stays_in_menu() {
    assert_eq!(menu_cursor(0, 3, ScreenKey::Up), 0);
    assert_eq!(menu_cursor(1, 3, ScreenKey::Up), 0);
    assert_eq!(menu_cursor(1, 3, ScreenKey::Down), 2);
    assert_eq!(menu_cursor(2, 3, ScreenKey::Down), 2);
    assert_eq!(menu_cursor(1, 3, ScreenKey::Toggle), 1);
}

#[test]
fn lines_and_labels() {
    assert_eq!(checklist_line(true, "api"), " [x] api");
    assert_eq!(checklist_line(false, "api"), " [ ] api");
    assert_eq!(session_label("s1", &vec![]), "s1");
    assert_eq!(session_label("s1", &strings(&["a", "b"])), "s1 (a, b)");
}

#[test]
fn history_browses_and_returns_to_typed_text() {
    let history = strings(&["newest", "older"]);
    let mut h = HistoryCursor::new();
    assert_eq!(h.down(&history), None);
    assert_eq!(h.up(&history, "typed").as_deref(), Some("newest"));
    assert_eq!(h.up(&history, "ignored").as_deref(), Some("older"));
    assert_eq!(h.up(&history, "ignored"), None);
    assert_eq!(h.down(&history).as_deref(), Some("newest"));
    assert_eq!(h.down(&history).as_deref(), Some("typed"));
    assert_eq!(h.index, None);
    assert_eq!(HistoryCursor::new().up(&vec![], "x"), None);
}

#[test]
fn remember_puts_name_first_once() {
    let history = strings(&["a", "b", "a", "c"]);
    assert_eq!(remember(&history, "a"), strings(&["a", "b", "c"]));
    assert_eq!(remember(&history, "z"), strings(&["z", "a", "b", "a", "c"]));
}

#[test]
fn history_file_keeps_the_first_names() {
    assert_eq!(history_file(&strings(&["a", "b"])), "a\nb\n");
    let many: Vec<String> = (0..150).map(|i| format!("n{}", i)).collect();
    let text = history_file(&many);
    assert_eq!(text.lines().count(), MAX_HISTORY);
    assert!(text.starts_with("n0\n"));
    assert!(text.ends_with("n99\n"));
}

fn state() -> PrefixState {
    PrefixState { prefix_active: false, scroll_offset: 0, scrollback_mode: false, show_help: false }
}

fn forwarded(actions: &[PrefixAction]) -> Vec<Vec<u8>> {
    actions
        .iter()
        .filter_map(|a| match a {
            PrefixAction::Forward(v) => Some(v.clone()),
            _ => None,
        })
        .collect()
}

#[test]
fn plain_input_is_forwarded_whole() {
    let mut s = state();
    let actions = process_prefix_input(&mut s, b"ls -la\r", 10, 100);
    assert_eq!(forwarded(&actions), vec![b"ls -la\r".to_vec()]);
    assert_eq!(actions.len(), 1);
    assert_eq!(s, state());
}

#[test]
fn prefix_commands() {
    let mut s = state();
    let actions = process_prefix_input(&mut s, &[PREFIX, PREFIX], 10, 100);
    assert_eq!(forwarded(&actions), vec![vec![PREFIX]]);
    assert_eq!(s, state());

    let mut s = state();
    let actions = process_prefix_input(&mut s, &[b'a', PREFIX, b'd', b'z'], 10, 100);
    assert_eq!(actions.len(), 2);
    assert!(matches!(actions[1], PrefixAction::Detach));

    let mut s = state();
    let actions = process_prefix_input(&mut s, &[PREFIX, b'x'], 10, 100);
    assert!(matches!(actions[0], PrefixAction::Stop));

    let mut s = state();
    process_prefix_input(&mut s, &[PREFIX, b'?'], 10, 100);
    assert!(s.show_help);

    let mut s = state();
    let actions = process_prefix_input(&mut s, &[PREFIX, b'k'], 10, 100);
    assert_eq!(forwarded(&actions), vec![vec![PREFIX, b'k']]);

    let mut s = state();
    process_prefix_input(&mut s, &[PREFIX], 10, 100);
    assert!(s.prefix_active);
    let actions = process_prefix_input(&mut s, b"d", 10, 100);
    assert!(matches!(actions[0], PrefixAction::Detach));
}

#[test]
fn scrollback_mode_scrolls_and_leaves() {
    let mut s = state();
    process_prefix_input(&mut s, &[PREFIX, b'['], 10, 100);
    assert!(s.scrollback_mode);
    process_prefix_input(&mut s, b"\x1b[A\x1b[A\x1b[5~", 10, 100);
    assert_eq!(s.scroll_offset, 12);
    process_prefix_input(&mut s, b"\x1b[6~\x1b[B", 10, 100);
    assert_eq!(s.scroll_offset, 1);
    assert!(s.scrollback_mode);
    process_prefix_input(&mut s, b"\x1b[B", 10, 100);
    assert_eq!(s.scroll_offset, 0);
    assert!(!s.scrollback_mode);

    let mut s = state();
    process_prefix_input(&mut s, &[PREFIX, b'['], 10, 3);
    process_prefix_input(&mut s, b"\x1b[5~\x1b[A", 10, 3);
    assert_eq!(s.scroll_offset, 3);
    process_prefix_input(&mut s, b"q", 10, 3);
    assert_eq!(s.scroll_offset, 0);
    assert!(!s.scrollback_mode);
}

fn client(has_resized: bool, cols: u16, rows: u16) -> ClientSize {
    ClientSize { has_resized, cols, rows }
}

#[test]
fn server_takes_smallest_reported_size() {
    let clients = vec![client(true, 120, 30), client(true, 80, 40), client(false, 10, 10)];
    assert_eq!(recalc_size(&clients, (100, 100)), Some((80, 30)));
    assert_eq!(recalc_size(&clients, (80, 30)), None);
    assert_eq!(recalc_size(&vec![client(false, 10, 10)], (80, 24)), None);
    assert_eq!(recalc_size(&vec![], (80, 24)), None);
}

#[test]
fn session_names_split_at_the_first_slash() {
    assert_eq!(parse_name("ws/feature"), ("ws".to_string(), "feature".to_string()));
    assert_eq!(parse_name("ws/a/b"), ("ws".to_string(), "a/b".to_string()));
    assert_eq!(parse_name("plain"), ("plain".to_string(), "plain".to_string()));
}

fn listed(name: &str, local: bool, running: bool) -> ListedSession {
    ListedSession { name: name.to_string(), local, running }
}

#[test]
fn sidebar_groups_sessions_by_workspace() {
    let sessions = vec![listed("a/one", true, true), listed("a/two", true, false), listed("b/x", false, true)];
    let (entries, selected) = build_sidebar_entries(&sessions, "a/two");
    let kinds: Vec<EntryKind> = entries.iter().map(|e| e.kind).collect();
    assert_eq!(
        kinds,
        vec![EntryKind::WorkspaceHeader, EntryKind::Session, EntryKind::Session, EntryKind::WorkspaceHeader, EntryKind::Session]
    );
    assert_eq!(entries[0].display, "a");
    assert_eq!(entries[1].display, "one");
    assert_eq!(entries[2].full_name, "a/two");
    assert_eq!(entries[3].display, "b");
    assert!(entries[1].running);
    assert!(!entries[4].running);
    assert_eq!(selected, 2);
}

#[test]
fn sidebar_falls_back_to_the_current_session() {
    let (entries, selected) = build_sidebar_entries(&vec![], "ws/me");
    assert_eq!(entries.len(), 2);
    assert_eq!(entries[0].display, "ws");
    assert_eq!(entries[1].full_name, "ws/me");
    assert!(entries[1].running && entries[1].local);
    assert_eq!(selected, 1);
}

#[test]
fn history_is_cut_after_a_newline() {
    let mut h: VecDeque<u8> = VecDeque::new();
    append_history(&mut h, b"hello\n");
    assert_eq!(h.iter().copied().collect::<Vec<u8>>(), b"hello\n".to_vec());

    let mut big = vec![b'a'; MAX_HISTORY_BYTES - 2];
    big.extend_from_slice(b"\nxyz\n");
    let mut h: VecDeque<u8> = VecDeque::new();
    append_history(&mut h, &big);
    // 3 bytes over: the cut goes just after the first newline from there.
    assert_eq!(h.iter().copied().collect::<Vec<u8>>(), b"xyz\n".to_vec());

    let mut h: VecDeque<u8> = VecDeque::new();
    append_history(&mut h, &vec![b'b'; MAX_HISTORY_BYTES + 10]);
    assert_eq!(h.len(), MAX_HISTORY_BYTES);
}

#[test]
fn client_routes_sidebar_input() {
    assert!(is_sidebar_mouse(b"\x1b[<0;5;3M", 20));
    assert!(is_sidebar_mouse(b"\x1b[<0;20;3m", 20));
    assert!(!is_sidebar_mouse(b"\x1b[<0;21;3M", 20));
    assert!(!is_sidebar_mouse(b"\x1b[<0;5M", 20));
    assert!(!is_sidebar_mouse(b"\x1b[A", 20));
    assert!(!is_sidebar_mouse(b"abc", 20));
    let mut s = SidebarState { entries: vec![], selected: 0, new_session_input: None, focused: false };
    assert!(!routes_to_sidebar(&s, b"x", 20));
    assert!(routes_to_sidebar(&s, b"\x1b[<0;2;3M", 20));
    s.new_session_input = Some(String::new());
    assert!(routes_to_sidebar(&s, b"x", 20));
    s.new_session_input = None;
    s.focused = true;
    assert!(routes_to_sidebar(&s, b"x", 20));
}

#[test]
fn client_handshake_and_size() {
    assert_eq!(handshake(Some(&ServerMsg::Resized { cols: 100, rows: 30 }), 80, 24), Handshake::Size(100, 30));
    assert_eq!(handshake(Some(&ServerMsg::Exited(3)), 80, 24), Handshake::Exit(3));
    assert_eq!(handshake(Some(&ServerMsg::Output(vec![])), 80, 24), Handshake::Size(80, 24));
    assert_eq!(handshake(None, 80, 24), Handshake::Failed);
    assert_eq!(content_size(100, 30, 20), Some((80, 30)));
    assert_eq!(content_size(20, 30, 20), None);
    assert_eq!(content_size(100, 0, 20), None);
}

#[test]
fn client_refreshes_on_running_changes() {
    let (a, _) = build_sidebar_entries(&vec![listed("w/a", true, true)], "w/a");
    let (b, _) = build_sidebar_entries(&vec![listed("w/a", true, false)], "w/a");
    let (c, _) = build_sidebar_entries(&vec![listed("w/a", true, true)], "w/a");
    assert!(running_changed(&a, &b));
    assert!(!running_changed(&a, &c));
}

fn text_keys(s: &mut CreateScreen, text: &str, repos: &Vec<String>, presets: &Vec<Vec<String>>, history: &Vec<String>) {
    for c in text.chars() {
        assert!(matches!(s.key(CreateKey::Text(Key::Char(c)), repos, presets, history), CreateStep::Continue));
    }
}

#[test]
fn create_screen_custom_selection_then_name() {
    let repos = strings(&["a", "b", "c"]);
    let presets = vec![strings(&["a"])];
    let history = strings(&["old"]);
    let mut s = CreateScreen::new(&repos, presets.len(), &vec![]);
    assert_eq!(s.mode, CreateMode::PresetSelect);
    s.key(CreateKey::Down, &repos, &presets, &history);
    s.key(CreateKey::Down, &repos, &presets, &history);
    assert_eq!(s.menu, 1);
    assert!(matches!(s.key(CreateKey::Enter, &repos, &presets, &history), CreateStep::Continue));
    assert_eq!(s.mode, CreateMode::RepoSelect);
    assert_eq!(s.list.checked, vec![true, true, true]);
    s.key(CreateKey::Text(Key::Char(' ')), &repos, &presets, &history);
    match s.key(CreateKey::Enter, &repos, &presets, &history) {
        CreateStep::Chosen(v) => assert_eq!(v, strings(&["b", "c"])),
        other => panic!("unexpected {:?}", other),
    }
    assert_eq!(s.mode, CreateMode::Name);
    text_keys(&mut s, " taken ", &repos, &presets, &history);
    match s.key(CreateKey::Enter, &repos, &presets, &history) {
        CreateStep::CheckName(n) => assert_eq!(n, "taken"),
        other => panic!("unexpected {:?}", other),
    }
    assert_eq!(s.name_checked("taken", true, &history), None);
    assert_eq!(s.footer.as_deref(), Some("Session 'taken' already exists."));
    assert_eq!(s.input.text, "");
    assert!(matches!(s.key(CreateKey::Interrupt, &repos, &presets, &history), CreateStep::Continue));
    assert_eq!(s.footer, None);
    text_keys(&mut s, "fresh", &repos, &presets, &history);
    match s.key(CreateKey::Enter, &repos, &presets, &history) {
        CreateStep::CheckName(n) => assert_eq!(n, "fresh"),
        other => panic!("unexpected {:?}", other),
    }
    assert_eq!(s.name_checked("fresh", false, &history), Some(strings(&["fresh", "old"])));
    assert_eq!(s.chosen, strings(&["b", "c"]));
}

#[test]
fn create_screen_presets_and_refusals() {
    let repos = strings(&["a", "b"]);
    let presets = vec![strings(&["gone"]), strings(&["b", "gone", "a"])];
    let history: Vec<String> = vec![];
    let mut s = CreateScreen::new(&repos, presets.len(), &strings(&["b"]));
    assert_eq!(s.list.checked, vec![false, true]);
    s.key(CreateKey::Enter, &repos, &presets, &history);
    assert_eq!(s.footer.as_deref(), Some("All repos in this preset have been removed."));
    s.key(CreateKey::Esc, &repos, &presets, &history);
    assert_eq!(s.footer, None);
    s.key(CreateKey::Down, &repos, &presets, &history);
    match s.key(CreateKey::Enter, &repos, &presets, &history) {
        CreateStep::Chosen(v) => assert_eq!(v, strings(&["b", "a"])),
        other => panic!("unexpected {:?}", other),
    }
    text_keys(&mut s, "a/b", &repos, &presets, &history);
    s.key(CreateKey::Enter, &repos, &presets, &history);
    assert_eq!(s.footer.as_deref(), Some("Invalid session name 'a/b'. The '/' character is not allowed."));
    assert!(matches!(s.key(CreateKey::Esc, &repos, &presets, &history), CreateStep::Continue));
    assert!(matches!(s.key(CreateKey::Esc, &repos, &presets, &history), CreateStep::Quit));
}

#[test]
fn create_screen_without_presets_requires_a_repo() {
    let repos = strings(&["a"]);
    let presets: Vec<Vec<String>> = vec![];
    let history: Vec<String> = vec![];
    let mut s = CreateScreen::new(&repos, 0, &strings(&["x"]));
    assert_eq!(s.mode, CreateMode::RepoSelect);
    s.key(CreateKey::Enter, &repos, &presets, &history);
    assert_eq!(s.footer.as_deref(), Some("At least one repo must be selected."));
    assert!(matches!(s.key(CreateKey::Interrupt, &repos, &presets, &history), CreateStep::Continue));
    assert!(matches!(s.key(CreateKey::Interrupt, &repos, &presets, &history), CreateStep::Quit));
}

#[test]
fn create_screen_browses_name_history() {
    let repos = strings(&["a"]);
    let presets: Vec<Vec<String>> = vec![];
    let history = strings(&["newest", "older"]);
    let mut s = CreateScreen::new(&repos, 0, &vec![]);
    s.key(CreateKey::Enter, &repos, &presets, &history);
    assert_eq!(s.mode, CreateMode::Name);
    text_keys(&mut s, "typ", &repos, &presets, &history);
    s.key(CreateKey::Up, &repos, &presets, &history);
    assert_eq!(s.input.text, "newest");
    s.key(CreateKey::Up, &repos, &presets, &history);
    assert_eq!(s.input.text, "older");
    s.key(CreateKey::Text(Key::Backspace), &repos, &presets, &history);
    assert_eq!(s.input.text, "olde");
    s.key(CreateKey::Down, &repos, &presets, &history);
    assert_eq!(s.input.text, "newest");
    s.key(CreateKey::Down, &repos, &presets, &history);
    assert_eq!(s.input.text, "typ");
    assert_eq!(s.input.cursor, 3);
}

#[test]
fn server_records_client_sizes() {
    let mut c = client(false, 0, 0);
    assert_eq!(apply_client_resize(&mut c, 0, 10), ResizeReply::Ignored);
    assert_eq!(c, client(false, 0, 0));
    assert_eq!(apply_client_resize(&mut c, 80, 24), ResizeReply::First);
    assert_eq!(c, client(true, 80, 24));
    assert_eq!(apply_client_resize(&mut c, 100, 30), ResizeReply::Again);
    assert_eq!(c, client(true, 100, 30));
}

#[test]
fn creating_needs_a_registered_repo() {
    let err = CreateScreen::open(&vec![], 2, &vec![]).err().unwrap();
    assert_eq!(err, "No repos registered. Run `box repo add <path>` first.");
    let screen = CreateScreen::open(&vec!["app".to_string()], 0, &vec![]).ok().unwrap();
    assert_eq!(screen.mode, CreateMode::RepoSelect);
}
