//! The session sidebar of the multiplexer's client: its width, moving the
//! selection, and what keys and clicks do while it has the focus.
use vstd::prelude::*;
use crate::terminal::{byte_len, is_digit_byte, sgr_from, SgrMouseEvent};

verus! {

/// What a row of the sidebar shows.
#[derive(Debug, Clone, Copy, PartialEq, Eq, Structural)]
pub enum EntryKind {
    /// The header of a workspace.
    WorkspaceHeader,
    /// A session of that workspace.
    Session,
}

/// A row of the sidebar.
#[derive(Debug)]
pub struct SidebarEntry {
    pub kind: EntryKind,
    /// The workspace name for a header, the session name for a session.
    pub display: String,
    /// The full session name (`workspace/session`); empty for headers.
    pub full_name: String,
    pub running: bool,
    pub local: bool,
}

/// The sidebar: its rows, the selected row, the command being typed for
/// a new session (while one is), and whether keys go to the sidebar.
#[derive(Debug)]
pub struct SidebarState {
    pub entries: Vec<SidebarEntry>,
    pub selected: usize,
    pub new_session_input: Option<String>,
    pub focused: bool,
}

/// A row as the contracts see it.
pub struct EntryModel {
    pub kind: EntryKind,
    pub display: Seq<char>,
    pub full_name: Seq<char>,
    pub running: bool,
    pub local: bool,
}

/// The sidebar as the contracts see it.
pub struct SidebarModel {
    pub entries: Seq<EntryModel>,
    pub selected: usize,
    pub input: Option<Seq<char>>,
    pub focused: bool,
}

pub open spec fn entry_view(e: SidebarEntry) -> EntryModel {
    EntryModel { kind: e.kind, display: e.display@, full_name: e.full_name@, running: e.running, local: e.local }
}

pub open spec fn sidebar_view(s: SidebarState) -> SidebarModel {
    SidebarModel {
        entries: s.entries@.map_values(|e: SidebarEntry| entry_view(e)),
        selected: s.selected,
        input: match s.new_session_input {
            Some(t) => Some(t@),
            None => None,
        },
        focused: s.focused,
    }
}

/// What the sidebar asks for.
#[derive(Debug)]
pub enum SidebarAction {
    /// Switch to a session; `keep_sidebar` keeps the sidebar open.
    Switch { name: String, keep_sidebar: bool },
    /// Create a session running this command.
    NewSession(String),
    /// Delete a session.
    DeleteSession(String),
    /// Give the focus back to the main pane.
    Unfocus,
    /// Draw again.
    Redraw,
    /// Nothing to do.
    Idle,
}

/// An action as the contracts see it.
pub enum ActionModel {
    Switch(Seq<char>, bool),
    NewSession(Seq<char>),
    DeleteSession(Seq<char>),
    Unfocus,
    Redraw,
    Idle,
}

pub open spec fn action_view(a: SidebarAction) -> ActionModel {
    match a {
        SidebarAction::Switch { name, keep_sidebar } => ActionModel::Switch(name@, keep_sidebar),
        SidebarAction::NewSession(c) => ActionModel::NewSession(c@),
        SidebarAction::DeleteSession(n) => ActionModel::DeleteSession(n@),
        SidebarAction::Unfocus => ActionModel::Unfocus,
        SidebarAction::Redraw => ActionModel::Redraw,
        SidebarAction::Idle => ActionModel::Idle,
    }
}

// ---------------------------------------------------------------------------
// Width
// ---------------------------------------------------------------------------

/// The width a row needs: a header ` ws`, a session `   name` (in bytes).
pub open spec fn row_width(e: EntryModel) -> int {
    match e.kind {
        EntryKind::WorkspaceHeader => byte_len(e.display) + 1int,
        EntryKind::Session => byte_len(e.display) + 3int,
    }
}

/// The widest row of `es` (8 when there is none).
pub open spec fn widest(es: Seq<EntryModel>) -> int
    decreases es.len(),
{
    if es.len() == 0 {
        8
    } else if es.len() == 1 {
        row_width(es[0])
    } else {
        let w = widest(es.drop_last());
        let x = row_width(es.last());
        if x > w { x } else { w }
    }
}

/// The sidebar's width: its widest row plus two, kept between 20 and 30.
pub open spec fn width_of(es: Seq<EntryModel>) -> int {
    let w = widest(es) + 2;
    if w < 20 {
        20
    } else if w > 30 {
        30
    } else {
        w
    }
}

fn row_width_capped(e: &SidebarEntry) -> (r: usize)
    ensures
        r as int == if row_width(entry_view(*e)) <= usize::MAX { row_width(entry_view(*e)) } else { usize::MAX as int },
{
    let b = crate::terminal::byte_len_of(e.display.as_str());
    let extra: usize = match e.kind {
        EntryKind::WorkspaceHeader => 1,
        EntryKind::Session => 3,
    };
    if b > usize::MAX - extra {
        usize::MAX
    } else {
        b + extra
    }
}

/// Computes the sidebar's width (see [`width_of`]).
pub fn sidebar_width(entries: &Vec<SidebarEntry>) -> (r: u16)
    ensures
        r as int == width_of(entries@.map_values(|e: SidebarEntry| entry_view(e))),
{
    let ghost es = entries@.map_values(|e: SidebarEntry| entry_view(e));
    let mut w: usize = 8;
    let mut i: usize = 0;
    while i < entries.len()
        invariant
            i <= entries@.len(),
            es == entries@.map_values(|e: SidebarEntry| entry_view(e)),
            w as int == if widest(es.subrange(0, i as int)) <= usize::MAX {
                widest(es.subrange(0, i as int))
            } else {
                usize::MAX as int
            },
        decreases entries@.len() - i,
    {
        let x = row_width_capped(&entries[i]);
        assert(es.subrange(0, i + 1).drop_last() =~= es.subrange(0, i as int));
        assert(es.subrange(0, i + 1).last() == entry_view(entries@[i as int]));
        if i == 0 {
            assert(es.subrange(0, 1)[0] == entry_view(entries@[0]));
            w = x;
        } else if x > w {
            w = x;
        }
        i = i + 1;
    }
    assert(es.subrange(0, i as int) =~= es);
    let r: usize = if w < 18 {
        20
    } else if w > 28 {
        30
    } else {
        w + 2
    };
    r as u16
}

// ---------------------------------------------------------------------------
// Moving the selection
// ---------------------------------------------------------------------------

/// The first session row after `sel` going down (wrapping around),
/// looking `off` and more rows on, and fewer than a full turn.
pub open spec fn scan_down(es: Seq<EntryModel>, sel: int, off: int) -> Option<int>
    decreases es.len() - off,
{
    if off < 1 || off >= es.len() {
        None
    } else {
        let idx = (sel + off) % (es.len() as int);
        if es[idx].kind == EntryKind::Session {
            Some(idx)
        } else {
            scan_down(es, sel, off + 1)
        }
    }
}

/// The first session row before `sel` going up (wrapping around).
pub open spec fn scan_up(es: Seq<EntryModel>, sel: int, off: int) -> Option<int>
    decreases es.len() - off,
{
    if off < 1 || off >= es.len() {
        None
    } else {
        let idx = (sel + es.len() - off) % (es.len() as int);
        if es[idx].kind == EntryKind::Session {
            Some(idx)
        } else {
            scan_up(es, sel, off + 1)
        }
    }
}

/// The selection after moving down: the next session row, or where it was.
pub open spec fn moved_down(m: SidebarModel) -> usize {
    match scan_down(m.entries, m.selected as int, 1) {
        Some(idx) => idx as usize,
        None => m.selected,
    }
}

/// The selection after moving up: the previous session row, or where it was.
pub open spec fn moved_up(m: SidebarModel) -> usize {
    match scan_up(m.entries, m.selected as int, 1) {
        Some(idx) => idx as usize,
        None => m.selected,
    }
}

proof fn lemma_scan_down_in_range(es: Seq<EntryModel>, sel: int, off: int)
    requires
        es.len() > 0,
    ensures
        scan_down(es, sel, off) matches Some(idx) ==> 0 <= idx < es.len() && es[idx].kind == EntryKind::Session,
    decreases es.len() - off,
{
    if 1 <= off < es.len() {
        let idx = (sel + off) % (es.len() as int);
        if es[idx].kind != EntryKind::Session {
            lemma_scan_down_in_range(es, sel, off + 1);
        }
    }
}

proof fn lemma_scan_up_in_range(es: Seq<EntryModel>, sel: int, off: int)
    requires
        es.len() > 0,
    ensures
        scan_up(es, sel, off) matches Some(idx) ==> 0 <= idx < es.len() && es[idx].kind == EntryKind::Session,
    decreases es.len() - off,
{
    if 1 <= off < es.len() {
        let idx = (sel + es.len() - off) % (es.len() as int);
        if es[idx].kind != EntryKind::Session {
            lemma_scan_up_in_range(es, sel, off + 1);
        }
    }
}

proof fn lemma_wrap(a: int, b: int, n: int)
    requires
        0 <= a < n,
        0 <= b < n,
    ensures
        (a + b) % n == if a + b >= n { a + b - n } else { a + b },
{
    if a + b >= n {
        vstd::arithmetic::div_mod::lemma_fundamental_div_mod_converse(a + b, n, 1, a + b - n);
    } else {
        vstd::arithmetic::div_mod::lemma_fundamental_div_mod_converse(a + b, n, 0, a + b);
    }
}

/// The offset at which moving down from `sel` stops, looking from `off`
/// on: the offsets before it hold no session row, and at it (when it is
/// below the length) is the row found.
proof fn lemma_down_offset(es: Seq<EntryModel>, sel: int, off: int) -> (o: int)
    requires
        es.len() > 0,
        sel >= 0,
        off >= 1,
    ensures
        o >= off,
        forall|o2: int| off <= o2 < o ==> (#[trigger] es[(sel + o2) % (es.len() as int)]).kind != EntryKind::Session,
        o < es.len() ==> es[(sel + o) % (es.len() as int)].kind == EntryKind::Session && scan_down(es, sel, off) == Some(
            (sel + o) % (es.len() as int),
        ),
        o >= es.len() ==> scan_down(es, sel, off) is None,
    decreases es.len() - off,
{
    if off >= es.len() {
        off
    } else if es[(sel + off) % (es.len() as int)].kind == EntryKind::Session {
        off
    } else {
        lemma_down_offset(es, sel, off + 1)
    }
}

/// Moving up from `d`, looking from `off` on, stops at offset `o` when
/// that is the first session row.
proof fn lemma_up_reaches(es: Seq<EntryModel>, d: int, off: int, o: int)
    requires
        es.len() > 0,
        d >= 0,
        1 <= off <= o < es.len(),
        forall|o2: int| off <= o2 < o ==> (#[trigger] es[(d + es.len() - o2) % (es.len() as int)]).kind != EntryKind::Session,
        es[(d + es.len() - o) % (es.len() as int)].kind == EntryKind::Session,
    ensures
        scan_up(es, d, off) == Some((d + es.len() - o) % (es.len() as int)),
    decreases o - off,
{
    if off < o {
        assert(es[(d + es.len() - off) % (es.len() as int)].kind != EntryKind::Session);
        lemma_up_reaches(es, d, off + 1, o);
    }
}

/// Moving up from `d`, looking from `off` on, finds nothing when no row
/// on the way is a session row.
proof fn lemma_up_finds_none(es: Seq<EntryModel>, d: int, off: int)
    requires
        off >= 1,
        forall|o2: int|
            off <= o2 < es.len() ==> (#[trigger] es[(d + es.len() - o2) % (es.len() as int)]).kind != EntryKind::Session,
    ensures
        scan_up(es, d, off) is None,
    decreases es.len() - off,
{
    if off < es.len() {
        assert(es[(d + es.len() - off) % (es.len() as int)].kind != EntryKind::Session);
        lemma_up_finds_none(es, d, off + 1);
    }
}

/// Stepping back `o2` rows from `o` rows past `s`, around `n` rows.
proof fn lemma_step_back(s: int, o: int, o2: int, n: int)
    requires
        0 <= s,
        1 <= o2 <= o < n,
    ensures
        ((s + o) % n + n - o2) % n == (s + (o - o2)) % n,
{
    vstd::arithmetic::div_mod::lemma_add_mod_noop(s + o, n - o2, n);
    vstd::arithmetic::div_mod::lemma_small_mod((n - o2) as nat, n as nat);
    vstd::arithmetic::div_mod::lemma_mod_add_multiples_vanish(s + (o - o2), n);
}

/// From a session row, moving up right after moving down brings the
/// selection back to where it was.
pub proof fn lemma_up_undoes_down(m: SidebarModel)
    requires
        m.entries.len() <= usize::MAX,
        m.selected < m.entries.len(),
        m.entries[m.selected as int].kind == EntryKind::Session,
    ensures
        moved_up(SidebarModel { selected: moved_down(m), ..m }) == m.selected,
{
    let es = m.entries;
    let n = es.len() as int;
    let s = m.selected as int;
    let o = lemma_down_offset(es, s, 1);
    vstd::arithmetic::div_mod::lemma_small_mod(s as nat, n as nat);
    if o < n {
        let d = (s + o) % n;
        assert forall|o2: int| 1 <= o2 < o implies (#[trigger] es[(d + es.len() - o2) % n]).kind != EntryKind::Session by {
            lemma_step_back(s, o, o2, n);
            assert(es[(s + (o - o2)) % n].kind != EntryKind::Session);
        }
        lemma_step_back(s, o, o, n);
        lemma_up_reaches(es, d, 1, o);
        assert(moved_down(m) as int == d);
        assert(scan_up(es, d, 1) == Some(s));
    } else {
        assert forall|o2: int| 1 <= o2 < n implies (#[trigger] es[(s + es.len() - o2) % n]).kind != EntryKind::Session by {
            assert(es[(s + (n - o2)) % n].kind != EntryKind::Session);
        }
        lemma_up_finds_none(es, s, 1);
        assert(moved_down(m) == m.selected);
    }
}

proof fn lemma_mod_shift(a: int, b: int, n: int)
    requires
        0 <= a,
        0 <= b < n,
    ensures
        (a % n + b) % n == (a + b) % n,
{
    vstd::arithmetic::div_mod::lemma_add_mod_noop(a, b, n);
    vstd::arithmetic::div_mod::lemma_small_mod(b as nat, n as nat);
}

/// Moves the selection to the next session row, wrapping around; says
/// whether it moved.
pub fn sidebar_move_down(sidebar: &mut SidebarState) -> (moved: bool)
    ensures
        sidebar_view(*final(sidebar)) == (SidebarModel {
            selected: moved_down(sidebar_view(*old(sidebar))),
            ..sidebar_view(*old(sidebar))
        }),
        moved == (scan_down(sidebar_view(*old(sidebar)).entries, old(sidebar).selected as int, 1) is Some),
        final(sidebar).entries@ == old(sidebar).entries@,
        final(sidebar).new_session_input == old(sidebar).new_session_input,
{
    let ghost m = sidebar_view(*sidebar);
    let len = sidebar.entries.len();
    let mut offset: usize = 1;
    while offset < len
        invariant
            1 <= offset,
            len == sidebar.entries@.len(),
            sidebar_view(*sidebar) == m,
            m == sidebar_view(*old(sidebar)),
            sidebar.entries@ == old(sidebar).entries@,
            sidebar.new_session_input == old(sidebar).new_session_input,
            scan_down(m.entries, m.selected as int, 1) == scan_down(m.entries, m.selected as int, offset as int),
        decreases len - offset,
    {
        let sel = sidebar.selected % len;
        let idx = if sel >= len - offset { sel - (len - offset) } else { sel + offset };
        proof {
            lemma_wrap(sel as int, offset as int, len as int);
            lemma_mod_shift(m.selected as int, offset as int, len as int);
        }
        assert(idx as int == (m.selected + offset) % (len as int));
        assert(m.entries[idx as int] == entry_view(sidebar.entries@[idx as int]));
        if sidebar.entries[idx].kind == EntryKind::Session {
            sidebar.selected = idx;
            return true;
        }
        offset = offset + 1;
    }
    false
}

/// Moves the selection to the previous session row, wrapping around;
/// says whether it moved.
pub fn sidebar_move_up(sidebar: &mut SidebarState) -> (moved: bool)
    ensures
        sidebar_view(*final(sidebar)) == (SidebarModel {
            selected: moved_up(sidebar_view(*old(sidebar))),
            ..sidebar_view(*old(sidebar))
        }),
        moved == (scan_up(sidebar_view(*old(sidebar)).entries, old(sidebar).selected as int, 1) is Some),
        final(sidebar).entries@ == old(sidebar).entries@,
        final(sidebar).new_session_input == old(sidebar).new_session_input,
{
    let ghost m = sidebar_view(*sidebar);
    let len = sidebar.entries.len();
    let mut offset: usize = 1;
    while offset < len
        invariant
            1 <= offset,
            len == sidebar.entries@.len(),
            sidebar_view(*sidebar) == m,
            m == sidebar_view(*old(sidebar)),
            sidebar.entries@ == old(sidebar).entries@,
            sidebar.new_session_input == old(sidebar).new_session_input,
            scan_up(m.entries, m.selected as int, 1) == scan_up(m.entries, m.selected as int, offset as int),
        decreases len - offset,
    {
        let sel = sidebar.selected % len;
        let idx = if sel >= offset { sel - offset } else { len - (offset - sel) };
        proof {
            lemma_wrap(sel as int, (len - offset) as int, len as int);
            lemma_mod_shift(m.selected as int, (len - offset) as int, len as int);
        }
        assert(idx as int == (m.selected + len - offset) % (len as int));
        assert(m.entries[idx as int] == entry_view(sidebar.entries@[idx as int]));
        if sidebar.entries[idx].kind == EntryKind::Session {
            sidebar.selected = idx;
            return true;
        }
        offset = offset + 1;
    }
    false
}

// ---------------------------------------------------------------------------
// Keys and clicks
// ---------------------------------------------------------------------------

/// How a step of the sidebar's input ends: with an action, or going on at
/// a position (and whether a redraw is due).
pub enum Flow {
    Return(ActionModel),
    Next(int, bool),
}

/// `sb_width - 1`, but at least zero: the last column before the border.
pub open spec fn content_col(sb_width: u16) -> int {
    if sb_width >= 1 { sb_width - 1 } else { 0 }
}

/// Whether column `col` hits the button drawn in the last two columns
/// before the border (the `+` of a header, the `x` of a session).
pub open spec fn on_button(col: u16, sb_width: u16) -> bool {
    let c = content_col(sb_width);
    let lo = if c >= 1 { c - 1 } else { 0 };
    lo <= col && col <= c
}

/// What a mouse event at position `i` does in the sidebar: the new
/// state, the action, and how many bytes it takes; `None` when no
/// complete event is there.
pub open spec fn sidebar_mouse(m: SidebarModel, data: Seq<u8>, i: int, sb_width: u16, current: Seq<char>) -> Option<(SidebarModel, ActionModel, int)> {
    match crate::terminal::sgr_at(data, i) {
        None => None,
        Some((ev, n)) => {
            if ev.button == 0 && ev.pressed && ev.col <= sb_width && ev.row >= 1 && ev.row - 1 < m.entries.len() {
                let idx = ev.row - 1;
                let e = m.entries[idx];
                if e.kind == EntryKind::WorkspaceHeader {
                    if on_button(ev.col, sb_width) {
                        Some((SidebarModel { input: Some(Seq::empty()), ..m }, ActionModel::Redraw, n))
                    } else {
                        Some((m, ActionModel::Idle, n))
                    }
                } else if on_button(ev.col, sb_width) {
                    Some((SidebarModel { selected: idx as usize, ..m }, ActionModel::DeleteSession(e.full_name), n))
                } else if e.full_name == current || (!e.running && !e.local) {
                    Some((m, ActionModel::Idle, n))
                } else {
                    Some((SidebarModel { selected: idx as usize, ..m }, ActionModel::Switch(e.full_name, false), n))
                }
            } else {
                Some((m, ActionModel::Idle, n))
            }
        },
    }
}

/// The end of an SGR mouse sequence skipped while typing: the first `M`
/// or `m` from `j` on, or the end.
pub open spec fn mark_end(data: Seq<u8>, j: int) -> int
    decreases data.len() - j,
{
    if j < 0 || j >= data.len() || data[j] == 77 || data[j] == 109 {
        j
    } else {
        mark_end(data, j + 1)
    }
}

/// `s` without its last character, if it has one.
pub open spec fn pop_char(s: Seq<char>) -> Seq<char> {
    if s.len() > 0 { s.drop_last() } else { s }
}

/// What a byte does while a new session's command is typed.
pub open spec fn input_step(m: SidebarModel, data: Seq<u8>, i: int) -> (SidebarModel, Flow) {
    let b = data[i];
    let text = match m.input {
        Some(t) => t,
        None => Seq::empty(),
    };
    if b == 0x1b {
        if i + 2 < data.len() && data[i + 1] == 91 && data[i + 2] == 60 {
            let e = mark_end(data, i + 3);
            (m, Flow::Next(if e < data.len() { e + 1 } else { e }, false))
        } else {
            (SidebarModel { input: None, ..m }, Flow::Return(ActionModel::Redraw))
        }
    } else if b == 13 || b == 10 {
        if text.len() == 0 {
            (SidebarModel { input: None, ..m }, Flow::Return(ActionModel::Redraw))
        } else {
            (SidebarModel { input: None, ..m }, Flow::Return(ActionModel::NewSession(text)))
        }
    } else if b == 0x7f || b == 0x08 {
        (SidebarModel { input: Some(pop_char(text)), ..m }, Flow::Next(i + 1, true))
    } else if b == 0x15 {
        (SidebarModel { input: Some(Seq::empty()), ..m }, Flow::Next(i + 1, true))
    } else if 0x20 <= b && b <= 0x7e {
        (SidebarModel { input: Some(text.push(b as char)), ..m }, Flow::Next(i + 1, true))
    } else {
        (m, Flow::Next(i + 1, false))
    }
}

/// What a byte does while the sidebar has the focus.
pub open spec fn nav_step(m: SidebarModel, data: Seq<u8>, i: int, sb_width: u16, current: Seq<char>) -> (SidebarModel, Flow) {
    let b = data[i];
    if b == 0x1b {
        if i + 2 < data.len() && data[i + 1] == 91 {
            let c = data[i + 2];
            if c == 65 {
                (SidebarModel { selected: moved_up(m), ..m }, Flow::Next(i + 3, true))
            } else if c == 66 {
                (SidebarModel { selected: moved_down(m), ..m }, Flow::Next(i + 3, true))
            } else if c == 60 {
                match sidebar_mouse(m, data, i, sb_width, current) {
                    Some((m2, a, n)) => if a is Idle {
                        (m2, Flow::Next(i + n, false))
                    } else {
                        (m2, Flow::Return(a))
                    },
                    None => (m, Flow::Next(i + 3, false)),
                }
            } else {
                (m, Flow::Next(i + 3, false))
            }
        } else {
            (SidebarModel { focused: false, ..m }, Flow::Return(ActionModel::Unfocus))
        }
    } else if b == 106 {
        (SidebarModel { selected: moved_down(m), ..m }, Flow::Next(i + 1, true))
    } else if b == 107 {
        (SidebarModel { selected: moved_up(m), ..m }, Flow::Next(i + 1, true))
    } else if b == 120 {
        let e = m.entries[m.selected as int];
        if e.kind == EntryKind::Session {
            (m, Flow::Return(ActionModel::DeleteSession(e.full_name)))
        } else {
            (m, Flow::Next(i + 1, false))
        }
    } else if b == 13 || b == 10 {
        let e = m.entries[m.selected as int];
        if e.kind == EntryKind::Session && e.full_name != current && (e.running || e.local) {
            (SidebarModel { focused: false, ..m }, Flow::Return(ActionModel::Switch(e.full_name, true)))
        } else {
            (SidebarModel { focused: false, ..m }, Flow::Return(ActionModel::Unfocus))
        }
    } else {
        (m, Flow::Next(i + 1, false))
    }
}

/// Processing `data` from position `i` on, in the mode chosen at the
/// start, with `result` the action owed if the input runs out.
pub open spec fn sidebar_run(
    m: SidebarModel,
    data: Seq<u8>,
    i: int,
    sb_width: u16,
    current: Seq<char>,
    typing: bool,
    result: ActionModel,
) -> (SidebarModel, ActionModel)
    decreases data.len() + 1 - i,
{
    if i < 0 || i >= data.len() {
        (m, result)
    } else {
        let (m2, f) = if typing { input_step(m, data, i) } else { nav_step(m, data, i, sb_width, current) };
        match f {
            Flow::Return(a) => (m2, a),
            Flow::Next(n, redraw) => if i < n <= data.len() + 1 {
                sidebar_run(m2, data, n, sb_width, current, typing, if redraw { ActionModel::Redraw } else { result })
            } else {
                (m2, result)
            },
        }
    }
}

/// While navigating, `k` moves the selection to the row above when that
/// is a session row, and `j` to the row below when that is one; neither
/// touches the rows, the command being typed or the focus, and both go on
/// with the next byte and a redraw.
pub proof fn lemma_letters_move_to_adjacent_rows(m: SidebarModel, sb_width: u16, current: Seq<char>)
    requires
        m.entries.len() <= usize::MAX,
        m.selected < m.entries.len(),
    ensures
        ({
            let (up, fu) = nav_step(m, seq![107u8], 0, sb_width, current);
            &&& fu == Flow::Next(1, true)
            &&& up.entries == m.entries && up.input == m.input && up.focused == m.focused
            &&& m.selected >= 1 && m.entries[m.selected - 1].kind == EntryKind::Session ==> up.selected == m.selected - 1
        }),
        ({
            let (down, fd) = nav_step(m, seq![106u8], 0, sb_width, current);
            &&& fd == Flow::Next(1, true)
            &&& down.entries == m.entries && down.input == m.input && down.focused == m.focused
            &&& m.selected + 1 < m.entries.len() && m.entries[m.selected + 1].kind == EntryKind::Session
                ==> down.selected == m.selected + 1
        }),
{
    let n = m.entries.len() as int;
    let s = m.selected as int;
    if s >= 1 {
        vstd::arithmetic::div_mod::lemma_mod_add_multiples_vanish(s - 1, n);
        vstd::arithmetic::div_mod::lemma_small_mod((s - 1) as nat, n as nat);
        assert((s + n - 1) % n == s - 1);
    }
    if s + 1 < n {
        vstd::arithmetic::div_mod::lemma_small_mod((s + 1) as nat, n as nat);
    }
}

/// While navigating, `x` on a session row asks to delete that session and
/// changes nothing; Enter on a session row other than the current one,
/// running or local, switches to it keeping the sidebar open, and Enter
/// on any other row just gives the focus back; either way the sidebar
/// loses the focus and keeps its rows and selection.
pub proof fn lemma_row_keys(m: SidebarModel, data: Seq<u8>, i: int, sb_width: u16, current: Seq<char>)
    requires
        0 <= i < data.len(),
        m.selected < m.entries.len(),
    ensures
        ({
            let e = m.entries[m.selected as int];
            let (m2, f) = nav_step(m, data, i, sb_width, current);
            &&& (data[i] == 120 && e.kind == EntryKind::Session) ==> (m2 == m && f == Flow::Return(
                ActionModel::DeleteSession(e.full_name),
            ))
            &&& (data[i] == 13 || data[i] == 10) ==> {
                &&& m2.entries == m.entries && m2.selected == m.selected && !m2.focused && m2.input == m.input
                &&& (e.kind == EntryKind::Session && e.full_name != current && (e.running || e.local)) ==> f
                    == Flow::Return(ActionModel::Switch(e.full_name, true))
                &&& !(e.kind == EntryKind::Session && e.full_name != current && (e.running || e.local)) ==> f
                    == Flow::Return(ActionModel::Unfocus)
            }
        }),
{
}

/// While a command is typed, a printable ASCII byte is appended to it;
/// Backspace takes its last character off; Enter submits what was typed
/// (an empty command just closes the line) and leaves the typing; the
/// rows, selection and focus stay as they were.
pub proof fn lemma_typing_keys(m: SidebarModel, data: Seq<u8>, i: int, text: Seq<char>)
    requires
        0 <= i < data.len(),
        m.input == Some(text),
    ensures
        ({
            let (m2, f) = input_step(m, data, i);
            let b = data[i];
            &&& m2.entries == m.entries && m2.selected == m.selected && m2.focused == m.focused
            &&& (0x20 <= b && b <= 0x7e) ==> (m2.input == Some(text.push(b as char)) && f == Flow::Next(i + 1, true))
            &&& (b == 0x7f || b == 0x08) ==> (m2.input == Some(
                if text.len() > 0 {
                    text.subrange(0, text.len() - 1)
                } else {
                    text
                },
            ) && f == Flow::Next(i + 1, true))
            &&& (b == 13 || b == 10) ==> (m2.input is None && f == Flow::Return(
                if text.len() > 0 {
                    ActionModel::NewSession(text)
                } else {
                    ActionModel::Redraw
                },
            ))
        }),
{
}

/// While navigating, the Up arrow (`ESC [ A`) does to the sidebar what `k`
/// does, and the Down arrow (`ESC [ B`) what `j` does; processing goes on
/// after the three bytes, with a redraw.
pub proof fn lemma_arrows_move_like_letters(m: SidebarModel, data: Seq<u8>, i: int, sb_width: u16, current: Seq<char>)
    requires
        0 <= i,
        i + 2 < data.len(),
        data[i] == 0x1b,
        data[i + 1] == 91,
    ensures
        data[i + 2] == 65 ==> nav_step(m, data, i, sb_width, current) == (
            nav_step(m, seq![107u8], 0, sb_width, current).0,
            Flow::Next(i + 3, true),
        ),
        data[i + 2] == 66 ==> nav_step(m, data, i, sb_width, current) == (
            nav_step(m, seq![106u8], 0, sb_width, current).0,
            Flow::Next(i + 3, true),
        ),
{
}

/// Whether the byte at `i` read while navigating acts on the selected row:
/// `x` deletes it, Enter switches to it.
pub open spec fn reads_selection(data: Seq<u8>, i: int) -> bool {
    data[i] == 120 || data[i] == 13 || data[i] == 10
}

/// Whether processing `data` from position `i` on, as [`sidebar_run`]
/// does, acts on the selected row only while the selection is one of the
/// rows.
pub open spec fn run_in_range(
    m: SidebarModel,
    data: Seq<u8>,
    i: int,
    sb_width: u16,
    current: Seq<char>,
    typing: bool,
) -> bool
    decreases data.len() + 1 - i,
{
    if i < 0 || i >= data.len() {
        true
    } else if !typing && reads_selection(data, i) && m.selected >= m.entries.len() {
        false
    } else {
        let (m2, f) = if typing { input_step(m, data, i) } else { nav_step(m, data, i, sb_width, current) };
        match f {
            Flow::Return(_) => true,
            Flow::Next(n, _) => if i < n <= data.len() + 1 {
                run_in_range(m2, data, n, sb_width, current, typing)
            } else {
                true
            },
        }
    }
}

/// While a command is typed, or while the selection is one of the rows,
/// any input acts on the selected row only while it is one of the rows:
/// moving and clicking keep the selection among the rows.
pub proof fn lemma_run_in_range(
    m: SidebarModel,
    data: Seq<u8>,
    i: int,
    sb_width: u16,
    current: Seq<char>,
    typing: bool,
)
    requires
        typing || m.selected < m.entries.len(),
    ensures
        run_in_range(m, data, i, sb_width, current, typing),
    decreases data.len() + 1 - i,
{
    if 0 <= i < data.len() {
        let (m2, f) = if typing { input_step(m, data, i) } else { nav_step(m, data, i, sb_width, current) };
        if !typing {
            lemma_scan_up_in_range(m.entries, m.selected as int, 1);
            lemma_scan_down_in_range(m.entries, m.selected as int, 1);
            assert(m2.selected < m2.entries.len());
        }
        match f {
            Flow::Return(_) => {},
            Flow::Next(n, _) => if i < n <= data.len() + 1 {
                lemma_run_in_range(m2, data, n, sb_width, current, typing);
            },
        }
    }
}

/// What input does to the sidebar: typing a new session's command when
/// one is being typed, else navigating.
pub open spec fn process_sidebar(m: SidebarModel, data: Seq<u8>, sb_width: u16, current: Seq<char>) -> (SidebarModel, ActionModel) {
    sidebar_run(m, data, 0, sb_width, current, m.input is Some, ActionModel::Idle)
}

enum StepFlow {
    Return(SidebarAction),
    Next(usize, bool),
}

spec fn flow_view(f: StepFlow) -> Flow {
    match f {
        StepFlow::Return(a) => Flow::Return(action_view(a)),
        StepFlow::Next(n, r) => Flow::Next(n as int, r),
    }
}

fn copy_text(s: &String) -> (r: String)
    ensures
        r@ == s@,
{
    crate::text::copy_str(s.as_str())
}

/// Handles a mouse event at `data[i..]` while the sidebar has the focus
/// (see [`sidebar_mouse`]).
fn parse_sidebar_mouse(data: &[u8], i: usize, sidebar: &mut SidebarState, sb_width: u16, current: &str) -> (r: Option<(SidebarAction, usize)>)
    ensures
        match sidebar_mouse(sidebar_view(*old(sidebar)), data@, i as int, sb_width, current@) {
            Some((m2, a, n)) => r matches Some((x, k)) && sidebar_view(*final(sidebar)) == m2 && action_view(x) == a
                && k as int == n && 0 < k && i + k <= data@.len(),
            None => r is None && sidebar_view(*final(sidebar)) == sidebar_view(*old(sidebar)),
        },
        final(sidebar).entries@ == old(sidebar).entries@,
        final(sidebar).selected < final(sidebar).entries@.len() || final(sidebar).selected == old(sidebar).selected,
{
    let ghost m = sidebar_view(*sidebar);
    match crate::terminal::parse_sgr_mouse(data, i) {
        None => None,
        Some((ev, n)) => {
            if ev.button == 0 && ev.pressed && ev.col <= sb_width && ev.row >= 1 && ((ev.row - 1) as usize)
                < sidebar.entries.len() {
                let idx = (ev.row - 1) as usize;
                let content: u16 = if sb_width >= 1 { sb_width - 1 } else { 0 };
                let lo: u16 = if content >= 1 { content - 1 } else { 0 };
                let on = lo <= ev.col && ev.col <= content;
                assert(on == on_button(ev.col, sb_width));
                assert(m.entries[idx as int] == entry_view(sidebar.entries@[idx as int]));
                if sidebar.entries[idx].kind == EntryKind::WorkspaceHeader {
                    if on {
                        sidebar.new_session_input = Some(String::new());
                        return Some((SidebarAction::Redraw, n));
                    }
                    return Some((SidebarAction::Idle, n));
                }
                let name = copy_text(&sidebar.entries[idx].full_name);
                if on {
                    sidebar.selected = idx;
                    return Some((SidebarAction::DeleteSession(name), n));
                }
                if crate::text::str_eq(name.as_str(), current) || (!sidebar.entries[idx].running
                    && !sidebar.entries[idx].local) {
                    return Some((SidebarAction::Idle, n));
                }
                sidebar.selected = idx;
                Some((SidebarAction::Switch { name, keep_sidebar: false }, n))
            } else {
                Some((SidebarAction::Idle, n))
            }
        },
    }
}

impl SidebarState {
    fn typing_step(&mut self, data: &[u8], i: usize) -> (f: StepFlow)
        requires
            i < data@.len(),
            old(self).new_session_input is Some,
        ensures
            (sidebar_view(*final(self)), flow_view(f)) == input_step(sidebar_view(*old(self)), data@, i as int),
            match f {
                StepFlow::Next(n, _) => i < n <= data@.len() + 1 && final(self).new_session_input is Some,
                StepFlow::Return(_) => true,
            },
            final(self).entries@ == old(self).entries@,
            final(self).selected == old(self).selected,
    {
        let b = data[i];
        let n = data.len();
        let text = match &self.new_session_input {
            Some(t) => copy_text(t),
            None => String::new(),
        };
        if b == 0x1b {
            if n - i > 2 && data[i + 1] == 91 && data[i + 2] == 60 {
                let mut j = i + 3;
                while j < n && data[j] != 77 && data[j] != 109
                    invariant
                        i + 3 <= j <= n,
                        n == data@.len(),
                        mark_end(data@, i + 3) == mark_end(data@, j as int),
                    decreases n - j,
                {
                    j = j + 1;
                }
                if j < n {
                    return StepFlow::Next(j + 1, false);
                }
                return StepFlow::Next(j, false);
            }
            self.new_session_input = None;
            return StepFlow::Return(SidebarAction::Redraw);
        }
        if b == 13 || b == 10 {
            self.new_session_input = None;
            if text.unicode_len() == 0 {
                return StepFlow::Return(SidebarAction::Redraw);
            }
            return StepFlow::Return(SidebarAction::NewSession(text));
        }
        if b == 0x7f || b == 0x08 {
            let cv = crate::text::chars_of(text.as_str());
            let t = if cv.len() > 0 {
                crate::text::string_of_range(cv.as_slice(), 0, cv.len() - 1)
            } else {
                String::new()
            };
            assert(t@ =~= pop_char(text@));
            self.new_session_input = Some(t);
            return StepFlow::Next(i + 1, true);
        }
        if b == 0x15 {
            self.new_session_input = Some(String::new());
            return StepFlow::Next(i + 1, true);
        }
        if 0x20 <= b && b <= 0x7e {
            let mut t = text;
            crate::text::push_char(&mut t, b as char);
            self.new_session_input = Some(t);
            return StepFlow::Next(i + 1, true);
        }
        StepFlow::Next(i + 1, false)
    }

    fn nav_step(&mut self, data: &[u8], i: usize, sb_width: u16, current: &str) -> (f: StepFlow)
        requires
            i < data@.len(),
            reads_selection(data@, i as int) ==> old(self).selected < old(self).entries@.len(),
            old(self).new_session_input is None,
        ensures
            (sidebar_view(*final(self)), flow_view(f)) == nav_step(
                sidebar_view(*old(self)),
                data@,
                i as int,
                sb_width,
                current@,
            ),
            match f {
                StepFlow::Next(n, _) => i < n <= data@.len() + 1 && final(self).new_session_input is None,
                StepFlow::Return(_) => true,
            },
            final(self).entries@ == old(self).entries@,
    {
        let ghost m = sidebar_view(*self);
        let b = data[i];
        let n = data.len();
        if b == 0x1b {
            if n - i > 2 && data[i + 1] == 91 {
                let c = data[i + 2];
                if c == 65 {
                    sidebar_move_up(self);
                    return StepFlow::Next(i + 3, true);
                } else if c == 66 {
                    sidebar_move_down(self);
                    return StepFlow::Next(i + 3, true);
                } else if c == 60 {
                    match parse_sidebar_mouse(data, i, self, sb_width, current) {
                        Some((a, k)) => {
                            if let SidebarAction::Idle = a {
                                return StepFlow::Next(i + k, false);
                            }
                            return StepFlow::Return(a);
                        },
                        None => {
                            return StepFlow::Next(i + 3, false);
                        },
                    }
                } else {
                    return StepFlow::Next(i + 3, false);
                }
            }
            self.focused = false;
            return StepFlow::Return(SidebarAction::Unfocus);
        }
        if b == 106 {
            sidebar_move_down(self);
            return StepFlow::Next(i + 1, true);
        }
        if b == 107 {
            sidebar_move_up(self);
            return StepFlow::Next(i + 1, true);
        }
        let sel = self.selected;
        if b == 120 {
            assert(m.entries[sel as int] == entry_view(self.entries@[sel as int]));
            if self.entries[sel].kind == EntryKind::Session {
                return StepFlow::Return(SidebarAction::DeleteSession(copy_text(&self.entries[sel].full_name)));
            }
            return StepFlow::Next(i + 1, false);
        }
        if b == 13 || b == 10 {
            assert(m.entries[sel as int] == entry_view(self.entries@[sel as int]));
            let name = copy_text(&self.entries[sel].full_name);
            let switchable = self.entries[sel].kind == EntryKind::Session && !crate::text::str_eq(name.as_str(), current)
                && (self.entries[sel].running || self.entries[sel].local);
            self.focused = false;
            if switchable {
                return StepFlow::Return(SidebarAction::Switch { name, keep_sidebar: true });
            }
            return StepFlow::Return(SidebarAction::Unfocus);
        }
        StepFlow::Next(i + 1, false)
    }
}

/// Handles input while the sidebar is open (see [`process_sidebar`]): the
/// action it asks for, `Idle` to keep it open as it is. While navigating,
/// `x` and Enter act on the selected row, which must then be one of the
/// rows.
pub fn process_sidebar_input(data: &[u8], sidebar: &mut SidebarState, current_session: &str, sb_width: u16) -> (r: SidebarAction)
    requires
        run_in_range(
            sidebar_view(*old(sidebar)),
            data@,
            0,
            sb_width,
            current_session@,
            old(sidebar).new_session_input is Some,
        ),
    ensures
        (sidebar_view(*final(sidebar)), action_view(r)) == process_sidebar(
            sidebar_view(*old(sidebar)),
            data@,
            sb_width,
            current_session@,
        ),
{
    let typing = sidebar.new_session_input.is_some();
    let mut redraw = false;
    let mut i: usize = 0;
    while i < data.len()
        invariant
            sidebar.entries@ == old(sidebar).entries@,
            run_in_range(sidebar_view(*sidebar), data@, i as int, sb_width, current_session@, typing),
            typing == (sidebar.new_session_input is Some),
            typing == (sidebar_view(*old(sidebar)).input is Some),
            sidebar_run(
                sidebar_view(*sidebar),
                data@,
                i as int,
                sb_width,
                current_session@,
                typing,
                if redraw { ActionModel::Redraw } else { ActionModel::Idle },
            ) == process_sidebar(sidebar_view(*old(sidebar)), data@, sb_width, current_session@),
        decreases data@.len() + 1 - i,
    {
        let f = if typing {
            sidebar.typing_step(data, i)
        } else {
            sidebar.nav_step(data, i, sb_width, current_session)
        };
        match f {
            StepFlow::Return(a) => {
                return a;
            },
            StepFlow::Next(n, r) => {
                if r {
                    redraw = true;
                }
                i = n;
            },
        }
    }
    if redraw {
        SidebarAction::Redraw
    } else {
        SidebarAction::Idle
    }
}

// ---------------------------------------------------------------------------
// Building the rows
// ---------------------------------------------------------------------------

/// A session as the sidebar lists it: its full name, whether it runs
/// locally, and whether it is running.
#[derive(Debug)]
pub struct ListedSession {
    pub name: String,
    pub local: bool,
    pub running: bool,
}

/// The workspace of a session name `workspace/session`: what precedes the
/// first `/` (the whole name when there is none).
pub open spec fn workspace_part(name: Seq<char>) -> Seq<char> {
    match crate::text::first_index(name, '/') {
        Some(k) => name.subrange(0, k),
        None => name,
    }
}

/// The session part of a session name: what follows the first `/` (the
/// whole name when there is none).
pub open spec fn session_part(name: Seq<char>) -> Seq<char> {
    match crate::text::first_index(name, '/') {
        Some(k) => name.skip(k + 1),
        None => name,
    }
}

/// The header row of a workspace.
pub open spec fn header_row(ws: Seq<char>) -> EntryModel {
    EntryModel { kind: EntryKind::WorkspaceHeader, display: ws, full_name: Seq::empty(), running: false, local: false }
}

/// The rows of `sessions` in order, each workspace's header before its
/// first session whenever the workspace changes, and the last workspace
/// seen (starting from none, the empty name).
pub open spec fn grouped(sessions: Seq<(Seq<char>, bool, bool)>) -> (Seq<EntryModel>, Seq<char>)
    decreases sessions.len(),
{
    if sessions.len() == 0 {
        (Seq::empty(), Seq::empty())
    } else {
        let (rows, cur) = grouped(sessions.drop_last());
        let (name, local, running) = sessions.last();
        let ws = workspace_part(name);
        let rows2 = if ws != cur { rows.push(header_row(ws)) } else { rows };
        let row = EntryModel {
            kind: EntryKind::Session,
            display: session_part(name),
            full_name: name,
            running: local && running,
            local,
        };
        (rows2.push(row), ws)
    }
}

/// The rows of the sidebar: the grouped sessions, or, when there are none,
/// the current session alone (running, local) under its workspace.
pub open spec fn sidebar_rows(sessions: Seq<(Seq<char>, bool, bool)>, current: Seq<char>) -> Seq<EntryModel> {
    let rows = grouped(sessions).0;
    if rows.len() == 0 {
        seq![
            header_row(workspace_part(current)),
            EntryModel {
                kind: EntryKind::Session,
                display: session_part(current),
                full_name: current,
                running: true,
                local: true,
            },
        ]
    } else {
        rows
    }
}

/// The first session row of `rows` named `current`, from `k` on (0 when
/// there is none).
pub open spec fn current_row(rows: Seq<EntryModel>, current: Seq<char>, k: int) -> int
    decreases rows.len() - k,
{
    if k < 0 || k >= rows.len() {
        0
    } else if rows[k].kind == EntryKind::Session && rows[k].full_name == current {
        k
    } else {
        current_row(rows, current, k + 1)
    }
}

/// Splits a session name into its workspace and session parts.
pub fn parse_name(name: &str) -> (r: (String, String))
    ensures
        r.0@ == workspace_part(name@),
        r.1@ == session_part(name@),
{
    let v = crate::text::chars_of(name);
    let mut i: usize = 0;
    while i < v.len()
        invariant
            v@ == name@,
            i <= v@.len(),
            forall|k: int| 0 <= k < i ==> v@[k] != '/',
        decreases v@.len() - i,
    {
        if v[i] == '/' {
            proof {
                crate::text::lemma_first_index(name@, '/', i as int);
            }
            let ws = crate::text::string_of_range(v.as_slice(), 0, i);
            let sp = crate::text::string_of_range(v.as_slice(), i + 1, v.len());
            assert(sp@ =~= name@.skip(i + 1));
            return (ws, sp);
        }
        i = i + 1;
    }
    proof {
        crate::text::lemma_first_index(name@, '/', i as int);
    }
    (crate::text::copy_str(name), crate::text::copy_str(name))
}

/// Builds the sidebar's rows from the listed sessions, and the row of the
/// current session.
pub fn build_sidebar_entries(sessions: &Vec<ListedSession>, current: &str) -> (r: (Vec<SidebarEntry>, usize))
    ensures
        r.0@.map_values(|e: SidebarEntry| entry_view(e)) == sidebar_rows(
            sessions@.map_values(|s: ListedSession| (s.name@, s.local, s.running)),
            current@,
        ),
        r.1 as int == current_row(
            sidebar_rows(sessions@.map_values(|s: ListedSession| (s.name@, s.local, s.running)), current@),
            current@,
            0,
        ),
{
    let ghost sv = sessions@.map_values(|s: ListedSession| (s.name@, s.local, s.running));
    let mut entries: Vec<SidebarEntry> = Vec::new();
    let mut cur = String::new();
    let mut i: usize = 0;
    while i < sessions.len()
        invariant
            i <= sessions@.len(),
            sv == sessions@.map_values(|s: ListedSession| (s.name@, s.local, s.running)),
            entries@.map_values(|e: SidebarEntry| entry_view(e)) == grouped(sv.subrange(0, i as int)).0,
            cur@ == grouped(sv.subrange(0, i as int)).1,
        decreases sessions@.len() - i,
    {
        assert(sv.subrange(0, i + 1).drop_last() =~= sv.subrange(0, i as int));
        assert(sv.subrange(0, i + 1).last() == sv[i as int]);
        let (ws, sp) = parse_name(sessions[i].name.as_str());
        let ghost before = entries@.map_values(|e: SidebarEntry| entry_view(e));
        if !crate::text::str_eq(ws.as_str(), cur.as_str()) {
            let h = SidebarEntry {
                kind: EntryKind::WorkspaceHeader,
                display: crate::text::copy_str(ws.as_str()),
                full_name: String::new(),
                running: false,
                local: false,
            };
            let ghost hv = entry_view(h);
            entries.push(h);
            assert(entries@.map_values(|e: SidebarEntry| entry_view(e)) =~= before.push(hv));
        }
        let ghost mid = entries@.map_values(|e: SidebarEntry| entry_view(e));
        let e = SidebarEntry {
            kind: EntryKind::Session,
            display: sp,
            full_name: crate::text::copy_str(sessions[i].name.as_str()),
            running: sessions[i].local && sessions[i].running,
            local: sessions[i].local,
        };
        let ghost ev = entry_view(e);
        entries.push(e);
        assert(entries@.map_values(|e: SidebarEntry| entry_view(e)) =~= mid.push(ev));
        cur = ws;
        i = i + 1;
    }
    assert(sv.subrange(0, i as int) =~= sv);
    if entries.len() == 0 {
        let (ws, sp) = parse_name(current);
        entries.push(SidebarEntry {
            kind: EntryKind::WorkspaceHeader,
            display: ws,
            full_name: String::new(),
            running: false,
            local: false,
        });
        entries.push(SidebarEntry {
            kind: EntryKind::Session,
            display: sp,
            full_name: crate::text::copy_str(current),
            running: true,
            local: true,
        });
        assert(entries@.map_values(|e: SidebarEntry| entry_view(e)) =~= sidebar_rows(sv, current@));
    }
    let ghost rows = entries@.map_values(|e: SidebarEntry| entry_view(e));
    assert(rows == sidebar_rows(sv, current@));
    let mut k: usize = 0;
    while k < entries.len()
        invariant
            k <= entries@.len(),
            rows == entries@.map_values(|e: SidebarEntry| entry_view(e)),
            rows == sidebar_rows(sv, current@),
            sv == sessions@.map_values(|s: ListedSession| (s.name@, s.local, s.running)),
            current_row(rows, current@, 0) == current_row(rows, current@, k as int),
        decreases entries@.len() - k,
    {
        assert(rows[k as int] == entry_view(entries@[k as int]));
        if entries[k].kind == EntryKind::Session && crate::text::str_eq(entries[k].full_name.as_str(), current) {
            return (entries, k);
        }
        k = k + 1;
    }
    (entries, 0)
}

} // verus!
