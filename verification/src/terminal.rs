//! Keyboard and mouse input of the multiplexer's client: the COMMAND mode
//! entered with the prefix key, scrolling back, clicks and drags on the
//! scrollbar and the header's close button, and escape sequences split
//! across reads.
use vstd::prelude::*;

verus! {

/// The escape byte.
pub const ESC: u8 = 0x1b;

/// A mouse event reported in SGR encoding: `ESC [ < button ; col ; row`
/// and `M` for a press or `m` for a release (coordinates are 1-based).
#[derive(Debug, Clone, Copy, PartialEq, Eq, Structural)]
pub struct SgrMouseEvent {
    pub button: u32,
    pub col: u16,
    pub row: u16,
    pub pressed: bool,
}

/// Whether `b` is an ASCII digit.
pub open spec fn is_digit_byte(b: u8) -> bool {
    48 <= b <= 57
}

/// One more digit on a parameter, as the parser computes it: the value
/// times ten (saturating), plus the digit (wrapping).
pub open spec fn digit_step(p: u32, b: u8) -> u32 {
    let m: int = if p * 10 > u32::MAX { u32::MAX as int } else { p * 10 };
    let s: int = m + (b - 48);
    if s > u32::MAX {
        (s - 4294967296) as u32
    } else {
        s as u32
    }
}

/// Reads the parameters of an SGR mouse sequence from position `j` on,
/// with `p0`, `p1`, `p2` read so far and `idx` the one being read; gives
/// the three parameters, whether it is a press, and where it ends.
pub open spec fn sgr_from(data: Seq<u8>, j: int, p0: u32, p1: u32, p2: u32, idx: int) -> Option<(u32, u32, u32, bool, int)>
    decreases data.len() - j,
{
    if j < 0 || j >= data.len() {
        None
    } else {
        let b = data[j];
        if is_digit_byte(b) {
            if idx == 0 {
                sgr_from(data, j + 1, digit_step(p0, b), p1, p2, idx)
            } else if idx == 1 {
                sgr_from(data, j + 1, p0, digit_step(p1, b), p2, idx)
            } else {
                sgr_from(data, j + 1, p0, p1, digit_step(p2, b), idx)
            }
        } else if b == 59 {
            if idx + 1 >= 3 {
                None
            } else {
                sgr_from(data, j + 1, p0, p1, p2, idx + 1)
            }
        } else if b == 77 || b == 109 {
            if idx == 2 {
                Some((p0, p1, p2, b == 77, j + 1))
            } else {
                None
            }
        } else {
            None
        }
    }
}

/// The SGR mouse event that starts at position `i`, with the number of
/// bytes it takes; `None` when there is none or it is cut short.
pub open spec fn sgr_at(data: Seq<u8>, i: int) -> Option<(SgrMouseEvent, int)> {
    if i < 0 || i + 2 >= data.len() || data[i] != 0x1b || data[i + 1] != 91 || data[i + 2] != 60 {
        None
    } else {
        match sgr_from(data, i + 3, 0, 0, 0, 0) {
            Some((b, c, r, pr, end)) => Some((
                SgrMouseEvent { button: b, col: c as u16, row: r as u16, pressed: pr },
                end - i,
            )),
            None => None,
        }
    }
}

proof fn lemma_sgr_from_end(data: Seq<u8>, j: int, p0: u32, p1: u32, p2: u32, idx: int)
    ensures
        sgr_from(data, j, p0, p1, p2, idx) matches Some(t) ==> j < t.4 <= data.len(),
    decreases data.len() - j,
{
    if 0 <= j < data.len() {
        let b = data[j];
        if is_digit_byte(b) {
            if idx == 0 {
                lemma_sgr_from_end(data, j + 1, digit_step(p0, b), p1, p2, idx);
            } else if idx == 1 {
                lemma_sgr_from_end(data, j + 1, p0, digit_step(p1, b), p2, idx);
            } else {
                lemma_sgr_from_end(data, j + 1, p0, p1, digit_step(p2, b), idx);
            }
        } else if b == 59 && idx + 1 < 3 {
            lemma_sgr_from_end(data, j + 1, p0, p1, p2, idx + 1);
        }
    }
}

pub(crate) fn digit_next(p: u32, b: u8) -> (r: u32)
    requires
        is_digit_byte(b),
    ensures
        r == digit_step(p, b),
{
    let m: u32 = if p > 429496729 { 4294967295 } else { p * 10 };
    let d: u32 = (b - 48) as u32;
    if m > 4294967295 - d {
        m - (4294967295 - d) - 1
    } else {
        m + d
    }
}

/// Parses the SGR mouse sequence at `data[i..]` (see [`sgr_at`]).
pub fn parse_sgr_mouse(data: &[u8], i: usize) -> (r: Option<(SgrMouseEvent, usize)>)
    ensures
        match sgr_at(data@, i as int) {
            Some((ev, n)) => r matches Some((e, k)) && e == ev && k as int == n,
            None => r is None,
        },
        match r {
            Some((_, k)) => 0 < k && i + k <= data@.len(),
            None => true,
        },
{
    if i >= data.len() || data.len() - i <= 2 || data[i] != 0x1b || data[i + 1] != 91 || data[i + 2] != 60 {
        return None;
    }
    let mut j: usize = i + 3;
    let mut p0: u32 = 0;
    let mut p1: u32 = 0;
    let mut p2: u32 = 0;
    let mut idx: usize = 0;
    while j < data.len()
        invariant
            i + 3 <= j <= data@.len(),
            data@[i as int] == 0x1b,
            data@[i + 1] == 91,
            data@[i + 2] == 60,
            idx <= 2,
            sgr_from(data@, i + 3, 0, 0, 0, 0) == sgr_from(data@, j as int, p0, p1, p2, idx as int),
        decreases data@.len() - j,
    {
        let b = data[j];
        if 48 <= b && b <= 57 {
            if idx == 0 {
                p0 = digit_next(p0, b);
            } else if idx == 1 {
                p1 = digit_next(p1, b);
            } else {
                p2 = digit_next(p2, b);
            }
        } else if b == 59 {
            idx = idx + 1;
            if idx >= 3 {
                return None;
            }
        } else if b == 77 || b == 109 {
            if idx == 2 {
                proof {
                    lemma_sgr_from_end(data@, i + 3, 0, 0, 0, 0);
                    assert(sgr_from(data@, j as int, p0, p1, p2, idx as int) == Some((p0, p1, p2, b == 77, j + 1)));
                }
                let ev = SgrMouseEvent {
                    button: p0,
                    col: #[verifier::truncate] (p1 as u16),
                    row: #[verifier::truncate] (p2 as u16),
                    pressed: b == 77,
                };
                assert(sgr_at(data@, i as int) == Some((ev, j + 1 - i)));
                return Some((ev, j + 1 - i));
            }
            return None;
        } else {
            return None;
        }
        j = j + 1;
    }
    None
}

// ---------------------------------------------------------------------------
// The input state machine
// ---------------------------------------------------------------------------

/// What processing input asks the caller to do.
#[derive(Debug)]
pub enum InputAction {
    /// Forward bytes to the program in the terminal.
    Forward(Vec<u8>),
    /// Detach from the session.
    Detach,
    /// Stop the program.
    Kill,
    /// Draw the screen again.
    Redraw,
}

/// An action as the contracts see it.
pub enum ActionModel {
    Forward(Seq<u8>),
    Detach,
    Kill,
    Redraw,
}

pub open spec fn action_view(a: InputAction) -> ActionModel {
    match a {
        InputAction::Forward(v) => ActionModel::Forward(v@),
        InputAction::Detach => ActionModel::Detach,
        InputAction::Kill => ActionModel::Kill,
        InputAction::Redraw => ActionModel::Redraw,
    }
}

pub open spec fn actions_view(v: Seq<InputAction>) -> Seq<ActionModel> {
    v.map_values(|a: InputAction| action_view(a))
}

/// Input state: COMMAND mode, how far the view is scrolled back, the
/// prefix key, whether the scrollbar thumb is being dragged, and the bytes
/// of an escape sequence cut short by the last read.
#[derive(Debug)]
pub struct InputState {
    pub command_mode: bool,
    pub scroll_offset: usize,
    prefix_key: u8,
    dragging_scrollbar: bool,
    pending: Vec<u8>,
}

/// The state as the contracts see it.
pub struct InputModel {
    pub command_mode: bool,
    pub scroll_offset: usize,
    pub prefix_key: u8,
    pub dragging: bool,
    pub pending: Seq<u8>,
}

impl View for InputState {
    type V = InputModel;

    closed spec fn view(&self) -> InputModel {
        InputModel {
            command_mode: self.command_mode,
            scroll_offset: self.scroll_offset,
            prefix_key: self.prefix_key,
            dragging: self.dragging_scrollbar,
            pending: self.pending@,
        }
    }
}

/// `x + d`, but at most `cap`.
pub open spec fn capped_add(x: usize, d: int, cap: usize) -> usize {
    if x + d <= cap {
        (x + d) as usize
    } else {
        cap
    }
}

/// `x - d`, but at least zero.
pub open spec fn floor_sub(x: usize, d: int) -> usize {
    if x >= d {
        (x - d) as usize
    } else {
        0
    }
}

/// The scroll offset that puts the scrollbar thumb at `grid_row` of a
/// track `track` rows high: the bottom row is the live view, the top row
/// the oldest line.
pub open spec fn thumb_offset(max_scrollback: usize, track: int, grid_row: int) -> usize {
    (max_scrollback * (track - 1 - grid_row) / (track - 1)) as usize
}

/// Whether the escape at `i` begins a sequence that the next read may
/// complete: nothing follows it, or `[` follows and no final byte (0x40 or
/// above) comes after.
pub open spec fn incomplete_escape(data: Seq<u8>, i: int) -> bool {
    i + 1 >= data.len() || (data[i + 1] == 91 && forall|t: int| i + 2 <= t < data.len() ==> #[trigger] data[t] < 0x40)
}

/// What a mouse event does: the new state, the actions, and whether
/// processing stops there.
pub open spec fn mouse_step(m: InputModel, ev: SgrMouseEvent, rows: u16, cols: u16, maxsb: usize) -> (InputModel, Seq<ActionModel>, bool) {
    if ev.button == 0 && ev.pressed && ev.row == 1 && ev.col as int == cols as int - 1 {
        (m, seq![ActionModel::Detach], true)
    } else if ev.button == 64 {
        (InputModel { scroll_offset: capped_add(m.scroll_offset, 3, maxsb), ..m }, seq![ActionModel::Redraw], false)
    } else if ev.button == 65 {
        (InputModel { scroll_offset: floor_sub(m.scroll_offset, 3), ..m }, seq![ActionModel::Redraw], false)
    } else if ev.button == 0 && ev.pressed && maxsb > 0 && ev.col == cols && ev.row >= 2 {
        let grid_row = ev.row - 2;
        if grid_row < rows && rows > 1 {
            (
                InputModel { scroll_offset: thumb_offset(maxsb, rows as int, grid_row), dragging: true, ..m },
                seq![ActionModel::Redraw],
                false,
            )
        } else {
            (m, Seq::empty(), false)
        }
    } else if ev.button == 32 && ev.pressed && m.dragging && maxsb > 0 {
        if rows > 1 {
            let below = if ev.row >= 2 { ev.row - 2 } else { 0 };
            let grid_row = if below <= rows - 1 { below } else { rows - 1 };
            (InputModel { scroll_offset: thumb_offset(maxsb, rows as int, grid_row), ..m }, seq![ActionModel::Redraw], false)
        } else {
            (m, Seq::empty(), false)
        }
    } else if ev.button == 0 && !ev.pressed {
        (InputModel { dragging: false, ..m }, Seq::empty(), false)
    } else {
        (m, Seq::empty(), false)
    }
}

/// What a byte does in COMMAND mode: the new state, the actions, and where
/// processing goes on (`None` to stop).
pub open spec fn command_step(m: InputModel, data: Seq<u8>, i: int, rows: u16, maxsb: usize) -> (InputModel, Seq<ActionModel>, Option<int>) {
    let b = data[i];
    let half = (rows / 2) as int;
    let off = m.scroll_offset;
    if b == 0x1b && (i + 1 >= data.len() || data[i + 1] != 91) {
        (InputModel { command_mode: false, scroll_offset: 0, ..m }, seq![ActionModel::Redraw], Some(i + 1))
    } else if b == 0x11 {
        (m, seq![ActionModel::Detach], None)
    } else if b == 0x18 {
        (m, seq![ActionModel::Kill], Some(i + 1))
    } else if b == 0x10 {
        (InputModel { scroll_offset: capped_add(off, 1, maxsb), ..m }, seq![ActionModel::Redraw], Some(i + 1))
    } else if b == 0x0e {
        (InputModel { scroll_offset: floor_sub(off, 1), ..m }, seq![ActionModel::Redraw], Some(i + 1))
    } else if b == 0x15 {
        (InputModel { scroll_offset: capped_add(off, half, maxsb), ..m }, seq![ActionModel::Redraw], Some(i + 1))
    } else if b == 0x04 {
        (InputModel { scroll_offset: floor_sub(off, half), ..m }, seq![ActionModel::Redraw], Some(i + 1))
    } else if b == 0x1b && i + 2 < data.len() && data[i + 1] == 91 && data[i + 2] == 65 {
        (InputModel { scroll_offset: capped_add(off, 1, maxsb), ..m }, seq![ActionModel::Redraw], Some(i + 3))
    } else if b == 0x1b && i + 2 < data.len() && data[i + 1] == 91 && data[i + 2] == 66 {
        (InputModel { scroll_offset: floor_sub(off, 1), ..m }, seq![ActionModel::Redraw], Some(i + 3))
    } else if b == 0x1b && i + 3 < data.len() && data[i + 1] == 91 && data[i + 2] == 53 && data[i + 3] == 126 {
        (InputModel { scroll_offset: capped_add(off, half, maxsb), ..m }, seq![ActionModel::Redraw], Some(i + 4))
    } else if b == 0x1b && i + 3 < data.len() && data[i + 1] == 91 && data[i + 2] == 54 && data[i + 3] == 126 {
        (InputModel { scroll_offset: floor_sub(off, half), ..m }, seq![ActionModel::Redraw], Some(i + 4))
    } else {
        (m, Seq::empty(), Some(i + 1))
    }
}

/// The end of a run of ordinary bytes starting at `k`: the first position
/// holding the prefix key or an escape, or the end.
pub open spec fn plain_end(data: Seq<u8>, k: int, prefix: u8) -> int
    decreases data.len() - k,
{
    if k < 0 || k >= data.len() || data[k] == prefix || data[k] == 0x1b {
        k
    } else {
        plain_end(data, k + 1, prefix)
    }
}

/// The end of the parameter and intermediate bytes (0x20 to 0x3f) of a
/// control sequence from `k` on.
pub open spec fn params_end(data: Seq<u8>, k: int) -> int
    decreases data.len() - k,
{
    if k < 0 || k >= data.len() || !(0x20 <= data[k] < 0x40) {
        k
    } else {
        params_end(data, k + 1)
    }
}

/// The end of an escape sequence at `i` that is passed through whole: the
/// escape, and after `[` its parameters and its final byte.
pub open spec fn escape_end(data: Seq<u8>, i: int) -> int {
    if i + 1 < data.len() && data[i + 1] == 91 {
        let j = params_end(data, i + 2);
        if j < data.len() && data[j] >= 0x40 {
            j + 1
        } else {
            j
        }
    } else {
        i + 1
    }
}

/// What an ordinary byte does: the run of ordinary bytes it starts is
/// forwarded as one write, and an escape with what it introduces.
pub open spec fn normal_step(m: InputModel, data: Seq<u8>, i: int) -> (InputModel, Seq<ActionModel>, Option<int>) {
    let end = plain_end(data, i, m.prefix_key);
    if end > i {
        (m, seq![ActionModel::Forward(data.subrange(i, end))], Some(end))
    } else if data[i] == 0x1b {
        let j = escape_end(data, i);
        (m, seq![ActionModel::Forward(data.subrange(i, j))], Some(j))
    } else {
        (m, Seq::empty(), Some(i + 1))
    }
}

/// What the input at position `i` does: the new state, the actions, and
/// where processing goes on (`None` to stop).
pub open spec fn step(
    m: InputModel,
    data: Seq<u8>,
    i: int,
    rows: u16,
    cols: u16,
    maxsb: usize,
    allow_buffer: bool,
) -> (InputModel, Seq<ActionModel>, Option<int>) {
    if allow_buffer && data[i] == 0x1b && incomplete_escape(data, i) {
        (InputModel { pending: data.subrange(i, data.len() as int), ..m }, Seq::empty(), None)
    } else {
        match sgr_at(data, i) {
            Some((ev, n)) => {
                let (m2, a, stop) = mouse_step(m, ev, rows, cols, maxsb);
                (m2, a, if stop { None } else { Some(i + n) })
            },
            None => if m.command_mode {
                command_step(m, data, i, rows, maxsb)
            } else if data[i] == m.prefix_key {
                (InputModel { command_mode: true, ..m }, seq![ActionModel::Redraw], Some(i + 1))
            } else {
                normal_step(m, data, i)
            },
        }
    }
}

/// Processing `data` from position `i` on, with the actions `acts` so far.
pub open spec fn run(
    m: InputModel,
    data: Seq<u8>,
    i: int,
    rows: u16,
    cols: u16,
    maxsb: usize,
    allow_buffer: bool,
    acts: Seq<ActionModel>,
) -> (InputModel, Seq<ActionModel>)
    decreases data.len() - i,
{
    if i < 0 || i >= data.len() {
        (m, acts)
    } else {
        let (m2, a, next) = step(m, data, i, rows, cols, maxsb, allow_buffer);
        match next {
            None => (m2, acts + a),
            Some(n) => if i < n <= data.len() {
                run(m2, data, n, rows, cols, maxsb, allow_buffer, acts + a)
            } else {
                (m2, acts + a)
            },
        }
    }
}

/// Processing all of `data` in state `m` (its pending bytes already taken).
pub open spec fn process_all(m: InputModel, data: Seq<u8>, rows: u16, cols: u16, maxsb: usize, allow_buffer: bool) -> (InputModel, Seq<ActionModel>) {
    run(InputModel { pending: Seq::empty(), ..m }, data, 0, rows, cols, maxsb, allow_buffer, Seq::empty())
}

fn add_capped(x: usize, d: usize, cap: usize) -> (r: usize)
    ensures
        r == capped_add(x, d as int, cap),
{
    if x <= cap && d <= cap - x {
        x + d
    } else {
        cap
    }
}

fn sub_floored(x: usize, d: usize) -> (r: usize)
    ensures
        r == floor_sub(x, d as int),
{
    if x >= d {
        x - d
    } else {
        0
    }
}

fn thumb(maxsb: usize, track: usize, grid_row: usize) -> (r: usize)
    requires
        track > 1,
        grid_row <= track - 1,
    ensures
        r == thumb_offset(maxsb, track as int, grid_row as int),
{
    let k: usize = track - 1 - grid_row;
    let d: usize = track - 1;
    assert((maxsb as int) * (k as int) <= (maxsb as int) * (d as int)) by (nonlinear_arith)
        requires
            0 <= k <= d,
            0 <= maxsb,
    ;
    assert((maxsb as int) * (d as int) <= 0xffff_ffff_ffff_ffff_ffff_ffff_ffff_ffff) by (nonlinear_arith)
        requires
            0 <= d <= 0xffff_ffff_ffff_ffff,
            0 <= maxsb <= 0xffff_ffff_ffff_ffff,
    ;
    let num: u128 = (maxsb as u128) * (k as u128);
    let q: u128 = num / (d as u128);
    assert(q <= maxsb) by (nonlinear_arith)
        requires
            q as int == (num as int) / (d as int),
            num as int <= (maxsb as int) * (d as int),
            d > 0,
            maxsb >= 0,
    ;
    q as usize
}

fn push_action(actions: &mut Vec<InputAction>, a: InputAction)
    ensures
        actions_view(final(actions)@) == actions_view(old(actions)@).push(action_view(a)),
{
    let ghost av = action_view(a);
    actions.push(a);
    assert(actions_view(final(actions)@) =~= actions_view(old(actions)@).push(av));
}

impl InputState {
    /// A state outside COMMAND mode, scrolled to the live view, that
    /// enters COMMAND mode on `prefix_key`.
    pub fn new(prefix_key: u8) -> (s: InputState)
        ensures
            !s@.command_mode,
            s@.scroll_offset == 0,
            s@.prefix_key == prefix_key,
            !s@.dragging,
            s@.pending == Seq::<u8>::empty(),
    {
        InputState {
            command_mode: false,
            scroll_offset: 0,
            prefix_key,
            dragging_scrollbar: false,
            pending: Vec::new(),
        }
    }

    fn mouse(&mut self, ev: SgrMouseEvent, rows: u16, cols: u16, maxsb: usize, actions: &mut Vec<InputAction>) -> (stop: bool)
        ensures
            final(self)@ == mouse_step(old(self)@, ev, rows, cols, maxsb).0,
            actions_view(final(actions)@) == actions_view(old(actions)@) + mouse_step(old(self)@, ev, rows, cols, maxsb).1,
            stop == mouse_step(old(self)@, ev, rows, cols, maxsb).2,
    {
        let ghost a0 = actions_view(actions@);
        if ev.button == 0 && ev.pressed && ev.row == 1 && cols > 0 && ev.col == cols - 1 {
            push_action(actions, InputAction::Detach);
            assert(actions_view(actions@) =~= a0 + seq![ActionModel::Detach]);
            return true;
        }
        if ev.button == 64 {
            self.scroll_offset = add_capped(self.scroll_offset, 3, maxsb);
            push_action(actions, InputAction::Redraw);
            assert(actions_view(actions@) =~= a0 + seq![ActionModel::Redraw]);
        } else if ev.button == 65 {
            self.scroll_offset = sub_floored(self.scroll_offset, 3);
            push_action(actions, InputAction::Redraw);
            assert(actions_view(actions@) =~= a0 + seq![ActionModel::Redraw]);
        } else if ev.button == 0 && ev.pressed && maxsb > 0 && ev.col == cols && ev.row >= 2 {
            let grid_row = (ev.row - 2) as usize;
            let track = rows as usize;
            if grid_row < track && track > 1 {
                self.scroll_offset = thumb(maxsb, track, grid_row);
                self.dragging_scrollbar = true;
                push_action(actions, InputAction::Redraw);
                assert(actions_view(actions@) =~= a0 + seq![ActionModel::Redraw]);
            } else {
                assert(actions_view(actions@) =~= a0 + Seq::<ActionModel>::empty());
            }
        } else if ev.button == 32 && ev.pressed && self.dragging_scrollbar && maxsb > 0 {
            let track = rows as usize;
            if track > 1 {
                let below: usize = if ev.row >= 2 { (ev.row - 2) as usize } else { 0 };
                let grid_row = if below <= track - 1 { below } else { track - 1 };
                self.scroll_offset = thumb(maxsb, track, grid_row);
                push_action(actions, InputAction::Redraw);
                assert(actions_view(actions@) =~= a0 + seq![ActionModel::Redraw]);
            } else {
                assert(actions_view(actions@) =~= a0 + Seq::<ActionModel>::empty());
            }
        } else if ev.button == 0 && !ev.pressed {
            self.dragging_scrollbar = false;
            assert(actions_view(actions@) =~= a0 + Seq::<ActionModel>::empty());
        } else {
            assert(actions_view(actions@) =~= a0 + Seq::<ActionModel>::empty());
        }
        false
    }

    fn command(&mut self, data: &[u8], i: usize, rows: u16, maxsb: usize, actions: &mut Vec<InputAction>) -> (next: Option<usize>)
        requires
            i < data@.len(),
        ensures
            final(self)@ == command_step(old(self)@, data@, i as int, rows, maxsb).0,
            actions_view(final(actions)@) == actions_view(old(actions)@) + command_step(old(self)@, data@, i as int, rows, maxsb).1,
            match command_step(old(self)@, data@, i as int, rows, maxsb).2 {
                None => next is None,
                Some(n) => next matches Some(k) && k as int == n && i < k <= data@.len(),
            },
    {
        let ghost a0 = actions_view(actions@);
        let b = data[i];
        let half = (rows / 2) as usize;
        let n = data.len();
        if b == 0x1b && (i + 1 >= n || data[i + 1] != 91) {
            self.command_mode = false;
            self.scroll_offset = 0;
            push_action(actions, InputAction::Redraw);
            assert(actions_view(actions@) =~= a0 + seq![ActionModel::Redraw]);
            return Some(i + 1);
        }
        if b == 0x11 {
            push_action(actions, InputAction::Detach);
            assert(actions_view(actions@) =~= a0 + seq![ActionModel::Detach]);
            return None;
        }
        if b == 0x18 {
            push_action(actions, InputAction::Kill);
            assert(actions_view(actions@) =~= a0 + seq![ActionModel::Kill]);
            return Some(i + 1);
        }
        let (offset, step) = if b == 0x10 {
            (add_capped(self.scroll_offset, 1, maxsb), 1)
        } else if b == 0x0e {
            (sub_floored(self.scroll_offset, 1), 1)
        } else if b == 0x15 {
            (add_capped(self.scroll_offset, half, maxsb), 1)
        } else if b == 0x04 {
            (sub_floored(self.scroll_offset, half), 1)
        } else if b == 0x1b && n - i > 2 && data[i + 1] == 91 && data[i + 2] == 65 {
            (add_capped(self.scroll_offset, 1, maxsb), 3)
        } else if b == 0x1b && n - i > 2 && data[i + 1] == 91 && data[i + 2] == 66 {
            (sub_floored(self.scroll_offset, 1), 3)
        } else if b == 0x1b && n - i > 3 && data[i + 1] == 91 && data[i + 2] == 53 && data[i + 3] == 126 {
            (add_capped(self.scroll_offset, half, maxsb), 4)
        } else if b == 0x1b && n - i > 3 && data[i + 1] == 91 && data[i + 2] == 54 && data[i + 3] == 126 {
            (sub_floored(self.scroll_offset, half), 4)
        } else {
            assert(actions_view(actions@) =~= a0 + Seq::<ActionModel>::empty());
            return Some(i + 1);
        };
        self.scroll_offset = offset;
        push_action(actions, InputAction::Redraw);
        assert(actions_view(actions@) =~= a0 + seq![ActionModel::Redraw]);
        Some(i + step)
    }
}

fn plain_run_end(data: &[u8], i: usize, prefix: u8) -> (end: usize)
    requires
        i <= data@.len(),
    ensures
        end as int == plain_end(data@, i as int, prefix),
        i <= end <= data@.len(),
{
    let mut k = i;
    while k < data.len() && data[k] != prefix && data[k] != 0x1b
        invariant
            i <= k <= data@.len(),
            plain_end(data@, i as int, prefix) == plain_end(data@, k as int, prefix),
        decreases data@.len() - k,
    {
        k = k + 1;
    }
    k
}

fn escape_run_end(data: &[u8], i: usize) -> (end: usize)
    requires
        i < data@.len(),
    ensures
        end as int == escape_end(data@, i as int),
        i < end <= data@.len(),
{
    let n = data.len();
    if i + 1 < n && data[i + 1] == 91 {
        let mut j = i + 2;
        while j < n && 0x20 <= data[j] && data[j] < 0x40
            invariant
                i + 2 <= j <= n,
                n == data@.len(),
                params_end(data@, i + 2) == params_end(data@, j as int),
            decreases n - j,
        {
            j = j + 1;
        }
        if j < n && data[j] >= 0x40 {
            j + 1
        } else {
            j
        }
    } else {
        i + 1
    }
}

/// Whether the escape at `i` is cut short (see [`incomplete_escape`]).
fn escape_is_incomplete(data: &[u8], i: usize) -> (r: bool)
    requires
        i < data@.len(),
    ensures
        r == incomplete_escape(data@, i as int),
{
    let n = data.len();
    if i + 1 >= n {
        return true;
    }
    if data[i + 1] != 91 {
        return false;
    }
    let mut t = i + 2;
    while t < n
        invariant
            i + 2 <= t <= n,
            n == data@.len(),
            forall|q: int| i + 2 <= q < t ==> #[trigger] data@[q] < 0x40,
        decreases n - t,
    {
        if data[t] >= 0x40 {
            return false;
        }
        t = t + 1;
    }
    true
}

fn copy_range(data: &[u8], from: usize, to: usize) -> (r: Vec<u8>)
    requires
        from <= to <= data@.len(),
    ensures
        r@ == data@.subrange(from as int, to as int),
{
    let mut r: Vec<u8> = Vec::new();
    let mut k = from;
    while k < to
        invariant
            from <= k <= to,
            to <= data@.len(),
            r@ == data@.subrange(from as int, k as int),
        decreases to - k,
    {
        r.push(data[k]);
        k = k + 1;
        assert(r@ =~= data@.subrange(from as int, k as int));
    }
    r
}

fn normal(m: Ghost<InputModel>, data: &[u8], i: usize, prefix: u8, actions: &mut Vec<InputAction>) -> (next: usize)
    requires
        i < data@.len(),
        m@.prefix_key == prefix,
    ensures
        actions_view(final(actions)@) == actions_view(old(actions)@) + normal_step(m@, data@, i as int).1,
        normal_step(m@, data@, i as int).2 == Some(next as int),
        i < next <= data@.len(),
{
    let ghost a0 = actions_view(actions@);
    let end = plain_run_end(data, i, prefix);
    if end > i {
        let v = copy_range(data, i, end);
        push_action(actions, InputAction::Forward(v));
        assert(actions_view(actions@) =~= a0 + seq![ActionModel::Forward(data@.subrange(i as int, end as int))]);
        end
    } else if data[i] == 0x1b {
        let j = escape_run_end(data, i);
        let v = copy_range(data, i, j);
        push_action(actions, InputAction::Forward(v));
        assert(actions_view(actions@) =~= a0 + seq![ActionModel::Forward(data@.subrange(i as int, j as int))]);
        j
    } else {
        assert(actions_view(actions@) =~= a0 + Seq::<ActionModel>::empty());
        i + 1
    }
}

impl InputState {
    fn step_at(
        &mut self,
        data: &[u8],
        i: usize,
        rows: u16,
        cols: u16,
        maxsb: usize,
        allow_buffer: bool,
        actions: &mut Vec<InputAction>,
    ) -> (next: Option<usize>)
        requires
            i < data@.len(),
        ensures
            final(self)@ == step(old(self)@, data@, i as int, rows, cols, maxsb, allow_buffer).0,
            actions_view(final(actions)@) == actions_view(old(actions)@) + step(
                old(self)@,
                data@,
                i as int,
                rows,
                cols,
                maxsb,
                allow_buffer,
            ).1,
            match step(old(self)@, data@, i as int, rows, cols, maxsb, allow_buffer).2 {
                None => next is None,
                Some(n) => next matches Some(k) && k as int == n && i < k <= data@.len(),
            },
    {
        let ghost a0 = actions_view(actions@);
        let b = data[i];
        if allow_buffer && b == 0x1b && escape_is_incomplete(data, i) {
            self.pending = copy_range(data, i, data.len());
            assert(actions_view(actions@) =~= a0 + Seq::<ActionModel>::empty());
            return None;
        }
        match parse_sgr_mouse(data, i) {
            Some((ev, n)) => {
                let stop = self.mouse(ev, rows, cols, maxsb, actions);
                if stop {
                    None
                } else {
                    Some(i + n)
                }
            },
            None => {
                if self.command_mode {
                    self.command(data, i, rows, maxsb, actions)
                } else if b == self.prefix_key {
                    self.command_mode = true;
                    push_action(actions, InputAction::Redraw);
                    assert(actions_view(actions@) =~= a0 + seq![ActionModel::Redraw]);
                    Some(i + 1)
                } else {
                    let next = normal(Ghost(self@), data, i, self.prefix_key, actions);
                    Some(next)
                }
            },
        }
    }

    fn process_inner(&mut self, data: &[u8], rows: u16, cols: u16, maxsb: usize, allow_buffer: bool) -> (r: Vec<InputAction>)
        ensures
            (final(self)@, actions_view(r@)) == run(old(self)@, data@, 0, rows, cols, maxsb, allow_buffer, Seq::empty()),
    {
        let mut actions: Vec<InputAction> = Vec::new();
        let mut i: usize = 0;
        assert(actions_view(actions@) =~= Seq::<ActionModel>::empty());
        while i < data.len()
            invariant
                i <= data@.len(),
                run(self@, data@, i as int, rows, cols, maxsb, allow_buffer, actions_view(actions@)) == run(
                    old(self)@,
                    data@,
                    0,
                    rows,
                    cols,
                    maxsb,
                    allow_buffer,
                    Seq::empty(),
                ),
            decreases data@.len() - i,
        {
            let next = self.step_at(data, i, rows, cols, maxsb, allow_buffer, &mut actions);
            match next {
                None => {
                    return actions;
                },
                Some(n) => {
                    i = n;
                },
            }
        }
        actions
    }

    /// Processes bytes read from the terminal, after any bytes of an escape
    /// sequence the last read cut short; `rows` is the height of the pane
    /// (half of it is the page step), `cols` the width of the terminal,
    /// `max_scrollback` how far the view can scroll back.
    pub fn process(&mut self, new_data: &[u8], rows: u16, cols: u16, max_scrollback: usize) -> (r: Vec<InputAction>)
        ensures
            (final(self)@, actions_view(r@)) == process_all(
                old(self)@,
                old(self)@.pending + new_data@,
                rows,
                cols,
                max_scrollback,
                true,
            ),
    {
        let mut buf: Vec<u8> = Vec::new();
        let mut k: usize = 0;
        while k < self.pending.len()
            invariant
                k <= self.pending@.len(),
                self@ == old(self)@,
                buf@ == self.pending@.subrange(0, k as int),
            decreases self.pending@.len() - k,
        {
            buf.push(self.pending[k]);
            k = k + 1;
            assert(buf@ =~= self.pending@.subrange(0, k as int));
        }
        let mut t: usize = 0;
        while t < new_data.len()
            invariant
                t <= new_data@.len(),
                self@ == old(self)@,
                buf@ == self.pending@ + new_data@.subrange(0, t as int),
            decreases new_data@.len() - t,
        {
            buf.push(new_data[t]);
            t = t + 1;
            assert(buf@ =~= self.pending@ + new_data@.subrange(0, t as int));
        }
        assert(buf@ =~= old(self)@.pending + new_data@);
        self.pending = Vec::new();
        assert(self@ == InputModel { pending: Seq::empty(), ..old(self)@ });
        self.process_inner(buf.as_slice(), rows, cols, max_scrollback, true)
    }

    /// Processes the bytes held back from an escape sequence that was cut
    /// short, once no more input followed in time: whatever is there is
    /// taken as final. Nothing happens when nothing is held back.
    pub fn flush_pending(&mut self, rows: u16, cols: u16, max_scrollback: usize) -> (r: Vec<InputAction>)
        ensures
            old(self)@.pending.len() == 0 ==> final(self)@ == old(self)@ && r@.len() == 0,
            old(self)@.pending.len() > 0 ==> (final(self)@, actions_view(r@)) == process_all(
                old(self)@,
                old(self)@.pending,
                rows,
                cols,
                max_scrollback,
                false,
            ),
    {
        if self.pending.len() == 0 {
            return Vec::new();
        }
        let data = copy_range(self.pending.as_slice(), 0, self.pending.len());
        assert(data@ =~= old(self)@.pending);
        self.pending = Vec::new();
        assert(self@ == InputModel { pending: Seq::empty(), ..old(self)@ });
        self.process_inner(data.as_slice(), rows, cols, max_scrollback, false)
    }
}

// ---------------------------------------------------------------------------
// Laws
// ---------------------------------------------------------------------------

proof fn lemma_thumb_le(maxsb: usize, track: int, grid_row: int)
    requires
        track > 1,
        0 <= grid_row <= track - 1,
    ensures
        thumb_offset(maxsb, track, grid_row) <= maxsb,
{
    let k = track - 1 - grid_row;
    let d = track - 1;
    assert((maxsb as int) * k / d <= maxsb) by (nonlinear_arith)
        requires
            0 <= k <= d,
            d > 0,
            maxsb >= 0,
    {
        assert((maxsb as int) * k <= (maxsb as int) * d);
    }
}

proof fn lemma_step_scroll(m: InputModel, data: Seq<u8>, i: int, rows: u16, cols: u16, maxsb: usize, allow: bool, bound: usize)
    requires
        0 <= i < data.len(),
        m.scroll_offset <= bound,
        maxsb <= bound,
    ensures
        step(m, data, i, rows, cols, maxsb, allow).0.scroll_offset <= bound,
{
    match sgr_at(data, i) {
        Some((ev, n)) => {
            if ev.button == 0 && ev.pressed && maxsb > 0 && ev.col == cols && ev.row >= 2 && (ev.row - 2) < rows
                && rows > 1 {
                lemma_thumb_le(maxsb, rows as int, ev.row - 2);
            }
            if rows > 1 {
                let below = if ev.row >= 2 { ev.row - 2 } else { 0 };
                let grid_row = if below <= rows - 1 { below } else { rows - 1 };
                lemma_thumb_le(maxsb, rows as int, grid_row);
            }
        },
        None => {},
    }
}

proof fn lemma_run_scroll(
    m: InputModel,
    data: Seq<u8>,
    i: int,
    rows: u16,
    cols: u16,
    maxsb: usize,
    allow: bool,
    acts: Seq<ActionModel>,
    bound: usize,
)
    requires
        m.scroll_offset <= bound,
        maxsb <= bound,
    ensures
        run(m, data, i, rows, cols, maxsb, allow, acts).0.scroll_offset <= bound,
    decreases data.len() - i,
{
    if 0 <= i < data.len() {
        let (m2, a, next) = step(m, data, i, rows, cols, maxsb, allow);
        lemma_step_scroll(m, data, i, rows, cols, maxsb, allow, bound);
        match next {
            Some(n) => if i < n <= data.len() {
                lemma_run_scroll(m2, data, n, rows, cols, maxsb, allow, acts + a, bound);
            },
            None => {},
        }
    }
}

/// However the input goes, the view never scrolls back further than the
/// scrollback holds, unless it already was.
pub proof fn lemma_scroll_bounded(m: InputModel, data: Seq<u8>, rows: u16, cols: u16, maxsb: usize, allow: bool)
    ensures
        process_all(m, data, rows, cols, maxsb, allow).0.scroll_offset <= if m.scroll_offset <= maxsb {
            maxsb
        } else {
            m.scroll_offset
        },
{
    let bound = if m.scroll_offset <= maxsb { maxsb } else { m.scroll_offset };
    lemma_run_scroll(InputModel { pending: Seq::empty(), ..m }, data, 0, rows, cols, maxsb, allow, Seq::empty(), bound);
}

proof fn lemma_plain_end_all(data: Seq<u8>, k: int, prefix: u8)
    requires
        0 <= k <= data.len(),
        forall|t: int| 0 <= t < data.len() ==> #[trigger] data[t] != prefix && data[t] != 0x1b,
    ensures
        plain_end(data, k, prefix) == data.len(),
    decreases data.len() - k,
{
    if k < data.len() {
        lemma_plain_end_all(data, k + 1, prefix);
    }
}

/// Outside COMMAND mode, input without the prefix key and without escapes
/// goes to the program whole, in one write, and changes nothing.
pub proof fn lemma_plain_input_forwarded(m: InputModel, data: Seq<u8>, rows: u16, cols: u16, maxsb: usize, allow: bool)
    requires
        !m.command_mode,
        data.len() > 0,
        forall|t: int| 0 <= t < data.len() ==> #[trigger] data[t] != m.prefix_key && data[t] != 0x1b,
    ensures
        process_all(m, data, rows, cols, maxsb, allow) == (
            InputModel { pending: Seq::empty(), ..m },
            seq![ActionModel::Forward(data)],
        ),
{
    let m0 = InputModel { pending: Seq::empty(), ..m };
    assert(data[0] != 0x1b && data[0] != m.prefix_key);
    lemma_plain_end_all(data, 0, m.prefix_key);
    assert(data.subrange(0, data.len() as int) =~= data);
    assert(step(m0, data, 0, rows, cols, maxsb, allow) == (m0, seq![ActionModel::Forward(data)], Some(data.len() as int)));
    let acts = Seq::<ActionModel>::empty() + seq![ActionModel::Forward(data)];
    assert(acts =~= seq![ActionModel::Forward(data)]);
    assert(run(m0, data, data.len() as int, rows, cols, maxsb, allow, acts) == (m0, acts));
    assert(run(m0, data, 0, rows, cols, maxsb, allow, Seq::empty()) == run(
        m0,
        data,
        data.len() as int,
        rows,
        cols,
        maxsb,
        allow,
        acts,
    ));
}

/// Whether held-back bytes are empty or start with an escape.
pub open spec fn held_escape(m: InputModel) -> bool {
    m.pending.len() == 0 || m.pending[0] == 0x1b
}

proof fn lemma_run_pending(
    m: InputModel,
    data: Seq<u8>,
    i: int,
    rows: u16,
    cols: u16,
    maxsb: usize,
    allow: bool,
    acts: Seq<ActionModel>,
)
    requires
        held_escape(m),
    ensures
        held_escape(run(m, data, i, rows, cols, maxsb, allow, acts).0),
    decreases data.len() - i,
{
    if 0 <= i < data.len() {
        let (m2, a, next) = step(m, data, i, rows, cols, maxsb, allow);
        assert(held_escape(m2));
        match next {
            Some(n) => if i < n <= data.len() {
                lemma_run_pending(m2, data, n, rows, cols, maxsb, allow, acts + a);
            },
            None => {},
        }
    }
}

/// What input leaves held back for the next read is nothing, or an escape
/// sequence that was cut short.
pub proof fn lemma_held_back_is_escape(m: InputModel, data: Seq<u8>, rows: u16, cols: u16, maxsb: usize, allow: bool)
    ensures
        held_escape(process_all(m, data, rows, cols, maxsb, allow).0),
{
    lemma_run_pending(InputModel { pending: Seq::empty(), ..m }, data, 0, rows, cols, maxsb, allow, Seq::empty());
}

/// Whether no action forwards bytes.
pub open spec fn forwards_nothing(acts: Seq<ActionModel>) -> bool {
    forall|k: int| 0 <= k < acts.len() ==> !(#[trigger] acts[k] is Forward)
}

proof fn lemma_run_command(
    m: InputModel,
    data: Seq<u8>,
    i: int,
    rows: u16,
    cols: u16,
    maxsb: usize,
    allow: bool,
    acts: Seq<ActionModel>,
)
    requires
        m.command_mode,
        forall|t: int| 0 <= t < data.len() ==> #[trigger] data[t] != 0x1b,
        forwards_nothing(acts),
    ensures
        run(m, data, i, rows, cols, maxsb, allow, acts).0.command_mode,
        forwards_nothing(run(m, data, i, rows, cols, maxsb, allow, acts).1),
    decreases data.len() - i,
{
    if 0 <= i < data.len() {
        let (m2, a, next) = step(m, data, i, rows, cols, maxsb, allow);
        assert(data[i] != 0x1b);
        assert(m2.command_mode);
        assert(forwards_nothing(acts + a)) by {
            assert forall|k: int| 0 <= k < (acts + a).len() implies !(#[trigger] (acts + a)[k] is Forward) by {
                if k >= acts.len() {
                    assert(a.len() <= 1);
                }
            }
        }
        match next {
            Some(n) => if i < n <= data.len() {
                lemma_run_command(m2, data, n, rows, cols, maxsb, allow, acts + a);
            },
            None => {},
        }
    }
}

/// In COMMAND mode, keys are never passed to the program: input without
/// an escape (the only way out) leaves COMMAND mode on and forwards nothing.
pub proof fn lemma_command_mode_swallows_keys(m: InputModel, data: Seq<u8>, rows: u16, cols: u16, maxsb: usize, allow: bool)
    requires
        m.command_mode,
        forall|t: int| 0 <= t < data.len() ==> #[trigger] data[t] != 0x1b,
    ensures
        process_all(m, data, rows, cols, maxsb, allow).0.command_mode,
        forwards_nothing(process_all(m, data, rows, cols, maxsb, allow).1),
{
    lemma_run_command(InputModel { pending: Seq::empty(), ..m }, data, 0, rows, cols, maxsb, allow, Seq::empty());
}

/// In COMMAND mode Ctrl+P scrolls the view back one line, up to the
/// scrollback's length, and Ctrl+N scrolls it one line toward the live
/// view, stopping there; either way COMMAND mode stays on and processing
/// goes on with the next byte.
pub proof fn lemma_command_scroll_keys(
    m: InputModel,
    data: Seq<u8>,
    i: int,
    rows: u16,
    cols: u16,
    maxsb: usize,
    allow: bool,
)
    requires
        m.command_mode,
        0 <= i < data.len(),
        data[i] == 0x10 || data[i] == 0x0e,
    ensures
        ({
            let (m2, a, next) = step(m, data, i, rows, cols, maxsb, allow);
            &&& next == Some(i + 1)
            &&& m2.command_mode
            &&& data[i] == 0x0e ==> m2.scroll_offset == if m.scroll_offset >= 1 {
                m.scroll_offset - 1
            } else {
                0
            }
            &&& data[i] == 0x10 ==> m2.scroll_offset == if m.scroll_offset < maxsb {
                m.scroll_offset + 1
            } else {
                maxsb as int
            }
        }),
{
}

/// In COMMAND mode the arrows scroll as Ctrl+P and Ctrl+N do (Up one line
/// back, Down one line toward the live view), and Ctrl+U and Ctrl+D by
/// half the rows, back up to the scrollback's length and forward down to
/// the live view.
pub proof fn lemma_command_paging_keys(
    m: InputModel,
    data: Seq<u8>,
    i: int,
    rows: u16,
    cols: u16,
    maxsb: usize,
    allow: bool,
)
    requires
        m.command_mode,
        0 <= i < data.len(),
        !(allow && data[i] == 0x1b && incomplete_escape(data, i)),
        sgr_at(data, i) is None,
    ensures
        ({
            let (m2, a, next) = step(m, data, i, rows, cols, maxsb, allow);
            let off = m.scroll_offset as int;
            let half = rows as int / 2;
            &&& (data[i] == 0x1b && i + 2 < data.len() && data[i + 1] == 91 && data[i + 2] == 65) ==> (
            m2.scroll_offset == if off + 1 <= maxsb {
                off + 1
            } else {
                maxsb as int
            } && next == Some(i + 3))
            &&& (data[i] == 0x1b && i + 2 < data.len() && data[i + 1] == 91 && data[i + 2] == 66) ==> (
            m2.scroll_offset == if off >= 1 {
                off - 1
            } else {
                0
            } && next == Some(i + 3))
            &&& data[i] == 0x15 ==> m2.scroll_offset == if off + half <= maxsb {
                off + half
            } else {
                maxsb as int
            }
            &&& data[i] == 0x04 ==> m2.scroll_offset == if off >= half {
                off - half
            } else {
                0
            }
        }),
{
}

/// The mouse wheel scrolls three lines: up goes back, at most to the
/// scrollback's length, down goes toward the live view, stopping there.
pub proof fn lemma_wheel_scrolls(m: InputModel, ev: SgrMouseEvent, rows: u16, cols: u16, maxsb: usize)
    requires
        ev.button == 64 || ev.button == 65,
    ensures
        ({
            let (m2, a, stop) = mouse_step(m, ev, rows, cols, maxsb);
            let off = m.scroll_offset as int;
            &&& !stop
            &&& ev.button == 64 ==> m2.scroll_offset == if off + 3 <= maxsb {
                off + 3
            } else {
                maxsb as int
            }
            &&& ev.button == 65 ==> m2.scroll_offset == if off >= 3 {
                off - 3
            } else {
                0
            }
        }),
{
}

/// In COMMAND mode, Ctrl+P followed by Ctrl+N brings the view back to
/// where it was (below the scrollback's length), and Ctrl+N alone never
/// scrolls further back.
pub proof fn lemma_scroll_back_and_forth(m: InputModel, rows: u16, cols: u16, maxsb: usize, allow: bool)
    requires
        m.command_mode,
    ensures
        m.scroll_offset < maxsb ==> process_all(m, seq![0x10u8, 0x0eu8], rows, cols, maxsb, allow).0.scroll_offset
            == m.scroll_offset,
        process_all(m, seq![0x0eu8], rows, cols, maxsb, allow).0.scroll_offset <= m.scroll_offset,
{
    let m0 = InputModel { pending: Seq::empty(), ..m };
    let pn = seq![0x10u8, 0x0eu8];
    lemma_command_scroll_keys(m0, pn, 0, rows, cols, maxsb, allow);
    let (m1, a1, n1) = step(m0, pn, 0, rows, cols, maxsb, allow);
    lemma_command_scroll_keys(m1, pn, 1, rows, cols, maxsb, allow);
    let (m2, a2, n2) = step(m1, pn, 1, rows, cols, maxsb, allow);
    assert(run(m2, pn, 2, rows, cols, maxsb, allow, a1 + a2) == (m2, a1 + a2));
    assert(run(m1, pn, 1, rows, cols, maxsb, allow, Seq::empty() + a1) == (m2, a1 + a2)) by {
        assert(Seq::<ActionModel>::empty() + a1 == a1);
    }
    let n = seq![0x0eu8];
    lemma_command_scroll_keys(m0, n, 0, rows, cols, maxsb, allow);
    let (k1, b1, j1) = step(m0, n, 0, rows, cols, maxsb, allow);
    assert(run(k1, n, 1, rows, cols, maxsb, allow, Seq::empty() + b1) == (k1, Seq::empty() + b1));
}

// ---------------------------------------------------------------------------
// The frame: header bar and scrollbar
// ---------------------------------------------------------------------------

/// The number of bytes UTF-8 takes for `c`.
pub open spec fn utf8_width(c: char) -> nat {
    if (c as u32) < 0x80 {
        1
    } else if (c as u32) < 0x800 {
        2
    } else if (c as u32) < 0x10000 {
        3
    } else {
        4
    }
}

/// The length of `s` in bytes of UTF-8.
pub open spec fn byte_len(s: Seq<char>) -> nat
    decreases s.len(),
{
    if s.len() == 0 {
        0
    } else {
        byte_len(s.drop_last()) + utf8_width(s.last())
    }
}

/// The UTF-8 length of `s` in bytes, or `usize::MAX` if it were longer.
pub fn byte_len_of(s: &str) -> (r: usize)
    ensures
        r == if byte_len(s@) <= usize::MAX { byte_len(s@) } else { usize::MAX as nat },
{
    let v = crate::text::chars_of(s);
    let mut acc: usize = 0;
    let mut big = false;
    let mut i: usize = 0;
    while i < v.len()
        invariant
            v@ == s@,
            i <= v@.len(),
            !big ==> acc == byte_len(s@.subrange(0, i as int)),
            big ==> byte_len(s@.subrange(0, i as int)) > usize::MAX && acc == usize::MAX,
        decreases v@.len() - i,
    {
        let c = v[i];
        let w: usize = if (c as u32) < 0x80 {
            1
        } else if (c as u32) < 0x800 {
            2
        } else if (c as u32) < 0x10000 {
            3
        } else {
            4
        };
        assert(s@.subrange(0, i + 1).drop_last() =~= s@.subrange(0, i as int));
        assert(s@.subrange(0, i + 1).last() == c);
        if !big {
            if acc > usize::MAX - w {
                big = true;
                acc = usize::MAX;
            } else {
                acc = acc + w;
            }
        }
        i = i + 1;
    }
    assert(s@.subrange(0, i as int) =~= s@);
    acc
}

/// `n` spaces.
pub open spec fn spaces(n: nat) -> Seq<char> {
    Seq::new(n, |k: int| ' ')
}

/// The left part of the header: COMMAND mode, or the session (after its
/// project, when there is one).
pub open spec fn header_left(session: Seq<char>, project: Seq<char>, command_mode: bool) -> Seq<char> {
    if command_mode {
        " COMMAND "@
    } else if project.len() == 0 {
        " "@ + session + " "@
    } else {
        " "@ + project + " > "@ + session + " "@
    }
}

/// Where the view is while scrolled back: ` [offset/max] `.
pub open spec fn scroll_indicator(offset: usize, max: usize) -> Seq<char> {
    if offset > 0 {
        " ["@ + crate::text::decimal(offset as nat) + "/"@ + crate::text::decimal(max as nat) + "] "@
    } else {
        ""@
    }
}

/// The keys of COMMAND mode, shown while in it.
pub open spec fn help_hint(command_mode: bool) -> Seq<char> {
    if command_mode {
        " ^P/^N scroll  ^Q detach  ^X stop  Esc exit "@
    } else {
        ""@
    }
}

/// The header bar `width` columns wide: the left part, padding, the help
/// while in COMMAND mode, the scroll position while scrolled back, and the
/// close button `x`. Widths are counted in bytes.
pub open spec fn header_text(
    width: u16,
    session: Seq<char>,
    project: Seq<char>,
    offset: usize,
    max: usize,
    command_mode: bool,
) -> Seq<char> {
    let left = header_left(session, project, command_mode);
    let st = scroll_indicator(offset, max);
    let help = help_hint(command_mode);
    let right_len = byte_len(st) + byte_len(help) + 2;
    let room: int = width as int - byte_len(left);
    let room1: int = if room > 0 { room } else { 0 };
    let pad: int = if room1 - right_len > 0 { room1 - right_len } else { 0 };
    left + spaces(pad as nat) + help + st + "x "@
}

fn push_spaces(s: &mut String, n: usize)
    ensures
        final(s)@ == old(s)@ + spaces(n as nat),
{
    let mut k: usize = 0;
    while k < n
        invariant
            k <= n,
            s@ == old(s)@ + spaces(k as nat),
        decreases n - k,
    {
        crate::text::push_char(s, ' ');
        k = k + 1;
        assert(s@ =~= old(s)@ + spaces(k as nat));
    }
}

/// Formats the header bar (see [`header_text`]).
pub fn header(width: u16, session: &str, project: &str, offset: usize, max: usize, command_mode: bool) -> (r: String)
    ensures
        r@ == header_text(width, session@, project@, offset, max, command_mode),
{
    let left = if command_mode {
        " COMMAND ".to_string()
    } else if project.unicode_len() == 0 {
        let mut l = crate::text::concat_str(" ", session);
        crate::text::append_str(&mut l, " ");
        l
    } else {
        let mut l = crate::text::concat_str(" ", project);
        crate::text::append_str(&mut l, " > ");
        crate::text::append_str(&mut l, session);
        crate::text::append_str(&mut l, " ");
        l
    };
    let st = if offset > 0 {
        let mut t = " [".to_string();
        let a = crate::text::decimal_str(offset);
        crate::text::append_str(&mut t, a.as_str());
        crate::text::append_str(&mut t, "/");
        let b = crate::text::decimal_str(max);
        crate::text::append_str(&mut t, b.as_str());
        crate::text::append_str(&mut t, "] ");
        t
    } else {
        String::new()
    };
    let help = if command_mode { " ^P/^N scroll  ^Q detach  ^X stop  Esc exit " } else { "" };
    let st_len = byte_len_of(st.as_str());
    let help_len = byte_len_of(help);
    let left_len = byte_len_of(left.as_str());
    let room: usize = if (width as usize) > left_len { width as usize - left_len } else { 0 };
    let right_len: usize = if help_len <= usize::MAX - 2 && st_len <= usize::MAX - help_len - 2 {
        st_len + help_len + 2
    } else {
        usize::MAX
    };
    let pad: usize = if room > right_len { room - right_len } else { 0 };
    assert(left@ == header_left(session@, project@, command_mode));
    proof {
        reveal_strlit("");
    }
    assert(st@ == scroll_indicator(offset, max));
    assert(help@ == help_hint(command_mode));
    proof {
        let rl = byte_len(st@) + byte_len(help@) + 2;
        let room_s: int = width as int - byte_len(left@);
        let room1: int = if room_s > 0 { room_s } else { 0 };
        assert(room as int == room1);
        let pad_s: int = if room1 - rl > 0 { room1 - rl } else { 0 };
        assert(pad as int == pad_s);
    }
    let mut r = left;
    push_spaces(&mut r, pad);
    crate::text::append_str(&mut r, help);
    crate::text::append_str(&mut r, st.as_str());
    crate::text::append_str(&mut r, "x ");
    r
}

/// The scrollbar thumb on a track `track` rows high, for a scrollback of
/// `max` lines scrolled back by `offset`: its first row and its height.
/// It is at least one row, proportional to the visible share, and at the
/// top when scrolled back all the way.
pub open spec fn thumb_rows(max: usize, track: u16, offset: usize) -> Option<(int, int)> {
    if max == 0 || track == 0 {
        None
    } else {
        let t = track as int;
        let total = max + t;
        let size0 = t * t / total;
        let size = if size0 >= 1 { size0 } else { 1 };
        let max_top = if t >= size { t - size } else { 0 };
        let top = offset * max_top / (max as int);
        Some((max_top - top, size))
    }
}

/// Computes the scrollbar thumb (see [`thumb_rows`]).
pub fn scrollbar_thumb(max: usize, track: u16, offset: usize) -> (r: Option<(usize, usize)>)
    requires
        offset <= max,
    ensures
        match thumb_rows(max, track, offset) {
            Some((start, size)) => r matches Some((a, b)) && a as int == start && b as int == size,
            None => r is None,
        },
{
    if max == 0 || track == 0 {
        return None;
    }
    let t = track as u128;
    let total = (max as u128) + t;
    assert(t * t <= 0xffff_ffff) by (nonlinear_arith)
        requires
            t <= 0xffff,
    ;
    let size0 = t * t / total;
    let size: u128 = if size0 >= 1 { size0 } else { 1 };
    assert(size0 <= t) by (nonlinear_arith)
        requires
            size0 as int == (t as int) * (t as int) / (total as int),
            total >= t,
            t > 0,
    ;
    let max_top: u128 = if t >= size { t - size } else { 0 };
    assert((offset as int) * (max_top as int) <= (max as int) * (max_top as int)) by (nonlinear_arith)
        requires
            offset <= max,
            max_top >= 0,
    ;
    assert((max as int) * (max_top as int) <= 0xffff_ffff_ffff_ffff * 0xffff) by (nonlinear_arith)
        requires
            max <= 0xffff_ffff_ffff_ffff,
            max_top <= 0xffff,
    ;
    let prod: u128 = (offset as u128) * max_top;
    let top: u128 = prod / (max as u128);
    assert(top <= max_top) by (nonlinear_arith)
        requires
            top as int == (prod as int) / (max as int),
            prod <= (max as int) * (max_top as int),
            max > 0,
    ;
    Some(((max_top - top) as usize, size as usize))
}

} // verus!
