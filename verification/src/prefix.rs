//! Input of the standalone multiplexer: `Ctrl+B` commands (`d` detach,
//! `x` stop, `[` scroll back, `?` help) and the scrollback mode they open.
use vstd::prelude::*;
use crate::terminal::{capped_add, floor_sub};

verus! {

/// The prefix byte, `Ctrl+B`.
pub const PREFIX: u8 = 0x02;

/// What input asks the caller to do.
#[derive(Debug)]
pub enum PrefixAction {
    /// Write bytes to the program.
    Forward(Vec<u8>),
    /// Detach (processing stops).
    Detach,
    /// Stop the program (processing stops).
    Stop,
    /// Draw again.
    Redraw,
}

/// An action as the contracts see it.
pub enum PrefixActionModel {
    Forward(Seq<u8>),
    Detach,
    Stop,
    Redraw,
}

pub open spec fn prefix_action_view(a: PrefixAction) -> PrefixActionModel {
    match a {
        PrefixAction::Forward(v) => PrefixActionModel::Forward(v@),
        PrefixAction::Detach => PrefixActionModel::Detach,
        PrefixAction::Stop => PrefixActionModel::Stop,
        PrefixAction::Redraw => PrefixActionModel::Redraw,
    }
}

pub open spec fn prefix_actions_view(v: Seq<PrefixAction>) -> Seq<PrefixActionModel> {
    v.map_values(|a: PrefixAction| prefix_action_view(a))
}

/// The input state: whether `Ctrl+B` was just pressed, how far the view
/// is scrolled back, whether scrollback mode is on, and whether the help
/// line is shown.
#[derive(Debug, Clone, Copy, PartialEq, Eq, Structural)]
pub struct PrefixState {
    pub prefix_active: bool,
    pub scroll_offset: usize,
    pub scrollback_mode: bool,
    pub show_help: bool,
}

/// The end of a run of bytes from `k` on that holds no prefix byte.
pub open spec fn until_prefix(data: Seq<u8>, k: int) -> int
    decreases data.len() - k,
{
    if k < 0 || k >= data.len() || data[k] == PREFIX {
        k
    } else {
        until_prefix(data, k + 1)
    }
}

/// What the input at position `i` does: the new state, the actions, and
/// where processing goes on (`None` to stop). `half` is half the pane's
/// height, `max_scroll` how far the view may scroll back.
pub open spec fn prefix_step(s: PrefixState, data: Seq<u8>, i: int, half: usize, max_scroll: usize) -> (PrefixState, Seq<PrefixActionModel>, Option<int>) {
    let b = data[i];
    let off = s.scroll_offset;
    let csi = b == 0x1b && i + 2 < data.len() && data[i + 1] == 91;
    if s.scrollback_mode {
        if csi && data[i + 2] == 65 {
            let o = if off < max_scroll { (off + 1) as usize } else { off };
            (PrefixState { scroll_offset: o, ..s }, seq![PrefixActionModel::Redraw], Some(i + 3))
        } else if csi && data[i + 2] == 66 {
            let o = floor_sub(off, 1);
            (PrefixState { scroll_offset: o, scrollback_mode: o != 0, ..s }, seq![PrefixActionModel::Redraw], Some(i + 3))
        } else if csi && data[i + 2] == 53 && i + 3 < data.len() && data[i + 3] == 126 {
            (
                PrefixState { scroll_offset: capped_add(off, half as int, max_scroll), ..s },
                seq![PrefixActionModel::Redraw],
                Some(i + 4),
            )
        } else if csi && data[i + 2] == 54 && i + 3 < data.len() && data[i + 3] == 126 {
            let o = floor_sub(off, half as int);
            (PrefixState { scroll_offset: o, scrollback_mode: o != 0, ..s }, seq![PrefixActionModel::Redraw], Some(i + 4))
        } else if b == 113 || (b == 0x1b && (i + 1 >= data.len() || data[i + 1] != 91)) {
            (PrefixState { scrollback_mode: false, scroll_offset: 0, ..s }, seq![PrefixActionModel::Redraw], Some(i + 1))
        } else {
            (s, Seq::empty(), Some(i + 1))
        }
    } else if s.prefix_active {
        let s2 = PrefixState { prefix_active: false, ..s };
        if b == 100 {
            (s2, seq![PrefixActionModel::Detach], None)
        } else if b == 120 {
            (s2, seq![PrefixActionModel::Stop], None)
        } else if b == 91 {
            (PrefixState { scrollback_mode: true, ..s2 }, seq![PrefixActionModel::Redraw], Some(i + 1))
        } else if b == 63 {
            (PrefixState { show_help: !s.show_help, ..s2 }, seq![PrefixActionModel::Redraw], Some(i + 1))
        } else if b == PREFIX {
            (s2, seq![PrefixActionModel::Forward(seq![PREFIX])], Some(i + 1))
        } else {
            (s2, seq![PrefixActionModel::Forward(seq![PREFIX, b])], Some(i + 1))
        }
    } else if b == PREFIX {
        (PrefixState { prefix_active: true, ..s }, Seq::empty(), Some(i + 1))
    } else {
        let end = until_prefix(data, i);
        (s, seq![PrefixActionModel::Forward(data.subrange(i, end))], Some(end))
    }
}

/// Processing `data` from position `i` on, with the actions `acts` so far.
pub open spec fn prefix_run(
    s: PrefixState,
    data: Seq<u8>,
    i: int,
    half: usize,
    max_scroll: usize,
    acts: Seq<PrefixActionModel>,
) -> (PrefixState, Seq<PrefixActionModel>)
    decreases data.len() - i,
{
    if i < 0 || i >= data.len() {
        (s, acts)
    } else {
        let (s2, a, next) = prefix_step(s, data, i, half, max_scroll);
        match next {
            None => (s2, acts + a),
            Some(n) => if i < n <= data.len() {
                prefix_run(s2, data, n, half, max_scroll, acts + a)
            } else {
                (s2, acts + a)
            },
        }
    }
}

fn push_prefix_action(actions: &mut Vec<PrefixAction>, a: PrefixAction)
    ensures
        prefix_actions_view(final(actions)@) == prefix_actions_view(old(actions)@).push(prefix_action_view(a)),
{
    let ghost av = prefix_action_view(a);
    actions.push(a);
    assert(prefix_actions_view(final(actions)@) =~= prefix_actions_view(old(actions)@).push(av));
}

fn prefix_step_exec(
    s: &mut PrefixState,
    data: &[u8],
    i: usize,
    half: usize,
    max_scroll: usize,
    actions: &mut Vec<PrefixAction>,
) -> (next: Option<usize>)
    requires
        i < data@.len(),
    ensures
        *final(s) == prefix_step(*old(s), data@, i as int, half, max_scroll).0,
        prefix_actions_view(final(actions)@) == prefix_actions_view(old(actions)@) + prefix_step(
            *old(s),
            data@,
            i as int,
            half,
            max_scroll,
        ).1,
        match prefix_step(*old(s), data@, i as int, half, max_scroll).2 {
            None => next is None,
            Some(n) => next matches Some(k) && k as int == n && i < k <= data@.len(),
        },
{
    let ghost a0 = prefix_actions_view(actions@);
    let n = data.len();
    let b = data[i];
    let off = s.scroll_offset;
    let csi = b == 0x1b && n - i > 2 && data[i + 1] == 91;
    if s.scrollback_mode {
        if csi && data[i + 2] == 65 {
            if off < max_scroll {
                s.scroll_offset = off + 1;
            }
            push_prefix_action(actions, PrefixAction::Redraw);
            assert(prefix_actions_view(actions@) =~= a0 + seq![PrefixActionModel::Redraw]);
            return Some(i + 3);
        }
        if csi && data[i + 2] == 66 {
            let o = if off >= 1 { off - 1 } else { 0 };
            s.scroll_offset = o;
            s.scrollback_mode = o != 0;
            push_prefix_action(actions, PrefixAction::Redraw);
            assert(prefix_actions_view(actions@) =~= a0 + seq![PrefixActionModel::Redraw]);
            return Some(i + 3);
        }
        if csi && data[i + 2] == 53 && n - i > 3 && data[i + 3] == 126 {
            let o = if off <= max_scroll && half <= max_scroll - off { off + half } else { max_scroll };
            s.scroll_offset = o;
            push_prefix_action(actions, PrefixAction::Redraw);
            assert(prefix_actions_view(actions@) =~= a0 + seq![PrefixActionModel::Redraw]);
            return Some(i + 4);
        }
        if csi && data[i + 2] == 54 && n - i > 3 && data[i + 3] == 126 {
            let o = if off >= half { off - half } else { 0 };
            s.scroll_offset = o;
            s.scrollback_mode = o != 0;
            push_prefix_action(actions, PrefixAction::Redraw);
            assert(prefix_actions_view(actions@) =~= a0 + seq![PrefixActionModel::Redraw]);
            return Some(i + 4);
        }
        if b == 113 || (b == 0x1b && (n - i <= 1 || data[i + 1] != 91)) {
            s.scrollback_mode = false;
            s.scroll_offset = 0;
            push_prefix_action(actions, PrefixAction::Redraw);
            assert(prefix_actions_view(actions@) =~= a0 + seq![PrefixActionModel::Redraw]);
            return Some(i + 1);
        }
        assert(prefix_actions_view(actions@) =~= a0 + Seq::<PrefixActionModel>::empty());
        return Some(i + 1);
    }
    if s.prefix_active {
        s.prefix_active = false;
        if b == 100 {
            push_prefix_action(actions, PrefixAction::Detach);
            assert(prefix_actions_view(actions@) =~= a0 + seq![PrefixActionModel::Detach]);
            return None;
        }
        if b == 120 {
            push_prefix_action(actions, PrefixAction::Stop);
            assert(prefix_actions_view(actions@) =~= a0 + seq![PrefixActionModel::Stop]);
            return None;
        }
        if b == 91 {
            s.scrollback_mode = true;
            push_prefix_action(actions, PrefixAction::Redraw);
            assert(prefix_actions_view(actions@) =~= a0 + seq![PrefixActionModel::Redraw]);
            return Some(i + 1);
        }
        if b == 63 {
            s.show_help = !s.show_help;
            push_prefix_action(actions, PrefixAction::Redraw);
            assert(prefix_actions_view(actions@) =~= a0 + seq![PrefixActionModel::Redraw]);
            return Some(i + 1);
        }
        let mut out: Vec<u8> = Vec::new();
        out.push(PREFIX);
        if b != PREFIX {
            out.push(b);
        }
        let ghost fv = out@;
        push_prefix_action(actions, PrefixAction::Forward(out));
        if b == PREFIX {
            assert(fv =~= seq![PREFIX]);
        } else {
            assert(fv =~= seq![PREFIX, b]);
        }
        assert(prefix_actions_view(actions@) =~= a0 + seq![PrefixActionModel::Forward(fv)]);
        return Some(i + 1);
    }
    if b == PREFIX {
        s.prefix_active = true;
        assert(prefix_actions_view(actions@) =~= a0 + Seq::<PrefixActionModel>::empty());
        return Some(i + 1);
    }
    let mut k = i;
    let mut out: Vec<u8> = Vec::new();
    while k < n && data[k] != PREFIX
        invariant
            i <= k <= n,
            n == data@.len(),
            until_prefix(data@, i as int) == until_prefix(data@, k as int),
            out@ == data@.subrange(i as int, k as int),
        decreases n - k,
    {
        out.push(data[k]);
        k = k + 1;
        assert(out@ =~= data@.subrange(i as int, k as int));
    }
    let ghost fv = out@;
    push_prefix_action(actions, PrefixAction::Forward(out));
    assert(prefix_actions_view(actions@) =~= a0 + seq![PrefixActionModel::Forward(fv)]);
    Some(k)
}

/// Processes bytes read from the terminal (see [`prefix_run`]); `half` is
/// half the pane's height, `max_scroll` how far the view may scroll back.
pub fn process_prefix_input(state: &mut PrefixState, data: &[u8], half: usize, max_scroll: usize) -> (r: Vec<PrefixAction>)
    ensures
        (*final(state), prefix_actions_view(r@)) == prefix_run(*old(state), data@, 0, half, max_scroll, Seq::empty()),
{
    let mut actions: Vec<PrefixAction> = Vec::new();
    let mut i: usize = 0;
    assert(prefix_actions_view(actions@) =~= Seq::<PrefixActionModel>::empty());
    while i < data.len()
        invariant
            i <= data@.len(),
            prefix_run(*state, data@, i as int, half, max_scroll, prefix_actions_view(actions@)) == prefix_run(
                *old(state),
                data@,
                0,
                half,
                max_scroll,
                Seq::empty(),
            ),
        decreases data@.len() - i,
    {
        match prefix_step_exec(state, data, i, half, max_scroll, &mut actions) {
            None => {
                return actions;
            },
            Some(n) => {
                i = n;
            },
        }
    }
    actions
}

/// `Ctrl+B Ctrl+B` sends one literal `Ctrl+B` to the program and changes
/// nothing else.
pub proof fn lemma_double_prefix_sends_prefix(s: PrefixState, half: usize, max_scroll: usize)
    requires
        !s.prefix_active,
        !s.scrollback_mode,
    ensures
        prefix_run(s, seq![PREFIX, PREFIX], 0, half, max_scroll, Seq::empty()) == (
            s,
            seq![PrefixActionModel::Forward(seq![PREFIX])],
        ),
{
    let data = seq![PREFIX, PREFIX];
    let s1 = PrefixState { prefix_active: true, ..s };
    assert(prefix_step(s, data, 0, half, max_scroll) == (s1, Seq::<PrefixActionModel>::empty(), Some(1int)));
    assert(prefix_step(s1, data, 1, half, max_scroll) == (
        s,
        seq![PrefixActionModel::Forward(seq![PREFIX])],
        Some(2int),
    ));
    let a1 = Seq::<PrefixActionModel>::empty() + Seq::<PrefixActionModel>::empty();
    let a2 = a1 + seq![PrefixActionModel::Forward(seq![PREFIX])];
    assert(a2 =~= seq![PrefixActionModel::Forward(seq![PREFIX])]);
    assert(prefix_run(s, data, 2, half, max_scroll, a2) == (s, a2));
    assert(prefix_run(s1, data, 1, half, max_scroll, a1) == prefix_run(s, data, 2, half, max_scroll, a2));
}

proof fn lemma_until_prefix_all(data: Seq<u8>, k: int)
    requires
        0 <= k <= data.len(),
        forall|t: int| 0 <= t < data.len() ==> #[trigger] data[t] != PREFIX,
    ensures
        until_prefix(data, k) == data.len(),
    decreases data.len() - k,
{
    if k < data.len() {
        lemma_until_prefix_all(data, k + 1);
    }
}

/// Outside scrollback mode and without a pending `Ctrl+B`, input without
/// `Ctrl+B` goes to the program whole, in one write.
pub proof fn lemma_plain_input_written_whole(s: PrefixState, data: Seq<u8>, half: usize, max_scroll: usize)
    requires
        !s.prefix_active,
        !s.scrollback_mode,
        data.len() > 0,
        forall|t: int| 0 <= t < data.len() ==> #[trigger] data[t] != PREFIX,
    ensures
        prefix_run(s, data, 0, half, max_scroll, Seq::empty()) == (s, seq![PrefixActionModel::Forward(data)]),
{
    lemma_until_prefix_all(data, 0);
    assert(data[0] != PREFIX);
    assert(data.subrange(0, data.len() as int) =~= data);
    let acts = Seq::<PrefixActionModel>::empty() + seq![PrefixActionModel::Forward(data)];
    assert(acts =~= seq![PrefixActionModel::Forward(data)]);
    assert(prefix_run(s, data, data.len() as int, half, max_scroll, acts) == (s, acts));
}

} // verus!
