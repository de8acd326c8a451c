//! Decisions of the multiplexer's server: the terminal size it gives the
//! program when several clients of different sizes are attached, and the
//! raw output it keeps to replay to clients that attach later.
use vstd::prelude::*;
use std::collections::VecDeque;

verus! {

/// What the server knows of a client's size: whether it has reported one,
/// and the columns and rows reported.
#[derive(Debug, Clone, Copy, PartialEq, Eq, Structural)]
pub struct ClientSize {
    pub has_resized: bool,
    pub cols: u16,
    pub rows: u16,
}

/// What a client's Resize message does.
#[derive(Debug, Clone, Copy, PartialEq, Eq, Structural)]
pub enum ResizeReply {
    /// A zero size is ignored.
    Ignored,
    /// The client's first size: it is sent the program's size, the output
    /// history and the screen.
    First,
    /// A later size.
    Again,
}

/// Records a size a client reports (see [`ResizeReply`]).
pub fn apply_client_resize(c: &mut ClientSize, cols: u16, rows: u16) -> (r: ResizeReply)
    ensures
        cols == 0 || rows == 0 ==> r == ResizeReply::Ignored && *final(c) == *old(c),
        cols > 0 && rows > 0 ==> *final(c) == (ClientSize { has_resized: true, cols, rows }) && r == if old(
            c,
        ).has_resized {
            ResizeReply::Again
        } else {
            ResizeReply::First
        },
{
    if cols == 0 || rows == 0 {
        return ResizeReply::Ignored;
    }
    let first = !c.has_resized;
    c.cols = cols;
    c.rows = rows;
    c.has_resized = true;
    if first {
        ResizeReply::First
    } else {
        ResizeReply::Again
    }
}

/// The smallest size over the clients that reported one (columns and rows
/// taken separately), if any did.
pub open spec fn min_size(cs: Seq<ClientSize>) -> Option<(u16, u16)>
    decreases cs.len(),
{
    if cs.len() == 0 {
        None
    } else {
        let c = cs.last();
        match min_size(cs.drop_last()) {
            None => if c.has_resized {
                Some((c.cols, c.rows))
            } else {
                None
            },
            Some((w, h)) => if c.has_resized {
                Some((if c.cols < w { c.cols } else { w }, if c.rows < h { c.rows } else { h }))
            } else {
                Some((w, h))
            },
        }
    }
}

/// The program's new size when it changes: the smallest reported size,
/// when some client reported one and it differs from `current`.
pub fn recalc_size(clients: &Vec<ClientSize>, current: (u16, u16)) -> (r: Option<(u16, u16)>)
    ensures
        match min_size(clients@) {
            None => r is None,
            Some(sz) => if sz == current {
                r is None
            } else {
                r == Some(sz)
            },
        },
{
    let mut best: Option<(u16, u16)> = None;
    let mut i: usize = 0;
    while i < clients.len()
        invariant
            i <= clients@.len(),
            best == min_size(clients@.subrange(0, i as int)),
        decreases clients@.len() - i,
    {
        assert(clients@.subrange(0, i + 1).drop_last() =~= clients@.subrange(0, i as int));
        let c = clients[i];
        if c.has_resized {
            best = match best {
                None => Some((c.cols, c.rows)),
                Some((w, h)) => Some((if c.cols < w { c.cols } else { w }, if c.rows < h { c.rows } else { h })),
            };
        }
        i = i + 1;
    }
    assert(clients@.subrange(0, i as int) =~= clients@);
    match best {
        None => None,
        Some(sz) => if sz.0 == current.0 && sz.1 == current.1 {
            None
        } else {
            Some(sz)
        },
    }
}

/// The size chosen fits every client that reported one.
pub proof fn lemma_min_size_fits(cs: Seq<ClientSize>, k: int)
    requires
        0 <= k < cs.len(),
        cs[k].has_resized,
    ensures
        min_size(cs) matches Some((w, h)) && w <= cs[k].cols && h <= cs[k].rows,
    decreases cs.len(),
{
    if k < cs.len() - 1 {
        lemma_min_size_fits(cs.drop_last(), k);
        assert(cs.drop_last()[k] == cs[k]);
    }
}

// ---------------------------------------------------------------------------
// Output history
// ---------------------------------------------------------------------------

/// How many bytes of raw output the server keeps for replay.
pub const MAX_HISTORY_BYTES: usize = 4 * 1024 * 1024;

/// The first position from `k` on that holds a newline (`h.len()` when
/// there is none).
pub open spec fn next_newline(h: Seq<u8>, k: int) -> int
    decreases h.len() - k,
{
    if k < 0 || k >= h.len() {
        h.len() as int
    } else if h[k] == 10 {
        k
    } else {
        next_newline(h, k + 1)
    }
}

/// Where history over `max` bytes is cut: just after the first newline at
/// or after the excess, so that no line is split; at the excess itself
/// when no newline follows it.
pub open spec fn history_cut(h: Seq<u8>, max: nat) -> int {
    let excess = h.len() - max;
    let nl = next_newline(h, excess);
    if nl < h.len() {
        nl + 1
    } else {
        excess
    }
}

/// The history kept from `h`: all of it when it fits in `max` bytes,
/// else what follows the cut (see [`history_cut`]).
pub open spec fn kept_history(h: Seq<u8>, max: nat) -> Seq<u8> {
    if h.len() <= max {
        h
    } else {
        h.skip(history_cut(h, max))
    }
}

proof fn lemma_next_newline(h: Seq<u8>, k: int)
    requires
        0 <= k <= h.len(),
    ensures
        k <= next_newline(h, k) <= h.len(),
        next_newline(h, k) < h.len() ==> h[next_newline(h, k)] == 10,
        forall|t: int| k <= t < next_newline(h, k) ==> h[t] != 10,
    decreases h.len() - k,
{
    if k < h.len() && h[k] != 10 {
        lemma_next_newline(h, k + 1);
    }
}

/// Appends output to the history and drops what exceeds
/// [`MAX_HISTORY_BYTES`] (see [`kept_history`]).
pub fn append_history(history: &mut VecDeque<u8>, data: &[u8])
    requires
        old(history)@.len() + data@.len() <= usize::MAX,
    ensures
        final(history)@ == kept_history(old(history)@ + data@, MAX_HISTORY_BYTES as nat),
{
    let ghost h = old(history)@ + data@;
    let mut i: usize = 0;
    while i < data.len()
        invariant
            i <= data@.len(),
            h == old(history)@ + data@,
            history@ == old(history)@ + data@.subrange(0, i as int),
        decreases data@.len() - i,
    {
        history.push_back(data[i]);
        i = i + 1;
        assert(history@ =~= old(history)@ + data@.subrange(0, i as int));
    }
    assert(history@ =~= h);
    let len = history.len();
    if len <= MAX_HISTORY_BYTES {
        return;
    }
    let excess = len - MAX_HISTORY_BYTES;
    let mut k = excess;
    while k < len && history[k] != 10
        invariant
            excess <= k <= len,
            len == h.len(),
            history@ == h,
            next_newline(h, excess as int) == next_newline(h, k as int),
        decreases len - k,
    {
        k = k + 1;
    }
    proof {
        lemma_next_newline(h, k as int);
    }
    let cut = if k < len { k + 1 } else { excess };
    let tail = history.split_off(cut);
    *history = tail;
    assert(history@ =~= h.skip(cut as int));
}

/// The history never holds more than [`MAX_HISTORY_BYTES`] bytes, is
/// always the newest part of the output, and, when it had to be cut
/// before a newline, starts just after that newline.
pub proof fn lemma_history_bounded(h: Seq<u8>)
    ensures
        kept_history(h, MAX_HISTORY_BYTES as nat).len() <= MAX_HISTORY_BYTES,
        kept_history(h, MAX_HISTORY_BYTES as nat) == h.skip(h.len() - kept_history(h, MAX_HISTORY_BYTES as nat).len()),
        h.len() > MAX_HISTORY_BYTES && kept_history(h, MAX_HISTORY_BYTES as nat).len() < MAX_HISTORY_BYTES
            ==> h[h.len() - kept_history(h, MAX_HISTORY_BYTES as nat).len() - 1] == 10,
{
    let max = MAX_HISTORY_BYTES as nat;
    if h.len() > max {
        let excess = h.len() - max;
        lemma_next_newline(h, excess);
        let cut = history_cut(h, max);
        assert(h.skip(cut).len() == h.len() - cut);
    } else {
        assert(h.skip(0) =~= h);
    }
}

} // verus!
