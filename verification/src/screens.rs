//! The decisions of the interactive screens that create a session, edit
//! its repos and pick sessions to remove: checklists, the preset menu, and
//! the history of session names.
use vstd::prelude::*;
use crate::fields::{join, join_sep};
use crate::strset::strs;
use crate::text::{append_str, concat_str, copy_str, str_eq};

verus! {

/// The keys the screens react to.
#[derive(Debug, Clone, Copy, PartialEq, Eq, Structural)]
pub enum ScreenKey {
    Up,
    Down,
    /// The space bar.
    Toggle,
    Enter,
    Esc,
    /// Ctrl+C.
    Interrupt,
    Other,
}

/// A list of items to tick, with the cursor on one of them.
#[derive(Debug)]
pub struct Checklist {
    pub cursor: usize,
    pub checked: Vec<bool>,
}

/// What a key does to a checklist.
#[derive(Debug)]
pub enum ListOutcome {
    /// Stay on the screen.
    Continue,
    /// Done: the positions of the ticked items, in order.
    Confirm(Vec<usize>),
    /// Enter with nothing ticked: the screen shows an error.
    NothingChecked,
    /// Leave the screen.
    Quit,
}

/// The positions of the ticked items, in order.
pub open spec fn ticked(checked: Seq<bool>) -> Seq<usize>
    decreases checked.len(),
{
    if checked.len() == 0 {
        Seq::empty()
    } else if checked.last() {
        ticked(checked.drop_last()).push((checked.len() - 1) as usize)
    } else {
        ticked(checked.drop_last())
    }
}

proof fn lemma_ticked_bounds(checked: Seq<bool>)
    requires
        checked.len() <= usize::MAX,
    ensures
        forall|k: int| 0 <= k < ticked(checked).len() ==> (#[trigger] ticked(checked)[k]) < checked.len(),
    decreases checked.len(),
{
    if checked.len() > 0 {
        let prev = ticked(checked.drop_last());
        lemma_ticked_bounds(checked.drop_last());
        let t = ticked(checked);
        assert forall|k: int| 0 <= k < t.len() implies (#[trigger] t[k]) < checked.len() by {
            if k < prev.len() {
                assert(t[k] == prev[k]);
            } else {
                assert(t[k] == (checked.len() - 1) as usize);
            }
        }
    }
}

impl Checklist {
    /// The cursor is on an item.
    pub open spec fn wf(&self) -> bool {
        self.cursor < self.checked@.len()
    }

    /// A checklist over `checked`, with the cursor on the first item.
    pub fn new(checked: Vec<bool>) -> (c: Checklist)
        ensures
            c.cursor == 0,
            c.checked@ == checked@,
    {
        Checklist { cursor: 0, checked }
    }

    /// Applies a key: Up and Down move the cursor (stopping at the ends),
    /// Space ticks or unticks the item under it, Enter confirms the ticked
    /// items (if any), Esc and Ctrl+C leave.
    pub fn key(&mut self, key: ScreenKey) -> (r: ListOutcome)
        requires
            old(self).wf(),
        ensures
            final(self).wf(),
            final(self).checked@.len() == old(self).checked@.len(),
            match key {
                ScreenKey::Up => r is Continue && final(self).checked@ == old(self).checked@
                    && final(self).cursor == if old(self).cursor > 0 { (old(self).cursor - 1) as usize } else { 0 },
                ScreenKey::Down => r is Continue && final(self).checked@ == old(self).checked@
                    && final(self).cursor == if old(self).cursor + 1 < old(self).checked@.len() {
                        (old(self).cursor + 1) as usize
                    } else {
                        old(self).cursor
                    },
                ScreenKey::Toggle => r is Continue && final(self).cursor == old(self).cursor
                    && final(self).checked@ == old(self).checked@.update(
                        old(self).cursor as int,
                        !old(self).checked@[old(self).cursor as int],
                    ),
                ScreenKey::Enter => *final(self) == *old(self) && if ticked(old(self).checked@).len() == 0 {
                    r is NothingChecked
                } else {
                    r matches ListOutcome::Confirm(v) && v@ == ticked(old(self).checked@)
                },
                ScreenKey::Esc | ScreenKey::Interrupt => r is Quit && *final(self) == *old(self),
                ScreenKey::Other => r is Continue && *final(self) == *old(self),
            },
    {
        match key {
            ScreenKey::Up => {
                if self.cursor > 0 {
                    self.cursor = self.cursor - 1;
                }
                ListOutcome::Continue
            },
            ScreenKey::Down => {
                if self.checked.len() - self.cursor > 1 {
                    self.cursor = self.cursor + 1;
                }
                ListOutcome::Continue
            },
            ScreenKey::Toggle => {
                let c = self.cursor;
                let v = !self.checked[c];
                self.checked.set(c, v);
                ListOutcome::Continue
            },
            ScreenKey::Enter => {
                let mut out: Vec<usize> = Vec::new();
                let mut i: usize = 0;
                while i < self.checked.len()
                    invariant
                        i <= self.checked@.len(),
                        out@ == ticked(self.checked@.subrange(0, i as int)),
                    decreases self.checked@.len() - i,
                {
                    assert(self.checked@.subrange(0, i + 1).drop_last() =~= self.checked@.subrange(0, i as int));
                    if self.checked[i] {
                        out.push(i);
                    }
                    i = i + 1;
                }
                assert(self.checked@.subrange(0, i as int) =~= self.checked@);
                if out.len() == 0 {
                    ListOutcome::NothingChecked
                } else {
                    ListOutcome::Confirm(out)
                }
            },
            ScreenKey::Esc | ScreenKey::Interrupt => ListOutcome::Quit,
            ScreenKey::Other => ListOutcome::Continue,
        }
    }
}

/// The names at the given positions.
pub open spec fn names_at(names: Seq<Seq<char>>, at: Seq<usize>) -> Seq<Seq<char>> {
    at.map_values(|k: usize| names[k as int])
}

/// The names at the given positions, in that order.
pub fn pick(names: &Vec<String>, at: &Vec<usize>) -> (r: Vec<String>)
    requires
        forall|k: int| 0 <= k < at@.len() ==> (#[trigger] at@[k]) < names@.len(),
    ensures
        strs(r@) == names_at(strs(names@), at@),
{
    let mut out: Vec<String> = Vec::new();
    let mut i: usize = 0;
    while i < at.len()
        invariant
            i <= at@.len(),
            forall|k: int| 0 <= k < at@.len() ==> (#[trigger] at@[k]) < names@.len(),
            strs(out@) == names_at(strs(names@), at@.subrange(0, i as int)),
        decreases at@.len() - i,
    {
        let ghost before = out@;
        let c = copy_str(names[at[i]].as_str());
        out.push(c);
        assert(strs(out@) =~= strs(before).push(strs(names@)[at@[i as int] as int]));
        assert(names_at(strs(names@), at@.subrange(0, i + 1)) =~= names_at(strs(names@), at@.subrange(0, i as int)).push(
            strs(names@)[at@[i as int] as int],
        ));
        i = i + 1;
    }
    assert(at@.subrange(0, i as int) =~= at@);
    out
}

/// What `ticked` picks out is always within the list.
pub proof fn lemma_ticked_in_range(checked: Seq<bool>)
    requires
        checked.len() <= usize::MAX,
    ensures
        forall|k: int| 0 <= k < ticked(checked).len() ==> (#[trigger] ticked(checked)[k]) < checked.len(),
{
    lemma_ticked_bounds(checked);
}

/// The repos ticked when the create screen opens: those chosen last time,
/// or all of them when nothing was recorded.
pub open spec fn initial_ticks(all: Seq<Seq<char>>, last: Seq<Seq<char>>) -> Seq<bool> {
    Seq::new(all.len(), |k: int| last.len() == 0 || last.contains(all[k]))
}

/// Computes the initial ticks (see [`initial_ticks`]).
pub fn initial_selection(all: &Vec<String>, last: &Vec<String>) -> (r: Vec<bool>)
    ensures
        r@ == initial_ticks(strs(all@), strs(last@)),
{
    let mut out: Vec<bool> = Vec::new();
    let mut i: usize = 0;
    while i < all.len()
        invariant
            i <= all@.len(),
            out@ == initial_ticks(strs(all@), strs(last@)).subrange(0, i as int),
        decreases all@.len() - i,
    {
        let t = last.len() == 0 || crate::edit::contains_str(last, all[i].as_str());
        out.push(t);
        assert(out@ =~= initial_ticks(strs(all@), strs(last@)).subrange(0, i + 1));
        i = i + 1;
    }
    assert(initial_ticks(strs(all@), strs(last@)).subrange(0, i as int) =~= initial_ticks(strs(all@), strs(last@)));
    out
}

/// The repos of a chosen preset that are still registered, in order;
/// fails when none is left.
pub fn preset_choice(preset_repos: &Vec<String>, registered: &Vec<String>) -> (r: Result<Vec<String>, String>)
    ensures
        crate::preset::kept(strs(preset_repos@), strs(registered@)).len() == 0 ==> (r matches Err(m) && m@
            == "All repos in this preset have been removed."@),
        crate::preset::kept(strs(preset_repos@), strs(registered@)).len() > 0 ==> (r matches Ok(v) && strs(v@)
            == crate::preset::kept(strs(preset_repos@), strs(registered@))),
{
    match crate::preset::resolve("", preset_repos, registered) {
        Ok((valid, _)) => Ok(valid),
        Err(_) => Err("All repos in this preset have been removed.".to_string()),
    }
}

/// Where the cursor of the preset menu goes on a key: the menu has the
/// presets and a last `Custom...` entry, `items` in all.
pub fn menu_cursor(cursor: usize, items: usize, key: ScreenKey) -> (r: usize)
    requires
        cursor < items,
    ensures
        key == ScreenKey::Up ==> r == if cursor > 0 { (cursor - 1) as usize } else { 0 },
        key == ScreenKey::Down ==> r == if cursor + 1 < items { (cursor + 1) as usize } else { cursor },
        key != ScreenKey::Up && key != ScreenKey::Down ==> r == cursor,
        r < items,
{
    match key {
        ScreenKey::Up => if cursor > 0 {
            cursor - 1
        } else {
            0
        },
        ScreenKey::Down => if cursor + 1 < items {
            cursor + 1
        } else {
            cursor
        },
        _ => cursor,
    }
}

/// A line of a checklist: ` [x] label` or ` [ ] label`.
pub open spec fn check_line(checked: bool, label: Seq<char>) -> Seq<char> {
    (if checked { " [x] "@ } else { " [ ] "@ }) + label
}

/// Formats a line of a checklist (see [`check_line`]).
pub fn checklist_line(checked: bool, label: &str) -> (r: String)
    ensures
        r@ == check_line(checked, label@),
{
    concat_str(if checked { " [x] " } else { " [ ] " }, label)
}

/// How a session is labelled in the removal list: its name, and its repos
/// in brackets when it has any.
pub fn session_label(name: &str, repos: &Vec<String>) -> (r: String)
    ensures
        repos@.len() == 0 ==> r@ == name@,
        repos@.len() > 0 ==> r@ == name@ + " ("@ + join_sep(strs(repos@), ", "@) + ")"@,
{
    if repos.len() == 0 {
        return copy_str(name);
    }
    let mut r = concat_str(name, " (");
    let j = crate::fields::join_with(repos, ", ");
    append_str(&mut r, j.as_str());
    append_str(&mut r, ")");
    r
}

// ---------------------------------------------------------------------------
// Name history
// ---------------------------------------------------------------------------

/// How many names the history keeps on disk.
pub const MAX_HISTORY: usize = 100;

/// Browsing the names used before while typing a session name: the
/// position in the history (`None` while on the text being typed) and
/// that text, kept while browsing.
#[derive(Debug)]
pub struct HistoryCursor {
    pub index: Option<usize>,
    pub saved: String,
}

impl HistoryCursor {
    /// Not browsing.
    pub fn new() -> (c: HistoryCursor)
        ensures
            c.index is None,
            c.saved@ == Seq::<char>::empty(),
    {
        HistoryCursor { index: None, saved: String::new() }
    }

    /// Up: the next older name, keeping the typed text on the first step;
    /// gives the text to put in the field, if it changes.
    pub fn up(&mut self, history: &Vec<String>, typed: &str) -> (r: Option<String>)
        requires
            match old(self).index {
                Some(i) => i < history@.len(),
                None => true,
            },
        ensures
            match final(self).index {
                Some(i) => i < history@.len(),
                None => true,
            },
            history@.len() == 0 ==> r is None && *final(self) == *old(self),
            history@.len() > 0 ==> match old(self).index {
                None => final(self).index == Some(0usize) && final(self).saved@ == typed@ && (r matches Some(t)
                    && t@ == history@[0]@),
                Some(i) => if i + 1 < history@.len() {
                    final(self).index == Some((i + 1) as usize) && final(self).saved@ == old(self).saved@ && (r matches Some(
                        t,
                    ) && t@ == history@[i + 1]@)
                } else {
                    r is None && *final(self) == *old(self)
                },
            },
    {
        if history.len() == 0 {
            return None;
        }
        match self.index {
            None => {
                self.saved = copy_str(typed);
                self.index = Some(0);
                Some(copy_str(history[0].as_str()))
            },
            Some(i) => {
                if i + 1 < history.len() {
                    self.index = Some(i + 1);
                    Some(copy_str(history[i + 1].as_str()))
                } else {
                    None
                }
            },
        }
    }

    /// Down: the next newer name, or back to the typed text; gives the text
    /// to put in the field, if it changes.
    pub fn down(&mut self, history: &Vec<String>) -> (r: Option<String>)
        requires
            match old(self).index {
                Some(i) => i < history@.len(),
                None => true,
            },
        ensures
            match final(self).index {
                Some(i) => i < history@.len(),
                None => true,
            },
            final(self).saved@ == old(self).saved@,
            match old(self).index {
                None => r is None && *final(self) == *old(self),
                Some(i) => if i == 0 {
                    final(self).index is None && (r matches Some(t) && t@ == old(self).saved@)
                } else {
                    final(self).index == Some((i - 1) as usize) && (r matches Some(t) && t@ == history@[i - 1]@)
                },
            },
    {
        match self.index {
            None => None,
            Some(i) => {
                if i == 0 {
                    self.index = None;
                    Some(copy_str(self.saved.as_str()))
                } else {
                    self.index = Some(i - 1);
                    Some(copy_str(history[i - 1].as_str()))
                }
            },
        }
    }
}

/// The history after using `name`: `name` first, then the others in
/// their order without it.
pub open spec fn remembered(history: Seq<Seq<char>>, name: Seq<char>) -> Seq<Seq<char>> {
    seq![name] + without(history, name)
}

/// The entries of `history` other than `name`, in order.
pub open spec fn without(history: Seq<Seq<char>>, name: Seq<char>) -> Seq<Seq<char>>
    decreases history.len(),
{
    if history.len() == 0 {
        history
    } else if history.last() == name {
        without(history.drop_last(), name)
    } else {
        without(history.drop_last(), name).push(history.last())
    }
}

/// Puts `name` first in the history (see [`remembered`]).
pub fn remember(history: &Vec<String>, name: &str) -> (r: Vec<String>)
    ensures
        strs(r@) == remembered(strs(history@), name@),
{
    let ghost hv = strs(history@);
    let mut out: Vec<String> = Vec::new();
    out.push(copy_str(name));
    let mut i: usize = 0;
    assert(strs(out@) =~= seq![name@] + without(hv.subrange(0, 0), name@));
    while i < history.len()
        invariant
            i <= history@.len(),
            hv == strs(history@),
            strs(out@) == seq![name@] + without(hv.subrange(0, i as int), name@),
        decreases history@.len() - i,
    {
        let ghost before = out@;
        proof {
            assert(hv.subrange(0, i + 1).drop_last() =~= hv.subrange(0, i as int));
        }
        if !str_eq(history[i].as_str(), name) {
            let c = copy_str(history[i].as_str());
            out.push(c);
            assert(strs(out@) =~= strs(before).push(hv[i as int]));
        }
        i = i + 1;
    }
    assert(hv.subrange(0, i as int) =~= hv);
    out
}

/// What the history file holds: the first [`MAX_HISTORY`] names, one per
/// line, ending with a newline.
pub fn history_file(history: &Vec<String>) -> (r: String)
    ensures
        r@ == join(strs(history@).take(if history@.len() <= MAX_HISTORY { history@.len() as int } else { MAX_HISTORY as int }), '\n').push('\n'),
{
    let n = if history.len() <= MAX_HISTORY { history.len() } else { MAX_HISTORY };
    let mut first: Vec<String> = Vec::new();
    let mut i: usize = 0;
    while i < n
        invariant
            i <= n <= history@.len(),
            strs(first@) == strs(history@).take(i as int),
        decreases n - i,
    {
        let ghost before = first@;
        let c = copy_str(history[i].as_str());
        first.push(c);
        assert(strs(first@) =~= strs(before).push(strs(history@)[i as int]));
        assert(strs(history@).take(i + 1) =~= strs(history@).take(i as int).push(strs(history@)[i as int]));
        i = i + 1;
    }
    let mut r = crate::fields::join_str(&first, '\n');
    crate::text::push_char(&mut r, '\n');
    r
}

/// Ticking an item twice leaves the ticks as they were.
pub proof fn lemma_toggle_twice(checked: Seq<bool>, c: int)
    requires
        0 <= c < checked.len(),
    ensures
        checked.update(c, !checked[c]).update(c, !checked.update(c, !checked[c])[c]) == checked,
{
    assert(checked.update(c, !checked[c]).update(c, !checked.update(c, !checked[c])[c]) =~= checked);
}

proof fn lemma_without_lacks(history: Seq<Seq<char>>, name: Seq<char>)
    ensures
        !without(history, name).contains(name),
        forall|h: Seq<char>| history.contains(h) && h != name ==> #[trigger] without(history, name).contains(h),
    decreases history.len(),
{
    if history.len() > 0 {
        lemma_without_lacks(history.drop_last(), name);
        let prev = without(history.drop_last(), name);
        if history.last() != name {
            assert forall|y: Seq<char>| prev.push(history.last()).contains(y) implies y != name by {
                if y == name {
                    let k = choose|k: int| 0 <= k < prev.push(history.last()).len() && prev.push(history.last())[k] == y;
                    if k < prev.len() {
                        assert(prev.contains(y));
                    }
                }
            }
        }
        assert forall|h: Seq<char>| history.contains(h) && h != name implies #[trigger] without(history, name).contains(h) by {
            let k = choose|k: int| 0 <= k < history.len() && history[k] == h;
            if k < history.len() - 1 {
                assert(history.drop_last()[k] == h);
                assert(history.drop_last().contains(h));
                assert(without(history.drop_last(), name).contains(h));
                let j = choose|j: int| 0 <= j < prev.len() && prev[j] == h;
                if history.last() != name {
                    assert(prev.push(history.last())[j] == h);
                }
            } else {
                assert(history.last() == h);
                assert(prev.push(history.last())[prev.len() as int] == h);
            }
        }
    }
}

/// Using a name puts it first in the history, once, and keeps every other
/// name used before.
pub proof fn lemma_remembered(history: Seq<Seq<char>>, name: Seq<char>)
    ensures
        remembered(history, name)[0] == name,
        !remembered(history, name).drop_first().contains(name),
        forall|h: Seq<char>| history.contains(h) ==> #[trigger] remembered(history, name).contains(h),
{
    lemma_without_lacks(history, name);
    let r = remembered(history, name);
    assert(r.drop_first() =~= without(history, name));
    assert forall|h: Seq<char>| history.contains(h) implies #[trigger] r.contains(h) by {
        if h == name {
            assert(r[0] == h);
        } else {
            assert(without(history, name).contains(h));
            let j = choose|j: int| 0 <= j < without(history, name).len() && without(history, name)[j] == h;
            assert(r[j + 1] == h);
        }
    }
}

} // verus!
