//! Editing the repo list of a workspace or preset (`box repo add|remove`).
use vstd::prelude::*;
use crate::strset::strs;
use crate::text::{append_str, concat_str, str_eq};

verus! {

/// Whether `v` holds `x`.
pub fn contains_str(v: &Vec<String>, x: &str) -> (r: bool)
    ensures
        r == strs(v@).contains(x@),
{
    let ghost vs = strs(v@);
    let mut i: usize = 0;
    while i < v.len()
        invariant
            i <= v@.len(),
            vs == strs(v@),
            forall|k: int| 0 <= k < i ==> vs[k] != x@,
        decreases v@.len() - i,
    {
        if str_eq(v[i].as_str(), x) {
            assert(vs[i as int] == x@);
            return true;
        }
        i = i + 1;
    }
    false
}

/// The entries of `v` that `w` does not hold, in order.
pub open spec fn minus(v: Seq<Seq<char>>, w: Seq<Seq<char>>) -> Seq<Seq<char>>
    decreases v.len(),
{
    if v.len() == 0 {
        v
    } else if w.contains(v.last()) {
        minus(v.drop_last(), w)
    } else {
        minus(v.drop_last(), w).push(v.last())
    }
}

/// `acc` followed by each entry of `add` that is not yet present, in order.
pub open spec fn append_missing(acc: Seq<Seq<char>>, add: Seq<Seq<char>>) -> Seq<Seq<char>>
    decreases add.len(),
{
    if add.len() == 0 {
        acc
    } else {
        let prev = append_missing(acc, add.drop_last());
        if prev.contains(add.last()) {
            prev
        } else {
            prev.push(add.last())
        }
    }
}

/// The first entry of `add` that `remove` also holds.
pub open spec fn first_shared(add: Seq<Seq<char>>, remove: Seq<Seq<char>>) -> Option<Seq<char>>
    decreases add.len(),
{
    if add.len() == 0 {
        None
    } else if remove.contains(add[0]) {
        Some(add[0])
    } else {
        first_shared(add.drop_first(), remove)
    }
}

/// The first entry of `add` that `registered` does not hold.
pub open spec fn first_missing(add: Seq<Seq<char>>, registered: Seq<Seq<char>>) -> Option<Seq<char>>
    decreases add.len(),
{
    if add.len() == 0 {
        None
    } else if !registered.contains(add[0]) {
        Some(add[0])
    } else {
        first_missing(add.drop_first(), registered)
    }
}

/// Why an edit was refused.
#[derive(Debug, Clone)]
pub enum EditError {
    /// The repo is both added and removed.
    InBoth(String),
    /// An added repo is not a registered source.
    NotRegistered(String),
}

/// The outcome of an accepted edit.
#[derive(Debug, Clone)]
pub struct EditPlan {
    /// The new repo list.
    pub repos: Vec<String>,
    /// Added repos that were already present (skipped with a note).
    pub already_present: Vec<String>,
    /// Removed repos that were not present (skipped with a note).
    pub not_present: Vec<String>,
}

/// The entries of `v` that `w` holds, in order.
pub open spec fn common(v: Seq<Seq<char>>, w: Seq<Seq<char>>) -> Seq<Seq<char>>
    decreases v.len(),
{
    if v.len() == 0 {
        v
    } else if w.contains(v.last()) {
        common(v.drop_last(), w).push(v.last())
    } else {
        common(v.drop_last(), w)
    }
}

/// The new repo list: `current` without the removed repos, followed by
/// each added repo not yet in it.
pub open spec fn edited(current: Seq<Seq<char>>, add: Seq<Seq<char>>, remove: Seq<Seq<char>>) -> Seq<Seq<char>> {
    append_missing(minus(current, remove), add)
}

/// The entries of `v` that `w` does not hold, in order (see [`minus`]).
pub fn minus_exec(v: &Vec<String>, w: &Vec<String>) -> (r: Vec<String>)
    ensures
        strs(r@) == minus(strs(v@), strs(w@)),
{
    let ghost vs = strs(v@);
    let mut out: Vec<String> = Vec::new();
    let mut i: usize = 0;
    while i < v.len()
        invariant
            i <= v@.len(),
            vs == strs(v@),
            strs(out@) == minus(vs.subrange(0, i as int), strs(w@)),
        decreases v@.len() - i,
    {
        assert(vs.subrange(0, i + 1).drop_last() =~= vs.subrange(0, i as int));
        assert(vs.subrange(0, i + 1).last() == v@[i as int]@);
        if !contains_str(w, v[i].as_str()) {
            out.push(v[i].clone());
            assert(strs(out@) =~= minus(vs.subrange(0, i as int), strs(w@)).push(v@[i as int]@));
        }
        i = i + 1;
    }
    assert(vs.subrange(0, v@.len() as int) =~= vs);
    out
}

fn common_exec(v: &Vec<String>, w: &Vec<String>) -> (r: Vec<String>)
    ensures
        strs(r@) == common(strs(v@), strs(w@)),
{
    let ghost vs = strs(v@);
    let mut out: Vec<String> = Vec::new();
    let mut i: usize = 0;
    while i < v.len()
        invariant
            i <= v@.len(),
            vs == strs(v@),
            strs(out@) == common(vs.subrange(0, i as int), strs(w@)),
        decreases v@.len() - i,
    {
        assert(vs.subrange(0, i + 1).drop_last() =~= vs.subrange(0, i as int));
        assert(vs.subrange(0, i + 1).last() == v@[i as int]@);
        if contains_str(w, v[i].as_str()) {
            out.push(v[i].clone());
            assert(strs(out@) =~= common(vs.subrange(0, i as int), strs(w@)).push(v@[i as int]@));
        }
        i = i + 1;
    }
    assert(vs.subrange(0, v@.len() as int) =~= vs);
    out
}

/// `acc` followed by each entry of `add` not yet present (see [`append_missing`]).
pub fn append_missing_exec(acc: Vec<String>, add: &Vec<String>) -> (r: Vec<String>)
    ensures
        strs(r@) == append_missing(strs(acc@), strs(add@)),
{
    let ghost a0 = strs(acc@);
    let ghost ad = strs(add@);
    let mut out = acc;
    let mut i: usize = 0;
    while i < add.len()
        invariant
            i <= add@.len(),
            ad == strs(add@),
            strs(out@) == append_missing(a0, ad.subrange(0, i as int)),
        decreases add@.len() - i,
    {
        assert(ad.subrange(0, i + 1).drop_last() =~= ad.subrange(0, i as int));
        assert(ad.subrange(0, i + 1).last() == add@[i as int]@);
        if !contains_str(&out, add[i].as_str()) {
            out.push(add[i].clone());
            assert(strs(out@) =~= append_missing(a0, ad.subrange(0, i as int)).push(add@[i as int]@));
        }
        i = i + 1;
    }
    assert(ad.subrange(0, add@.len() as int) =~= ad);
    out
}

/// The first entry of `add` that `other` holds (`want_in`) or lacks (otherwise).
pub fn first_shared_exec(add: &Vec<String>, other: &Vec<String>, want_in: bool) -> (r: Option<String>)
    ensures
        want_in ==> match first_shared(strs(add@), strs(other@)) {
            Some(x) => r matches Some(s) && s@ == x,
            None => r is None,
        },
        !want_in ==> match first_missing(strs(add@), strs(other@)) {
            Some(x) => r matches Some(s) && s@ == x,
            None => r is None,
        },
{
    let ghost ad = strs(add@);
    let mut i: usize = 0;
    assert(ad.skip(0) =~= ad);
    while i < add.len()
        invariant
            i <= add@.len(),
            ad == strs(add@),
            want_in ==> first_shared(ad, strs(other@)) == first_shared(ad.skip(i as int), strs(other@)),
            !want_in ==> first_missing(ad, strs(other@)) == first_missing(ad.skip(i as int), strs(other@)),
        decreases add@.len() - i,
    {
        assert(ad.skip(i as int)[0] == add@[i as int]@);
        assert(ad.skip(i as int).drop_first() =~= ad.skip(i + 1));
        let inside = contains_str(other, add[i].as_str());
        if inside == want_in {
            return Some(add[i].clone());
        }
        i = i + 1;
    }
    assert(ad.skip(add@.len() as int) =~= Seq::<Seq<char>>::empty());
    None
}

/// Computes a workspace's or preset's new repo list from repos to add and
/// to remove. Fails when a repo is in both lists (the first such added
/// repo is named) or when an added repo is not in `registered` (the first
/// such one is named); otherwise the list is `current` without the removed
/// repos, followed by each added repo not yet present. Also reports the
/// added repos already present and the removed repos not present.
pub fn compute_edit_repos(
    current: &Vec<String>,
    add: &Vec<String>,
    remove: &Vec<String>,
    registered: &Vec<String>,
) -> (r: Result<EditPlan, EditError>)
    ensures
        match first_shared(strs(add@), strs(remove@)) {
            Some(x) => r matches Err(EditError::InBoth(s)) && s@ == x,
            None => match first_missing(strs(add@), strs(registered@)) {
                Some(x) => r matches Err(EditError::NotRegistered(s)) && s@ == x,
                None => r matches Ok(p) && strs(p.repos@) == edited(strs(current@), strs(add@), strs(remove@))
                    && strs(p.already_present@) == common(strs(add@), strs(current@)) && strs(p.not_present@)
                    == minus(strs(remove@), strs(current@)),
            },
        },
{
    match first_shared_exec(add, remove, true) {
        Some(d) => return Err(EditError::InBoth(d)),
        None => {},
    }
    match first_shared_exec(add, registered, false) {
        Some(d) => return Err(EditError::NotRegistered(d)),
        None => {},
    }
    let already_present = common_exec(add, current);
    let not_present = minus_exec(remove, current);
    let kept = minus_exec(current, remove);
    let repos = append_missing_exec(kept, add);
    Ok(EditPlan { repos, already_present, not_present })
}

impl EditError {
    /// The message shown to the user.
    pub fn message(&self) -> (r: String)
        ensures
            r@ == match self {
                EditError::InBoth(s) => "'"@ + s@ + "' appears in both --add and --remove"@,
                EditError::NotRegistered(s) => "Repo '"@ + s@ + "' is not registered. Run `box source add` first."@,
            },
    {
        match self {
            EditError::InBoth(s) => {
                let mut r = concat_str("'", s.as_str());
                append_str(&mut r, "' appears in both --add and --remove");
                r
            },
            EditError::NotRegistered(s) => {
                let mut r = concat_str("Repo '", s.as_str());
                append_str(&mut r, "' is not registered. Run `box source add` first.");
                r
            },
        }
    }
}

/// The repos an edit adds and removes: the entries of `new` not in
/// `current`, and the entries of `current` not in `new`, each in order.
pub fn edit_diff(current: &Vec<String>, new: &Vec<String>) -> (r: (Vec<String>, Vec<String>))
    ensures
        strs(r.0@) == minus(strs(new@), strs(current@)),
        strs(r.1@) == minus(strs(current@), strs(new@)),
{
    (minus_exec(new, current), minus_exec(current, new))
}

// ---------------------------------------------------------------------------
// Laws
// ---------------------------------------------------------------------------

proof fn lemma_minus_contains(v: Seq<Seq<char>>, w: Seq<Seq<char>>, x: Seq<char>)
    ensures
        minus(v, w).contains(x) <==> (v.contains(x) && !w.contains(x)),
    decreases v.len(),
{
    if v.len() > 0 {
        lemma_minus_contains(v.drop_last(), w, x);
        assert(v =~= v.drop_last().push(v.last()));
        if v.contains(x) && !v.drop_last().contains(x) {
            assert(v.last() == x) by {
                let k = choose|k: int| 0 <= k < v.len() && v[k] == x;
                if k < v.len() - 1 {
                    assert(v.drop_last()[k] == x);
                }
            }
        }
        if v.drop_last().contains(x) {
            let k = choose|k: int| 0 <= k < v.drop_last().len() && v.drop_last()[k] == x;
            assert(v[k] == x);
        }
        let m0 = minus(v.drop_last(), w);
        if m0.contains(x) {
            let k = choose|k: int| 0 <= k < m0.len() && m0[k] == x;
            assert(m0.push(v.last())[k] == x);
        }
        if m0.push(v.last()).contains(x) && !m0.contains(x) {
            let k = choose|k: int| 0 <= k < m0.len() + 1 && m0.push(v.last())[k] == x;
            if k < m0.len() {
                assert(m0[k] == x);
            }
        }
        if !w.contains(v.last()) {
            assert(m0.push(v.last())[m0.len() as int] == v.last());
        }
    }
}

pub(crate) proof fn lemma_append_missing_contains(acc: Seq<Seq<char>>, add: Seq<Seq<char>>, x: Seq<char>)
    ensures
        append_missing(acc, add).contains(x) <==> (acc.contains(x) || add.contains(x)),
    decreases add.len(),
{
    if add.len() > 0 {
        lemma_append_missing_contains(acc, add.drop_last(), x);
        let prev = append_missing(acc, add.drop_last());
        assert(add =~= add.drop_last().push(add.last()));
        if add.contains(x) && !add.drop_last().contains(x) {
            let k = choose|k: int| 0 <= k < add.len() && add[k] == x;
            if k < add.len() - 1 {
                assert(add.drop_last()[k] == x);
            }
        }
        if add.drop_last().contains(x) {
            let k = choose|k: int| 0 <= k < add.drop_last().len() && add.drop_last()[k] == x;
            assert(add[k] == x);
        }
        if !prev.contains(add.last()) {
            assert(prev.push(add.last())[prev.len() as int] == add.last());
            if prev.contains(x) {
                let k = choose|k: int| 0 <= k < prev.len() && prev[k] == x;
                assert(prev.push(add.last())[k] == x);
            }
            if prev.push(add.last()).contains(x) && !prev.contains(x) {
                let k = choose|k: int| 0 <= k < prev.len() + 1 && prev.push(add.last())[k] == x;
                if k < prev.len() {
                    assert(prev[k] == x);
                }
            }
        }
    }
}

proof fn lemma_minus_no_dup(v: Seq<Seq<char>>, w: Seq<Seq<char>>)
    requires
        v.no_duplicates(),
    ensures
        minus(v, w).no_duplicates(),
    decreases v.len(),
{
    if v.len() > 0 {
        let d = v.drop_last();
        assert(d.no_duplicates()) by {
            assert forall|i: int, j: int| 0 <= i < d.len() && 0 <= j < d.len() && i != j implies d[i] != d[j] by {
                assert(d[i] == v[i] && d[j] == v[j]);
            }
        }
        lemma_minus_no_dup(d, w);
        lemma_minus_contains(d, w, v.last());
        if d.contains(v.last()) {
            let k = choose|k: int| 0 <= k < d.len() && d[k] == v.last();
            assert(v[k] == v[v.len() - 1]);
        }
        let m0 = minus(d, w);
        if !w.contains(v.last()) {
            assert(m0.push(v.last()).no_duplicates()) by {
                assert forall|i: int, j: int|
                    0 <= i < m0.len() + 1 && 0 <= j < m0.len() + 1 && i != j implies m0.push(v.last())[i]
                    != m0.push(v.last())[j] by {
                    if i < m0.len() && j < m0.len() {
                    } else if i == m0.len() {
                        assert(m0[j] != v.last()) by {
                            if m0[j] == v.last() {
                                assert(m0.contains(v.last()));
                            }
                        }
                    } else {
                        assert(m0[i] != v.last()) by {
                            if m0[i] == v.last() {
                                assert(m0.contains(v.last()));
                            }
                        }
                    }
                }
            }
        }
    }
}

proof fn lemma_append_missing_no_dup(acc: Seq<Seq<char>>, add: Seq<Seq<char>>)
    requires
        acc.no_duplicates(),
    ensures
        append_missing(acc, add).no_duplicates(),
    decreases add.len(),
{
    if add.len() > 0 {
        lemma_append_missing_no_dup(acc, add.drop_last());
        let prev = append_missing(acc, add.drop_last());
        if !prev.contains(add.last()) {
            assert(prev.push(add.last()).no_duplicates()) by {
                assert forall|i: int, j: int|
                    0 <= i < prev.len() + 1 && 0 <= j < prev.len() + 1 && i != j implies prev.push(add.last())[i]
                    != prev.push(add.last())[j] by {
                    if i < prev.len() && j < prev.len() {
                    } else if i == prev.len() {
                        if prev[j] == add.last() {
                            assert(prev.contains(add.last()));
                        }
                    } else {
                        if prev[i] == add.last() {
                            assert(prev.contains(add.last()));
                        }
                    }
                }
            }
        }
    }
}

/// After an accepted edit, a repo is in the new list exactly when it was
/// added, or it was present and not removed; and a list without
/// duplicates stays without duplicates.
pub proof fn lemma_edit_membership(
    current: Seq<Seq<char>>,
    add: Seq<Seq<char>>,
    remove: Seq<Seq<char>>,
    x: Seq<char>,
)
    requires
        first_shared(add, remove) is None,
    ensures
        edited(current, add, remove).contains(x) <==> (add.contains(x) || (current.contains(x) && !remove.contains(
            x,
        ))),
        current.no_duplicates() ==> edited(current, add, remove).no_duplicates(),
{
    lemma_minus_contains(current, remove, x);
    lemma_append_missing_contains(minus(current, remove), add, x);
    if current.no_duplicates() {
        lemma_minus_no_dup(current, remove);
        lemma_append_missing_no_dup(minus(current, remove), add);
    }
}

/// The diff of an edit accounts for it: a repo is in the new list exactly
/// when it was in the old one and not removed, or was added.
pub proof fn lemma_diff_accounts(current: Seq<Seq<char>>, new: Seq<Seq<char>>, x: Seq<char>)
    ensures
        new.contains(x) <==> ((current.contains(x) && !minus(current, new).contains(x)) || minus(
            new,
            current,
        ).contains(x)),
{
    lemma_minus_contains(current, new, x);
    lemma_minus_contains(new, current, x);
}

} // verus!
