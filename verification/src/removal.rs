//! Removing whole workspaces: which directories go, which bare clones need
//! their worktree entries pruned and which session branches they lose, and
//! which sessions end up failed.
use vstd::prelude::*;
use crate::parallel::TaskResult;
use crate::paths::{join as join_paths, join_path, workspace_root};
use crate::repo::RepoEntry;
use crate::strset::{ascending, strs, StrSet};
use crate::text::{append_str, chars_of, concat_str, copy_str, first_index, lemma_first_index, string_of_range};
use crate::workspace::{
    find_registered, label_text, progress_label, registered_path, session_branch, session_branch_name, Strategy,
};

verus! {

/// A session to remove, as its name, strategy and repos.
pub open spec fn session_view(t: (String, Strategy, Vec<String>)) -> (Seq<char>, Strategy, Seq<Seq<char>>) {
    (t.0@, t.1, strs(t.2@))
}

/// The sessions to remove, viewed.
pub open spec fn sessions_view(v: Seq<(String, Strategy, Vec<String>)>) -> Seq<(Seq<char>, Strategy, Seq<Seq<char>>)> {
    v.map_values(|t: (String, Strategy, Vec<String>)| session_view(t))
}

/// The units of removal for one session: for each repo, the item name
/// `<session>/<repo>` and the directory `<root>/workspaces/<session>/<repo>`.
pub open spec fn repo_items(box_root: Seq<char>, name: Seq<char>, repos: Seq<Seq<char>>) -> Seq<(Seq<char>, Seq<char>)>
    decreases repos.len(),
{
    if repos.len() == 0 {
        Seq::empty()
    } else {
        repo_items(box_root, name, repos.drop_last()).push((
            name + "/"@ + repos.last(),
            join_path(join_path(join_path(box_root, "workspaces"@), name), repos.last()),
        ))
    }
}

/// The units of removal of all sessions, session after session.
pub open spec fn removal_items(box_root: Seq<char>, ss: Seq<(Seq<char>, Strategy, Seq<Seq<char>>)>) -> Seq<(Seq<char>, Seq<char>)>
    decreases ss.len(),
{
    if ss.len() == 0 {
        Seq::empty()
    } else {
        removal_items(box_root, ss.drop_last()) + repo_items(box_root, ss.last().0, ss.last().2)
    }
}

/// For one worktree session: (session branch, bare clone) for each of its
/// repos that is registered.
pub open spec fn repo_pairs(registry: Seq<RepoEntry>, name: Seq<char>, repos: Seq<Seq<char>>) -> Seq<(Seq<char>, Seq<char>)>
    decreases repos.len(),
{
    if repos.len() == 0 {
        Seq::empty()
    } else {
        let prev = repo_pairs(registry, name, repos.drop_last());
        match registered_path(registry, repos.last()) {
            Some(p) => prev.push((session_branch(name), p)),
            None => prev,
        }
    }
}

/// The (session branch, bare clone) pairs of all worktree sessions.
pub open spec fn removal_pairs(registry: Seq<RepoEntry>, ss: Seq<(Seq<char>, Strategy, Seq<Seq<char>>)>) -> Seq<(Seq<char>, Seq<char>)>
    decreases ss.len(),
{
    if ss.len() == 0 {
        Seq::empty()
    } else {
        removal_pairs(registry, ss.drop_last()) + if ss.last().1 == Strategy::Worktree {
            repo_pairs(registry, ss.last().0, ss.last().2)
        } else {
            Seq::empty()
        }
    }
}

/// The bare clones named in `pairs`.
pub open spec fn pair_bares(pairs: Seq<(Seq<char>, Seq<char>)>) -> Set<Seq<char>> {
    Set::new(|b: Seq<char>| exists|k: int| 0 <= k < pairs.len() && (#[trigger] pairs[k]).1 == b)
}

/// The session branches that live in bare clone `b`.
pub open spec fn pair_branches(pairs: Seq<(Seq<char>, Seq<char>)>, b: Seq<char>) -> Set<Seq<char>> {
    Set::new(|n: Seq<char>| exists|k: int| 0 <= k < pairs.len() && (#[trigger] pairs[k]).1 == b && pairs[k].0 == n)
}

/// Whether every session uses worktrees.
pub open spec fn all_worktree(ss: Seq<(Seq<char>, Strategy, Seq<Seq<char>>)>) -> bool {
    forall|i: int| 0 <= i < ss.len() ==> (#[trigger] ss[i]).1 == Strategy::Worktree
}

/// What removing a batch of sessions involves.
#[derive(Debug)]
pub struct SessionRemovalPlan {
    /// Each repo directory to delete, under the item name `<session>/<repo>`.
    pub items: Vec<(String, String)>,
    /// The label of that batch.
    pub label: String,
    /// Each bare clone to prune, in ascending order, with the session
    /// branches to delete there, in ascending order and without repeats.
    pub cleanups: Vec<(String, Vec<String>)>,
    /// Each session with its workspace root, deleted last.
    pub roots: Vec<(String, String)>,
}

/// The view of an item list.
pub open spec fn pairs_view(v: Seq<(String, String)>) -> Seq<(Seq<char>, Seq<char>)> {
    v.map_values(|t: (String, String)| (t.0@, t.1@))
}

proof fn lemma_subrange_push<A>(s: Seq<A>, i: int)
    requires
        0 <= i < s.len(),
    ensures
        s.subrange(0, i + 1).drop_last() == s.subrange(0, i),
        s.subrange(0, i + 1).last() == s[i],
{
    assert(s.subrange(0, i + 1).drop_last() =~= s.subrange(0, i));
}

/// The units of removal and the (session branch, bare clone) pairs of the
/// sessions.
fn collect_items(box_root: &str, sessions: &Vec<(String, Strategy, Vec<String>)>, registry: &Vec<RepoEntry>) -> (r: (
    Vec<(String, String)>,
    Vec<(String, String)>,
))
    ensures
        pairs_view(r.0@) == removal_items(box_root@, sessions_view(sessions@)),
        pairs_view(r.1@) == removal_pairs(registry@, sessions_view(sessions@)),
{
    let ghost ss = sessions_view(sessions@);
    let mut items: Vec<(String, String)> = Vec::new();
    let mut pairs: Vec<(String, String)> = Vec::new();
    let mut i: usize = 0;
    while i < sessions.len()
        invariant
            i <= sessions@.len(),
            ss == sessions_view(sessions@),
            pairs_view(items@) == removal_items(box_root@, ss.subrange(0, i as int)),
            pairs_view(pairs@) == removal_pairs(registry@, ss.subrange(0, i as int)),
        decreases sessions@.len() - i,
    {
        let name = &sessions[i].0;
        let strategy = sessions[i].1;
        let repos = &sessions[i].2;
        let ghost items0 = pairs_view(items@);
        let ghost pairs0 = pairs_view(pairs@);
        let ghost rs = strs(repos@);
        let root = workspace_root(box_root, name.as_str());
        let mut j: usize = 0;
        while j < repos.len()
            invariant
                j <= repos@.len(),
                rs == strs(repos@),
                root@ == join_path(join_path(box_root@, "workspaces"@), name@),
                pairs_view(items@) == items0 + repo_items(box_root@, name@, rs.subrange(0, j as int)),
                pairs_view(pairs@) == pairs0 + if strategy == Strategy::Worktree {
                    repo_pairs(registry@, name@, rs.subrange(0, j as int))
                } else {
                    Seq::empty()
                },
            decreases repos@.len() - j,
        {
            proof {
                lemma_subrange_push(rs, j as int);
            }
            assert(rs[j as int] == repos@[j as int]@);
            let mut item = concat_str(name.as_str(), "/");
            append_str(&mut item, repos[j].as_str());
            let dest = join_paths(root.as_str(), repos[j].as_str());
            let ghost before_items = items@;
            let ghost entry = (item@, dest@);
            items.push((item, dest));
            assert(pairs_view(items@) =~= pairs_view(before_items).push(entry));
            assert(pairs_view(items@) =~= items0 + repo_items(box_root@, name@, rs.subrange(0, j + 1)));
            if strategy == Strategy::Worktree {
                let ghost before_pairs = pairs@;
                match find_registered(registry, repos[j].as_str()) {
                    Some(p) => {
                        let ghost pe = (session_branch(name@), p@);
                        pairs.push((session_branch_name(name.as_str()), p));
                        assert(pairs_view(pairs@) =~= pairs_view(before_pairs).push(pe));
                    },
                    None => {},
                }
                assert(pairs_view(pairs@) =~= pairs0 + repo_pairs(registry@, name@, rs.subrange(0, j + 1)));
            }
            j = j + 1;
        }
        proof {
            assert(rs.subrange(0, j as int) =~= rs);
            lemma_subrange_push(ss, i as int);
            assert(ss[i as int] == session_view(sessions@[i as int]));
            assert(pairs_view(items@) =~= removal_items(box_root@, ss.subrange(0, i + 1)));
            assert(pairs_view(pairs@) =~= removal_pairs(registry@, ss.subrange(0, i + 1)));
        }
        i = i + 1;
    }
    proof {
        assert(ss.subrange(0, i as int) =~= ss);
    }
    (items, pairs)
}

/// The bare clones named in `pairs`, in ascending order.
fn collect_bares(pairs: &Vec<(String, String)>) -> (r: StrSet)
    ensures
        r.wf(),
        r@.to_set() == pair_bares(pairs_view(pairs@)),
{
    let ghost pv = pairs_view(pairs@);
    let mut set = StrSet::new();
    let mut k: usize = 0;
    while k < pairs.len()
        invariant
            k <= pairs@.len(),
            pv == pairs_view(pairs@),
            set.wf(),
            set@.to_set() == pair_bares(pv.subrange(0, k as int)),
        decreases pairs@.len() - k,
    {
        set.insert(pairs[k].1.as_str());
        proof {
            let before = pv.subrange(0, k as int);
            let after = pv.subrange(0, k + 1);
            assert forall|b: Seq<char>| pair_bares(after).contains(b) <==> pair_bares(before).insert(pv[k as int].1).contains(b) by {
                if pair_bares(after).contains(b) {
                    let m = choose|m: int| 0 <= m < after.len() && (#[trigger] after[m]).1 == b;
                    if m < k {
                        assert(before[m] == after[m]);
                    }
                }
                if pair_bares(before).contains(b) {
                    let m = choose|m: int| 0 <= m < before.len() && (#[trigger] before[m]).1 == b;
                    assert(after[m] == before[m]);
                }
                if b == pv[k as int].1 {
                    assert(after[k as int] == pv[k as int]);
                }
            }
            assert(pair_bares(after) =~= pair_bares(before).insert(pv[k as int].1));
        }
        k = k + 1;
    }
    assert(pv.subrange(0, k as int) =~= pv);
    set
}

/// The session branches that live in bare clone `bare`, in ascending order.
fn collect_branches(pairs: &Vec<(String, String)>, bare: &str) -> (r: StrSet)
    ensures
        r.wf(),
        r@.to_set() == pair_branches(pairs_view(pairs@), bare@),
{
    let ghost pv = pairs_view(pairs@);
    let mut set = StrSet::new();
    let mut k: usize = 0;
    while k < pairs.len()
        invariant
            k <= pairs@.len(),
            pv == pairs_view(pairs@),
            set.wf(),
            set@.to_set() == pair_branches(pv.subrange(0, k as int), bare@),
        decreases pairs@.len() - k,
    {
        let ghost old_set = set@.to_set();
        if crate::text::str_eq(pairs[k].1.as_str(), bare) {
            set.insert(pairs[k].0.as_str());
        }
        proof {
            let before = pv.subrange(0, k as int);
            let after = pv.subrange(0, k + 1);
            let expected = if pv[k as int].1 == bare@ {
                pair_branches(before, bare@).insert(pv[k as int].0)
            } else {
                pair_branches(before, bare@)
            };
            assert forall|n: Seq<char>| pair_branches(after, bare@).contains(n) <==> expected.contains(n) by {
                if pair_branches(after, bare@).contains(n) {
                    let m = choose|m: int| 0 <= m < after.len() && (#[trigger] after[m]).1 == bare@ && after[m].0 == n;
                    if m < k {
                        assert(before[m] == after[m]);
                    }
                }
                if pair_branches(before, bare@).contains(n) {
                    let m = choose|m: int| 0 <= m < before.len() && (#[trigger] before[m]).1 == bare@ && before[m].0 == n;
                    assert(after[m] == before[m]);
                }
                if pv[k as int].1 == bare@ && n == pv[k as int].0 {
                    assert(after[k as int] == pv[k as int]);
                }
            }
            assert(pair_branches(after, bare@) =~= expected);
        }
        k = k + 1;
    }
    assert(pv.subrange(0, k as int) =~= pv);
    set
}

/// Plans the removal of the workspaces of `sessions` (name, strategy,
/// repos) under the box root `box_root`. Every repo of every session is one
/// unit of the batch; afterwards each bare clone used by a worktree
/// session is pruned once and loses those sessions' branches in one go;
/// last, each session's workspace root goes.
pub fn remove_sessions(
    box_root: &str,
    sessions: &Vec<(String, Strategy, Vec<String>)>,
    registry: &Vec<RepoEntry>,
) -> (r: SessionRemovalPlan)
    ensures
        pairs_view(r.items@) == removal_items(box_root@, sessions_view(sessions@)),
        r.label@ == label_text(
            "Removing"@,
            if all_worktree(sessions_view(sessions@)) { "worktree"@ } else { "repo"@ },
            r.items@.len() as nat,
            false,
        ),
        ascending(r.cleanups@.map_values(|c: (String, Vec<String>)| c.0@)),
        r.cleanups@.map_values(|c: (String, Vec<String>)| c.0@).to_set()
            == pair_bares(removal_pairs(registry@, sessions_view(sessions@))),
        forall|m: int| 0 <= m < r.cleanups@.len() ==> {
            &&& ascending(strs((#[trigger] r.cleanups@[m]).1@))
            &&& strs(r.cleanups@[m].1@).to_set()
                == pair_branches(removal_pairs(registry@, sessions_view(sessions@)), r.cleanups@[m].0@)
        },
        r.roots@.len() == sessions@.len(),
        forall|i: int| 0 <= i < sessions@.len() ==> {
            &&& (#[trigger] r.roots@[i]).0@ == sessions@[i].0@
            &&& r.roots@[i].1@ == join_path(join_path(box_root@, "workspaces"@), sessions@[i].0@)
        },
{
    let (items, pairs) = collect_items(box_root, sessions, registry);
    let ghost ss = sessions_view(sessions@);

    let mut every_worktree = true;
    let mut roots: Vec<(String, String)> = Vec::new();
    let mut i: usize = 0;
    while i < sessions.len()
        invariant
            i <= sessions@.len(),
            ss == sessions_view(sessions@),
            every_worktree == (forall|k: int| 0 <= k < i ==> (#[trigger] ss[k]).1 == Strategy::Worktree),
            roots@.len() == i,
            forall|k: int| 0 <= k < i ==> {
                &&& (#[trigger] roots@[k]).0@ == sessions@[k].0@
                &&& roots@[k].1@ == join_path(join_path(box_root@, "workspaces"@), sessions@[k].0@)
            },
        decreases sessions@.len() - i,
    {
        assert(ss[i as int].1 == sessions@[i as int].1);
        if sessions[i].1 == Strategy::Clone {
            every_worktree = false;
        }
        let root = workspace_root(box_root, sessions[i].0.as_str());
        roots.push((copy_str(sessions[i].0.as_str()), root));
        i = i + 1;
    }
    let label = progress_label("Removing", if every_worktree { "worktree" } else { "repo" }, items.len(), false);

    let bares = collect_bares(&pairs);
    let bare_list = bares.to_vec();
    let ghost bl = strs(bare_list@);
    let mut cleanups: Vec<(String, Vec<String>)> = Vec::new();
    let mut m: usize = 0;
    while m < bare_list.len()
        invariant
            m <= bare_list@.len(),
            bl == strs(bare_list@),
            bl == bares@,
            cleanups@.map_values(|c: (String, Vec<String>)| c.0@) == bl.subrange(0, m as int),
            forall|q: int| 0 <= q < m ==> {
                &&& ascending(strs((#[trigger] cleanups@[q]).1@))
                &&& strs(cleanups@[q].1@).to_set() == pair_branches(pairs_view(pairs@), cleanups@[q].0@)
            },
        decreases bare_list@.len() - m,
    {
        let branches = collect_branches(&pairs, bare_list[m].as_str());
        let bv = branches.to_vec();
        let key = copy_str(bare_list[m].as_str());
        assert(key@ == bl[m as int]);
        let ghost before = cleanups@;
        cleanups.push((key, bv));
        proof {
            assert(cleanups@.map_values(|c: (String, Vec<String>)| c.0@) =~= before.map_values(
                |c: (String, Vec<String>)| c.0@,
            ).push(bl[m as int]));
            assert(cleanups@.map_values(|c: (String, Vec<String>)| c.0@) =~= bl.subrange(0, m + 1));
        }
        m = m + 1;
    }
    proof {
        assert(bl.subrange(0, m as int) =~= bl);
    }
    SessionRemovalPlan { items, label, cleanups, roots }
}

/// The session an item name `<session>/<repo>` belongs to: what precedes
/// its first `/`.
pub open spec fn item_session(item: Seq<char>) -> Option<Seq<char>> {
    match first_index(item, '/') {
        Some(k) => Some(item.subrange(0, k)),
        None => None,
    }
}

/// The session of an item name (see [`item_session`]).
pub fn session_of_item(item: &str) -> (r: Option<String>)
    ensures
        match item_session(item@) {
            Some(s) => r matches Some(x) && x@ == s,
            None => r is None,
        },
{
    let v = chars_of(item);
    let mut i: usize = 0;
    while i < v.len()
        invariant
            v@ == item@,
            i <= v@.len(),
            forall|k: int| 0 <= k < i ==> v@[k] != '/',
        decreases v@.len() - i,
    {
        if v[i] == '/' {
            proof {
                lemma_first_index(item@, '/', i as int);
            }
            return Some(string_of_range(v.as_slice(), 0, i));
        }
        i = i + 1;
    }
    proof {
        lemma_first_index(item@, '/', i as int);
    }
    None
}

/// The sessions of the failed units of a batch.
pub open spec fn failed_sessions_of(rs: Seq<TaskResult>) -> Set<Seq<char>> {
    Set::new(|n: Seq<char>| exists|k: int| 0 <= k < rs.len() && !(#[trigger] rs[k]).success && item_session(rs[k].name@) == Some(n))
}

/// The sessions at least one of whose repos could not be removed, in
/// ascending order.
pub fn failed_sessions(results: &Vec<TaskResult>) -> (r: StrSet)
    ensures
        r.wf(),
        r@.to_set() == failed_sessions_of(results@),
{
    let mut set = StrSet::new();
    let mut k: usize = 0;
    while k < results.len()
        invariant
            k <= results@.len(),
            set.wf(),
            set@.to_set() == failed_sessions_of(results@.subrange(0, k as int)),
        decreases results@.len() - k,
    {
        let before = Ghost(results@.subrange(0, k as int));
        let after = Ghost(results@.subrange(0, k + 1));
        let ghost old_set = set@.to_set();
        if !results[k].success {
            match session_of_item(results[k].name.as_str()) {
                Some(s) => {
                    set.insert(s.as_str());
                },
                None => {},
            }
        }
        proof {
            let b = before@;
            let a = after@;
            assert forall|n: Seq<char>| failed_sessions_of(a).contains(n) <==> set@.to_set().contains(n) by {
                if failed_sessions_of(a).contains(n) {
                    let m = choose|m: int| 0 <= m < a.len() && !(#[trigger] a[m]).success && item_session(a[m].name@) == Some(n);
                    if m < k {
                        assert(b[m] == a[m]);
                        assert(failed_sessions_of(b).contains(n));
                    } else {
                        assert(a[m] == results@[k as int]);
                    }
                }
                if old_set.contains(n) {
                    let m = choose|m: int| 0 <= m < b.len() && !(#[trigger] b[m]).success && item_session(b[m].name@) == Some(n);
                    assert(a[m] == b[m]);
                }
                if !results@[k as int].success && item_session(results@[k as int].name@) == Some(n) {
                    assert(a[k as int] == results@[k as int]);
                }
            }
            assert(failed_sessions_of(a) =~= set@.to_set());
        }
        k = k + 1;
    }
    assert(results@.subrange(0, k as int) =~= results@);
    set
}

/// How deleting a session's workspace root went.
#[derive(Clone, Copy, Debug, PartialEq, Eq, Structural)]
pub enum RootOutcome {
    /// The root was deleted.
    Removed,
    /// The root was already gone.
    NotFound,
    /// Deleting it failed otherwise.
    Failed,
}

/// The failed sessions once the first `n` roots were dealt with, starting
/// from `failed`: a root deleted or already gone clears its session, any
/// other failure adds it.
pub open spec fn settle_failed(failed: Set<Seq<char>>, names: Seq<Seq<char>>, outcomes: Seq<RootOutcome>, n: int) -> Set<Seq<char>>
    decreases n,
{
    if n <= 0 {
        failed
    } else {
        let prev = settle_failed(failed, names, outcomes, n - 1);
        match outcomes[n - 1] {
            RootOutcome::Failed => prev.insert(names[n - 1]),
            _ => prev.remove(names[n - 1]),
        }
    }
}

/// The sessions that end up failed: those of `item_failed` (whose repos
/// could not all be removed), settled root by root in order, where
/// `root_outcomes[k]` tells how deleting the root of session `names[k]`
/// went.
pub fn final_failed(names: &Vec<String>, item_failed: &StrSet, root_outcomes: &Vec<RootOutcome>) -> (r: StrSet)
    requires
        names@.len() == root_outcomes@.len(),
    ensures
        r.wf(),
        r@.to_set() == settle_failed(item_failed@.to_set(), strs(names@), root_outcomes@, names@.len() as int),
{
    let start = item_failed.to_vec();
    let ghost sv = strs(start@);
    let mut set = StrSet::new();
    let mut k: usize = 0;
    while k < start.len()
        invariant
            k <= start@.len(),
            sv == strs(start@),
            set.wf(),
            set@.to_set() == sv.subrange(0, k as int).to_set(),
        decreases start@.len() - k,
    {
        set.insert(start[k].as_str());
        proof {
            assert(sv.subrange(0, k + 1) =~= sv.subrange(0, k as int).push(sv[k as int]));
            crate::strset::lemma_push_to_set(sv.subrange(0, k as int), sv[k as int]);
        }
        k = k + 1;
    }
    assert(sv.subrange(0, k as int) =~= sv);
    let ghost nv = strs(names@);
    let mut i: usize = 0;
    while i < names.len()
        invariant
            i <= names@.len(),
            names@.len() == root_outcomes@.len(),
            nv == strs(names@),
            set.wf(),
            set@.to_set() == settle_failed(item_failed@.to_set(), nv, root_outcomes@, i as int),
        decreases names@.len() - i,
    {
        assert(nv[i as int] == names@[i as int]@);
        match root_outcomes[i] {
            RootOutcome::Failed => set.insert(names[i].as_str()),
            _ => set.remove(names[i].as_str()),
        }
        i = i + 1;
    }
    set
}

} // verus!
