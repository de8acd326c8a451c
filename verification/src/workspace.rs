//! Workspaces on disk: the two strategies that build them, and the plans
//! of the work that creates and removes them.
use vstd::prelude::*;
use crate::fields::{join_sep, join_with};
use crate::parallel::TaskResult;
use crate::paths::{join as join_paths, join_path, path_exists, workspace_root};
use crate::repo::RepoEntry;
use crate::strset::strs;
use crate::text::{append_str, concat_str, copy_str, decimal, decimal_str, str_eq, trim, trim_str};

verus! {

/// How the repos of a workspace are materialised.
#[derive(Debug, Clone, Copy, PartialEq, Eq, Structural)]
pub enum Strategy {
    /// `git clone --local` of each source.
    Clone,
    /// `git worktree add` on each source's bare clone.
    Worktree,
}

/// The name of a strategy as written in metadata and on the command line.
pub open spec fn strategy_name(s: Strategy) -> Seq<char> {
    match s {
        Strategy::Clone => "clone"@,
        Strategy::Worktree => "worktree"@,
    }
}

/// The strategy a name stands for, if any.
pub open spec fn parse_strategy(s: Seq<char>) -> Option<Strategy> {
    if s == "clone"@ {
        Some(Strategy::Clone)
    } else if s == "worktree"@ {
        Some(Strategy::Worktree)
    } else {
        None
    }
}

/// The error given for a name that is no strategy.
pub open spec fn unknown_strategy_message(s: Seq<char>) -> Seq<char> {
    "Unknown strategy '"@ + s + "'. Use 'clone' or 'worktree'."@
}

impl Strategy {
    /// The strategy named `s`.
    pub fn from_str(s: &str) -> (r: Result<Strategy, String>)
        ensures
            match parse_strategy(s@) {
                Some(t) => r matches Ok(u) && u == t,
                None => r matches Err(m) && m@ == unknown_strategy_message(s@),
            },
    {
        if str_eq(s, "clone") {
            Ok(Strategy::Clone)
        } else if str_eq(s, "worktree") {
            Ok(Strategy::Worktree)
        } else {
            let mut m = concat_str("Unknown strategy '", s);
            append_str(&mut m, "'. Use 'clone' or 'worktree'.");
            Err(m)
        }
    }

    /// The strategy recorded for a session: the one its name names, and
    /// `clone` for sessions recorded without a valid one (they predate the
    /// choice of strategy).
    pub fn recorded(s: &str) -> (r: Strategy)
        ensures
            match parse_strategy(s@) {
                Some(t) => r == t,
                None => r == Strategy::Clone,
            },
    {
        match Strategy::from_str(s) {
            Ok(t) => t,
            Err(_) => Strategy::Clone,
        }
    }

    /// The strategy's name.
    pub fn as_str(&self) -> (r: &'static str)
        ensures
            r@ == strategy_name(*self),
    {
        match self {
            Strategy::Clone => "clone",
            Strategy::Worktree => "worktree",
        }
    }
}

/// A strategy's name reads back as that strategy, and the two names differ.
pub proof fn lemma_strategy_name_roundtrip(s: Strategy)
    ensures
        parse_strategy(strategy_name(s)) == Some(s),
{
    reveal_strlit("clone");
    reveal_strlit("worktree");
    assert("clone"@.len() != "worktree"@.len());
}

// ---------------------------------------------------------------------------
// Progress labels and failure reports
// ---------------------------------------------------------------------------

/// `""` for one, `"s"` otherwise.
pub open spec fn plural(count: nat) -> Seq<char> {
    if count == 1 { ""@ } else { "s"@ }
}

/// The label of a batch: `Preparing N repo(s)` when sources are fetched
/// first, otherwise `<noun> N <unit>(s)`.
pub open spec fn label_text(noun: Seq<char>, unit: Seq<char>, count: nat, fetch: bool) -> Seq<char> {
    if fetch {
        "Preparing "@ + decimal(count) + " repo"@ + plural(count)
    } else {
        noun + " "@ + decimal(count) + " "@ + unit + plural(count)
    }
}

/// Formats the label of a batch (see [`label_text`]).
pub fn progress_label(noun: &str, unit: &str, count: usize, fetch: bool) -> (r: String)
    ensures
        r@ == label_text(noun@, unit@, count as nat, fetch),
{
    let d = decimal_str(count);
    let p = if count == 1 { "" } else { "s" };
    if fetch {
        let mut r = concat_str("Preparing ", d.as_str());
        append_str(&mut r, " repo");
        append_str(&mut r, p);
        r
    } else {
        let mut r = concat_str(noun, " ");
        append_str(&mut r, d.as_str());
        append_str(&mut r, " ");
        append_str(&mut r, unit);
        append_str(&mut r, p);
        r
    }
}

/// The entries of a failure report, one per failed task: its name alone
/// when verbose (its log was shown already), else its name and trimmed log.
pub open spec fn failure_entries(rs: Seq<TaskResult>, verbose: bool) -> Seq<Seq<char>>
    decreases rs.len(),
{
    if rs.len() == 0 {
        Seq::empty()
    } else {
        let prev = failure_entries(rs.drop_last(), verbose);
        let r = rs.last();
        if r.success {
            prev
        } else if verbose {
            prev.push(r.name@)
        } else {
            prev.push("  "@ + r.name@ + ": "@ + trim(r.output@))
        }
    }
}

/// The error that a batch with failures ends in.
pub open spec fn failure_message(action: Seq<char>, entries: Seq<Seq<char>>, verbose: bool) -> Seq<char> {
    if verbose {
        action + " failed for: "@ + join_sep(entries, ", "@)
    } else {
        action + " failed:\n"@ + join_sep(entries, "\n"@)
    }
}

/// `Ok` when every task succeeded, else the error naming the failed ones;
/// `action` is the command named in it (such as `git clone --local`).
pub fn report_results(results: &Vec<TaskResult>, verbose: bool, action: &str) -> (r: Result<(), String>)
    ensures
        failure_entries(results@, verbose).len() == 0 ==> r is Ok,
        failure_entries(results@, verbose).len() > 0 ==> (r matches Err(m)
            && m@ == failure_message(action@, failure_entries(results@, verbose), verbose)),
{
    let mut entries: Vec<String> = Vec::new();
    let mut i: usize = 0;
    while i < results.len()
        invariant
            i <= results@.len(),
            strs(entries@) == failure_entries(results@.subrange(0, i as int), verbose),
        decreases results@.len() - i,
    {
        assert(results@.subrange(0, i + 1).drop_last() =~= results@.subrange(0, i as int));
        assert(results@.subrange(0, i + 1).last() == results@[i as int]);
        if !results[i].success {
            let e = if verbose {
                copy_str(results[i].name.as_str())
            } else {
                let mut e = concat_str("  ", results[i].name.as_str());
                append_str(&mut e, ": ");
                let t = trim_str(results[i].output.as_str());
                append_str(&mut e, t.as_str());
                e
            };
            entries.push(e);
            assert(strs(entries@) =~= failure_entries(results@.subrange(0, i + 1), verbose));
        }
        i = i + 1;
    }
    assert(results@.subrange(0, i as int) =~= results@);
    if entries.len() == 0 {
        return Ok(());
    }
    if verbose {
        let mut m = concat_str(action, " failed for: ");
        let j = join_with(&entries, ", ");
        append_str(&mut m, j.as_str());
        Err(m)
    } else {
        let mut m = concat_str(action, " failed:\n");
        let j = join_with(&entries, "\n");
        append_str(&mut m, j.as_str());
        Err(m)
    }
}

// ---------------------------------------------------------------------------
// Creating a workspace
// ---------------------------------------------------------------------------

/// A source still to be set up in a workspace, and where it goes.
#[derive(Debug)]
pub struct PendingRepo {
    pub repo: RepoEntry,
    pub dest: String,
}

/// What a pending entry says: the source's name and path, and the
/// destination.
pub open spec fn pending_view(p: PendingRepo) -> (Seq<char>, Seq<char>, Seq<char>) {
    (p.repo.name@, p.repo.path@, p.dest@)
}

/// The sources not yet present in a workspace rooted at `root`
/// (`present[i]` tells whether `repos[i]` is), each with its destination
/// `root/<name>`, in the order given.
pub open spec fn pending(root: Seq<char>, repos: Seq<RepoEntry>, present: Seq<bool>) -> Seq<(Seq<char>, Seq<char>, Seq<char>)>
    decreases repos.len(),
{
    if repos.len() == 0 {
        Seq::empty()
    } else {
        let prev = pending(root, repos.drop_last(), present.drop_last());
        let r = repos.last();
        if present.last() {
            prev
        } else {
            prev.push((r.name@, r.path@, join_path(root, r.name@)))
        }
    }
}

/// Keeps the sources that `present` marks as absent, with their destinations.
pub fn select_pending(root: &str, repos: &Vec<RepoEntry>, present: &Vec<bool>) -> (r: Vec<PendingRepo>)
    requires
        present@.len() == repos@.len(),
    ensures
        r@.map_values(|p: PendingRepo| pending_view(p)) == pending(root@, repos@, present@),
{
    let mut out: Vec<PendingRepo> = Vec::new();
    let mut i: usize = 0;
    while i < repos.len()
        invariant
            i <= repos@.len(),
            present@.len() == repos@.len(),
            out@.map_values(|p: PendingRepo| pending_view(p))
                == pending(root@, repos@.subrange(0, i as int), present@.subrange(0, i as int)),
        decreases repos@.len() - i,
    {
        assert(repos@.subrange(0, i + 1).drop_last() =~= repos@.subrange(0, i as int));
        assert(present@.subrange(0, i + 1).drop_last() =~= present@.subrange(0, i as int));
        if !present[i] {
            let dest = join_paths(root, repos[i].name.as_str());
            let repo = repos[i].copied();
            out.push(PendingRepo { repo, dest });
            assert(out@.map_values(|p: PendingRepo| pending_view(p)) =~= pending(
                root@,
                repos@.subrange(0, i + 1),
                present@.subrange(0, i + 1),
            ));
        }
        i = i + 1;
    }
    assert(repos@.subrange(0, i as int) =~= repos@);
    assert(present@.subrange(0, i as int) =~= present@);
    out
}

/// The sources not yet set up under `root`, as the disk shows them now:
/// a source counts as set up when `root/<name>/.git` exists. What comes
/// back is what `select_pending` keeps for some reading of those markers
/// (the disk's answers are not stated).
pub fn pending_repos(root: &str, repos: &Vec<RepoEntry>) -> (r: Vec<PendingRepo>)
    ensures
        exists|present: Seq<bool>|
            present.len() == repos@.len() && r@.map_values(|p: PendingRepo| pending_view(p)) == pending(
                root@,
                repos@,
                present,
            ),
{
    let mut present: Vec<bool> = Vec::new();
    let mut i: usize = 0;
    while i < repos.len()
        invariant
            i <= repos@.len(),
            present@.len() == i,
        decreases repos@.len() - i,
    {
        let dir = join_paths(root, repos[i].name.as_str());
        let marker = join_paths(dir.as_str(), ".git");
        present.push(path_exists(marker.as_str()));
        i = i + 1;
    }
    let r = select_pending(root, repos, &present);
    assert(present@.len() == repos@.len());
    r
}

/// The branch a worktree of session `name` is created on: `box/<name>`.
pub open spec fn session_branch(name: Seq<char>) -> Seq<char> {
    "box/"@ + name
}

/// The branch of session `name` (see [`session_branch`]).
pub fn session_branch_name(name: &str) -> (r: String)
    ensures
        r@ == session_branch(name@),
{
    concat_str("box/", name)
}

/// What creating a workspace involves: its root directory, the label of
/// the batch, the sources to set up there, and, for worktrees, the branch
/// they are created on (`box/<session>`).
#[derive(Debug)]
pub struct WorkspacePlan {
    pub root: String,
    pub label: String,
    pub tasks: Vec<PendingRepo>,
    pub branch: Option<String>,
}

/// The noun and unit of the label for a strategy.
pub open spec fn label_words(s: Strategy) -> (Seq<char>, Seq<char>) {
    match s {
        Strategy::Clone => ("Cloning"@, "repo"@),
        Strategy::Worktree => ("Creating"@, "worktree"@),
    }
}

/// Plans the creation of the workspace of session `name` under the box
/// root `box_root` with `strategy`; `fetch` tells whether sources are
/// fetched first. The sources already present are left out.
pub fn ensure_workspace(box_root: &str, name: &str, repos: &Vec<RepoEntry>, strategy: Strategy, fetch: bool) -> (r: WorkspacePlan)
    ensures
        r.root@ == join_path(join_path(box_root@, "workspaces"@), name@),
        exists|present: Seq<bool>|
            present.len() == repos@.len() && r.tasks@.map_values(|p: PendingRepo| pending_view(p)) == pending(
                r.root@,
                repos@,
                present,
            ),
        r.label@ == label_text(label_words(strategy).0, label_words(strategy).1, r.tasks@.len() as nat, fetch),
        strategy == Strategy::Clone ==> r.branch is None,
        strategy == Strategy::Worktree ==> (r.branch matches Some(b) && b@ == session_branch(name@)),
{
    let root = workspace_root(box_root, name);
    let tasks = pending_repos(root.as_str(), repos);
    let (label, branch) = match strategy {
        Strategy::Clone => (progress_label("Cloning", "repo", tasks.len(), fetch), None),
        Strategy::Worktree => (progress_label("Creating", "worktree", tasks.len(), fetch), Some(session_branch_name(name))),
    };
    WorkspacePlan { root, label, tasks, branch }
}

/// The arguments of `git` that clone a source into `dest`.
pub fn clone_args(repo_path: &str, dest: &str) -> (r: Vec<String>)
    ensures
        strs(r@) == seq!["clone"@, "--local"@, repo_path@, dest@],
{
    let mut r: Vec<String> = Vec::new();
    r.push("clone".to_string());
    r.push("--local".to_string());
    r.push(copy_str(repo_path));
    r.push(copy_str(dest));
    assert(strs(r@) =~= seq!["clone"@, "--local"@, repo_path@, dest@]);
    r
}

/// The arguments of `git` that add a worktree of the bare clone at
/// `repo_path` at `dest` on `branch`: creating the branch with `-b` first,
/// or checking out an existing one on the retry.
pub fn worktree_add_args(repo_path: &str, dest: &str, branch: &str, create: bool) -> (r: Vec<String>)
    ensures
        create ==> strs(r@) == seq!["-C"@, repo_path@, "worktree"@, "add"@, dest@, "-b"@, branch@],
        !create ==> strs(r@) == seq!["-C"@, repo_path@, "worktree"@, "add"@, dest@, branch@],
{
    let mut r: Vec<String> = Vec::new();
    r.push("-C".to_string());
    r.push(copy_str(repo_path));
    r.push("worktree".to_string());
    r.push("add".to_string());
    r.push(copy_str(dest));
    if create {
        r.push("-b".to_string());
    }
    r.push(copy_str(branch));
    if create {
        assert(strs(r@) =~= seq!["-C"@, repo_path@, "worktree"@, "add"@, dest@, "-b"@, branch@]);
    } else {
        assert(strs(r@) =~= seq!["-C"@, repo_path@, "worktree"@, "add"@, dest@, branch@]);
    }
    r
}

/// The configuration that makes a worktree's branch track its namesake on
/// `origin`: `branch.<b>.remote = origin`, `branch.<b>.merge = refs/heads/<b>`.
pub fn upstream_settings(branch: &str) -> (r: Vec<(String, String)>)
    ensures
        r@.len() == 2,
        r@[0].0@ == "branch."@ + branch@ + ".remote"@,
        r@[0].1@ == "origin"@,
        r@[1].0@ == "branch."@ + branch@ + ".merge"@,
        r@[1].1@ == "refs/heads/"@ + branch@,
{
    let mut k1 = concat_str("branch.", branch);
    append_str(&mut k1, ".remote");
    let mut k2 = concat_str("branch.", branch);
    append_str(&mut k2, ".merge");
    let v2 = concat_str("refs/heads/", branch);
    let mut r: Vec<(String, String)> = Vec::new();
    r.push((k1, "origin".to_string()));
    r.push((k2, v2));
    r
}

// ---------------------------------------------------------------------------
// Removing a repo from a workspace
// ---------------------------------------------------------------------------

/// The path of the first registered source named `name`.
pub open spec fn registered_path(registry: Seq<RepoEntry>, name: Seq<char>) -> Option<Seq<char>>
    decreases registry.len(),
{
    if registry.len() == 0 {
        None
    } else if registry[0].name@ == name {
        Some(registry[0].path@)
    } else {
        registered_path(registry.drop_first(), name)
    }
}

/// The path of the first registered source named `name`, if any.
pub fn find_registered(registry: &Vec<RepoEntry>, name: &str) -> (r: Option<String>)
    ensures
        match registered_path(registry@, name@) {
            Some(p) => r matches Some(s) && s@ == p,
            None => r is None,
        },
{
    let mut i: usize = 0;
    assert(registry@.skip(0) =~= registry@);
    while i < registry.len()
        invariant
            i <= registry@.len(),
            registered_path(registry@, name@) == registered_path(registry@.skip(i as int), name@),
        decreases registry@.len() - i,
    {
        proof {
            assert(registry@.skip(i as int).drop_first() =~= registry@.skip(i + 1));
            assert(registry@.skip(i as int)[0] == registry@[i as int]);
        }
        if str_eq(registry[i].name.as_str(), name) {
            return Some(copy_str(registry[i].path.as_str()));
        }
        i = i + 1;
    }
    None
}

/// What removing one repo from a workspace involves: deleting its
/// directory, and, for a worktree of a registered source, pruning that
/// bare clone's worktree entries and deleting the session branch there.
#[derive(Debug)]
pub struct RepoRemoval {
    pub dir: String,
    pub bare: Option<String>,
    pub branch: String,
}

/// Plans the removal of repo `repo_name` from the workspace of session
/// `session_name` under the box root `box_root`.
pub fn remove_repo_by_strategy(
    box_root: &str,
    session_name: &str,
    repo_name: &str,
    strategy: Strategy,
    registry: &Vec<RepoEntry>,
) -> (r: RepoRemoval)
    ensures
        r.dir@ == join_path(join_path(join_path(box_root@, "workspaces"@), session_name@), repo_name@),
        r.branch@ == session_branch(session_name@),
        strategy == Strategy::Clone ==> r.bare is None,
        strategy == Strategy::Worktree ==> match registered_path(registry@, repo_name@) {
            Some(p) => r.bare matches Some(b) && b@ == p,
            None => r.bare is None,
        },
{
    let root = workspace_root(box_root, session_name);
    let dir = join_paths(root.as_str(), repo_name);
    let bare = match strategy {
        Strategy::Clone => None,
        Strategy::Worktree => find_registered(registry, repo_name),
    };
    RepoRemoval { dir, bare, branch: session_branch_name(session_name) }
}

} // verus!
