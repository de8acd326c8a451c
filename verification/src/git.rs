//! Git repositories on disk, and the fetch of a bare clone that steps
//! around the branches its worktrees have checked out.
use vstd::prelude::*;
use crate::paths::{join as join_paths, join_path, path_exists};
use crate::edit::minus;
use crate::strset::strs;
use crate::text::{
    append_str, chars_of, concat_str, copy_str, find_from, find_in, find_sub, first_index, has_prefix, lemma_first_index,
    lines, lines_of, str_eq, string_of_range, strip_prefix,
};

verus! {

/// The parent of path `p`, as `Path::parent` computes it.
pub uninterp spec fn path_parent(p: Seq<char>) -> Option<Seq<char>>;

/// The parent of a path.
///
/// Calls `std::path::Path::parent`. Its result is named by [`path_parent`];
/// its documentation says it is the path without its final component, so
/// the contract adds that a parent is shorter than the path.
#[verifier::external_body]
fn parent_of(p: &str) -> (r: Option<String>)
    ensures
        match r {
            Some(q) => path_parent(p@) == Some(q@) && q@.len() < p@.len(),
            None => path_parent(p@) is None,
        },
{
    match std::path::Path::new(p).parent() {
        Some(q) => Some(q.to_string_lossy().into_owned()),
        None => None,
    }
}

/// The `k`-th ancestor of `p` (`p` itself for `k == 0`), if there is one.
pub open spec fn ancestor(p: Seq<char>, k: nat) -> Option<Seq<char>>
    decreases k,
{
    if k == 0 {
        Some(p)
    } else {
        match ancestor(p, (k - 1) as nat) {
            Some(q) => path_parent(q),
            None => None,
        }
    }
}

/// Whether `dir` holds a `.git` entry (a directory, or the file that
/// worktrees and submodules use). What the disk says is not stated.
pub fn is_repo(dir: &str) -> bool {
    let marker = join_paths(dir, ".git");
    path_exists(marker.as_str())
}

/// The nearest ancestor of `dir`, from the `k`-th on, that `marks` marks
/// as a repository (`marks[j]` standing for the `j`-th ancestor); `None`
/// when the marks or the ancestors run out first.
pub open spec fn first_marked(dir: Seq<char>, marks: Seq<bool>, k: nat) -> Option<Seq<char>>
    decreases marks.len() - k,
{
    if k >= marks.len() {
        None
    } else {
        match ancestor(dir, k) {
            None => None,
            Some(a) => if marks[k as int] {
                Some(a)
            } else {
                first_marked(dir, marks, k + 1)
            },
        }
    }
}

/// The nearest ancestor of `dir` (itself included) that `is_repo_at`
/// marks as a repository, `is_repo_at[k]` telling it of the `k`-th
/// ancestor (see [`first_marked`]).
pub fn first_repo(dir: &str, is_repo_at: &Vec<bool>) -> (r: Option<String>)
    ensures
        crate::cli::opt_str(r) == first_marked(dir@, is_repo_at@, 0),
{
    let mut current = copy_str(dir);
    let mut k: usize = 0;
    assert(ancestor(dir@, 0) == Some(dir@));
    while k < is_repo_at.len()
        invariant
            k <= is_repo_at@.len(),
            ancestor(dir@, k as nat) == Some(current@),
            first_marked(dir@, is_repo_at@, 0) == first_marked(dir@, is_repo_at@, k as nat),
        decreases is_repo_at@.len() - k,
    {
        if is_repo_at[k] {
            return Some(current);
        }
        match parent_of(current.as_str()) {
            Some(parent) => {
                current = parent;
            },
            None => {
                assert(ancestor(dir@, (k + 1) as nat) is None);
                assert(first_marked(dir@, is_repo_at@, (k + 1) as nat) is None);
                return None;
            },
        }
        k = k + 1;
    }
    None
}

/// Walks up from `dir` to the nearest ancestor that is a repository.
///
/// It asks [`is_repo`] of `dir`, then of each ancestor in turn, and stops
/// at the first yes or when the ancestors run out; what comes back is what
/// [`first_repo`] makes of those answers. Which ancestors hold `.git`
/// depends on the disk and is not stated.
pub fn find_root(dir: &str) -> (r: Option<String>)
    ensures
        exists|marks: Seq<bool>|
            {
                &&& marks.len() >= 1
                &&& forall|j: int| 0 <= j < marks.len() ==> (#[trigger] ancestor(dir@, j as nat)) is Some
                &&& forall|j: int| 0 <= j < marks.len() - 1 ==> !(#[trigger] marks[j])
                &&& (marks.last() || ancestor(dir@, marks.len()) is None)
                &&& crate::cli::opt_str(r) == first_marked(dir@, marks, 0)
            },
{
    let mut marks: Vec<bool> = Vec::new();
    let mut current = copy_str(dir);
    assert(ancestor(dir@, 0) == Some(dir@));
    loop
        invariant_except_break
            ancestor(dir@, marks@.len()) == Some(current@),
            forall|j: int| 0 <= j < marks@.len() ==> !(#[trigger] marks@[j]),
        invariant
            forall|j: int| 0 <= j < marks@.len() ==> (#[trigger] ancestor(dir@, j as nat)) is Some,
        ensures
            marks@.len() >= 1,
            forall|j: int| 0 <= j < marks@.len() - 1 ==> !(#[trigger] marks@[j]),
            marks@.last() || ancestor(dir@, marks@.len()) is None,
        decreases current@.len(),
    {
        let found = is_repo(current.as_str());
        marks.push(found);
        if found {
            break;
        }
        match parent_of(current.as_str()) {
            Some(parent) => {
                current = parent;
            },
            None => {
                assert(ancestor(dir@, marks@.len()) is None);
                break;
            },
        }
    }
    first_repo(dir, &marks)
}

// ---------------------------------------------------------------------------
// Reading git's output
// ---------------------------------------------------------------------------

/// The branch a line of `git worktree list --porcelain` names, if any.
pub open spec fn worktree_branch(line: Seq<char>) -> Option<Seq<char>> {
    if has_prefix(line, "branch refs/heads/"@) {
        Some(line.skip("branch refs/heads/"@.len() as int))
    } else {
        None
    }
}

/// The branches named by the lines of `ls`, in order.
pub open spec fn branches_of_lines(ls: Seq<Seq<char>>) -> Seq<Seq<char>>
    decreases ls.len(),
{
    if ls.len() == 0 {
        Seq::empty()
    } else {
        match worktree_branch(ls.last()) {
            Some(b) => branches_of_lines(ls.drop_last()).push(b),
            None => branches_of_lines(ls.drop_last()),
        }
    }
}

/// The branches checked out in some worktree, read from the output of
/// `git worktree list --porcelain`.
pub fn worktree_branches(porcelain: &str) -> (r: Vec<String>)
    ensures
        strs(r@) == branches_of_lines(lines(porcelain@)),
{
    let ls = lines_of(porcelain);
    let ghost lv = strs(ls@);
    let mut out: Vec<String> = Vec::new();
    let mut i: usize = 0;
    while i < ls.len()
        invariant
            i <= ls@.len(),
            lv == strs(ls@),
            lv == lines(porcelain@),
            strs(out@) == branches_of_lines(lv.subrange(0, i as int)),
        decreases ls@.len() - i,
    {
        assert(lv.subrange(0, i + 1).drop_last() =~= lv.subrange(0, i as int));
        assert(lv[i as int] == ls@[i as int]@);
        match strip_prefix(ls[i].as_str(), "branch refs/heads/") {
            Some(b) => {
                out.push(b);
                assert(strs(out@) =~= branches_of_lines(lv.subrange(0, i + 1)));
            },
            None => {},
        }
        i = i + 1;
    }
    assert(lv.subrange(0, i as int) =~= lv);
    out
}

/// The branch that a line of git's error output says it refused to fetch
/// into: the `refs/heads/` name quoted after
/// `refusing to fetch into branch '`.
pub open spec fn refused_branch(line: Seq<char>) -> Option<Seq<char>> {
    let pat = "refusing to fetch into branch '"@;
    match find_sub(line, pat) {
        None => None,
        Some(k) => {
            let rest = line.skip(k + pat.len());
            match first_index(rest, '\'') {
                None => None,
                Some(q) => {
                    let ref_name = rest.subrange(0, q);
                    if has_prefix(ref_name, "refs/heads/"@) {
                        Some(ref_name.skip("refs/heads/"@.len() as int))
                    } else {
                        None
                    }
                },
            }
        },
    }
}

/// The refused branches named by the lines of `ls`, in order.
pub open spec fn refused_of_lines(ls: Seq<Seq<char>>) -> Seq<Seq<char>>
    decreases ls.len(),
{
    if ls.len() == 0 {
        Seq::empty()
    } else {
        match refused_branch(ls.last()) {
            Some(b) => refused_of_lines(ls.drop_last()).push(b),
            None => refused_of_lines(ls.drop_last()),
        }
    }
}

/// The first `'` in `v[from..]`, counted from the start of `v`.
fn quote_after(v: &[char], from: usize) -> (r: Option<usize>)
    requires
        from <= v@.len(),
    ensures
        match first_index(v@.skip(from as int), '\'') {
            Some(q) => r matches Some(j) && j as int == from + q,
            None => r is None,
        },
        match r {
            Some(q) => from <= q < v@.len(),
            None => true,
        },
{
    let ghost rest = v@.skip(from as int);
    let mut i: usize = from;
    while i < v.len()
        invariant
            from <= i <= v@.len(),
            rest == v@.skip(from as int),
            forall|k: int| 0 <= k < i - from ==> rest[k] != '\'',
        decreases v@.len() - i,
    {
        if v[i] == '\'' {
            proof {
                assert(rest[i - from] == v@[i as int]);
                lemma_first_index(rest, '\'', i - from);
            }
            return Some(i);
        }
        assert(rest[i - from] == v@[i as int]);
        i = i + 1;
    }
    proof {
        lemma_first_index(rest, '\'', i - from);
    }
    None
}

/// The refused branch of one line (see [`refused_branch`]).
fn refused_in_line(line: &str) -> (r: Option<String>)
    ensures
        match refused_branch(line@) {
            Some(b) => r matches Some(x) && x@ == b,
            None => r is None,
        },
{
    let v = chars_of(line);
    let pat = chars_of("refusing to fetch into branch '");
    let ghost pv = "refusing to fetch into branch '"@;
    assert(pat@ == pv);
    let vs = v.as_slice();
    let ps = pat.as_slice();
    assert(vs@ == line@ && ps@ == pv);
    let found = find_in(vs, ps, 0);
    assert(find_sub(line@, pv) == find_from(line@, pv, 0));
    match found {
        None => {
            assert(find_sub(line@, pv) is None);
            None
        },
        Some(k) => {
            assert(find_sub(line@, pv) == Some(k as int));
            let n = v.len();
            let m = pat.len();
            assert(k + m <= n);
            let start = k + m;
            let ghost rest = line@.skip(start as int);
            assert(vs@.skip(start as int) == rest);
            match quote_after(vs, start) {
                None => {
                    assert(first_index(rest, '\'') is None);
                    None
                },
                Some(q) => {
                    assert(first_index(rest, '\'') == Some(q - start));
                    let ref_name = string_of_range(vs, start, q);
                    assert(ref_name@ =~= rest.subrange(0, q - start));
                    strip_prefix(ref_name.as_str(), "refs/heads/")
                },
            }
        },
    }
}

/// The branches git refused to fetch into because a worktree has them
/// checked out, read from its error output, in order.
pub fn parse_refused_branches(stderr: &str) -> (r: Vec<String>)
    ensures
        strs(r@) == refused_of_lines(lines(stderr@)),
{
    let ls = lines_of(stderr);
    let ghost lv = strs(ls@);
    let mut out: Vec<String> = Vec::new();
    let mut i: usize = 0;
    while i < ls.len()
        invariant
            i <= ls@.len(),
            lv == strs(ls@),
            lv == lines(stderr@),
            strs(out@) == refused_of_lines(lv.subrange(0, i as int)),
        decreases ls@.len() - i,
    {
        assert(lv.subrange(0, i + 1).drop_last() =~= lv.subrange(0, i as int));
        assert(lv[i as int] == ls@[i as int]@);
        match refused_in_line(ls[i].as_str()) {
            Some(b) => {
                out.push(b);
                assert(strs(out@) =~= refused_of_lines(lv.subrange(0, i + 1)));
            },
            None => {},
        }
        i = i + 1;
    }
    assert(lv.subrange(0, i as int) =~= lv);
    out
}

// ---------------------------------------------------------------------------
// Fetching a bare clone
// ---------------------------------------------------------------------------

/// The negative refspecs that keep `branches` out of a fetch.
pub open spec fn exclusions(branches: Seq<Seq<char>>) -> Seq<Seq<char>> {
    branches.map_values(|b: Seq<char>| "^refs/heads/"@ + b)
}

/// The arguments of `git` that fetch every head of the bare clone at
/// `path` from `origin`, pruning, except `excludes`.
pub open spec fn fetch_args_spec(path: Seq<char>, excludes: Seq<Seq<char>>) -> Seq<Seq<char>> {
    seq!["-C"@, path, "fetch"@, "--prune"@, "origin"@, "+refs/heads/*:refs/heads/*"@] + exclusions(excludes)
}

/// Builds the arguments of one fetch (see [`fetch_args_spec`]).
pub fn fetch_args(path: &str, excludes: &Vec<String>) -> (r: Vec<String>)
    ensures
        strs(r@) == fetch_args_spec(path@, strs(excludes@)),
{
    let mut r: Vec<String> = Vec::new();
    r.push("-C".to_string());
    r.push(copy_str(path));
    r.push("fetch".to_string());
    r.push("--prune".to_string());
    r.push("origin".to_string());
    r.push("+refs/heads/*:refs/heads/*".to_string());
    let ghost head = seq!["-C"@, path@, "fetch"@, "--prune"@, "origin"@, "+refs/heads/*:refs/heads/*"@];
    assert(strs(r@) =~= head);
    let ghost ex = strs(excludes@);
    let mut i: usize = 0;
    while i < excludes.len()
        invariant
            i <= excludes@.len(),
            ex == strs(excludes@),
            strs(r@) == head + exclusions(ex.subrange(0, i as int)),
        decreases excludes@.len() - i,
    {
        let a = concat_str("^refs/heads/", excludes[i].as_str());
        assert(a@ == "^refs/heads/"@ + ex[i as int]);
        let ghost before = r@;
        r.push(a);
        assert(strs(r@) =~= strs(before).push("^refs/heads/"@ + ex[i as int]));
        assert(exclusions(ex.subrange(0, i + 1)) =~= exclusions(ex.subrange(0, i as int)).push(
            "^refs/heads/"@ + ex[i as int],
        ));
        assert(strs(r@) =~= head + exclusions(ex.subrange(0, i + 1)));
        i = i + 1;
    }
    assert(ex.subrange(0, i as int) =~= ex);
    r
}

/// How often a fetch is tried before giving up on excluding branches.
pub const MAX_FETCH_ATTEMPTS: usize = 8;

/// How one run of `git fetch` ended.
#[derive(Debug)]
pub enum FetchOutcome {
    /// `git` could not be started; the error as text.
    SpawnFailed(String),
    /// `git` ran and exited.
    Exited { success: bool, stdout: String, stderr: String },
}

/// A fetch in progress: the branches excluded so far, the log gathered so
/// far, and how many runs were started.
#[derive(Debug)]
pub struct FetchState {
    pub excludes: Vec<String>,
    pub log: String,
    pub attempts: usize,
}

/// What to do next.
#[derive(Debug)]
pub enum FetchStep {
    /// Run `git` with these arguments and report how it ended.
    Run(Vec<String>),
    /// The fetch is over; whether it succeeded.
    Done(bool),
}

/// Starts a fetch of the bare clone at `path` that leaves out the
/// branches checked out in its worktrees.
pub fn fetch_start(path: &str, checked_out: Vec<String>) -> (r: (FetchState, Vec<String>))
    ensures
        strs(r.0.excludes@) == strs(checked_out@),
        r.0.log@ == Seq::<char>::empty(),
        r.0.attempts == 1,
        strs(r.1@) == fetch_args_spec(path@, strs(checked_out@)),
{
    let args = fetch_args(path, &checked_out);
    (FetchState { excludes: checked_out, log: String::new(), attempts: 1 }, args)
}

/// The log line of a `git` that could not be started.
pub open spec fn spawn_error_line(e: Seq<char>) -> Seq<char> {
    "  \x1b[31mfetch error: "@ + e + "\x1b[0m\n"@
}

/// The log line of a fetch that failed for another reason than refused
/// branches.
pub open spec fn failed_line() -> Seq<char> {
    "  \x1b[31mfetch failed\x1b[0m\n"@
}

/// The log line of a fetch that kept being refused.
pub open spec fn exhausted_line() -> Seq<char> {
    "  \x1b[31mfetch failed: too many checked-out branches to exclude\x1b[0m\n"@
}

/// Takes in how the last run ended and says what comes next. A run that
/// failed only because git refused to fetch into checked-out branches is
/// retried with those branches excluded too, up to
/// [`MAX_FETCH_ATTEMPTS`] runs in all.
pub fn fetch_step(state: &mut FetchState, path: &str, outcome: FetchOutcome) -> (step: FetchStep)
    requires
        1 <= old(state).attempts <= MAX_FETCH_ATTEMPTS,
    ensures
        match outcome {
            FetchOutcome::SpawnFailed(e) => {
                &&& step matches FetchStep::Done(ok) && !ok
                &&& final(state).log@ == old(state).log@ + spawn_error_line(e@)
                &&& strs(final(state).excludes@) == strs(old(state).excludes@)
            },
            FetchOutcome::Exited { success, stdout, stderr } => {
                let added = minus(refused_of_lines(lines(stderr@)), strs(old(state).excludes@));
                if success {
                    &&& step matches FetchStep::Done(ok) && ok
                    &&& final(state).log@ == old(state).log@ + stdout@ + stderr@
                    &&& strs(final(state).excludes@) == strs(old(state).excludes@)
                } else if added.len() == 0 {
                    &&& step matches FetchStep::Done(ok) && !ok
                    &&& final(state).log@ == old(state).log@ + stdout@ + stderr@ + failed_line()
                    &&& strs(final(state).excludes@) == strs(old(state).excludes@)
                } else {
                    &&& strs(final(state).excludes@) == strs(old(state).excludes@) + added
                    &&& if old(state).attempts < MAX_FETCH_ATTEMPTS {
                        &&& step matches FetchStep::Run(args)
                            && strs(args@) == fetch_args_spec(path@, strs(final(state).excludes@))
                        &&& final(state).attempts == old(state).attempts + 1
                        &&& final(state).log@ == old(state).log@
                    } else {
                        &&& step matches FetchStep::Done(ok) && !ok
                        &&& final(state).log@ == old(state).log@ + exhausted_line()
                    }
                }
            },
        },
        1 <= final(state).attempts <= MAX_FETCH_ATTEMPTS,
{
    match outcome {
        FetchOutcome::SpawnFailed(e) => {
            append_str(&mut state.log, "  \x1b[31mfetch error: ");
            append_str(&mut state.log, e.as_str());
            append_str(&mut state.log, "\x1b[0m\n");
            FetchStep::Done(false)
        },
        FetchOutcome::Exited { success, stdout, stderr } => {
            if success {
                append_str(&mut state.log, stdout.as_str());
                append_str(&mut state.log, stderr.as_str());
                return FetchStep::Done(true);
            }
            let refused = parse_refused_branches(stderr.as_str());
            let added = crate::edit::minus_exec(&refused, &state.excludes);
            if added.len() == 0 {
                append_str(&mut state.log, stdout.as_str());
                append_str(&mut state.log, stderr.as_str());
                append_str(&mut state.log, "  \x1b[31mfetch failed\x1b[0m\n");
                return FetchStep::Done(false);
            }
            let ghost before = strs(state.excludes@);
            let mut i: usize = 0;
            while i < added.len()
                invariant
                    i <= added@.len(),
                    strs(state.excludes@) == before + strs(added@).subrange(0, i as int),
                    state.attempts == old(state).attempts,
                    state.log@ == old(state).log@,
                decreases added@.len() - i,
            {
                let c = copy_str(added[i].as_str());
                assert(c@ == strs(added@)[i as int]);
                let ghost prev = state.excludes@;
                state.excludes.push(c);
                assert(strs(state.excludes@) =~= strs(prev).push(strs(added@)[i as int]));
                assert(strs(state.excludes@) =~= before + strs(added@).subrange(0, i + 1));
                i = i + 1;
            }
            assert(strs(added@).subrange(0, i as int) =~= strs(added@));
            if state.attempts < MAX_FETCH_ATTEMPTS {
                state.attempts = state.attempts + 1;
                FetchStep::Run(fetch_args(path, &state.excludes))
            } else {
                append_str(
                    &mut state.log,
                    "  \x1b[31mfetch failed: too many checked-out branches to exclude\x1b[0m\n",
                );
                FetchStep::Done(false)
            }
        },
    }
}

} // verus!
