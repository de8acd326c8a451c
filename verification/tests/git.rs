//! Reading git's output, finding repositories, and the fetch that steps
//! around checked-out branches.
use box_cli::git::{
    fetch_args, fetch_start, fetch_step, find_root, first_repo, is_repo, parse_refused_branches, worktree_branches, FetchOutcome,
    FetchStep,
};

#[test]
fn test_parse_refused_branches_single() {
    let stderr = "fatal: refusing to fetch into branch 'refs/heads/box/conformance-2' checked out at '/Users/yusuke/.box/workspaces/conformance-2/jerboa'\n";
    assert_eq!(parse_refused_branches(stderr), vec!["box/conformance-2"]);
}

#[test]
fn test_parse_refused_branches_multiple() {
    let stderr = "fatal: refusing to fetch into branch 'refs/heads/a' checked out at '/x'\n\
                  fatal: refusing to fetch into branch 'refs/heads/feat/b' checked out at '/y'\n";
    assert_eq!(parse_refused_branches(stderr), vec!["a", "feat/b"]);
}

#[test]
fn test_parse_refused_branches_ignores_unrelated() {
    let stderr = "From github.com:org/repo\n   abc..def  main -> main\n";
    assert!(parse_refused_branches(stderr).is_empty());
}

#[test]
fn test_is_repo_false() {
    assert!(!is_repo("/"));
}

#[test]
fn test_is_repo_nonexistent() {
    assert!(!is_repo("/nonexistent/path/12345"));
}

#[test]
fn refused_refs_outside_heads_are_ignored() {
    let stderr = "fatal: refusing to fetch into branch 'refs/tags/v1' checked out at '/x'\nrefusing to fetch into branch 'unterminated\n";
    assert!(parse_refused_branches(stderr).is_empty());
}

#[test]
fn worktree_porcelain_lists_checked_out_branches() {
    let out = "worktree /repo.git\nbare\n\nworktree /ws/a/app\nHEAD abc\nbranch refs/heads/a\n\nworktree /ws/b/app\nHEAD def\ndetached\n\nworktree /ws/c/app\r\nbranch refs/heads/feat/c\r\n";
    assert_eq!(worktree_branches(out), vec!["a", "feat/c"]);
}

#[test]
fn fetch_arguments_exclude_branches() {
    let args = fetch_args("/r.git", &vec!["a".to_string(), "b/c".to_string()]);
    assert_eq!(
        args,
        vec!["-C", "/r.git", "fetch", "--prune", "origin", "+refs/heads/*:refs/heads/*", "^refs/heads/a", "^refs/heads/b/c"]
    );
}

#[test]
fn fetch_retries_with_refused_branches_excluded() {
    let (mut state, args) = fetch_start("/r.git", vec!["a".to_string()]);
    assert_eq!(args.len(), 7);
    let refused = "fatal: refusing to fetch into branch 'refs/heads/a' checked out at '/x'\nfatal: refusing to fetch into branch 'refs/heads/b' checked out at '/y'\n";
    let step = fetch_step(
        &mut state,
        "/r.git",
        FetchOutcome::Exited { success: false, stdout: String::new(), stderr: refused.to_string() },
    );
    match step {
        FetchStep::Run(args) => assert_eq!(args.last().unwrap(), "^refs/heads/b"),
        other => panic!("expected a retry, got {:?}", other),
    }
    assert_eq!(state.excludes, vec!["a", "b"]);
    assert_eq!(state.attempts, 2);
    let step = fetch_step(
        &mut state,
        "/r.git",
        FetchOutcome::Exited { success: true, stdout: "out\n".to_string(), stderr: "err\n".to_string() },
    );
    assert!(matches!(step, FetchStep::Done(true)));
    assert_eq!(state.log, "out\nerr\n");
}

#[test]
fn fetch_fails_when_nothing_new_is_refused() {
    let (mut state, _) = fetch_start("/r.git", vec![]);
    let step = fetch_step(
        &mut state,
        "/r.git",
        FetchOutcome::Exited { success: false, stdout: String::new(), stderr: "fatal: no remote\n".to_string() },
    );
    assert!(matches!(step, FetchStep::Done(false)));
    assert_eq!(state.log, "fatal: no remote\n  \x1b[31mfetch failed\x1b[0m\n");
}

#[test]
fn fetch_spawn_error_is_logged() {
    let (mut state, _) = fetch_start("/r.git", vec![]);
    let step = fetch_step(&mut state, "/r.git", FetchOutcome::SpawnFailed("no git".to_string()));
    assert!(matches!(step, FetchStep::Done(false)));
    assert_eq!(state.log, "  \x1b[31mfetch error: no git\x1b[0m\n");
}

#[test]
fn fetch_gives_up_after_eight_runs() {
    let (mut state, _) = fetch_start("/r.git", vec![]);
    let mut last = None;
    for n in 0..8 {
        let stderr = format!("fatal: refusing to fetch into branch 'refs/heads/b{}' checked out at '/x'\n", n);
        let step = fetch_step(
            &mut state,
            "/r.git",
            FetchOutcome::Exited { success: false, stdout: String::new(), stderr },
        );
        last = Some(step);
    }
    assert!(matches!(last, Some(FetchStep::Done(false))));
    assert!(state.log.ends_with("fetch failed: too many checked-out branches to exclude\x1b[0m\n"));
    assert_eq!(state.excludes.len(), 8);
}

#[test]
fn find_root_without_a_repository() {
    assert_eq!(find_root("/nonexistent/deep/path"), None);
}

#[test]
fn the_nearest_marked_ancestor_is_the_root() {
    assert_eq!(first_repo("/a/b/c", &vec![true]), Some("/a/b/c".to_string()));
    assert_eq!(first_repo("/a/b/c", &vec![false, true, true]), Some("/a/b".to_string()));
    assert_eq!(first_repo("/a/b/c", &vec![false, false, false, true]), Some("/".to_string()));
    assert_eq!(first_repo("/a/b/c", &vec![false, false, false, false, true]), None);
    assert_eq!(first_repo("/a/b/c", &vec![false, false]), None);
    assert_eq!(first_repo("/a/b/c", &vec![]), None);
}
