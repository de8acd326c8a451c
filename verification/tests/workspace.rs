//! Workspace strategies and the plans that create and remove workspaces.
use box_cli::parallel::{failure_count, progress_end, progress_start, TaskResult};
use box_cli::removal::{failed_sessions, final_failed, remove_sessions, session_of_item, RootOutcome};
use box_cli::strset::StrSet;
use box_cli::repo::RepoEntry;
use box_cli::workspace::{
    clone_args, ensure_workspace, progress_label, remove_repo_by_strategy, report_results, select_pending,
    upstream_settings, worktree_add_args, Strategy,
};

fn entry(name: &str, path: &str) -> RepoEntry {
    RepoEntry { name: name.to_string(), path: path.to_string() }
}

fn result(name: &str, success: bool, output: &str) -> TaskResult {
    TaskResult { name: name.to_string(), success, output: output.to_string() }
}

#[test]
fn strategies_read_their_names() {
    assert_eq!(Strategy::from_str("clone").unwrap(), Strategy::Clone);
    assert_eq!(Strategy::from_str("worktree").unwrap(), Strategy::Worktree);
    assert_eq!(Strategy::from_str("copy").unwrap_err(), "Unknown strategy 'copy'. Use 'clone' or 'worktree'.");
    assert_eq!(Strategy::Clone.as_str(), "clone");
    assert_eq!(Strategy::Worktree.as_str(), "worktree");
}

#[test]
fn labels_count_and_pluralise() {
    assert_eq!(progress_label("Cloning", "repo", 1, false), "Cloning 1 repo");
    assert_eq!(progress_label("Creating", "worktree", 3, false), "Creating 3 worktrees");
    assert_eq!(progress_label("Cloning", "repo", 2, true), "Preparing 2 repos");
}

#[test]
fn failures_are_reported_per_mode() {
    let rs = vec![result("a", true, ""), result("b", false, "  boom \n"), result("c", false, "x")];
    assert_eq!(report_results(&rs, false, "git clone --local").unwrap_err(), "git clone --local failed:\n  b: boom\n  c: x");
    assert_eq!(report_results(&rs, true, "git worktree add").unwrap_err(), "git worktree add failed for: b, c");
    assert!(report_results(&vec![result("a", true, "")], false, "x").is_ok());
    assert_eq!(failure_count(&rs), 2);
    assert_eq!(progress_end(&rs), "\x1b[31m2 failed\x1b[0m");
    assert_eq!(progress_end(&vec![]), "\x1b[32mok\x1b[0m");
    assert_eq!(progress_start("Cloning 2 repos"), "\x1b[2mCloning 2 repos…\x1b[0m ");
}

#[test]
fn present_repos_are_skipped() {
    let repos = vec![entry("app", "/r/app.git"), entry("lib", "/r/lib.git")];
    let p = select_pending("/ws", &repos, &vec![true, false]);
    assert_eq!(p.len(), 1);
    assert_eq!(p[0].repo.name, "lib");
    assert_eq!(p[0].dest, "/ws/lib");
}

#[test]
fn a_new_workspace_plans_every_repo() {
    let repos = vec![entry("app", "/r/app.git")];
    let plan = ensure_workspace("/nonexistent-box-root", "feat", &repos, Strategy::Worktree, true);
    assert_eq!(plan.root, "/nonexistent-box-root/workspaces/feat");
    assert_eq!(plan.tasks.len(), 1);
    assert_eq!(plan.tasks[0].dest, "/nonexistent-box-root/workspaces/feat/app");
    assert_eq!(plan.label, "Preparing 1 repo");
    assert_eq!(plan.branch.as_deref(), Some("box/feat"));
    let plan = ensure_workspace("/nonexistent-box-root", "feat", &repos, Strategy::Clone, false);
    assert_eq!(plan.label, "Cloning 1 repo");
    assert!(plan.branch.is_none());
}

#[test]
fn git_arguments() {
    assert_eq!(clone_args("/r/app.git", "/ws/app"), vec!["clone", "--local", "/r/app.git", "/ws/app"]);
    assert_eq!(
        worktree_add_args("/r/app.git", "/ws/app", "feat", true),
        vec!["-C", "/r/app.git", "worktree", "add", "/ws/app", "-b", "feat"]
    );
    assert_eq!(
        worktree_add_args("/r/app.git", "/ws/app", "feat", false),
        vec!["-C", "/r/app.git", "worktree", "add", "/ws/app", "feat"]
    );
    let u = upstream_settings("foo");
    assert_eq!(u[0], ("branch.foo.remote".to_string(), "origin".to_string()));
    assert_eq!(u[1], ("branch.foo.merge".to_string(), "refs/heads/foo".to_string()));
}

#[test]
fn removing_one_repo() {
    let reg = vec![entry("app", "/r/app.git")];
    let r = remove_repo_by_strategy("/b", "feat", "app", Strategy::Worktree, &reg);
    assert_eq!(r.dir, "/b/workspaces/feat/app");
    assert_eq!(r.bare.as_deref(), Some("/r/app.git"));
    assert_eq!(r.branch, "box/feat");
    let r = remove_repo_by_strategy("/b", "feat", "app", Strategy::Clone, &reg);
    assert!(r.bare.is_none());
}

#[test]
fn removing_sessions_batches_per_bare_clone() {
    let reg = vec![entry("app", "/r/app.git"), entry("lib", "/r/lib.git")];
    let sessions = vec![
        ("zed".to_string(), Strategy::Worktree, vec!["app".to_string(), "lib".to_string()]),
        ("amy".to_string(), Strategy::Worktree, vec!["app".to_string(), "gone".to_string()]),
    ];
    let plan = remove_sessions("/b", &sessions, &reg);
    let items: Vec<&str> = plan.items.iter().map(|(n, _)| n.as_str()).collect();
    assert_eq!(items, vec!["zed/app", "zed/lib", "amy/app", "amy/gone"]);
    assert_eq!(plan.items[3].1, "/b/workspaces/amy/gone");
    assert_eq!(plan.label, "Removing 4 worktrees");
    assert_eq!(plan.cleanups.len(), 2);
    assert_eq!(plan.cleanups[0].0, "/r/app.git");
    assert_eq!(plan.cleanups[0].1, vec!["box/amy", "box/zed"]);
    assert_eq!(plan.cleanups[1].0, "/r/lib.git");
    assert_eq!(plan.cleanups[1].1, vec!["box/zed"]);
    assert_eq!(plan.roots[1], ("amy".to_string(), "/b/workspaces/amy".to_string()));

    let mixed = vec![("c".to_string(), Strategy::Clone, vec!["app".to_string()])];
    let plan = remove_sessions("/b", &mixed, &reg);
    assert_eq!(plan.label, "Removing 1 repo");
    assert!(plan.cleanups.is_empty());
}

#[test]
fn failed_units_name_their_sessions() {
    let rs = vec![result("zed/app", false, "e"), result("amy/app", true, ""), result("amy/lib", false, "e"), result("odd", false, "")];
    let failed = failed_sessions(&rs);
    assert_eq!(failed.to_vec(), vec!["amy", "zed"]);
    assert_eq!(session_of_item("a/b/c").as_deref(), Some("a"));
    assert!(session_of_item("abc").is_none());
}

#[test]
fn a_removed_root_clears_a_session_and_a_failed_one_marks_it() {
    let mut item_failed = StrSet::new();
    item_failed.insert("amy");
    item_failed.insert("bob");
    let names = vec!["amy".to_string(), "bob".to_string(), "cat".to_string(), "dan".to_string()];
    let outcomes = vec![RootOutcome::Removed, RootOutcome::Failed, RootOutcome::NotFound, RootOutcome::Failed];
    let failed = final_failed(&names, &item_failed, &outcomes);
    assert_eq!(failed.to_vec(), vec!["bob", "dan"]);
    let none = final_failed(&vec![], &item_failed, &vec![]);
    assert_eq!(none.to_vec(), vec!["amy", "bob"]);
}
