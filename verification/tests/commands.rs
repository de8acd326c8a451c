//! Decisions of the workspace commands.
use box_cli::commands::{
    created_at_seconds, ensure_workspace_has_repos, is_prunable, parse_age, parse_i64_str, removal_failed_message,
    remove_mode, resolve_repo_target, session_exists, session_markers, sessions_to_forget, resolve_workspace_path, select_repos, shorten_project_path, upgrade_asset_name,
    RemoveMode, RepoTarget,
};
use box_cli::cli::RemoveArgs;
use box_cli::workspace::Strategy;
use box_cli::repo::RepoEntry;
use box_cli::strset::StrSet;

#[test]
fn test_workspace_cannot_remove_final_repo() {
    assert!(ensure_workspace_has_repos("my-session", &vec![]).is_err());
    assert!(ensure_workspace_has_repos("my-session", &vec!["app".to_string()]).is_ok());
}

#[test]
fn final_repo_message_names_the_workspace() {
    assert_eq!(
        ensure_workspace_has_repos("my-session", &vec![]).unwrap_err(),
        "Cannot remove the final repo from workspace 'my-session'. Remove the workspace instead."
    );
}

#[test]
fn test_parse_age_supports_common_units() {
    assert_eq!(parse_age("30s").unwrap(), 30);
    assert_eq!(parse_age("15m").unwrap(), 15 * 60);
    assert_eq!(parse_age("12h").unwrap(), 12 * 3600);
    assert_eq!(parse_age("7d").unwrap(), 7 * 86400);
}

#[test]
fn test_parse_age_rejects_invalid_values() {
    for value in ["", "1", "0d", "-1d", "day", "9223372036854775807d"] {
        assert!(parse_age(value).is_err(), "{value} should be rejected");
    }
}

#[test]
fn parse_age_errors_name_the_problem() {
    assert_eq!(parse_age("day").unwrap_err(), "Invalid age 'day'. Use a positive value such as 12h or 7d.");
    assert_eq!(parse_age("0d").unwrap_err(), "Age must be greater than zero.");
    assert_eq!(parse_age("5w").unwrap_err(), "Invalid age '5w'. Supported units: s, m, h, d.");
    assert_eq!(parse_age("9223372036854775807d").unwrap_err(), "Age '9223372036854775807d' is too large.");
    assert_eq!(parse_age("+2h").unwrap(), 7200);
}

#[test]
fn age_limits_follow_time_delta() {
    assert_eq!(parse_age("9223372036854775s").unwrap(), 9223372036854775);
    assert!(parse_age("9223372036854776s").is_err());
    assert_eq!(parse_age("106751991167d").unwrap(), 106751991167 * 86400);
    assert!(parse_age("106751991168d").is_err());
}

#[test]
fn integers_parse_as_str_parse_does() {
    assert_eq!(parse_i64_str("42"), Some(42));
    assert_eq!(parse_i64_str("-9223372036854775808"), Some(i64::MIN));
    assert_eq!(parse_i64_str("9223372036854775807"), Some(i64::MAX));
    assert_eq!(parse_i64_str("9223372036854775808"), None);
    assert_eq!(parse_i64_str("+"), None);
    assert_eq!(parse_i64_str(""), None);
    assert_eq!(parse_i64_str("1 "), None);
    assert_eq!(parse_i64_str("007"), Some(7));
}

#[test]
fn test_prune_selection_respects_age_active_workspace_and_missing_metadata() {
    let cutoff: i64 = 1_700_000_000;
    let old = Some(cutoff - 1);
    let new = Some(cutoff + 1);

    let mut active = StrSet::new();
    assert!(is_prunable("old", old, cutoff, &active));
    assert!(is_prunable("boundary", Some(cutoff), cutoff, &active));
    assert!(!is_prunable("new", new, cutoff, &active));
    assert!(!is_prunable("unknown", None, cutoff, &active));

    active.insert("old");
    assert!(!is_prunable("old", old, cutoff, &active));
}

#[test]
fn created_at_needs_the_utc_suffix() {
    assert_eq!(created_at_seconds("1970-01-02 00:00:00 UTC\n"), Some(86400));
    assert_eq!(created_at_seconds("1970-01-02 00:00:00"), None);
    assert_eq!(created_at_seconds("yesterday UTC"), None);
}

#[test]
fn repo_target_needs_exactly_one() {
    assert!(matches!(resolve_repo_target(Some("ws".to_string()), None), Ok(RepoTarget::Workspace(ref w)) if w == "ws"));
    assert!(matches!(resolve_repo_target(None, Some("p".to_string())), Ok(RepoTarget::Preset(ref p)) if p == "p"));
    assert_eq!(
        resolve_repo_target(None, None).unwrap_err(),
        "Specify a target with --workspace <name> or --preset <name>."
    );
}

#[test]
fn shorten_project_path_abbreviates_middle_components() {
    assert_eq!(shorten_project_path("/Users/yusuke/projects/my-app", ""), "/U/y/p/my-app");
    assert_eq!(shorten_project_path("/Users/yusuke/projects/my-app", "/Users/yusuke"), "~/p/my-app");
    assert_eq!(shorten_project_path("/tmp", "/home/x"), "/tmp");
    assert_eq!(shorten_project_path("a//b/c", ""), "a//b/c");
}

fn entry(name: &str, path: &str) -> RepoEntry {
    RepoEntry { name: name.to_string(), path: path.to_string() }
}

#[test]
fn selected_repos_come_from_the_registry_in_order() {
    let reg = vec![entry("app", "/r/app.git"), entry("lib", "/r/lib.git")];
    let got = select_repos(&vec!["lib".to_string(), "app".to_string()], &reg).unwrap();
    assert_eq!(got[0].path, "/r/lib.git");
    assert_eq!(got[1].name, "app");
    assert_eq!(
        select_repos(&vec!["nope".to_string()], &reg).unwrap_err(),
        "Repo 'nope' not found in registry."
    );
    assert_eq!(
        select_repos(&vec![], &reg).unwrap_err(),
        "No sources registered. Run `box source add <url>` first."
    );
}

#[test]
fn single_repo_workspaces_open_in_the_repo() {
    assert_eq!(resolve_workspace_path("/b", "ws", &vec!["app".to_string()]), "/b/workspaces/ws/app");
    assert_eq!(resolve_workspace_path("/b", "ws", &vec!["a".to_string(), "c".to_string()]), "/b/workspaces/ws");
}

#[test]
fn failed_removals_are_listed_in_order() {
    let mut failed = StrSet::new();
    failed.insert("zeta");
    failed.insert("alpha");
    assert_eq!(
        removal_failed_message(&failed),
        "Failed to remove workspace(s): alpha, zeta. Session metadata was retained."
    );
}

#[test]
fn upgrade_assets_are_named_per_platform() {
    assert_eq!(upgrade_asset_name("x86_64", "linux").unwrap(), "box-x86_64-linux");
    assert_eq!(upgrade_asset_name("aarch64", "macos").unwrap(), "box-aarch64-darwin");
    assert_eq!(upgrade_asset_name("x86_64", "windows").unwrap_err(), "Unsupported platform: windows");
}

#[test]
fn workspace_remove_prunes_one_day_by_default() {
    let args = |name: Option<&str>, all: bool, older_than: Option<&str>| RemoveArgs {
        name: name.map(String::from),
        all,
        older_than: older_than.map(String::from),
    };
    assert_eq!(remove_mode(args(None, false, None)), RemoveMode::Prune("1d".to_string()));
    assert_eq!(remove_mode(args(None, false, Some("12h"))), RemoveMode::Prune("12h".to_string()));
    assert_eq!(remove_mode(args(Some("ws"), false, None)), RemoveMode::One("ws".to_string()));
    assert_eq!(remove_mode(args(None, true, None)), RemoveMode::All);
}

#[test]
fn recorded_strategy_defaults_to_clone() {
    assert_eq!(Strategy::recorded("worktree"), Strategy::Worktree);
    assert_eq!(Strategy::recorded("clone"), Strategy::Clone);
    assert_eq!(Strategy::recorded(""), Strategy::Clone);
    assert_eq!(Strategy::recorded("bogus"), Strategy::Clone);
}

#[test]
fn a_session_is_marked_by_its_project_dir_or_repos_file() {
    let (project_dir, repos) = session_markers("/home/u/.box", "feat");
    assert_eq!(project_dir, "/home/u/.box/sessions/feat/project_dir");
    assert_eq!(repos, "/home/u/.box/sessions/feat/repos");
    assert!(!session_exists("/nonexistent-box-root", "feat"));
}

#[test]
fn failed_sessions_keep_their_metadata() {
    let mut failed = StrSet::new();
    failed.insert("b");
    let names: Vec<String> = vec!["c".to_string(), "b".to_string(), "a".to_string()];
    assert_eq!(sessions_to_forget(&names, &failed), vec!["c", "a"]);
    assert!(sessions_to_forget(&vec![], &failed).is_empty());
}
