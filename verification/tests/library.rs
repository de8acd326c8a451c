//! Lists, paths, sources, edits, sets and the box root.
use box_cli::config::{box_root, home_dir};
use box_cli::edit::{compute_edit_repos, edit_diff, EditError};
use box_cli::fields::{join_str, join_with, read_lines_str, read_list_str, split_str};
use box_cli::paths::{join, workspace_root};
use box_cli::repo::{
    bare_dir_name, check_removable, check_unregistered, is_url_source, is_removable_name, origin_from_output, registration_name, repo_name_from_dir,
    repos_dir, sort_by_name, url_source_name, RepoEntry,
};
use box_cli::session::project_name_for_session;
use box_cli::strset::{str_lt, StrSet};
use box_cli::text::decimal_str;

fn strings(v: &[&str]) -> Vec<String> {
    v.iter().map(|s| s.to_string()).collect()
}

#[test]
fn box_root_prefers_box_root_then_home() {
    assert_eq!(box_root(Some("/tmp/custom-box"), Some("/home/test")).unwrap(), "/tmp/custom-box");
    assert_eq!(box_root(None, Some("/home/test")).unwrap(), "/home/test/.box");
    assert_eq!(box_root(Some(""), Some("/home/test")).unwrap(), "/home/test/.box");
    assert!(box_root(None, None).unwrap_err().contains("HOME"));
}

#[test]
fn home_must_be_set_and_not_empty() {
    assert_eq!(home_dir(Some("/home/test")).unwrap(), "/home/test");
    assert!(home_dir(None).unwrap_err().contains("HOME"));
    assert!(home_dir(Some("")).is_err());
}

#[test]
fn paths_join_like_path_join() {
    assert_eq!(join("/a", "b"), "/a/b");
    assert_eq!(join("/a/", "b"), "/a/b");
    assert_eq!(join("/a", "/b"), "/b");
    assert_eq!(join("", "b"), "b");
    assert_eq!(workspace_root("/root/.box", "feat"), "/root/.box/workspaces/feat");
}

#[test]
fn sources_are_bare_clones_named_after_them() {
    assert_eq!(repos_dir("/b"), "/b/repos");
    assert_eq!(bare_dir_name("app"), "app.git");
    assert_eq!(repo_name_from_dir("app.git").as_deref(), Some("app"));
    assert!(repo_name_from_dir(".git").is_none());
    assert!(repo_name_from_dir("app").is_none());
    assert!(is_removable_name("app"));
    assert!(!is_removable_name(".."));
    assert!(!is_removable_name("a/b"));
}

#[test]
fn lists_split_join_and_read_back() {
    assert_eq!(split_str("a,,b", ','), vec!["a", "", "b"]);
    assert_eq!(read_list_str("a\0\0b\0", '\0'), vec!["a", "b"]);
    assert_eq!(read_lines_str(" a \r\n\nb"), vec!["a", "b"]);
    assert_eq!(join_str(&strings(&["a", "b"]), '\n'), "a\nb");
    assert_eq!(join_with(&strings(&["a", "b", "c"]), ", "), "a, b, c");
    assert_eq!(join_with(&vec![], ", "), "");
}

#[test]
fn edits_keep_order_and_report_skips() {
    let plan = compute_edit_repos(
        &strings(&["app", "lib"]),
        &strings(&["web", "app"]),
        &strings(&["lib", "gone"]),
        &strings(&["app", "lib", "web"]),
    )
    .ok()
    .unwrap();
    assert_eq!(plan.repos, vec!["app", "web"]);
    assert_eq!(plan.already_present, vec!["app"]);
    assert_eq!(plan.not_present, vec!["gone"]);
    let (added, removed) = edit_diff(&strings(&["app", "lib"]), &plan.repos);
    assert_eq!(added, vec!["web"]);
    assert_eq!(removed, vec!["lib"]);
}

#[test]
fn edit_errors_name_the_repo() {
    let both = compute_edit_repos(&vec![], &strings(&["a"]), &strings(&["a"]), &strings(&["a"]));
    assert!(matches!(both, Err(EditError::InBoth(ref r)) if r == "a"));
    let unknown = compute_edit_repos(&vec![], &strings(&["x"]), &vec![], &strings(&["a"]));
    assert!(matches!(unknown, Err(EditError::NotRegistered(ref r)) if r == "x"));
}

#[test]
fn string_sets_stay_sorted() {
    let mut s = StrSet::new();
    for n in ["pear", "apple", "fig", "apple"] {
        s.insert(n);
    }
    assert_eq!(s.to_vec(), vec!["apple", "fig", "pear"]);
    assert!(s.contains("fig"));
    s.remove("fig");
    s.remove("kiwi");
    assert_eq!(s.to_vec(), vec!["apple", "pear"]);
    assert_eq!(s.len(), 2);
    assert!(str_lt("ab", "abc"));
    assert!(str_lt("B", "a"));
    assert!(!str_lt("b", "b"));
}

#[test]
fn numbers_are_written_in_decimal() {
    assert_eq!(decimal_str(0), "0");
    assert_eq!(decimal_str(1907), "1907");
    assert_eq!(decimal_str(usize::MAX), usize::MAX.to_string());
}

fn entry(name: &str, path: &str) -> RepoEntry {
    RepoEntry { name: name.to_string(), path: path.to_string() }
}

#[test]
fn registration_takes_the_last_component() {
    let registered = vec![entry("api", "/r/api.git")];
    assert_eq!(registration_name("/home/u/src/web", &registered).unwrap(), "web");
    assert_eq!(
        registration_name("/home/u/src/api", &registered).unwrap_err(),
        "A repo named 'api' is already registered."
    );
    assert_eq!(registration_name("/", &registered).unwrap_err(), "Cannot derive repo name from path.");
}

#[test]
fn origin_is_the_trimmed_output() {
    assert_eq!(origin_from_output(true, "  git@host:a/b.git\n").as_deref(), Some("git@host:a/b.git"));
    assert_eq!(origin_from_output(true, " \n"), None);
    assert_eq!(origin_from_output(false, "git@host:a/b.git"), None);
}

#[test]
fn source_remove_refuses_paths() {
    assert!(check_removable("api").is_ok());
    assert_eq!(check_removable("../x").unwrap_err(), "Invalid repo name '../x'.");
    assert_eq!(check_removable("..").unwrap_err(), "Invalid repo name '..'.");
}

#[test]
fn sources_are_listed_by_name() {
    let sorted = sort_by_name(vec![entry("web", "/r/web.git"), entry("api", "/r/api.git"), entry("db", "/r/db.git")]);
    let names: Vec<&str> = sorted.iter().map(|e| e.name.as_str()).collect();
    assert_eq!(names, vec!["api", "db", "web"]);
    assert_eq!(sorted[0].path, "/r/api.git");
    assert_eq!(sorted[2].path, "/r/web.git");
}

#[test]
fn sources_of_the_same_name_keep_their_order() {
    let sorted = sort_by_name(vec![entry("web", "/r/2.git"), entry("api", "/r/api.git"), entry("web", "/r/1.git")]);
    let paths: Vec<&str> = sorted.iter().map(|e| e.path.as_str()).collect();
    assert_eq!(paths, vec!["/r/api.git", "/r/2.git", "/r/1.git"]);
}

#[test]
fn project_name_is_the_last_component() {
    assert_eq!(project_name_for_session(Some("/home/u/src/app")), "app");
    assert_eq!(project_name_for_session(Some("/")), "");
    assert_eq!(project_name_for_session(None), "");
}

#[test]
fn sources_may_be_urls() {
    assert!(is_url_source("git@github.com:user/app.git"));
    assert!(is_url_source("https://github.com/user/app.git"));
    assert!(is_url_source("ssh://git@host/app"));
    assert!(!is_url_source("."));
    assert!(!is_url_source("/home/u/src/app"));
    assert!(!is_url_source("./dir:with-colon"));
    assert!(!is_url_source(":nohost"));
    assert_eq!(url_source_name("git@github.com:user/app.git").as_deref(), Some("app"));
    assert_eq!(url_source_name("https://github.com/user/app/").as_deref(), Some("app"));
    assert_eq!(url_source_name("git@host:app.git").as_deref(), Some("app"));
    assert_eq!(url_source_name("https://host/.git"), None);
}

#[test]
fn a_name_is_registered_once() {
    let registered = vec![entry("api", "/r/api.git")];
    assert!(check_unregistered("web", &registered).is_ok());
    assert_eq!(check_unregistered("api", &registered).unwrap_err(), "A repo named 'api' is already registered.");
}

#[test]
fn test_add_duplicate_name() {
    // A second registration of the same directory is refused.
    let first = registration_name("/home/u/src/my-app", &vec![]).unwrap();
    assert_eq!(first, "my-app");
    let registered = vec![entry(&first, "/r/my-app.git")];
    let err = registration_name("/home/u/src/my-app", &registered).unwrap_err();
    assert!(err.contains("already registered"));
}

#[test]
fn repo_test_list_empty() {
    let repos = sort_by_name(vec![]);
    assert!(repos.is_empty());
}

// The box root and home directory from the values of `HOME` and
// `BOX_ROOT`, passed in as the environment holds them.

#[test]
fn test_box_root_default() {
    assert_eq!(box_root(None, Some("/home/test")).unwrap(), "/home/test/.box");
}

#[test]
fn test_box_root_override() {
    assert_eq!(box_root(Some("/tmp/custom-box"), Some("/home/test")).unwrap(), "/tmp/custom-box");
}

#[test]
fn test_home_dir_returns_value() {
    assert_eq!(home_dir(Some("/home/test")).unwrap(), "/home/test");
}

#[test]
fn test_home_dir_errors_when_unset() {
    let result = home_dir(None);
    assert!(result.is_err());
    assert!(result.unwrap_err().contains("HOME"));
}

#[test]
fn test_home_dir_errors_when_empty() {
    assert!(home_dir(Some("")).is_err());
}

#[test]
fn a_stable_order_sorts_by_key_and_keeps_ties_in_place() {
    let keys: Vec<String> = vec!["b", "a", "b", "", "a"].into_iter().map(String::from).collect();
    assert_eq!(box_cli::strset::stable_order(&keys), vec![3, 1, 4, 0, 2]);
    assert!(box_cli::strset::stable_order(&vec![]).is_empty());
}

#[test]
fn a_registered_source_is_listed_once_and_refused_again() {
    let mut registered = vec![entry("web", "/r/web.git"), entry("api", "/r/api.git")];
    assert!(check_unregistered("db", &registered).is_ok());
    registered.push(entry("db", "/r/db.git"));
    let listed = sort_by_name(registered.clone());
    let dbs: Vec<&RepoEntry> = listed.iter().filter(|e| e.name == "db").collect();
    assert_eq!(dbs.len(), 1);
    assert_eq!(dbs[0].path, "/r/db.git");
    assert_eq!(check_unregistered("db", &registered).unwrap_err(), "A repo named 'db' is already registered.");
}
