//! Presets: names, saving, loading and resolving.
use box_cli::preset::{add, check_target, list_entry, load, presets_dir, resolve, saved, sort_by_name, validate_name};

fn strings(v: &[&str]) -> Vec<String> {
    v.iter().map(|s| s.to_string()).collect()
}

#[test]
fn test_add_validates_repos_exist() {
    let err = add("work", &strings(&["nonexistent"]), &vec![]).unwrap_err();
    assert!(err.contains("not found in registry"));
}

#[test]
fn test_add_empty_repos_fails() {
    let err = add("work", &vec![], &strings(&["app-a"])).unwrap_err();
    assert!(err.contains("at least one repo"));
}

#[test]
fn test_path_traversal_rejected() {
    assert!(add("../evil", &strings(&["a"]), &strings(&["a"])).is_err());
    assert!(add("foo/bar", &strings(&["a"]), &strings(&["a"])).is_err());
    assert!(add(".", &strings(&["a"]), &strings(&["a"])).is_err());
    assert!(add("..", &strings(&["a"]), &strings(&["a"])).is_err());
    assert!(add(".hidden", &strings(&["a"]), &strings(&["a"])).is_err());
    assert!(validate_name("../evil").is_err());
    assert!(validate_name(".hidden").is_err());
    assert!(validate_name("a\\b").is_err());
    assert_eq!(validate_name("").unwrap_err(), "Invalid preset name ''.");
    assert!(validate_name("work").is_ok());
}

#[test]
fn adding_removes_repeats_and_writes_one_per_line() {
    let w = add("work", &strings(&["app-b", "app-a", "app-b"]), &strings(&["app-a", "app-b"])).unwrap();
    assert_eq!(w.repos, vec!["app-b", "app-a"]);
    assert_eq!(w.content, "app-b\napp-a\n");
    assert_eq!(saved("work", &w.repos, false), "Preset '\x1b[1mwork\x1b[0m' saved (app-b, app-a).");
    assert_eq!(saved("work", &w.repos, true), "Preset '\x1b[1mwork\x1b[0m' updated (app-b, app-a).");
}

#[test]
fn adding_and_updating_check_existence() {
    assert_eq!(check_target("work", true, true).unwrap_err(), "Preset 'work' already exists.");
    assert_eq!(check_target("work", false, false).unwrap_err(), "No preset named 'work' found.");
    assert!(check_target("work", false, true).is_ok());
    assert!(check_target("work", true, false).is_ok());
}

#[test]
fn loading_reads_trimmed_lines() {
    assert_eq!(load(" app-a \n\napp-b\n"), vec!["app-a", "app-b"]);
}

#[test]
fn test_resolve_filters_missing_repos() {
    let (valid, warnings) = resolve("work", &strings(&["app-a", "gone"]), &strings(&["app-a"])).unwrap();
    assert_eq!(valid, vec!["app-a"]);
    assert_eq!(warnings, vec!["Warning: preset 'work' references removed repo 'gone', skipping."]);
}

#[test]
fn test_resolve_all_repos_missing_fails() {
    let err = resolve("work", &strings(&["gone"]), &vec![]).unwrap_err();
    assert!(err.contains("no valid repos"));
}

#[test]
fn listing_skips_hidden_and_empty_presets_and_sorts() {
    assert!(list_entry(".hidden", "a\n").is_none());
    assert!(list_entry("empty", "\n \n").is_none());
    let entries = vec![list_entry("zeta", "x\n").unwrap(), list_entry("alpha", "y\nz\n").unwrap()];
    let sorted = sort_by_name(entries);
    assert_eq!(sorted[0].0, "alpha");
    assert_eq!(sorted[0].1, vec!["y", "z"]);
    assert_eq!(sorted[1].0, "zeta");
    let twice = vec![("b".to_string(), vec!["2".to_string()]), ("a".to_string(), vec![]), ("b".to_string(), vec!["1".to_string()])];
    let sorted = sort_by_name(twice);
    assert_eq!(sorted[0].0, "a");
    assert_eq!(sorted[1].1, vec!["2"]);
    assert_eq!(sorted[2].1, vec!["1"]);
}

#[test]
fn presets_live_under_the_root() {
    assert_eq!(presets_dir("/b"), "/b/presets");
}

// What `preset add` writes and `preset list`/`load` read back, on the
// contents the library produces and parses.

#[test]
fn preset_test_list_empty() {
    let presets = sort_by_name(vec![]);
    assert!(presets.is_empty());
}

#[test]
fn preset_test_add_and_list() {
    let registered = strings(&["app-a", "app-b"]);
    let w = add("work", &strings(&["app-a", "app-b"]), &registered).unwrap();
    let presets = sort_by_name(vec![list_entry("work", &w.content).unwrap()]);
    assert_eq!(presets.len(), 1);
    assert_eq!(presets[0].0, "work");
    assert_eq!(presets[0].1, vec!["app-a", "app-b"]);
}

#[test]
fn test_add_overwrites() {
    let registered = strings(&["app-a", "app-b"]);
    let first = add("work", &strings(&["app-a"]), &registered).unwrap();
    assert_eq!(load(&first.content), vec!["app-a"]);
    let second = add("work", &strings(&["app-b"]), &registered).unwrap();
    let repos = load(&second.content);
    assert_eq!(repos, vec!["app-b"]);
}

#[test]
fn preset_test_remove_not_found() {
    let err = check_target("nonexistent", false, false).unwrap_err();
    assert!(err.contains("No preset named"));
}

#[test]
fn test_load() {
    let w = add("work", &strings(&["app-a"]), &strings(&["app-a"])).unwrap();
    let repos = load(&w.content);
    assert_eq!(repos, vec!["app-a"]);
}
