//! Session names and the metadata encodings.
use box_cli::config::box_root;
use box_cli::session::{
    display_command, load_plan, missing_metadata_message, not_found_message, nul_list_file, read_nul_list,
    read_project_dir, read_repos, repos_file, sessions_dir, validate_name, LoadError, ProjectDirSource,
};

#[test]
fn test_validate_name_valid() {
    assert!(validate_name("my-session").is_ok());
    assert!(validate_name("test_123").is_ok());
    assert!(validate_name("a").is_ok());
    assert!(validate_name("ABC").is_ok());
    assert!(validate_name("hello-world_99").is_ok());
}

#[test]
fn test_validate_name_with_slash() {
    let err = validate_name("my-feature/server").unwrap_err();
    assert!(err.message().contains("'/' character is not allowed"));
}

#[test]
fn test_validate_name_empty() {
    let err = validate_name("").unwrap_err();
    assert_eq!(err.message(), "Session name is required.");
}

#[test]
fn test_validate_name_reserved() {
    let err = validate_name("upgrade").unwrap_err();
    assert!(err.message().contains("reserved name"));
}

#[test]
fn test_validate_name_reserved_path() {
    let err = validate_name("path").unwrap_err();
    assert!(err.message().contains("reserved name"));
}

#[test]
fn test_validate_name_reserved_config() {
    let err = validate_name("config").unwrap_err();
    assert!(err.message().contains("reserved name"));
}

#[test]
fn test_validate_name_reserved_repo() {
    let err = validate_name("repo").unwrap_err();
    assert!(err.message().contains("reserved name"));
}

#[test]
fn test_validate_name_invalid_chars() {
    let err = validate_name("bad name").unwrap_err();
    assert!(err.message().contains("Invalid session name"));
    assert!(err.message().contains("bad name"));

    let err = validate_name("bad.name").unwrap_err();
    assert!(err.message().contains("Invalid session name"));

    let err = validate_name("bad@name").unwrap_err();
    assert!(err.message().contains("Invalid session name"));
}

#[test]
fn validate_name_returns_the_name() {
    assert_eq!(validate_name("feature-1").unwrap(), "feature-1");
}

#[test]
fn sessions_dir_is_under_the_root() {
    assert_eq!(sessions_dir("/home/test/.box"), "/home/test/.box/sessions");
    assert_eq!(sessions_dir("/root/"), "/root/sessions");
}

#[test]
fn nul_lists_skip_empty_entries() {
    assert_eq!(read_nul_list("tool\0--model\0\0opus"), vec!["tool", "--model", "opus"]);
    assert!(read_nul_list("").is_empty());
}

#[test]
fn repos_file_lines_are_trimmed() {
    assert_eq!(read_repos("  app \n\n lib\n"), vec!["app", "lib"]);
}

#[test]
fn displayed_command_hides_the_permission_flag() {
    assert_eq!(
        display_command("tool\0--allow-dangerously-skip-permissions\0--model\0opus"),
        "tool --model opus"
    );
}

// What saving a session writes and loading reads back, on the file
// contents the library produces and parses.

#[test]
fn test_sessions_dir() {
    let root = box_root(None, Some("/tmp/home")).unwrap();
    assert_eq!(sessions_dir(&root), "/tmp/home/.box/sessions");
}

#[test]
fn test_save_and_load_with_command() {
    let command = vec!["bash".to_string(), "-c".to_string(), "echo hello".to_string()];
    let loaded = read_nul_list(&nul_list_file(&command));
    assert_eq!(loaded, vec!["bash", "-c", "echo hello"]);
}

#[test]
fn test_load_nonexistent() {
    assert_eq!(load_plan(false, false, false), Err(LoadError::NotFound));
    assert_eq!(not_found_message("nonexistent"), "Session 'nonexistent' not found.");
}

#[test]
fn test_load_missing_project_dir() {
    assert_eq!(load_plan(true, false, false), Err(LoadError::MissingProjectDir));
    assert!(missing_metadata_message("broken").contains("missing project directory metadata"));
}

#[test]
fn test_load_defaults_when_optional_files_missing() {
    assert_eq!(load_plan(true, true, false), Ok(ProjectDirSource::File));
    assert_eq!(read_project_dir("/tmp/project"), "/tmp/project");
}

#[test]
fn test_save_trims_whitespace_on_load() {
    assert_eq!(read_project_dir("  /tmp/project  \n"), "/tmp/project");
}

#[test]
fn test_command_save_format() {
    let command = vec!["bash".to_string(), "-c".to_string(), "echo hi".to_string()];
    assert_eq!(nul_list_file(&command), "bash\0-c\0echo hi");
}

#[test]
fn test_save_and_load_with_env() {
    let env = vec!["FOO=bar".to_string(), "BAZ".to_string()];
    let raw = nul_list_file(&env);
    assert_eq!(read_nul_list(&raw), vec!["FOO=bar", "BAZ"]);
    assert_eq!(raw, "FOO=bar\0BAZ");
}

#[test]
fn test_save_and_load_empty_env() {
    // An empty list writes no file; a missing file reads as nothing.
    assert!(read_nul_list("").is_empty());
}

#[test]
fn test_save_and_load_with_repos() {
    let repos = vec!["app-a".to_string(), "app-b".to_string()];
    assert_eq!(read_repos(&repos_file(&repos)), vec!["app-a", "app-b"]);
    assert_eq!(load_plan(true, false, true), Ok(ProjectDirSource::Empty));
}
