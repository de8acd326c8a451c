//! Command-line grammar: what each command line parses to, and which are refused.
use box_cli::cli::{
    parse_args, Cli, CliError, Commands, ConfigShell, CreateArgs, ListArgs, PresetAction, RemoveArgs, RepoAction,
    SourceAction, WorkspaceAction,
};

fn parse(args: &[&str]) -> Cli {
    try_parse(args).unwrap()
}

fn try_parse(args: &[&str]) -> Result<Cli, CliError> {
    let v: Vec<String> = args.iter().map(|s| s.to_string()).collect();
    parse_args(&v, None, None)
}


// -- No args = help --

#[test]
fn test_no_args_selects_help() {
    let cli = parse(&[]);
    assert!(cli.command.is_none());
}

// -- workspace add subcommand --

fn ws_add(cli: Cli) -> CreateArgs {
    match cli.command {
        Some(Commands::Workspace {
            action: WorkspaceAction::Add(args),
        }) => args,
        other => panic!("expected Workspace Add, got {:?}", other),
    }
}

#[test]
fn test_workspace_add_name_only() {
    let args = ws_add(parse(&["workspace", "add", "my-session", "--repo", "app"]));
    assert_eq!(args.name, "my-session");
    assert_eq!(args.repo, vec!["app"]);
}

#[test]
fn test_workspace_alias_ws() {
    let args = ws_add(parse(&["ws", "add", "my-session", "--repo", "app"]));
    assert_eq!(args.name, "my-session");
}

#[test]
fn test_workspace_add_requires_name() {
    assert!(try_parse(&["workspace", "add"]).is_err());
}

#[test]
fn test_workspace_add_name_only_parses() {
    // --repo and --preset are both optional at parse time; runtime enforces at least one
    let args = ws_add(parse(&["workspace", "add", "my-session"]));
    assert!(args.repo.is_empty());
    assert!(args.preset.is_none());
}

#[test]
fn test_workspace_add_with_preset() {
    let args = ws_add(parse(&[
        "workspace",
        "add",
        "my-session",
        "--preset",
        "work",
    ]));
    assert_eq!(args.preset.as_deref(), Some("work"));
    assert!(args.repo.is_empty());
}

#[test]
fn test_workspace_add_preset_and_repo_conflict() {
    assert!(try_parse(&[
        "workspace",
        "add",
        "my-session",
        "--preset",
        "work",
        "--repo",
        "app"
    ])
    .is_err());
}

#[test]
fn test_workspace_add_with_repo_flags() {
    let args = ws_add(parse(&[
        "workspace",
        "add",
        "my-session",
        "--repo",
        "app-a",
        "--repo",
        "app-b",
    ]));
    assert_eq!(args.repo, vec!["app-a", "app-b"]);
}

#[test]
fn test_workspace_add_default_strategy() {
    let args = ws_add(parse(&["workspace", "add", "my-session", "--repo", "app"]));
    assert_eq!(args.strategy, "worktree");
}

#[test]
fn test_workspace_add_with_strategy_clone() {
    let args = ws_add(parse(&[
        "workspace",
        "add",
        "my-session",
        "--repo",
        "app",
        "--strategy",
        "clone",
    ]));
    assert_eq!(args.strategy, "clone");
}

#[test]
fn test_workspace_add_no_fetch_defaults_false() {
    let args = ws_add(parse(&["workspace", "add", "my-session", "--repo", "app"]));
    assert!(!args.no_fetch);
}

#[test]
fn test_workspace_add_with_no_fetch_flag() {
    let args = ws_add(parse(&[
        "workspace",
        "add",
        "my-session",
        "--repo",
        "app",
        "--no-fetch",
    ]));
    assert!(args.no_fetch);
}

// -- repo subcommand (workspace/preset repo management) --

#[test]
fn test_repo_add_to_workspace() {
    let cli = parse(&["repo", "add", "app-c", "--workspace", "my-session"]);
    match cli.command {
        Some(Commands::Repo {
            action: RepoAction::Add(args),
        }) => {
            assert_eq!(args.repo, vec!["app-c"]);
            assert_eq!(args.workspace.as_deref(), Some("my-session"));
            assert!(args.preset.is_none());
        }
        other => panic!("expected Repo Add, got {:?}", other),
    }
}

#[test]
fn test_repo_add_multiple_to_preset() {
    let cli = parse(&["repo", "add", "app-c", "app-d", "--preset", "work"]);
    match cli.command {
        Some(Commands::Repo {
            action: RepoAction::Add(args),
        }) => {
            assert_eq!(args.repo, vec!["app-c", "app-d"]);
            assert_eq!(args.preset.as_deref(), Some("work"));
        }
        other => panic!("expected Repo Add, got {:?}", other),
    }
}

#[test]
fn test_repo_add_requires_repo() {
    assert!(try_parse(&["repo", "add", "--workspace", "my-session"]).is_err());
}

#[test]
fn test_repo_add_workspace_and_preset_conflict() {
    assert!(try_parse(&[
        "repo",
        "add",
        "app",
        "--workspace",
        "ws",
        "--preset",
        "work"
    ])
    .is_err());
}

#[test]
fn test_repo_remove_from_workspace() {
    let cli = parse(&["repo", "remove", "app-a", "--workspace", "my-session"]);
    match cli.command {
        Some(Commands::Repo {
            action: RepoAction::Remove(args),
        }) => {
            assert_eq!(args.repo, vec!["app-a"]);
            assert_eq!(args.workspace.as_deref(), Some("my-session"));
        }
        other => panic!("expected Repo Remove, got {:?}", other),
    }
}

#[test]
fn test_repo_remove_alias_rm() {
    let cli = parse(&["repo", "rm", "app-a", "--workspace", "my-session"]);
    assert!(matches!(
        cli.command,
        Some(Commands::Repo {
            action: RepoAction::Remove(_)
        })
    ));
}

#[test]
fn test_repo_list_workspace() {
    let cli = parse(&["repo", "list", "--workspace", "my-session"]);
    match cli.command {
        Some(Commands::Repo {
            action: RepoAction::List(args),
        }) => assert_eq!(args.workspace.as_deref(), Some("my-session")),
        other => panic!("expected Repo List, got {:?}", other),
    }
}

#[test]
fn test_repo_list_alias_ls() {
    let cli = parse(&["repo", "ls", "--preset", "work"]);
    match cli.command {
        Some(Commands::Repo {
            action: RepoAction::List(args),
        }) => assert_eq!(args.preset.as_deref(), Some("work")),
        other => panic!("expected Repo List, got {:?}", other),
    }
}


// -- workspace remove subcommand --

fn ws_remove(cli: Cli) -> RemoveArgs {
    match cli.command {
        Some(Commands::Workspace {
            action: WorkspaceAction::Remove(args),
        }) => args,
        other => panic!("expected Workspace Remove, got {:?}", other),
    }
}

#[test]
fn test_remove_parses() {
    let args = ws_remove(parse(&["workspace", "remove", "my-session"]));
    assert_eq!(args.name.as_deref(), Some("my-session"));
    assert!(!args.all);
}

#[test]
fn test_remove_alias_rm() {
    let args = ws_remove(parse(&["workspace", "rm", "my-session"]));
    assert_eq!(args.name.as_deref(), Some("my-session"));
}

#[test]
fn test_remove_no_name_prunes_after_one_day_by_default() {
    let args = ws_remove(parse(&["workspace", "remove"]));
    assert!(args.name.is_none());
    assert!(!args.all);
    assert!(args.older_than.is_none());
}

#[test]
fn test_remove_older_than_parses() {
    let args = ws_remove(parse(&["workspace", "remove", "--older-than", "7d"]));
    assert!(args.name.is_none());
    assert_eq!(args.older_than.as_deref(), Some("7d"));
}

#[test]
fn test_remove_older_than_conflicts_with_name_and_all() {
    assert!(try_parse(&["workspace", "remove", "my-session", "--older-than", "7d"]).is_err());
    assert!(try_parse(&["workspace", "remove", "--all", "--older-than", "7d"]).is_err());
}

#[test]
fn test_remove_all_flag_parses() {
    let args = ws_remove(parse(&["workspace", "remove", "--all"]));
    assert!(args.name.is_none());
    assert!(args.all);
}

#[test]
fn test_remove_all_short_flag_parses() {
    let args = ws_remove(parse(&["workspace", "rm", "-a"]));
    assert!(args.all);
}

#[test]
fn test_remove_all_conflicts_with_name() {
    assert!(try_parse(&["workspace", "remove", "--all", "my-session"]).is_err());
}

#[test]
fn test_remove_rejects_unknown_flags() {
    assert!(try_parse(&["workspace", "remove", "my-session", "-d"]).is_err());
}

// -- workspace switch subcommand --

#[test]
fn test_switch_subcommand_parses() {
    let cli = parse(&["workspace", "switch", "my-session"]);
    assert!(matches!(
        cli.command,
        Some(Commands::Workspace {
            action: WorkspaceAction::Switch { ref name }
        }) if name == "my-session"
    ));
}

#[test]
fn test_switch_alias_sw() {
    let cli = parse(&["workspace", "sw", "my-session"]);
    assert!(matches!(
        cli.command,
        Some(Commands::Workspace {
            action: WorkspaceAction::Switch { ref name }
        }) if name == "my-session"
    ));
}

#[test]
fn test_switch_requires_name() {
    assert!(try_parse(&["workspace", "switch"]).is_err());
}

// -- upgrade subcommand --

#[test]
fn test_upgrade_subcommand_parses() {
    let cli = parse(&["upgrade"]);
    assert!(matches!(cli.command, Some(Commands::Upgrade)));
}

#[test]
fn test_upgrade_rejects_flags() {
    let result = try_parse(&["upgrade", "-d"]);
    assert!(result.is_err());
}

// -- config subcommand --

#[test]
fn test_config_zsh_subcommand_parses() {
    let cli = parse(&["config", "zsh"]);
    assert!(matches!(
        cli.command,
        Some(Commands::Config {
            shell: ConfigShell::Zsh
        })
    ));
}

#[test]
fn test_config_bash_subcommand_parses() {
    let cli = parse(&["config", "bash"]);
    assert!(matches!(
        cli.command,
        Some(Commands::Config {
            shell: ConfigShell::Bash
        })
    ));
}

#[test]
fn test_config_requires_shell() {
    let result = try_parse(&["config"]);
    assert!(result.is_err());
}

// -- workspace list subcommand --

fn ws_list(cli: Cli) -> ListArgs {
    match cli.command {
        Some(Commands::Workspace {
            action: WorkspaceAction::List(args),
        }) => args,
        other => panic!("expected Workspace List, got {:?}", other),
    }
}

#[test]
fn test_list_no_flags() {
    assert!(!ws_list(parse(&["workspace", "list"])).quiet);
}

#[test]
fn test_list_quiet_flag() {
    assert!(ws_list(parse(&["workspace", "list", "-q"])).quiet);
}

#[test]
fn test_list_alias_ls() {
    assert!(!ws_list(parse(&["workspace", "ls"])).quiet);
}

#[test]
fn test_list_rejects_positional_args() {
    assert!(try_parse(&["workspace", "list", "my-session"]).is_err());
}

// -- source subcommand (registry) --

#[test]
fn test_source_add_requires_path() {
    assert!(try_parse(&["source", "add"]).is_err());
}

#[test]
fn test_source_add_with_path() {
    let cli = parse(&["source", "add", "/tmp/my-repo"]);
    match cli.command {
        Some(Commands::Source {
            action: SourceAction::Add { src },
        }) => assert_eq!(src, "/tmp/my-repo"),
        other => panic!("expected Source Add, got {:?}", other),
    }
}

#[test]
fn test_source_add_with_url() {
    let cli = parse(&["source", "add", "git@github.com:user/app.git"]);
    match cli.command {
        Some(Commands::Source {
            action: SourceAction::Add { src },
        }) => assert_eq!(src, "git@github.com:user/app.git"),
        other => panic!("expected Source Add, got {:?}", other),
    }
}

#[test]
fn test_source_remove() {
    let cli = parse(&["source", "remove", "my-app"]);
    match cli.command {
        Some(Commands::Source {
            action: SourceAction::Remove { name },
        }) => assert_eq!(name, "my-app"),
        other => panic!("expected Source Remove, got {:?}", other),
    }
}

#[test]
fn test_source_remove_alias_rm() {
    let cli = parse(&["source", "rm", "my-app"]);
    match cli.command {
        Some(Commands::Source {
            action: SourceAction::Remove { name },
        }) => assert_eq!(name, "my-app"),
        other => panic!("expected Source Remove, got {:?}", other),
    }
}

#[test]
fn test_source_list() {
    assert!(matches!(
        parse(&["source", "list"]).command,
        Some(Commands::Source {
            action: SourceAction::List
        })
    ));
}

#[test]
fn test_source_list_alias_ls() {
    assert!(matches!(
        parse(&["source", "ls"]).command,
        Some(Commands::Source {
            action: SourceAction::List
        })
    ));
}

// -- preset subcommand --

#[test]
fn test_preset_add_parses() {
    let cli = parse(&[
        "preset", "add", "work", "--repo", "app-a", "--repo", "app-b",
    ]);
    match cli.command {
        Some(Commands::Preset {
            action: PresetAction::Add { name, repo },
        }) => {
            assert_eq!(name, "work");
            assert_eq!(repo, vec!["app-a", "app-b"]);
        }
        other => panic!("expected Preset Add, got {:?}", other),
    }
}

#[test]
fn test_preset_add_requires_repo() {
    assert!(try_parse(&["preset", "add", "work"]).is_err());
}

#[test]
fn test_preset_update_parses() {
    let cli = parse(&[
        "preset", "update", "work", "--repo", "app-a", "--repo", "app-c",
    ]);
    match cli.command {
        Some(Commands::Preset {
            action: PresetAction::Update { name, repo },
        }) => {
            assert_eq!(name, "work");
            assert_eq!(repo, vec!["app-a", "app-c"]);
        }
        other => panic!("expected Preset Update, got {:?}", other),
    }
}

#[test]
fn test_preset_update_requires_repo() {
    assert!(try_parse(&["preset", "update", "work"]).is_err());
}

#[test]
fn test_preset_remove_parses() {
    let cli = parse(&["preset", "remove", "work"]);
    assert!(matches!(
        cli.command,
        Some(Commands::Preset {
            action: PresetAction::Remove { name }
        }) if name == "work"
    ));
}

#[test]
fn test_preset_remove_alias_rm() {
    let cli = parse(&["preset", "rm", "work"]);
    assert!(matches!(
        cli.command,
        Some(Commands::Preset {
            action: PresetAction::Remove { name }
        }) if name == "work"
    ));
}

#[test]
fn test_preset_list_parses() {
    let cli = parse(&["preset", "list"]);
    assert!(matches!(
        cli.command,
        Some(Commands::Preset {
            action: PresetAction::List
        })
    ));
}

#[test]
fn test_preset_list_alias_ls() {
    let cli = parse(&["preset", "ls"]);
    assert!(matches!(
        cli.command,
        Some(Commands::Preset {
            action: PresetAction::List
        })
    ));
}

// -- prune age parsing --




// -- no --update flag (removed) --

#[test]
fn test_update_flag_rejected() {
    let result = try_parse(&["--update"]);
    assert!(result.is_err());
}

#[test]
fn test_new_update_flag_rejected() {
    let result = try_parse(&[
        "workspace",
        "add",
        "my-session",
        "--repo",
        "app",
        "--update",
    ]);
    assert!(result.is_err());
}

// -- bare name is rejected (subcommand required) --

#[test]
fn test_bare_name_rejected() {
    let result = try_parse(&["my-session"]);
    assert!(result.is_err());
}

#[test]
fn box_verbose_when_set_turns_verbose_on() {
    let v: Vec<String> = vec!["ws".to_string(), "ls".to_string()];
    assert!(parse_args(&v, Some("1".to_string()), None).unwrap().verbose);
    assert!(parse_args(&v, Some("true".to_string()), None).unwrap().verbose);
    assert!(!parse_args(&v, None, None).unwrap().verbose);
    let with_flag: Vec<String> = vec!["-v".to_string(), "ws".to_string(), "ls".to_string()];
    assert!(parse_args(&with_flag, None, None).unwrap().verbose);
}

#[test]
fn box_strategy_sets_the_default_strategy() {
    let v: Vec<String> = vec!["ws".to_string(), "add".to_string(), "n".to_string(), "--repo".to_string(), "a".to_string()];
    match parse_args(&v, None, Some("clone".to_string())).unwrap().command {
        Some(Commands::Workspace { action: WorkspaceAction::Add(args) }) => assert_eq!(args.strategy, "clone"),
        other => panic!("unexpected {:?}", other),
    }
    let mut w = v.clone();
    w.push("--strategy".to_string());
    w.push("worktree".to_string());
    match parse_args(&w, None, Some("clone".to_string())).unwrap().command {
        Some(Commands::Workspace { action: WorkspaceAction::Add(args) }) => assert_eq!(args.strategy, "worktree"),
        other => panic!("unexpected {:?}", other),
    }
}
