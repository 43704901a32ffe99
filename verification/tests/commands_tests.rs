use kiosk::commands::{config_subcommand_hint_text, require_config_subcommand};
use kiosk::commands::{
    command_wants_json, exit_status_for, find_main_repo_path, gitdir_entry,
    main_repo_root_from_git_file, should_disable_alt_screen, Commands, ConfigCommands,
};

#[test]
fn json_flag_of_each_command() {
    assert!(Commands::List { json: true }.wants_json());
    assert!(!Commands::Sessions { json: false }.wants_json());
    assert!(Commands::Delete {
        repo: "r".to_string(),
        branch: "b".to_string(),
        force: false,
        json: true
    }
    .wants_json());
    assert!(Commands::Config { command: Some(ConfigCommands::Show { json: true }) }.wants_json());
    assert!(!Commands::Config { command: None }.wants_json());
    assert!(ConfigCommands::Show { json: true }.wants_json());
}

#[test]
fn errors_are_json_only_when_asked() {
    assert!(!command_wants_json(None));
    let c = Commands::Clean { dry_run: true, yes: false, json: true };
    assert!(command_wants_json(Some(&c)));
}

#[test]
fn exit_status_by_error_code() {
    assert_eq!(exit_status_for(1), 1);
    assert_eq!(exit_status_for(2), 2);
    assert_eq!(exit_status_for(7), 2);
}

#[test]
fn alt_screen_switch_values() {
    assert!(!should_disable_alt_screen(None));
    for off in ["", "0", "false", " FALSE ", "No", "off\n"] {
        assert!(!should_disable_alt_screen(Some(off.to_string())), "{off:?}");
    }
    for on in ["1", "yes", "true", "anything"] {
        assert!(should_disable_alt_screen(Some(on.to_string())), "{on:?}");
    }
}

#[test]
fn main_repo_path_is_three_levels_up() {
    assert_eq!(
        find_main_repo_path("/repo/.git/worktrees/branch"),
        Some("/repo".to_string())
    );
    assert_eq!(find_main_repo_path("/a"), None);
}

#[test]
fn gitdir_entry_reads_the_first_gitdir_line() {
    assert_eq!(
        gitdir_entry("gitdir: /repo/.git/worktrees/x\n"),
        Some("/repo/.git/worktrees/x".to_string())
    );
    assert_eq!(gitdir_entry("something else\n"), None);
}

#[test]
fn main_repo_root_from_git_file_resolves_relative_gitdirs() {
    assert_eq!(
        main_repo_root_from_git_file("/wt", "gitdir: /repo/.git/worktrees/x  \n"),
        Some("/repo".to_string())
    );
    assert_eq!(
        main_repo_root_from_git_file("/base/wt", "gitdir: ../main/.git/worktrees/wt\n"),
        Some("/base/wt/../main".to_string())
    );
    assert_eq!(main_repo_root_from_git_file("/wt", "nothing"), None);
}

#[test]
fn config_without_subcommand_is_refused() {
    let e = require_config_subcommand(None).unwrap_err();
    assert_eq!(e.message(), "config subcommand required");
    assert_eq!(e.code(), 1);
    assert!(matches!(
        require_config_subcommand(Some(ConfigCommands::Show { json: true })),
        Ok(ConfigCommands::Show { json: true })
    ));
    assert_eq!(config_subcommand_hint_text(), "config subcommand required. Use --help for usage.");
}
