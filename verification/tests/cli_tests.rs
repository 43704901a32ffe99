use kiosk::cli::{
    find_worktree_by_branch, format_branch_table, format_repo_table, format_session_table,
    is_worktree_already_used_error, log_dir, log_path_for_session, resolve_repo_exact,
    stale_worktree_hint, tail_lines, BranchOutput, CliError, RepoOutput, SessionOutput,
};
use kiosk::git::{Repo, Worktree};

const LOG_DIR: &str = "/home/user/.local/state/kiosk/logs";

fn repo(path: &str, name: &str) -> Repo {
    Repo {
        name: name.to_string(),
        path: path.to_string(),
        worktrees: vec![Worktree {
            path: path.to_string(),
            branch: Some("main".to_string()),
            is_main: true,
        }],
    }
}

#[test]
fn resolve_repo_exact_matches_only_exact_name() {
    let repos = vec![repo("/tmp/a", "alpha"), repo("/tmp/b", "beta")];
    let found = resolve_repo_exact(&repos, "beta").unwrap();
    assert_eq!(found.name, "beta");
    assert!(resolve_repo_exact(&repos, "bet").is_err());
}

#[test]
fn resolve_repo_exact_lists_available_names() {
    let repos = vec![repo("/tmp/a", "alpha"), repo("/tmp/b", "beta")];
    let err = resolve_repo_exact(&repos, "gamma").unwrap_err();
    assert_eq!(err.message(), "no repo named 'gamma' found. Available: alpha, beta");
    assert_eq!(err.code(), 1);
    let none = resolve_repo_exact(&[], "gamma").unwrap_err();
    assert_eq!(none.message(), "no repo named 'gamma' found. Available: (none)");
}

#[test]
fn cli_error_codes() {
    let u = CliError::user("bad input");
    assert_eq!(u.message(), "bad input");
    assert_eq!(u.code(), 1);
    let s = CliError::system("broken");
    assert_eq!(s.message(), "broken");
    assert_eq!(s.code(), 2);
}

#[test]
fn tail_lines_returns_requested_suffix() {
    let content = "a\nb\nc\nd\ne\n";
    assert_eq!(tail_lines(content, 2), "d\ne");
    assert_eq!(tail_lines(content, 10), "a\nb\nc\nd\ne");
}

#[test]
fn tail_lines_of_nothing() {
    assert_eq!(tail_lines("", 3), "");
    assert_eq!(tail_lines("a\r\nb", 0), "");
    assert_eq!(tail_lines("a\r\nb", 2), "a\nb");
}

#[test]
fn format_repo_table_snapshot() {
    let rows = vec![
        RepoOutput {
            name: "kiosk".to_string(),
            path: "/tmp/kiosk".to_string(),
        },
        RepoOutput {
            name: "dotfiles".to_string(),
            path: "/tmp/dotfiles".to_string(),
        },
    ];
    let rendered = format_repo_table(&rows);
    assert_eq!(
        rendered,
        "repo      path\n\
         kiosk     /tmp/kiosk\n\
         dotfiles  /tmp/dotfiles\n"
    );
}

#[test]
fn format_repo_table_without_rows_is_the_header() {
    assert_eq!(format_repo_table(&[]), "repo  path\n");
}

#[test]
fn format_branch_table_snapshot() {
    let rows = vec![
        BranchOutput {
            name: "main".to_string(),
            worktree_path: Some("/tmp/repo".to_string()),
            has_session: false,
            is_current: true,
            is_remote: false,
        },
        BranchOutput {
            name: "feat/test".to_string(),
            worktree_path: None,
            has_session: false,
            is_current: false,
            is_remote: true,
        },
    ];
    let rendered = format_branch_table(&rows);
    assert_eq!(
        rendered,
        "branch     stat  worktree\n\
         main       *W--  /tmp/repo\n\
         feat/test  ---R  -\n"
    );
}

#[test]
fn format_session_table_snapshot() {
    let rows = vec![
        SessionOutput {
            session: "repo--feat".to_string(),
            repo: "repo".to_string(),
            branch: Some("feat/test".to_string()),
            path: "/tmp/repo-feat".to_string(),
            attached: false,
        },
        SessionOutput {
            session: "repo".to_string(),
            repo: "repo".to_string(),
            branch: None,
            path: "/tmp/repo".to_string(),
            attached: true,
        },
    ];
    let rendered = format_session_table(&rows);
    assert_eq!(
        rendered,
        "session     repo  branch      path            attached\n\
         repo--feat  repo  feat/test   /tmp/repo-feat  false\n\
         repo        repo  (detached)  /tmp/repo       true\n"
    );
}

#[test]
fn log_path_rejects_empty_session() {
    assert!(log_path_for_session("", LOG_DIR).is_err());
}

#[test]
fn log_path_rejects_dot_prefix() {
    assert!(log_path_for_session(".hidden", LOG_DIR).is_err());
}

#[test]
fn log_path_rejects_path_traversal() {
    assert!(log_path_for_session("..", LOG_DIR).is_err());
    assert!(log_path_for_session("foo/..", LOG_DIR).is_err());
    assert!(log_path_for_session("foo/../bar", LOG_DIR).is_err());
}

#[test]
fn log_path_rejects_slashes() {
    assert!(log_path_for_session("foo/bar", LOG_DIR).is_err());
    assert!(log_path_for_session("foo\\bar", LOG_DIR).is_err());
}

#[test]
fn log_path_accepts_valid_session_names() {
    assert!(log_path_for_session("demo", LOG_DIR).is_ok());
    assert!(log_path_for_session("repo--feat-test", LOG_DIR).is_ok());
    assert!(log_path_for_session("my_repo", LOG_DIR).is_ok());
}

#[test]
fn log_path_names_the_log_file_in_the_directory() {
    assert_eq!(
        log_path_for_session("demo", LOG_DIR).unwrap(),
        "/home/user/.local/state/kiosk/logs/demo.log"
    );
    let err = log_path_for_session("a..b", LOG_DIR).unwrap_err();
    assert_eq!(err.message(), "Invalid session name");
    assert_eq!(err.code(), 2);
}

#[test]
fn log_dir_prefers_xdg_state_home() {
    assert_eq!(
        log_dir(Some("/state".to_string()), Some("/home/u".to_string())).unwrap(),
        "/state/kiosk/logs"
    );
    assert_eq!(
        log_dir(Some(String::new()), Some("/home/u".to_string())).unwrap(),
        "/home/u/.local/state/kiosk/logs"
    );
    assert_eq!(
        log_dir(None, Some("/home/u".to_string())).unwrap(),
        "/home/u/.local/state/kiosk/logs"
    );
    let err = log_dir(None, None).unwrap_err();
    assert_eq!(err.message(), "HOME environment variable not set");
    assert_eq!(err.code(), 2);
}

#[test]
fn already_used_error_is_recognised() {
    assert!(is_worktree_already_used_error(
        "fatal: 'feat' is already used by worktree at '/tmp/x'"
    ));
    assert!(!is_worktree_already_used_error("fatal: invalid reference"));
}

#[test]
fn stale_hint_names_the_repository() {
    assert_eq!(
        stale_worktree_hint("/tmp/repo"),
        "stale worktree metadata may be blocking this branch. Try `git -C /tmp/repo worktree prune --expire now` (or `kiosk clean`)."
    );
}

#[test]
fn find_worktree_by_branch_returns_its_path() {
    let mut r = repo("/tmp/a", "alpha");
    r.worktrees.push(Worktree {
        path: "/tmp/a-feat".to_string(),
        branch: Some("feat".to_string()),
        is_main: false,
    });
    assert_eq!(find_worktree_by_branch(&r, "feat"), Some("/tmp/a-feat".to_string()));
    assert_eq!(find_worktree_by_branch(&r, "main"), Some("/tmp/a".to_string()));
    assert_eq!(find_worktree_by_branch(&r, "nope"), None);
}

#[test]
fn errors_from_git_or_tmux_are_system_errors() {
    let e = kiosk::cli::CliError::from_anyhow(&anyhow::Error::msg("tmux failed"));
    assert_eq!(e.code(), 2);
    assert_eq!(e.message(), "tmux failed");
    let u = kiosk::cli::CliError::user("bad");
    let c = u.clone();
    assert_eq!((c.message(), c.code()), ("bad", 1));
}
