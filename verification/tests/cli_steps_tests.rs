use kiosk::cli_steps::{clean_prune_dry_run, clean_removal, CleanRemoval};
use kiosk::cli_steps::{clean_listing, confirms_removal};
use kiosk::cli_steps::{prune_notice, prune_report};
use kiosk::cli::{BranchOutput, OpenArgs, SessionOutput};
use kiosk::cli_steps::{
    after_first_attempt, after_retry, check_session_kill, delete_target, deletion_pending,
    keep_active_sessions, sort_sessions,
    plan_open, prune_failed_error, status_line_count, status_worktree, validate_open_args, OpenPlan,
    RetryStep,
};
use kiosk::git::{Repo, Worktree};

fn open_args() -> OpenArgs {
    OpenArgs {
        repo: "app".to_string(),
        branch: None,
        new_branch: None,
        base: None,
        no_switch: false,
        run: None,
        log: false,
        json: false,
    }
}

fn branch(name: &str, worktree: Option<&str>, current: bool) -> BranchOutput {
    BranchOutput {
        name: name.to_string(),
        worktree_path: worktree.map(str::to_string),
        has_session: false,
        is_current: current,
        is_remote: false,
    }
}

#[test]
fn open_rejects_branch_with_new_branch() {
    let mut args = open_args();
    args.branch = Some("main".to_string());
    args.new_branch = Some("feat".to_string());
    args.base = Some("main".to_string());
    let err = validate_open_args(&args, true).unwrap_err();
    assert_eq!(err.message(), "cannot use positional branch and --new-branch together");
    assert_eq!(err.code(), 1);
}

#[test]
fn open_rejects_base_without_new_branch() {
    let mut args = open_args();
    args.base = Some("main".to_string());
    let err = validate_open_args(&args, true).unwrap_err();
    assert_eq!(err.message(), "--base can only be used together with --new-branch");
}

#[test]
fn open_rejects_new_branch_without_base() {
    let mut args = open_args();
    args.new_branch = Some("feat".to_string());
    let err = validate_open_args(&args, true).unwrap_err();
    assert_eq!(err.message(), "--new-branch requires --base");
}

#[test]
fn open_outside_tmux_needs_no_switch() {
    let args = open_args();
    let err = validate_open_args(&args, false).unwrap_err();
    assert_eq!(
        err.message(),
        "not inside tmux. Use --no-switch to create the session without switching"
    );
    let mut args = open_args();
    args.no_switch = true;
    assert!(validate_open_args(&args, false).is_ok());
    assert!(validate_open_args(&open_args(), true).is_ok());
}

#[test]
fn first_attempt_outcomes() {
    assert!(matches!(after_first_attempt(Ok(())), RetryStep::Done));
    let used = "fatal: 'feat' is already used by worktree at '/x'".to_string();
    assert!(matches!(after_first_attempt(Err(used)), RetryStep::PruneAndRetry));
    match after_first_attempt(Err("fatal: invalid reference".to_string())) {
        RetryStep::Fail(e) => {
            assert_eq!(e.message(), "fatal: invalid reference");
            assert_eq!(e.code(), 2);
        }
        _ => panic!("expected a failure"),
    }
}

#[test]
fn prune_failure_reports_both_errors_and_hint() {
    let e = prune_failed_error("first", "/repo", "prune broke");
    assert_eq!(
        e.message(),
        "first\nstale worktree metadata may be blocking this branch. Try `git -C /repo worktree prune --expire now` (or `kiosk clean`).\nFailed to prune stale metadata automatically: prune broke"
    );
    assert_eq!(e.code(), 2);
}

#[test]
fn retry_outcomes() {
    assert!(after_retry(Ok(()), "/repo").is_ok());
    let e = after_retry(Err("still used".to_string()), "/repo").unwrap_err();
    assert_eq!(
        e.message(),
        "still used\nstale worktree metadata may be blocking this branch. Try `git -C /repo worktree prune --expire now` (or `kiosk clean`)."
    );
    assert_eq!(e.code(), 2);
}

#[test]
fn delete_target_finds_worktree() {
    let entries = vec![
        branch("main", Some("/repo"), true),
        branch("feat", Some("/repo/.kiosk_worktrees/feat"), false),
        branch("old", None, false),
    ];
    assert_eq!(
        delete_target(&entries, "feat").unwrap(),
        "/repo/.kiosk_worktrees/feat"
    );
    assert_eq!(
        delete_target(&entries, "missing").unwrap_err().message(),
        "branch 'missing' not found"
    );
    assert_eq!(
        delete_target(&entries, "old").unwrap_err().message(),
        "no worktree for branch 'old'"
    );
    let current = delete_target(&entries, "main").unwrap_err();
    assert_eq!(current.message(), "cannot delete the current branch's worktree");
    assert_eq!(current.code(), 1);
}

#[test]
fn delete_target_uses_first_entry_of_a_name() {
    let entries = vec![
        branch("feat", Some("/a"), false),
        branch("feat", Some("/b"), false),
    ];
    assert_eq!(delete_target(&entries, "feat").unwrap(), "/a");
}

#[test]
fn attached_session_needs_force() {
    let e = check_session_kill("app-feat", true, false).unwrap_err();
    assert_eq!(e.message(), "session 'app-feat' is attached. Use --force");
    assert!(check_session_kill("app-feat", true, true).is_ok());
    assert!(check_session_kill("app-feat", false, false).is_ok());
}

#[test]
fn pending_deletion_matches_repo_path_and_branch() {
    let pending = vec![
        ("/repo".to_string(), "feat".to_string()),
        ("/other".to_string(), "main".to_string()),
    ];
    assert!(deletion_pending(&pending, "/repo/", "feat"));
    assert!(!deletion_pending(&pending, "/repo", "main"));
    assert!(!deletion_pending(&[], "/repo", "feat"));
}

#[test]
fn status_shows_fifty_lines_by_default_and_at_least_one() {
    assert_eq!(status_line_count(None), 50);
    assert_eq!(status_line_count(Some(0)), 1);
    assert_eq!(status_line_count(Some(7)), 7);
}

#[test]
fn status_worktree_by_branch() {
    let repo = Repo {
        name: "app".to_string(),
        path: "/dev/app".to_string(),
        worktrees: vec![
            Worktree { path: "/dev/app".to_string(), branch: Some("main".to_string()), is_main: true },
            Worktree {
                path: "/dev/.kiosk_worktrees/app--feat".to_string(),
                branch: Some("feat".to_string()),
                is_main: false,
            },
        ],
    };
    assert_eq!(status_worktree(&repo, None).unwrap(), "/dev/app");
    assert_eq!(
        status_worktree(&repo, Some("feat")).unwrap(),
        "/dev/.kiosk_worktrees/app--feat"
    );
    let e = status_worktree(&repo, Some("nope")).unwrap_err();
    assert_eq!(e.message(), "no worktree for branch 'nope'");
    assert_eq!(e.code(), 1);
}

fn demo_entries() -> Vec<BranchOutput> {
    vec![
        branch("main", Some("/tmp/demo"), true),
        branch("feat/del", Some("/tmp/.kiosk_worktrees/demo--feat-del"), false),
        branch("feat/no-wt", None, false),
    ]
}

#[test]
fn delete_rejects_current_branch() {
    let error = delete_target(&demo_entries(), "main").unwrap_err();
    assert_eq!(error.code(), 1);
    assert!(error.message().contains("current branch"));
}

#[test]
fn delete_rejects_branch_without_worktree() {
    let error = delete_target(&demo_entries(), "feat/no-wt").unwrap_err();
    assert_eq!(error.code(), 1);
    assert!(error.message().contains("no worktree"));
}

#[test]
fn delete_unknown_branch_returns_user_error() {
    let error = delete_target(&demo_entries(), "nonexistent").unwrap_err();
    assert_eq!(error.code(), 1);
    assert!(error.message().contains("nonexistent"));
}

#[test]
fn delete_rejects_attached_session_without_force() {
    let path = delete_target(&demo_entries(), "feat/del").unwrap();
    assert_eq!(path, "/tmp/.kiosk_worktrees/demo--feat-del");
    let error = check_session_kill("demo--feat-del", true, false).unwrap_err();
    assert_eq!(error.code(), 1);
    assert!(error.message().contains("attached"));
    assert!(error.message().contains("--force"));
}

#[test]
fn status_returns_error_for_nonexistent_branch_worktree() {
    let repo = Repo {
        name: "demo".to_string(),
        path: "/tmp/demo".to_string(),
        worktrees: vec![Worktree {
            path: "/tmp/demo".to_string(),
            branch: Some("main".to_string()),
            is_main: true,
        }],
    };
    let error = status_worktree(&repo, Some("nonexistent")).unwrap_err();
    assert_eq!(error.code(), 1);
    assert!(error.message().contains("no worktree"));
}

#[test]
fn open_retries_after_stale_worktree_conflict() {
    let first = Err("git worktree add failed: fatal: 'feat/test' is already used by worktree at '/tmp/.kiosk_worktrees/demo--feat-test'".to_string());
    assert!(matches!(after_first_attempt(first), RetryStep::PruneAndRetry));
    assert!(after_retry(Ok(()), "/tmp/demo").is_ok());
}

#[test]
fn open_shows_stale_worktree_hint_when_auto_prune_fails() {
    let first = "git worktree add failed: fatal: 'feat/test' is already used by worktree at '/tmp/.kiosk_worktrees/demo--feat-test'";
    assert!(matches!(after_first_attempt(Err(first.to_string())), RetryStep::PruneAndRetry));
    let error = prune_failed_error(first, "/tmp/demo", "prune failed");
    assert!(error.message().contains("stale worktree metadata"));
    assert!(error.message().contains("worktree prune --expire now"));
}

fn demo_repo() -> Repo {
    Repo {
        name: "demo".to_string(),
        path: "/tmp/demo".to_string(),
        worktrees: vec![
            Worktree { path: "/tmp/demo".to_string(), branch: Some("main".to_string()), is_main: true },
            Worktree {
                path: "/tmp/.kiosk_worktrees/demo--feat-test".to_string(),
                branch: Some("feat/test".to_string()),
                is_main: false,
            },
        ],
    }
}

fn names(v: &[&str]) -> Vec<String> {
    v.iter().map(|s| s.to_string()).collect()
}

#[test]
fn open_rejects_unknown_branch_with_new_branch_hint() {
    let mut args = open_args();
    args.branch = Some("missing".to_string());
    args.no_switch = true;
    let error = plan_open(&demo_repo(), &names(&["main"]), &[], &args).unwrap_err();
    assert!(error.message().contains("Use --new-branch"));
    assert_eq!(error.message(), "branch 'missing' not found. Use --new-branch to create it");
    assert_eq!(error.code(), 1);
}

#[test]
fn open_plan_for_each_kind_of_branch() {
    let repo = demo_repo();
    let local = names(&["main", "feat/test", "fix"]);
    let remote = names(&["origin-only"]);
    let mut args = open_args();
    assert_eq!(
        plan_open(&repo, &local, &remote, &args).unwrap(),
        OpenPlan::UseExisting { path: "/tmp/demo".to_string(), branch: None }
    );
    args.branch = Some("feat/test".to_string());
    assert_eq!(
        plan_open(&repo, &local, &remote, &args).unwrap(),
        OpenPlan::UseExisting {
            path: "/tmp/.kiosk_worktrees/demo--feat-test".to_string(),
            branch: Some("feat/test".to_string())
        }
    );
    args.branch = Some("fix".to_string());
    assert_eq!(
        plan_open(&repo, &local, &remote, &args).unwrap(),
        OpenPlan::AddLocal { branch: "fix".to_string() }
    );
    args.branch = Some("origin-only".to_string());
    assert_eq!(
        plan_open(&repo, &local, &remote, &args).unwrap(),
        OpenPlan::TrackRemote { branch: "origin-only".to_string() }
    );
}

#[test]
fn open_plan_for_a_new_branch() {
    let repo = demo_repo();
    let local = names(&["main"]);
    let remote = names(&["taken"]);
    let mut args = open_args();
    args.new_branch = Some("feat/new".to_string());
    args.base = Some("main".to_string());
    assert_eq!(
        plan_open(&repo, &local, &remote, &args).unwrap(),
        OpenPlan::CreateBranch { branch: "feat/new".to_string(), base: "main".to_string() }
    );
    args.new_branch = Some("taken".to_string());
    assert_eq!(
        plan_open(&repo, &local, &remote, &args).unwrap_err().message(),
        "branch 'taken' already exists"
    );
    args.new_branch = Some("feat/new".to_string());
    args.base = Some("develop".to_string());
    assert_eq!(
        plan_open(&repo, &local, &remote, &args).unwrap_err().message(),
        "base branch 'develop' not found"
    );
}

fn session_row(session: &str, path: &str) -> SessionOutput {
    SessionOutput {
        session: session.to_string(),
        repo: "demo".to_string(),
        branch: None,
        path: path.to_string(),
        attached: false,
    }
}

#[test]
fn sessions_only_returns_matching_worktree_sessions() {
    let candidates = vec![
        session_row("demo", "/tmp/demo"),
        session_row("demo--feat", "/tmp/.kiosk_worktrees/demo--feat"),
    ];
    let active = vec!["demo".to_string(), "unrelated-session".to_string()];
    let kept = keep_active_sessions(candidates, &active);
    assert_eq!(kept.len(), 1);
    assert_eq!(kept[0].session, "demo");
    assert_eq!(kept[0].path, "/tmp/demo");
}

#[test]
fn sessions_are_sorted_by_name_stably() {
    let rows = vec![
        session_row("b", "/1"),
        session_row("a", "/2"),
        session_row("b", "/3"),
        session_row("A", "/4"),
    ];
    let sorted = sort_sessions(rows);
    let order: Vec<(&str, &str)> =
        sorted.iter().map(|r| (r.session.as_str(), r.path.as_str())).collect();
    assert_eq!(order, vec![("A", "/4"), ("a", "/2"), ("b", "/1"), ("b", "/3")]);
}

#[test]
fn clean_gate_with_and_without_json() {
    assert_eq!(clean_removal(true, false, true, 3), CleanRemoval::All);
    assert_eq!(clean_removal(true, true, true, 3), CleanRemoval::Skip);
    assert_eq!(clean_removal(true, false, false, 3), CleanRemoval::Skip);
    assert_eq!(clean_removal(false, false, false, 0), CleanRemoval::Skip);
    assert_eq!(clean_removal(false, true, true, 2), CleanRemoval::Skip);
    assert_eq!(clean_removal(false, false, true, 2), CleanRemoval::All);
    assert_eq!(clean_removal(false, false, false, 2), CleanRemoval::Ask);
    assert!(clean_prune_dry_run(true, false, false));
    assert!(!clean_prune_dry_run(true, false, true));
    assert!(!clean_prune_dry_run(false, false, false));
    assert!(clean_prune_dry_run(false, true, true));
}

#[test]
fn clean_listing_and_answers() {
    assert_eq!(clean_listing(&vec![], false), "No orphaned worktree directories found.\n");
    let paths = vec!["/a/.kiosk_worktrees/x".to_string(), "/a/.kiosk_worktrees/y".to_string()];
    assert_eq!(
        clean_listing(&paths, true),
        "Found 2 orphaned worktree(s):\n  /a/.kiosk_worktrees/x\n  /a/.kiosk_worktrees/y\n\n(Dry run - no changes made. Run without --dry-run to remove them.)\n"
    );
    assert!(confirms_removal(" Y\n"));
    assert!(confirms_removal("y"));
    assert!(!confirms_removal("yes"));
    assert!(!confirms_removal(""));
}

#[test]
fn prune_notices_and_report() {
    assert_eq!(prune_notice(0, false).as_deref(), Some("No repositories discovered for worktree metadata prune."));
    assert_eq!(prune_notice(0, true).as_deref(), Some(""));
    assert_eq!(prune_notice(4, true).as_deref(), Some("Would prune stale worktree metadata in 4 repos."));
    assert_eq!(prune_notice(4, false), None);
    assert_eq!(prune_report(&vec![]), "Pruned stale worktree metadata in discovered repositories.\n");
    assert_eq!(
        prune_report(&vec![("/r".to_string(), "locked".to_string())]),
        "Failed to prune stale worktree metadata:\n  /r: locked\n"
    );
}
