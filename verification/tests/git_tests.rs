use kiosk::git::{build_repo, parse_worktree_porcelain, worktree_listed, Worktree};

#[test]
fn test_parse_worktree_porcelain_single() {
    let output = "worktree /home/user/project\nHEAD abc123\nbranch refs/heads/main\n\n";
    let wts = parse_worktree_porcelain(output);
    assert_eq!(wts.len(), 1);
    assert_eq!(wts[0].path, "/home/user/project");
    assert_eq!(wts[0].branch.as_deref(), Some("main"));
    assert!(wts[0].is_main);
}

#[test]
fn test_parse_worktree_porcelain_multiple() {
    let output = "\
worktree /home/user/project
HEAD abc123
branch refs/heads/main

worktree /home/user/project-feat
HEAD def456
branch refs/heads/feat/thing

";
    let wts = parse_worktree_porcelain(output);
    assert_eq!(wts.len(), 2);
    assert!(wts[0].is_main);
    assert!(!wts[1].is_main);
    assert_eq!(wts[1].branch.as_deref(), Some("feat/thing"));
}

#[test]
fn test_parse_worktree_porcelain_detached() {
    let output = "worktree /home/user/project\nHEAD abc123\ndetached\n\n";
    let wts = parse_worktree_porcelain(output);
    assert_eq!(wts.len(), 1);
    assert!(wts[0].branch.is_none());
}

#[test]
fn test_parse_worktree_porcelain_no_trailing_newline() {
    let output = "worktree /home/user/project\nbranch refs/heads/main";
    let wts = parse_worktree_porcelain(output);
    assert_eq!(wts.len(), 1);
    assert_eq!(wts[0].branch.as_deref(), Some("main"));
}

#[test]
fn test_parse_worktree_porcelain_empty() {
    let wts = parse_worktree_porcelain("");
    assert!(wts.is_empty());
}

#[test]
fn porcelain_crlf_lines_and_branch_reset() {
    // a blank line without a pending path forgets the branch; CRLF endings are accepted
    let output = "branch refs/heads/stale\r\n\r\nworktree /a\r\nHEAD 1\r\n\r\nworktree /b\r\nbranch refs/heads/x\r\n";
    let wts = parse_worktree_porcelain(output);
    assert_eq!(wts.len(), 2);
    assert_eq!(wts[0].path, "/a");
    assert!(wts[0].branch.is_none());
    assert!(wts[0].is_main);
    assert_eq!(wts[1].path, "/b");
    assert_eq!(wts[1].branch.as_deref(), Some("x"));
    assert!(!wts[1].is_main);
}

#[test]
fn porcelain_only_first_worktree_is_main() {
    let output = "worktree /a\n\nworktree /b\n\nworktree /c\n\n";
    let wts = parse_worktree_porcelain(output);
    let mains: Vec<bool> = wts.iter().map(|w| w.is_main).collect();
    assert_eq!(mains, vec![true, false, false]);
}

#[test]
fn build_repo_names_repo_after_directory() {
    let wt = Worktree { path: "/src/kiosk".to_string(), branch: Some("main".to_string()), is_main: true };
    let repo = build_repo("/src/kiosk/", vec![wt]).unwrap();
    assert_eq!(repo.name, "kiosk");
    assert_eq!(repo.path, "/src/kiosk/");
    assert_eq!(repo.worktrees.len(), 1);
    assert!(build_repo("/", Vec::new()).is_none());
    assert!(build_repo("/src/..", Vec::new()).is_none());
}

use kiosk::git::{
    add_worktree_args, add_worktree_error, create_branch_and_worktree_args,
    create_branch_and_worktree_error, head_branch, main_worktree, sort_repos_by_name,
    worktree_listing, Repo, WorktreeListing,
};

fn named(name: &str) -> Repo {
    Repo { name: name.to_string(), path: format!("/src/{name}"), worktrees: Vec::new() }
}

#[test]
fn repos_sort_by_lowercase_name_and_keep_ties_in_order() {
    let repos = vec![named("beta"), named("Alpha"), named("alpha"), named("Gamma"), named("ALPHA")];
    let sorted = sort_repos_by_name(repos);
    let names: Vec<&str> = sorted.iter().map(|r| r.name.as_str()).collect();
    assert_eq!(names, vec!["Alpha", "alpha", "ALPHA", "beta", "Gamma"]);
}

#[test]
fn repos_sort_of_nothing_is_nothing() {
    assert!(sort_repos_by_name(Vec::new()).is_empty());
}

#[test]
fn head_branch_is_trimmed_output() {
    assert_eq!(head_branch(Some("main\n")), Some("main".to_string()));
    assert_eq!(head_branch(Some("  \n")), None);
    assert_eq!(head_branch(None), None);
}

#[test]
fn main_worktree_is_the_repository_itself() {
    let w = main_worktree("/src/k", Some("dev".to_string()));
    assert_eq!(w.path, "/src/k");
    assert_eq!(w.branch.as_deref(), Some("dev"));
    assert!(w.is_main);
}

#[test]
fn worktree_listing_falls_back_to_main_only() {
    assert!(matches!(worktree_listing(None), WorktreeListing::MainOnly));
    assert!(matches!(worktree_listing(Some("")), WorktreeListing::MainOnly));
    match worktree_listing(Some("worktree /a\nbranch refs/heads/m\n")) {
        WorktreeListing::Listed(ws) => {
            assert_eq!(ws.len(), 1);
            assert_eq!(ws[0].path, "/a");
        }
        WorktreeListing::MainOnly => panic!("expected a listing"),
    }
}

#[test]
fn worktree_add_commands_and_errors() {
    assert_eq!(add_worktree_args("feat", "/src/k-feat"), vec!["worktree", "add", "/src/k-feat", "feat"]);
    assert_eq!(add_worktree_error("boom"), "git worktree add failed: boom");
    assert_eq!(
        create_branch_and_worktree_args("new", "main", "/src/k-new"),
        vec!["worktree", "add", "-b", "new", "/src/k-new", "main"]
    );
    assert_eq!(create_branch_and_worktree_error("x"), "git worktree add -b failed: x");
}

#[test]
fn worktree_listed_finds_linked_worktree() {
    let output = "worktree /repo\nHEAD abc\nbranch refs/heads/main\n\n\
                  worktree /repo/.kiosk_worktrees/feat\nHEAD def\nbranch refs/heads/feat\n";
    assert!(worktree_listed(output, "/repo/.kiosk_worktrees/feat"));
    assert!(worktree_listed(output, "/repo"));
}

#[test]
fn worktree_listed_compares_paths_not_text() {
    let output = "worktree /repo/wt\nHEAD abc\n";
    assert!(worktree_listed(output, "/repo/wt/"));
    assert!(!worktree_listed(output, "/repo/w"));
}

#[test]
fn worktree_listed_ignores_other_lines() {
    let output = "worktree /repo\nbranch refs/heads/worktree /other\n";
    assert!(!worktree_listed(output, "/other"));
    assert!(!worktree_listed("", "/repo"));
}
