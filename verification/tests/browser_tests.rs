use kiosk::browser::{
    ActionModel, BaseSelection, BranchItem, BranchOpenStep, BrowserMode, BrowserState, Effect,
    EventModel, PendingDelete, PickList, RepoEntry,
};

fn repo(name: &str, path: &str) -> RepoEntry {
    RepoEntry { name: name.to_string(), path: path.to_string() }
}

fn branch(name: &str, worktree: Option<&str>, remote: bool) -> BranchItem {
    BranchItem { name: name.to_string(), worktree_path: worktree.map(str::to_string), remote }
}

fn list(n: usize) -> PickList {
    PickList {
        search: String::new(),
        filtered: (0..n).map(|i| (i, 0)).collect(),
        selected: if n == 0 { None } else { Some(0) },
        scroll_offset: 0,
    }
}

fn state() -> BrowserState {
    BrowserState {
        mode: BrowserMode::RepoSelect,
        repos: vec![repo("alpha", "/dev/alpha"), repo("beta", "/dev/beta")],
        repo_list: list(2),
        selected_repo_idx: None,
        branches: Vec::new(),
        branch_list: list(0),
        base_selection: None,
        split_command: Some("hx".to_string()),
        error: None,
        loading_repos: false,
        loading_branches: false,
        pending_deletes: Vec::new(),
    }
}

fn in_branches() -> BrowserState {
    let mut s = state();
    s.mode = BrowserMode::BranchSelect;
    s.selected_repo_idx = Some(0);
    s.branches = vec![
        branch("main", Some("/dev/alpha"), false),
        branch("feat", None, false),
        branch("origin-only", None, true),
    ];
    s.branch_list = list(3);
    s
}

fn opened_path(e: Option<Effect>) -> Option<String> {
    match e {
        Some(Effect::Open { path, .. }) => Some(path),
        _ => None,
    }
}

#[test]
fn enter_opens_the_selected_repo_checkout() {
    let mut s = state();
    s.repo_list.selected = Some(1);
    assert_eq!(opened_path(s.apply_action(ActionModel::OpenRepo)), Some("/dev/beta".to_string()));
    assert!(matches!(s.apply_action(ActionModel::Quit), Some(Effect::Quit)));
}

#[test]
fn tab_enters_the_branch_view_and_loads_branches() {
    let mut s = state();
    match s.apply_action(ActionModel::EnterRepo) {
        Some(Effect::LoadBranches { repo_path }) => assert_eq!(repo_path, "/dev/alpha"),
        _ => panic!("expected a branch load"),
    }
    assert!(matches!(s.mode, BrowserMode::BranchSelect));
    assert_eq!(s.selected_repo_idx, Some(0));
    assert!(s.loading_branches);
    assert!(s.apply_action(ActionModel::GoBack).is_none());
    assert!(matches!(s.mode, BrowserMode::RepoSelect));
}

#[test]
fn typing_searches_the_repos() {
    let mut s = state();
    s.apply_action(ActionModel::SearchPush('b'));
    assert_eq!(s.repo_list.search, "b");
    assert_eq!(s.repo_list.filtered.iter().map(|p| p.0).collect::<Vec<_>>(), vec![1]);
    assert_eq!(s.repo_list.selected, Some(0));
    s.apply_action(ActionModel::SearchPop);
    assert_eq!(s.repo_list.search, "");
    assert_eq!(s.repo_list.filtered.len(), 2);
}

#[test]
fn opening_a_branch_with_a_worktree_opens_it() {
    let s = in_branches();
    match s.open_branch_step(Ok("unused".to_string())) {
        BranchOpenStep::Open { path, split_command } => {
            assert_eq!(path, "/dev/alpha");
            assert_eq!(split_command.as_deref(), Some("hx"));
        }
        _ => panic!("expected an open"),
    }
    assert_eq!(s.worktree_target(), None);
}

#[test]
fn opening_a_branch_without_a_worktree_creates_one() {
    let mut s = in_branches();
    s.branch_list.selected = Some(1);
    assert_eq!(s.worktree_target().as_deref(), Some("feat"));
    let e = s.apply_action(ActionModel::OpenBranch {
        worktree_dir: Ok("/dev/.kiosk_worktrees/alpha--feat".to_string()),
    });
    match e {
        Some(Effect::CreateWorktree { repo_path, branch, worktree_path, remote }) => {
            assert_eq!(repo_path, "/dev/alpha");
            assert_eq!(branch, "feat");
            assert_eq!(worktree_path, "/dev/.kiosk_worktrees/alpha--feat");
            assert!(!remote);
        }
        _ => panic!("expected a worktree creation"),
    }
    match &s.mode {
        BrowserMode::Loading(m) => assert_eq!(m, "Creating worktree for feat..."),
        _ => panic!("expected loading"),
    }
}

#[test]
fn opening_a_remote_branch_tracks_it() {
    let s = {
        let mut s = in_branches();
        s.branch_list.selected = Some(2);
        s
    };
    match s.open_branch_step(Ok("/w".to_string())) {
        BranchOpenStep::CreateWorktree { remote, message, .. } => {
            assert!(remote);
            assert_eq!(message, "Checking out remote branch origin-only...");
        }
        _ => panic!("expected tracking"),
    }
}

#[test]
fn worktree_dir_failure_is_shown() {
    let mut s = in_branches();
    s.branch_list.selected = Some(1);
    assert!(s.apply_action(ActionModel::OpenBranch { worktree_dir: Err("bad name".to_string()) }).is_none());
    assert_eq!(s.error.as_deref(), Some("Failed to determine worktree path: bad name"));
}

#[test]
fn base_selection_creates_the_new_branch() {
    let mut s = in_branches();
    s.mode = BrowserMode::SelectBaseBranch;
    s.base_selection = Some(BaseSelection {
        new_name: "feat/x".to_string(),
        bases: vec!["main".to_string(), "dev".to_string()],
        list: list(2),
    });
    match s.open_branch_step(Ok("/w".to_string())) {
        BranchOpenStep::CreateBranch { new_name, base, message, .. } => {
            assert_eq!(new_name, "feat/x");
            assert_eq!(base, "main");
            assert_eq!(message, "Creating branch feat/x from main...");
        }
        _ => panic!("expected a branch creation"),
    }
    s.apply_action(ActionModel::GoBack);
    assert!(s.base_selection.is_none());
    assert!(matches!(s.mode, BrowserMode::BranchSelect));
}

#[test]
fn rediscovered_repos_keep_the_chosen_repo() {
    let mut s = in_branches();
    s.selected_repo_idx = Some(1);
    s.apply_event(EventModel::ReposDiscovered {
        repos: vec![repo("beta", "/dev/beta/"), repo("alpha", "/dev/alpha"), repo("gamma", "/dev/gamma")],
    });
    assert_eq!(s.selected_repo_idx, Some(0));
    assert_eq!(s.repo_list.filtered.len(), 3);
    assert!(matches!(s.mode, BrowserMode::BranchSelect));
}

#[test]
fn loaded_branches_replace_the_list_and_ask_for_remotes() {
    let mut s = in_branches();
    s.mode = BrowserMode::Loading("...".to_string());
    match s.apply_event(EventModel::BranchesLoaded { branches: vec![branch("main", None, false)] }) {
        Some(Effect::LoadRemoteBranches { repo_path }) => assert_eq!(repo_path, "/dev/alpha"),
        _ => panic!("expected remote loading"),
    }
    assert_eq!(s.branches.len(), 1);
    assert_eq!(s.branch_list.selected, Some(0));
    s.apply_event(EventModel::RemoteBranchesLoaded { branches: vec![branch("r", None, true)] });
    assert_eq!(s.branches.len(), 2);
    assert_eq!(s.branch_list.filtered.len(), 2);
}

#[test]
fn created_worktree_is_opened_and_errors_are_shown() {
    let mut s = in_branches();
    match s.apply_event(EventModel::WorktreeCreated {
        path: "/w".to_string(),
        session_name: "alpha--feat".to_string(),
    }) {
        Some(Effect::Open { path, session_name, .. }) => {
            assert_eq!(path, "/w");
            assert_eq!(session_name, "alpha--feat");
        }
        _ => panic!("expected an open"),
    }
    s.apply_event(EventModel::WorktreeRemoveFailed {
        branch_name: "feat".to_string(),
        worktree_path: "/w".to_string(),
        error: "busy".to_string(),
    });
    assert_eq!(s.error.as_deref(), Some("Failed to remove worktree for feat: busy"));
    s.apply_event(EventModel::GitError("boom".to_string()));
    assert_eq!(s.error.as_deref(), Some("boom"));
    assert!(matches!(s.mode, BrowserMode::BranchSelect));
}

fn make_repo(name: &str) -> RepoEntry {
    RepoEntry { name: name.to_string(), path: format!("/tmp/{name}") }
}

/// A fresh browser over these repositories, as the interface starts.
fn new_state(repos: Vec<RepoEntry>, split_command: Option<String>) -> BrowserState {
    let n = repos.len();
    BrowserState {
        mode: BrowserMode::RepoSelect,
        repos,
        repo_list: list(n),
        selected_repo_idx: None,
        branches: Vec::new(),
        branch_list: list(0),
        base_selection: None,
        split_command,
        error: None,
        loading_repos: false,
        loading_branches: false,
        pending_deletes: Vec::new(),
    }
}

fn no_open(e: &Option<Effect>) -> bool {
    !matches!(e, Some(Effect::Open { .. }) | Some(Effect::Quit))
}

#[test]
fn test_enter_repo_populates_branches() {
    let mut state = new_state(vec![make_repo("alpha"), make_repo("beta")], None);
    state.repo_list.selected = Some(0);
    let result = state.apply_action(ActionModel::EnterRepo);
    assert!(no_open(&result));
    assert!(matches!(state.mode, BrowserMode::BranchSelect));
    assert!(state.loading_branches);
    assert!(state.branches.is_empty());
    state.apply_event(EventModel::BranchesLoaded {
        branches: vec![branch("main", None, false), branch("dev", None, false)],
    });
    assert!(matches!(state.mode, BrowserMode::BranchSelect));
    assert!(!state.loading_branches);
    assert_eq!(state.branches.len(), 2);
}

#[test]
fn test_remote_branches_appended() {
    let mut state = new_state(vec![make_repo("alpha")], None);
    state.selected_repo_idx = Some(0);
    state.mode = BrowserMode::BranchSelect;
    state.branches = vec![branch("main", None, false)];
    state.branch_list = list(1);
    state.apply_event(EventModel::RemoteBranchesLoaded {
        branches: vec![branch("feature-x", None, true), branch("feature-y", None, true)],
    });
    assert_eq!(state.branches.len(), 3);
    assert_eq!(state.branch_list.filtered.len(), 3);
    assert!(!state.branches[0].remote);
    assert!(state.branches[1].remote);
    assert!(state.branches[2].remote);
}

#[test]
fn test_remote_branches_filtered_with_search() {
    let mut state = new_state(vec![make_repo("alpha")], None);
    state.selected_repo_idx = Some(0);
    state.mode = BrowserMode::BranchSelect;
    state.branches = vec![branch("main", None, false)];
    state.branch_list = list(1);
    state.branch_list.search = "feat".to_string();
    state.branch_list.filtered = vec![];
    state.branch_list.selected = None;
    state.apply_event(EventModel::RemoteBranchesLoaded { branches: vec![branch("feature-x", None, true)] });
    assert_eq!(state.branches.len(), 2);
    assert_eq!(state.branch_list.filtered.len(), 1);
    let matched_idx = state.branch_list.filtered[0].0;
    assert_eq!(state.branches[matched_idx].name, "feature-x");
}

#[test]
fn test_go_back_from_branch_to_repo() {
    let mut state = new_state(vec![make_repo("alpha")], None);
    state.mode = BrowserMode::BranchSelect;
    state.apply_action(ActionModel::GoBack);
    assert!(matches!(state.mode, BrowserMode::RepoSelect));
}

#[test]
fn test_go_back_from_new_branch_to_branch() {
    let mut state = new_state(vec![make_repo("alpha")], None);
    state.mode = BrowserMode::SelectBaseBranch;
    state.base_selection = Some(BaseSelection {
        new_name: "feat".to_string(),
        bases: vec!["main".to_string()],
        list: list(1),
    });
    state.apply_action(ActionModel::GoBack);
    assert!(matches!(state.mode, BrowserMode::BranchSelect));
    assert!(state.base_selection.is_none());
}

#[test]
fn test_open_branch_with_existing_worktree() {
    let mut state = new_state(vec![make_repo("alpha")], None);
    state.selected_repo_idx = Some(0);
    state.mode = BrowserMode::BranchSelect;
    state.branches = vec![branch("main", Some("/tmp/alpha"), false)];
    state.branch_list.filtered = vec![(0, 0)];
    state.branch_list.selected = Some(0);
    let result = state.apply_action(ActionModel::OpenBranch { worktree_dir: Err("unused".to_string()) });
    match result {
        Some(Effect::Open { path, session_name, .. }) => {
            assert_eq!(path, "/tmp/alpha");
            assert_eq!(session_name, "alpha");
        }
        _ => panic!("Expected an open"),
    }
}

#[test]
fn test_open_branch_creates_worktree() {
    let mut state = new_state(vec![make_repo("alpha")], None);
    state.selected_repo_idx = Some(0);
    state.mode = BrowserMode::BranchSelect;
    state.branches = vec![branch("dev", None, false)];
    state.branch_list.filtered = vec![(0, 0)];
    state.branch_list.selected = Some(0);
    let result = state.apply_action(ActionModel::OpenBranch {
        worktree_dir: Ok("/tmp/.kiosk_worktrees/alpha--dev".to_string()),
    });
    assert!(no_open(&result));
    assert!(matches!(state.mode, BrowserMode::Loading(_)));
}

#[test]
fn test_search_push_filters() {
    let mut state = new_state(vec![make_repo("alpha"), make_repo("beta")], None);
    assert_eq!(state.repo_list.filtered.len(), 2);
    state.apply_action(ActionModel::SearchPush('a'));
    assert_eq!(state.repo_list.search, "a");
    assert!(!state.repo_list.filtered.is_empty());
}

#[test]
fn test_move_selection() {
    let mut state = new_state(vec![make_repo("alpha"), make_repo("beta"), make_repo("gamma")], None);
    assert_eq!(state.repo_list.selected, Some(0));
    state.apply_action(ActionModel::MoveSelection(1));
    assert_eq!(state.repo_list.selected, Some(1));
    state.apply_action(ActionModel::MoveSelection(1));
    assert_eq!(state.repo_list.selected, Some(2));
    state.apply_action(ActionModel::MoveSelection(1));
    assert_eq!(state.repo_list.selected, Some(2));
}

#[test]
fn test_open_repo_returns_repo_path() {
    let mut state = new_state(vec![make_repo("alpha"), make_repo("beta")], Some("hx".to_string()));
    state.repo_list.selected = Some(1);
    match state.apply_action(ActionModel::OpenRepo) {
        Some(Effect::Open { path, session_name, split_command }) => {
            assert_eq!(path, "/tmp/beta");
            assert_eq!(session_name, "beta");
            assert_eq!(split_command.as_deref(), Some("hx"));
        }
        _ => panic!("Expected an open"),
    }
}

#[test]
fn test_new_branch_empty_name_shows_error() {
    let mut state = new_state(vec![make_repo("alpha")], None);
    state.mode = BrowserMode::BranchSelect;
    state.selected_repo_idx = Some(0);
    state.branch_list.search = String::new();
    state.apply_action(ActionModel::StartNewBranchFlow);
    assert!(matches!(state.mode, BrowserMode::BranchSelect), "Should stay in BranchSelect");
    assert!(state.error.is_some(), "Should show an error for empty branch name");
    assert!(state.error.unwrap().contains("branch name"));
}

#[test]
fn test_new_branch_with_name_enters_flow() {
    let mut state = new_state(vec![make_repo("alpha")], None);
    state.mode = BrowserMode::BranchSelect;
    state.selected_repo_idx = Some(0);
    state.branch_list.search = "feat/new".to_string();
    state.branches = vec![branch("main", Some("/tmp/alpha"), false)];
    state.apply_action(ActionModel::StartNewBranchFlow);
    assert!(matches!(state.mode, BrowserMode::SelectBaseBranch));
    assert!(state.base_selection.is_some());
    assert_eq!(state.base_selection.unwrap().new_name, "feat/new");
}

#[test]
fn test_repos_discovered_preserves_search_state() {
    let mut state = new_state(vec![make_repo("alpha"), make_repo("beta"), make_repo("gamma")], None);
    state.apply_action(ActionModel::SearchPush('a'));
    state.apply_action(ActionModel::SearchPush('l'));
    state.apply_event(EventModel::ReposDiscovered {
        repos: vec![make_repo("alpha"), make_repo("beta"), make_repo("gamma"), make_repo("delta")],
    });
    assert_eq!(state.repo_list.search, "al");
    assert!(!state.repo_list.filtered.is_empty(), "filtered should contain matches for 'al'");
    for &(idx, _) in &state.repo_list.filtered {
        assert!(state.repos[idx].name.contains('a') || state.repos[idx].name.contains('l'));
    }
    assert_eq!(state.repos.len(), 4);
    assert!(matches!(state.mode, BrowserMode::RepoSelect));
}

#[test]
fn test_repos_discovered_does_not_kick_from_branch_select() {
    let mut state = new_state(vec![make_repo("alpha")], None);
    state.mode = BrowserMode::BranchSelect;
    state.selected_repo_idx = Some(0);
    state.apply_event(EventModel::ReposDiscovered { repos: vec![make_repo("alpha"), make_repo("beta")] });
    assert!(matches!(state.mode, BrowserMode::BranchSelect));
    assert_eq!(state.repos.len(), 2);
}

fn pending(repo: &str, branch: &str, worktree: &str) -> PendingDelete {
    PendingDelete {
        repo_path: repo.to_string(),
        branch_name: branch.to_string(),
        worktree_path: worktree.to_string(),
    }
}

#[test]
fn test_worktree_remove_failed_event_clears_pending_and_sets_error() {
    let mut state = new_state(vec![make_repo("alpha")], None);
    state.selected_repo_idx = Some(0);
    state.pending_deletes = vec![pending("/tmp/alpha", "dev", "/tmp/alpha-dev")];
    let result = state.apply_event(EventModel::WorktreeRemoveFailed {
        branch_name: "dev".to_string(),
        worktree_path: "/tmp/alpha-dev".to_string(),
        error: "boom".to_string(),
    });
    assert!(result.is_none());
    assert!(state.pending_deletes.is_empty());
    assert!(state.error.unwrap().starts_with("Failed to remove worktree for dev: boom"));
    assert!(matches!(state.mode, BrowserMode::BranchSelect));
    assert!(!state.loading_branches);
}

#[test]
fn test_worktree_removed_event_clears_pending_delete() {
    let mut state = new_state(vec![make_repo("alpha")], None);
    state.selected_repo_idx = Some(0);
    state.pending_deletes = vec![
        pending("/tmp/alpha", "dev", "/tmp/alpha-dev"),
        pending("/tmp/alpha", "other", "/tmp/alpha-other"),
    ];
    let result = state.apply_event(EventModel::WorktreeRemoved { worktree_path: "/tmp/alpha-dev/".to_string() });
    assert!(matches!(result, Some(Effect::LoadBranches { .. })));
    assert_eq!(state.pending_deletes.len(), 1);
    assert_eq!(state.pending_deletes[0].branch_name, "other");
    assert!(state.loading_branches);
}

#[test]
fn failed_save_of_pending_deletes_is_shown() {
    let mut state = new_state(vec![make_repo("alpha")], None);
    state.note_save_failure(false, "disk full");
    assert_eq!(state.error.as_deref(), Some("Failed to persist pending deletes: disk full"));
    state.error = Some("Failed to remove worktree for dev: boom".to_string());
    state.note_save_failure(true, "disk full");
    assert_eq!(
        state.error.as_deref(),
        Some("Failed to remove worktree for dev: boom (also failed to persist pending deletes: disk full)")
    );
}

#[test]
fn refiltering_scrolls_back_to_the_top() {
    let mut state = new_state((0..30).map(|i| make_repo(&format!("repo-{i}"))).collect(), None);
    state.repo_list.scroll_offset = 12;
    state.apply_action(ActionModel::SearchPush('r'));
    assert_eq!(state.repo_list.scroll_offset, 0);
}

#[test]
fn enriched_repos_keep_the_chosen_repo_and_the_mode() {
    let mut state = in_branches();
    state.repo_list.search = "be".to_string();
    state.apply_event(EventModel::ReposEnriched { repos: vec![repo("beta", "/dev/beta"), repo("alpha", "/dev/alpha")] });
    assert_eq!(state.selected_repo_idx, Some(1));
    assert!(matches!(state.mode, BrowserMode::BranchSelect));
    assert_eq!(state.repo_list.search, "be");
    assert_eq!(state.repo_list.filtered.iter().map(|p| p.0).collect::<Vec<_>>(), vec![0]);
}
