use kiosk::git::{Repo, Worktree};
use kiosk::ui::{App, Entry, KeyInput, Mode, OpenAction, Step};

fn wt(path: &str, branch: Option<&str>, is_main: bool) -> Worktree {
    Worktree { path: path.to_string(), branch: branch.map(String::from), is_main }
}

fn repos() -> Vec<Repo> {
    vec![
        Repo {
            name: "kiosk".to_string(),
            path: "/src/kiosk".to_string(),
            worktrees: vec![
                wt("/src/kiosk", Some("main"), true),
                wt("/src/kiosk-feat", Some("feat"), false),
            ],
        },
        Repo {
            name: "dotfiles".to_string(),
            path: "/src/dotfiles".to_string(),
            worktrees: vec![wt("/src/dotfiles", None, true)],
        },
    ]
}

fn app() -> App {
    App::new(repos(), Some("hx".to_string()), vec!["kiosk-feat".to_string()])
}

#[test]
fn entry_display_names() {
    let main = Entry {
        repo_name: "kiosk".to_string(),
        repo_path: "/src/kiosk".to_string(),
        worktree: wt("/src/kiosk", Some("main"), true),
        has_session: false,
    };
    assert_eq!(main.display_name(), "kiosk [main]");
    assert_eq!(main.search_text(), "kiosk main");
    let other = Entry {
        repo_name: "kiosk".to_string(),
        repo_path: "/src/kiosk".to_string(),
        worktree: wt("/src/kiosk-feat", None, false),
        has_session: true,
    };
    assert_eq!(other.display_name(), "  kiosk → kiosk-feat [(detached)]");
    assert_eq!(other.search_text(), "kiosk ");
}

#[test]
fn new_app_lists_every_worktree_with_the_first_selected() {
    let app = app();
    assert_eq!(app.row_count(), 3);
    assert_eq!(app.selected(), Some(0));
    assert_eq!(app.row(0), ("kiosk [main]".to_string(), false));
    assert_eq!(app.row(1), ("  kiosk → kiosk-feat [feat]".to_string(), true));
    assert_eq!(app.row(2), ("dotfiles [(detached)]".to_string(), false));
    assert_eq!(app.list_title(), " 3 entries ");
    assert_eq!(app.search(), "");
    assert_eq!(app.mode(), Mode::Browse);
}

#[test]
fn moving_the_selection_is_clamped() {
    let mut app = app();
    assert!(matches!(app.handle_key(KeyInput::Up), Step::Continue));
    assert_eq!(app.selected(), Some(0));
    app.handle_key(KeyInput::Down);
    app.handle_key(KeyInput::Down);
    app.handle_key(KeyInput::Down);
    assert_eq!(app.selected(), Some(2));
}

#[test]
fn typing_filters_and_backspace_restores() {
    let mut app = app();
    app.handle_key(KeyInput::Down);
    for c in "feat".chars() {
        app.handle_key(KeyInput::Char(c));
    }
    assert_eq!(app.search(), "feat");
    assert_eq!(app.row_count(), 1);
    assert_eq!(app.row(0).0, "  kiosk → kiosk-feat [feat]");
    for _ in 0..4 {
        app.handle_key(KeyInput::Backspace);
    }
    assert_eq!(app.search(), "");
    assert_eq!(app.row_count(), 3);
    assert_eq!(app.selected(), Some(0));
    assert_eq!(app.list_title(), " 3 entries ");
}

#[test]
fn enter_opens_the_selected_worktree() {
    let mut app = app();
    app.handle_key(KeyInput::Down);
    match app.handle_key(KeyInput::Enter) {
        Step::Open(OpenAction::Open { path, split_command }) => {
            assert_eq!(path, "/src/kiosk-feat");
            assert_eq!(split_command.as_deref(), Some("hx"));
        }
        other => panic!("unexpected {other:?}"),
    }
}

#[test]
fn escape_and_ctrl_c_quit() {
    let mut app = app();
    assert!(matches!(app.handle_key(KeyInput::Esc), Step::Quit));
    assert!(matches!(app.handle_key(KeyInput::CtrlC), Step::Quit));
}

#[test]
fn enter_with_no_match_does_nothing() {
    let mut app = app();
    for c in "zzzz".chars() {
        app.handle_key(KeyInput::Char(c));
    }
    assert_eq!(app.row_count(), 0);
    assert_eq!(app.selected(), None);
    assert!(matches!(app.handle_key(KeyInput::Enter), Step::Continue));
    assert!(matches!(app.handle_key(KeyInput::CtrlW), Step::Continue));
}

#[test]
fn new_worktree_flow() {
    let mut app = app();
    let repo_path = match app.handle_key(KeyInput::CtrlW) {
        Step::ListBranches { repo_path } => repo_path,
        other => panic!("unexpected {other:?}"),
    };
    assert_eq!(repo_path, "/src/kiosk");
    app.begin_new_worktree(vec!["main".to_string(), "dev".to_string(), "feat/x".to_string()]);
    assert_eq!(app.mode(), Mode::NewWorktree);
    assert_eq!(app.branch_row_count(), 3);
    assert_eq!(app.branch_selected(), Some(0));
    app.handle_key(KeyInput::Down);
    assert_eq!(app.branch_row(1), "dev");
    match app.handle_key(KeyInput::Enter) {
        Step::AddWorktree { repo_path, branch, worktree_dir } => {
            assert_eq!(repo_path, "/src/kiosk");
            assert_eq!(branch, "dev");
            assert_eq!(worktree_dir, "/src/kiosk-dev");
            let OpenAction::Open { path, split_command } = app.open_new_worktree(worktree_dir);
            assert_eq!(path, "/src/kiosk-dev");
            assert_eq!(split_command.as_deref(), Some("hx"));
        }
        other => panic!("unexpected {other:?}"),
    }
}

#[test]
fn ctrl_w_types_a_w_in_the_branch_picker_and_escape_goes_back() {
    let mut app = app();
    app.handle_key(KeyInput::CtrlW);
    app.begin_new_worktree(vec!["main".to_string(), "wip".to_string()]);
    app.handle_key(KeyInput::CtrlW);
    assert_eq!(app.branch_search(), "w");
    assert_eq!(app.branch_row_count(), 1);
    assert_eq!(app.branch_row(0), "wip");
    app.handle_key(KeyInput::Backspace);
    assert_eq!(app.branch_row_count(), 2);
    assert!(matches!(app.handle_key(KeyInput::Esc), Step::Continue));
    assert_eq!(app.mode(), Mode::Browse);
    assert_eq!(app.row_count(), 3);
}
