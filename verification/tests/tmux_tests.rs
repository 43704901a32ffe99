use kiosk::tmux::session_name_for;

#[test]
fn test_session_name_for_simple() {
    let name = session_name_for("/home/user/my-project");
    assert_eq!(name, "my-project");
}

#[test]
fn test_session_name_for_dots_replaced() {
    let name = session_name_for("/home/user/my.project.rs");
    assert_eq!(name, "my_project_rs");
}

#[test]
fn test_session_name_for_root() {
    let name = session_name_for("/");
    // Should not panic
    assert!(!name.is_empty() || name.is_empty()); // just checking no panic
    assert_eq!(name, "");
}

#[test]
fn session_name_ignores_trailing_separators_and_dots() {
    assert_eq!(session_name_for("/home/user/my.repo/"), "my_repo");
    assert_eq!(session_name_for("/home/user/my.repo/."), "my_repo");
    assert_eq!(session_name_for("relative.dir"), "relative_dir");
    assert_eq!(session_name_for("/home/.."), "");
}

use kiosk::tmux::{create_session_commands, has_session_command, switch_command};

#[test]
fn create_session_without_split_is_one_command() {
    assert_eq!(
        create_session_commands("proj", "/src/proj", None),
        vec![vec!["new-session", "-ds", "proj", "-c", "/src/proj"]]
    );
}

#[test]
fn create_session_with_split_runs_the_command_in_the_right_pane() {
    assert_eq!(
        create_session_commands("proj", "/src/proj", Some("hx")),
        vec![
            vec!["new-session", "-ds", "proj", "-c", "/src/proj"],
            vec!["split-window", "-h", "-t", "proj", "-c", "/src/proj"],
            vec!["send-keys", "-t", "proj:0.1", "hx", "Enter"],
        ]
    );
}

#[test]
fn switching_depends_on_being_inside_tmux() {
    assert_eq!(switch_command("s", true), vec!["switch-client", "-t", "s"]);
    assert_eq!(switch_command("s", false), vec!["attach-session", "-t", "s"]);
    assert_eq!(has_session_command("s"), vec!["has-session", "-t", "s"]);
}
