use kiosk::path_input::complete_from_listing;
use kiosk::setup_prompt::{PromptResult, SetupPrompt};

const BASE: &str = "/home/user/";

fn names(v: &[&str]) -> Vec<String> {
    v.iter().map(|s| s.to_string()).collect()
}

/// Answers a request for completions with the directories of a listing.
fn respond(prompt: &mut SetupPrompt, result: PromptResult, listing: &[&str]) -> PromptResult {
    if let PromptResult::Complete(text) = &result {
        prompt.set_completions(complete_from_listing(text, &names(listing)));
    }
    result
}

fn make_setup_state() -> SetupPrompt {
    SetupPrompt::new()
}

fn with_input(text: &str) -> SetupPrompt {
    let mut p = make_setup_state();
    p.input = text.to_string();
    p.cursor = p.input.len();
    p
}

#[test]
fn setup_tab_generates_completions_without_selection() {
    let listing = ["alpha", "beta"];
    let mut p = with_input(BASE);
    let r = p.tab_complete();
    respond(&mut p, r, &listing);
    assert_eq!(p.completions.len(), 2);
    assert_eq!(p.selected_completion, None);
}

#[test]
fn setup_tab_single_completion_fills_in_with_slash() {
    let listing = ["only_dir"];
    let mut p = with_input(&format!("{BASE}on"));
    let r = p.tab_complete();
    respond(&mut p, r, &listing);
    assert_eq!(p.completions.len(), 1);
    let r = p.tab_complete();
    respond(&mut p, r, &[]);
    assert_eq!(p.input, format!("{BASE}only_dir/"));
}

#[test]
fn setup_tab_fills_common_prefix() {
    let listing = ["Desktop", "Development"];
    let mut p = with_input(&format!("{BASE}D"));
    let r = p.tab_complete();
    respond(&mut p, r, &listing);
    assert_eq!(p.completions.len(), 2);
    let r = p.tab_complete();
    respond(&mut p, r, &listing);
    assert_eq!(p.input, format!("{BASE}De"));
    assert_eq!(p.completions.len(), 2);
    assert_eq!(p.selected_completion, None);
}

#[test]
fn setup_tab_selects_highlighted_when_no_more_common_prefix() {
    let mut p = with_input(&format!("{BASE}De"));
    p.completions = vec![format!("{BASE}Desktop"), format!("{BASE}Development")];
    p.selected_completion = Some(1);
    let r = p.tab_complete();
    respond(&mut p, r, &[]);
    assert_eq!(p.input, format!("{BASE}Development/"));
}

#[test]
fn setup_tab_selects_first_when_none_highlighted() {
    let mut p = with_input(&format!("{BASE}De"));
    p.completions = vec![format!("{BASE}Desktop"), format!("{BASE}Development")];
    p.selected_completion = None;
    let r = p.tab_complete();
    respond(&mut p, r, &[]);
    assert_eq!(p.input, format!("{BASE}Desktop/"));
}

#[test]
fn setup_move_down_from_none_selects_first() {
    let mut p = make_setup_state();
    p.completions = names(&["a", "b"]);
    p.selected_completion = None;
    p.move_selection(1);
    assert_eq!(p.selected_completion, Some(0));
}

#[test]
fn setup_move_up_from_none_selects_last() {
    let mut p = make_setup_state();
    p.completions = names(&["a", "b", "c"]);
    p.selected_completion = None;
    p.move_selection(-1);
    assert_eq!(p.selected_completion, Some(2));
}

#[test]
fn setup_move_down_increments_selection() {
    let mut p = make_setup_state();
    p.completions = names(&["a", "b", "c"]);
    p.selected_completion = Some(0);
    p.move_selection(1);
    assert_eq!(p.selected_completion, Some(1));
}

#[test]
fn setup_move_down_past_last_deselects() {
    let mut p = make_setup_state();
    p.completions = names(&["a", "b"]);
    p.selected_completion = Some(1);
    p.move_selection(1);
    assert_eq!(p.selected_completion, None);
}

#[test]
fn setup_move_up_from_first_deselects() {
    let mut p = make_setup_state();
    p.completions = names(&["a", "b"]);
    p.selected_completion = Some(0);
    p.move_selection(-1);
    assert_eq!(p.selected_completion, None);
}

#[test]
fn setup_move_on_empty_completions_is_noop() {
    let mut p = make_setup_state();
    p.completions = Vec::new();
    p.selected_completion = None;
    p.move_selection(1);
    assert_eq!(p.selected_completion, None);
}

#[test]
fn setup_enter_no_selection_adds_typed_text() {
    let mut p = with_input("~/my-projects");
    p.completions = names(&["~/my-projects-extra"]);
    p.selected_completion = None;
    let result = p.add_dir();
    assert_eq!(result, PromptResult::Done);
    assert!(p.dirs.contains(&"~/my-projects".to_string()));
    assert!(p.input.is_empty());
}

#[test]
fn setup_enter_with_selection_navigates_into_completion() {
    let mut p = with_input(&format!("{BASE}De"));
    p.completions = vec![format!("{BASE}Desktop"), format!("{BASE}Development")];
    p.selected_completion = Some(1);
    let result = p.add_dir();
    assert!(matches!(result, PromptResult::Complete(_)));
    assert_eq!(p.input, format!("{BASE}Development/"));
    assert!(p.dirs.is_empty());
}

#[test]
fn setup_enter_empty_with_dirs_completes_setup() {
    let mut p = make_setup_state();
    p.input = String::new();
    p.dirs = names(&["~/Projects"]);
    assert_eq!(p.add_dir(), PromptResult::Finished);
}

#[test]
fn setup_enter_empty_without_dirs_shows_error() {
    let mut p = make_setup_state();
    p.input = String::new();
    p.dirs = Vec::new();
    match p.add_dir() {
        PromptResult::Error(e) => assert!(e.contains("at least one")),
        other => panic!("unexpected {other:?}"),
    }
}

#[test]
fn setup_enter_does_not_add_duplicate_dirs() {
    let mut p = with_input("~/Projects");
    p.dirs = names(&["~/Projects"]);
    p.add_dir();
    assert_eq!(p.dirs.len(), 1);
}

#[test]
fn setup_enter_trims_the_text() {
    let mut p = with_input("  ~/Work \n");
    p.add_dir();
    assert_eq!(p.dirs, names(&["~/Work"]));
    assert_eq!(p.cursor, 0);
}

#[test]
fn setup_cancel_deselects_when_selected() {
    let mut p = make_setup_state();
    p.completions = names(&["a", "b"]);
    p.selected_completion = Some(1);
    assert!(!p.cancel());
    assert_eq!(p.selected_completion, None);
}

#[test]
fn setup_cancel_quits_when_no_selection() {
    let mut p = make_setup_state();
    p.completions = names(&["a", "b"]);
    p.selected_completion = None;
    assert!(p.cancel());
}

#[test]
fn setup_cancel_quits_when_no_completions() {
    let mut p = make_setup_state();
    assert!(p.cancel());
}

#[test]
fn setup_move_down_up_cycle_through_and_back() {
    let mut p = make_setup_state();
    p.completions = names(&["a", "b"]);
    p.selected_completion = None;
    p.move_selection(1);
    assert_eq!(p.selected_completion, Some(0));
    p.move_selection(1);
    assert_eq!(p.selected_completion, Some(1));
    p.move_selection(1);
    assert_eq!(p.selected_completion, None);
    p.move_selection(-1);
    assert_eq!(p.selected_completion, Some(1));
    p.move_selection(-1);
    assert_eq!(p.selected_completion, Some(0));
    p.move_selection(-1);
    assert_eq!(p.selected_completion, None);
}

#[test]
fn setup_full_flow_type_navigate_enter_finish() {
    let listing = ["Desktop", "Development"];
    let mut p = with_input(&format!("{BASE}De"));
    let r = PromptResult::Complete(p.input.clone());
    respond(&mut p, r, &listing);
    assert_eq!(p.completions.len(), 2);
    assert_eq!(p.selected_completion, None);
    p.move_selection(1);
    assert_eq!(p.selected_completion, Some(0));
    p.move_selection(1);
    assert_eq!(p.selected_completion, Some(1));
    let r = p.add_dir();
    respond(&mut p, r, &[]);
    assert!(p.input.ends_with("Development/"));
    assert!(p.dirs.is_empty());
    p.input = format!("{BASE}Development");
    p.cursor = p.input.len();
    p.completions.clear();
    p.selected_completion = None;
    p.add_dir();
    assert_eq!(p.dirs.len(), 1);
    assert!(p.dirs[0].ends_with("Development"));
    assert_eq!(p.add_dir(), PromptResult::Finished);
}
