use kiosk::search_filter::{
    apply_fuzzy_filter, apply_help_filter, apply_session_filter, fuzzy_matches_in_source_order,
    help_search_item, rebuild_filtered_preserving_search, session_search_item, sort_by_section,
};

fn strings(v: &[&str]) -> Vec<String> {
    v.iter().map(|s| s.to_string()).collect()
}

fn filtered_names<'a>(filtered: &[(usize, i64)], items: &'a [String]) -> Vec<&'a str> {
    filtered.iter().map(|(i, _)| items[*i].as_str()).collect()
}

#[test]
fn empty_search_preserves_original_order() {
    let items = strings(&["zebra", "apple", "mango"]);
    let (filtered, selected) = apply_fuzzy_filter(&items, "");
    assert_eq!(filtered_names(&filtered, &items), vec!["zebra", "apple", "mango"]);
    assert_eq!(selected, Some(0));
}

#[test]
fn equal_scores_sorted_by_length_then_alphabetically() {
    // All items start with "cli" so the match occurs at the same position,
    // giving equal fuzzy scores — tiebreakers should apply.
    let items = strings(&["cli-extension-dep-graph", "cli-tools", "cli", "cli-abc"]);
    let (filtered, _) = apply_fuzzy_filter(&items, "cli");
    let names = filtered_names(&filtered, &items);
    assert_eq!(names[0], "cli", "shortest match should be first");
    assert_eq!(names[1], "cli-abc");
    assert_eq!(names[2], "cli-tools");
    assert_eq!(names[3], "cli-extension-dep-graph");
}

#[test]
fn higher_score_wins_over_length() {
    let items = strings(&["x-main-utils", "main"]);
    let (filtered, _) = apply_fuzzy_filter(&items, "main");
    let names = filtered_names(&filtered, &items);
    assert_eq!(names[0], "main");
    assert_eq!(names[1], "x-main-utils");
}

#[test]
fn no_matches_gives_empty_filtered_and_none_selected() {
    let items = strings(&["alpha", "beta"]);
    let (filtered, selected) = apply_fuzzy_filter(&items, "zzzzz");
    assert!(filtered.is_empty());
    assert_eq!(selected, None);
}

#[test]
fn alphabetical_tiebreak_when_same_score_and_length() {
    let items = strings(&["bfoo", "afoo", "cfoo"]);
    let (filtered, _) = apply_fuzzy_filter(&items, "foo");
    assert_eq!(filtered_names(&filtered, &items), vec!["afoo", "bfoo", "cfoo"]);
}

fn session_items() -> Vec<String> {
    vec![
        session_search_item("scooter--add-scoop-to-readme", "scooter", &Some("add-scoop-to-readme".to_string())),
        session_search_item("scooter--main", "scooter", &Some("main".to_string())),
        session_search_item("kiosk--feat-agent-session-switcher", "kiosk", &Some("feat-agent-session-switcher".to_string())),
    ]
}

#[test]
fn sessions_mode_search_filters_session_list() {
    let items = session_items();
    let (filtered, selected) = apply_session_filter(&items, "add-scoop");
    assert_eq!(filtered.len(), 1);
    assert_eq!(filtered[0].0, 0);
    assert_eq!(selected, Some(0));
}

#[test]
fn sessions_mode_search_preserves_canonical_session_order() {
    let items = vec![
        session_search_item("kiosk--feat-agent-session-switcher", "kiosk", &Some("feat-agent-session-switcher".to_string())),
        session_search_item("scooter--main", "scooter", &Some("main".to_string())),
        session_search_item("dotfiles--main", "dotfiles", &Some("main".to_string())),
    ];
    let (filtered, selected) = apply_session_filter(&items, "o");
    let order: Vec<usize> = filtered.iter().map(|(i, _)| *i).collect();
    assert_eq!(order, vec![0, 1, 2]);
    assert_eq!(selected, Some(0));
}

#[test]
fn session_search_item_joins_fields() {
    assert_eq!(session_search_item("s", "r", &Some("b".to_string())), "s r b");
    assert_eq!(session_search_item("s", "r", &None), "s r ");
}

#[test]
fn source_order_matches_keep_item_order() {
    let items = strings(&["b-main", "main", "other", "a-main"]);
    let m = fuzzy_matches_in_source_order("main", &items);
    let order: Vec<usize> = m.iter().map(|(i, _)| *i).collect();
    assert_eq!(order, vec![0, 1, 3]);
}

#[test]
fn rebuild_keeps_a_valid_selection() {
    let names = strings(&["alpha", "beta", "gamma"]);
    let (filtered, selected) = rebuild_filtered_preserving_search("", &names, Some(2));
    assert_eq!(filtered.len(), 3);
    assert_eq!(selected, Some(2));
    let (filtered, selected) = rebuild_filtered_preserving_search("alp", &names, Some(2));
    assert_eq!(filtered_names(&filtered, &names), vec!["alpha"]);
    assert_eq!(selected, Some(0));
    let (filtered, selected) = rebuild_filtered_preserving_search("zzz", &names, Some(1));
    assert!(filtered.is_empty());
    assert_eq!(selected, None);
    let (_, selected) = rebuild_filtered_preserving_search("", &names, None);
    assert_eq!(selected, Some(0));
}

#[test]
fn help_rows_are_grouped_by_section_after_filtering() {
    let sections = vec![1, 0, 1, 0];
    let sorted = sort_by_section(vec![(0, 9), (1, 8), (2, 7), (3, 6)], &sections);
    assert_eq!(sorted, vec![(1, 8), (3, 6), (0, 9), (2, 7)]);
    let items = vec![
        help_search_item("text_edit", "backspace", "delete_backward_char", "Delete"),
        help_search_item("general", "C-c", "quit", "Quit"),
    ];
    assert_eq!(items[1], "general C-c quit Quit");
    let (filtered, selected) = apply_help_filter(&items, &vec![1, 0], "");
    assert_eq!(filtered, vec![(1, 0), (0, 0)]);
    assert_eq!(selected, Some(0));
    let (filtered, selected) = apply_help_filter(&items, &vec![1, 0], "zzzz");
    assert!(filtered.is_empty());
    assert_eq!(selected, None);
}

#[test]
fn rebuild_clamps_a_selection_past_the_end() {
    let names = strings(&["alpha", "beta"]);
    let (filtered, selected) = rebuild_filtered_preserving_search("", &names, Some(5));
    assert_eq!(filtered.len(), 2);
    assert_eq!(selected, Some(1));
}
