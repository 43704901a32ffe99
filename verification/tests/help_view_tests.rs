use kiosk::help_view::{
    binding_row_texts, build_visible_items, compute_help_layout, help_title, help_visual_metrics,
    section_heading, update_help_scroll_offset, HelpItem, HelpLayoutEntry, HelpRow,
};
use kiosk::search_filter::sort_by_section;

const SECTION_NAMES: [&str; 6] = [
    "general",
    "text_edit",
    "list_navigation",
    "repo_select",
    "branch_select",
    "modal",
];

/// A help list of `num_rows` bindings spread over
/// `num_sections` sections, all shown, the first selected.
struct Overlay {
    filtered: Vec<(usize, i64)>,
    sections: Vec<String>,
    selected: Option<usize>,
    scroll_offset: usize,
}

fn make_help_overlay(num_rows: usize, num_sections: usize) -> Overlay {
    let sections = (0..num_rows)
        .map(|i| {
            let sec = i % num_sections;
            SECTION_NAMES[sec.min(SECTION_NAMES.len() - 1)].to_string()
        })
        .collect();
    Overlay {
        filtered: (0..num_rows).map(|i| (i, 0)).collect(),
        sections,
        selected: if num_rows == 0 { None } else { Some(0) },
        scroll_offset: 0,
    }
}

fn update(overlay: &mut Overlay, viewport_rows: usize) {
    overlay.scroll_offset = update_help_scroll_offset(
        &overlay.filtered,
        &overlay.sections,
        overlay.selected,
        overlay.scroll_offset,
        viewport_rows,
    );
}

fn positions(overlay: &Overlay) -> Vec<usize> {
    help_visual_metrics(&overlay.filtered, &overlay.sections).0
}

#[test]
fn test_update_help_scroll_offset_selection_at_top() {
    let mut overlay = make_help_overlay(30, 3);
    update(&mut overlay, 20);
    assert_eq!(overlay.scroll_offset, 0);
}

#[test]
fn test_update_help_scroll_offset_selection_at_middle() {
    let mut overlay = make_help_overlay(30, 3);
    overlay.selected = Some(15);
    update(&mut overlay, 20);
    let sel_visual = positions(&overlay)[15];
    assert!(sel_visual >= overlay.scroll_offset);
    assert!(sel_visual < overlay.scroll_offset + 20);
}

#[test]
fn test_update_help_scroll_offset_selection_at_bottom() {
    let mut overlay = make_help_overlay(30, 3);
    overlay.selected = Some(29);
    update(&mut overlay, 20);
    let sel_visual = positions(&overlay)[29];
    assert!(sel_visual >= overlay.scroll_offset);
    assert!(sel_visual < overlay.scroll_offset + 20);
}

#[test]
fn test_update_help_scroll_offset_empty_filtered_list() {
    let mut overlay = make_help_overlay(10, 2);
    overlay.filtered = vec![];
    overlay.selected = None;
    update(&mut overlay, 20);
    assert_eq!(overlay.scroll_offset, 0);
}

#[test]
fn test_update_help_scroll_offset_tiny_viewport() {
    let mut overlay = make_help_overlay(20, 2);
    overlay.selected = Some(10);
    update(&mut overlay, 1);
    let sel_visual = positions(&overlay)[10];
    assert_eq!(overlay.scroll_offset, sel_visual);
}

#[test]
fn test_update_help_scroll_offset_viewport_2_rows() {
    let mut overlay = make_help_overlay(20, 2);
    overlay.selected = Some(10);
    update(&mut overlay, 2);
    let sel_visual = positions(&overlay)[10];
    assert!(sel_visual >= overlay.scroll_offset);
    assert!(sel_visual < overlay.scroll_offset + 2);
}

#[test]
fn test_update_help_scroll_offset_viewport_larger_than_content() {
    let mut overlay = make_help_overlay(5, 1);
    overlay.selected = Some(4);
    update(&mut overlay, 100);
    assert_eq!(
        overlay.scroll_offset, 0,
        "Offset should be 0 when viewport is larger than content"
    );
}

#[test]
fn test_update_help_scroll_offset_sequential_moves_down_then_up() {
    let mut overlay = make_help_overlay(40, 4);
    let viewport = 10;
    // Move all the way down
    for i in 1..40 {
        overlay.selected = Some(i);
        update(&mut overlay, viewport);
    }
    let offset_at_bottom = overlay.scroll_offset;
    // Move up one — offset should not change
    overlay.selected = Some(38);
    update(&mut overlay, viewport);
    assert_eq!(
        overlay.scroll_offset, offset_at_bottom,
        "First up from bottom should not change offset"
    );
}

#[test]
fn layout_inserts_blank_line_between_sections() {
    let sections = vec!["general".to_string(), "text_edit".to_string()];
    let layout = compute_help_layout(&[(0, 0), (1, 0)], &sections);
    assert_eq!(
        layout,
        vec![
            HelpLayoutEntry::SectionHeader("general".to_string()),
            HelpLayoutEntry::Row(0),
            HelpLayoutEntry::Blank,
            HelpLayoutEntry::SectionHeader("text_edit".to_string()),
            HelpLayoutEntry::Row(1),
        ]
    );
    let (rows, total) = help_visual_metrics(&[(0, 0), (1, 0)], &sections);
    assert_eq!(rows, vec![1, 4]);
    assert_eq!(total, 5);
}

#[test]
fn layout_single_section_has_no_blank_and_skips_missing_rows() {
    let sections = vec!["general".to_string(), "general".to_string()];
    let layout = compute_help_layout(&[(1, 5), (7, 0), (0, 3)], &sections);
    assert_eq!(
        layout,
        vec![
            HelpLayoutEntry::SectionHeader("general".to_string()),
            HelpLayoutEntry::Row(1),
            HelpLayoutEntry::Row(0),
        ]
    );
}

#[test]
fn layout_of_nothing_is_empty() {
    assert!(compute_help_layout(&[], &Vec::new()).is_empty());
}

#[test]
fn help_texts() {
    assert_eq!(section_heading("list_navigation"), "list navigation:");
    let (k, d, c) = binding_row_texts("C-h", "Show help", "show_help");
    assert_eq!(k, "C-h          ");
    assert_eq!(d, " Show help");
    assert_eq!(c, "  (show_help)");
    assert_eq!(help_title(12), " 12 bindings (esc: close) ");
}

fn all_shown(n: usize) -> Vec<(usize, i64)> {
    (0..n).map(|i| (i, 0)).collect()
}

#[test]
fn test_help_visual_metrics_single_section() {
    let sections = vec!["general".to_string(), "general".to_string()];
    let (indices, total_visual_rows) = help_visual_metrics(&all_shown(2), &sections);
    assert_eq!(indices, vec![1, 2]);
    assert_eq!(total_visual_rows, 3);
}

#[test]
fn test_help_visual_metrics_empty_filter() {
    let sections = vec!["general".to_string()];
    let (indices, total_visual_rows) = help_visual_metrics(&[], &sections);
    assert!(indices.is_empty());
    assert_eq!(total_visual_rows, 0);
}

#[test]
fn test_help_visual_metrics_counts_section_headers_and_spacers() {
    let sections = vec!["general".to_string(), "text_edit".to_string()];
    let (indices, total_visual_rows) = help_visual_metrics(&all_shown(2), &sections);
    assert_eq!(indices, vec![1, 4]);
    assert_eq!(total_visual_rows, 5);
}

#[test]
fn grouped_rows_show_each_heading_once() {
    let sections = vec!["general".to_string(), "text_edit".to_string(), "general".to_string()];
    let index = vec![0, 1, 0];
    // A ranking that interleaves the sections.
    let ranked = vec![(0, 9), (1, 8), (2, 7)];
    let interleaved = compute_help_layout(&ranked, &sections);
    let headings = |l: &[HelpLayoutEntry]| {
        l.iter()
            .filter(|e| matches!(e, HelpLayoutEntry::SectionHeader(_)))
            .count()
    };
    assert_eq!(headings(&interleaved), 3);
    let grouped = sort_by_section(ranked, &index);
    assert_eq!(grouped, vec![(0, 9), (2, 7), (1, 8)]);
    let layout = compute_help_layout(&grouped, &sections);
    assert_eq!(headings(&layout), 2);
}

fn help_row(section: &str, key: &str, command: &str, description: &str) -> HelpRow {
    HelpRow {
        section_name: section.to_string(),
        key_display: key.to_string(),
        description: description.to_string(),
        command: command.to_string(),
    }
}

#[test]
fn test_build_visible_items_inserts_blank_line_between_sections() {
    let rows = vec![
        help_row("general", "C-h", "show_help", "Show help"),
        help_row("text_edit", "backspace", "delete_backward_char", "Delete backward char"),
    ];
    let (items, _row_item_indices) = build_visible_items(&all_shown(rows.len()), &rows);
    assert!(items.len() >= 5, "Expected section header, row, blank, header, row");
    assert_eq!(items[2], HelpItem::Blank);
    assert_eq!(items[3], HelpItem::Heading("text edit:".to_string()));
}

#[test]
fn test_build_visible_items_uses_row_offset_mapping_for_scroll() {
    let rows = vec![
        help_row("general", "C-c", "quit", "Quit"),
        help_row("general", "C-h", "show_help", "Show help"),
        help_row("text_edit", "backspace", "delete_backward_char", "Delete backward char"),
    ];
    let selected = Some(2);
    let (_items, row_item_indices) = build_visible_items(&all_shown(rows.len()), &rows);
    let selected_item = selected
        .and_then(|selected| row_item_indices.get(selected))
        .copied()
        .expect("Expected selected item");
    assert!(selected_item > 0);
}

#[test]
fn test_build_visible_items_empty_filter_shows_no_matching_message() {
    let rows = vec![help_row("general", "C-c", "quit", "Quit")];
    let (items, row_item_indices) = build_visible_items(&[], &rows);
    assert_eq!(items.len(), 1, "Should have exactly one 'no matches' item");
    assert_eq!(items[0], HelpItem::NoMatches);
    assert!(row_item_indices.is_empty(), "No selectable rows when filter is empty");
}

#[test]
fn test_build_visible_items_single_section_no_blank_separator() {
    let rows = vec![
        help_row("general", "C-c", "quit", "Quit"),
        help_row("general", "C-h", "show_help", "Show help"),
    ];
    let (items, row_item_indices) = build_visible_items(&all_shown(rows.len()), &rows);
    assert_eq!(items.len(), 3, "Single section: header + 2 rows");
    assert_eq!(row_item_indices, vec![1, 2]);
    assert_eq!(
        items[1],
        HelpItem::Binding("C-c          ".to_string(), " Quit".to_string(), "  (quit)".to_string())
    );
}
