use kiosk::branch_rows::{
    branch_extra_row, branch_list_title, branch_row_spans, branch_search_title, RowStyles,
};

fn styles() -> RowStyles<u8> {
    RowStyles { muted: 1, muted_italic: 2, accent: 3, success: 4, success_bold: 5, warning: 6 }
}

fn texts(spans: &[kiosk::list_row::StyledSpan<u8>]) -> Vec<(String, Option<u8>)> {
    spans.iter().map(|s| (s.text.clone(), s.style)).collect()
}

#[test]
fn remote_branch_row_is_muted_with_its_remote() {
    let r = branch_row_spans("feat", Some("origin"), false, true, true, true, &styles());
    assert_eq!(texts(&r), vec![("feat".to_string(), Some(1)), (" (origin)".to_string(), Some(2))]);
}

#[test]
fn local_branch_row_markers() {
    let r = branch_row_spans("main", None, false, true, true, true, &styles());
    assert_eq!(
        texts(&r),
        vec![("main".to_string(), None), (" (session)".to_string(), Some(4)), (" *".to_string(), Some(3))]
    );
    let r = branch_row_spans("dev", None, true, true, true, false, &styles());
    assert_eq!(texts(&r), vec![("dev".to_string(), None), (" (deleting...)".to_string(), Some(3))]);
    let r = branch_row_spans("wt", None, false, false, true, false, &styles());
    assert_eq!(texts(&r), vec![("wt".to_string(), None), (" (worktree)".to_string(), Some(6))]);
    let r = branch_row_spans("plain", None, false, false, false, false, &styles());
    assert_eq!(texts(&r), vec![("plain".to_string(), None)]);
}

#[test]
fn extra_row_while_loading_or_to_create() {
    let r = branch_extra_row(true, 0, "x", &styles()).unwrap();
    assert_eq!(texts(&r), vec![("Loading branches...".to_string(), Some(1))]);
    let r = branch_extra_row(false, 0, "feat/new", &styles()).unwrap();
    assert_eq!(
        texts(&r),
        vec![
            ("+ Create branch ".to_string(), Some(4)),
            ("\"feat/new\"".to_string(), Some(5)),
            (" (Enter to pick base)".to_string(), Some(1)),
        ]
    );
    assert!(branch_extra_row(false, 0, "", &styles()).is_none());
    assert!(branch_extra_row(true, 2, "x", &styles()).is_none());
}

#[test]
fn branch_titles() {
    assert_eq!(branch_list_title(12, false, false), " 12 branches ");
    assert_eq!(branch_list_title(3, true, true), " 3 branches | loading... ");
    assert_eq!(branch_list_title(0, false, true), " 0 branches | fetching... ");
    assert_eq!(branch_search_title(Some("alpha")), "alpha — select branch");
    assert_eq!(branch_search_title(None), "?? — select branch");
}
