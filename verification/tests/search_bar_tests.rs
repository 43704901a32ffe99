use kiosk::search_bar::visible_slice;

#[test]
fn test_visible_slice_no_scroll() {
    let result = visible_slice("hello", 2, 10);
    assert_eq!(result.start, 0);
    assert_eq!(result.end, 5);
    assert_eq!(result.cursor_col, 2);
}

#[test]
fn test_visible_slice_scrolls_to_cursor() {
    let result = visible_slice("hello world", 11, 5);
    assert_eq!(&"hello world"[result.start..result.end], "orld");
    assert_eq!(result.cursor_col, 4);
}

#[test]
fn test_visible_slice_handles_emoji_width() {
    let text = "A👩‍💻B";
    let cursor_pos = "A👩‍💻".len();
    let result = visible_slice(text, cursor_pos, 3);
    assert_eq!(&text[result.start..result.end], "👩‍💻B");
    assert_eq!(result.cursor_col, 2);
}

#[test]
fn test_visible_slice_combining_mark() {
    let text = "e\u{0301}x";
    let cursor_pos = "e\u{0301}".len();
    let result = visible_slice(text, cursor_pos, 2);
    assert_eq!(&text[result.start..result.end], text);
    assert_eq!(result.cursor_col, 1);
}

#[test]
fn visible_slice_empty_text_or_width() {
    let r = visible_slice("", 3, 10);
    assert_eq!((r.start, r.end, r.cursor_col), (0, 0, 0));
    let r = visible_slice("abc", 1, 0);
    assert_eq!((r.start, r.end, r.cursor_col), (0, 0, 0));
}

#[test]
fn visible_slice_cursor_inside_cluster_snaps_back() {
    // byte 2 lies inside the two-byte 'é'; the cursor snaps to the start of that cluster
    let text = "aéb";
    let r = visible_slice(text, 2, 10);
    assert_eq!(r.cursor_col, 1);
    assert_eq!((r.start, r.end), (0, text.len()));
}

#[test]
fn visible_slice_cursor_past_end_is_clamped() {
    let r = visible_slice("abcdef", 100, 4);
    assert_eq!(&"abcdef"[r.start..r.end], "def");
    assert_eq!(r.cursor_col, 3);
}
