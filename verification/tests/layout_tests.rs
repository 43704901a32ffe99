use kiosk::layout::{
    centered_fixed_rect, centered_rect, confirm_delete_dialog_layout, dialog_width, error_toast_size,
    loading_dialog_size, word_wrapped_line_count, Dialog, Padding, Rect,
};
use ratatui::layout::Alignment;
use ratatui::style::Color;

fn lines(v: &[&str]) -> Vec<String> {
    v.iter().map(|s| s.to_string()).collect()
}

#[test]
fn dialog_test_word_wrap_single_line_no_wrap() {
    assert_eq!(word_wrapped_line_count("hello world", 20), 1);
}

#[test]
fn dialog_test_word_wrap_exact_fit() {
    assert_eq!(word_wrapped_line_count("hello world", 11), 1);
}

#[test]
fn dialog_test_word_wrap_breaks_at_word_boundary() {
    assert_eq!(word_wrapped_line_count("hello world", 10), 2);
}

#[test]
fn dialog_test_word_wrap_multiple_wraps() {
    assert_eq!(word_wrapped_line_count("one two three four", 5), 4);
}

#[test]
fn dialog_test_word_wrap_oversized_word() {
    assert_eq!(word_wrapped_line_count("abcdefghij", 4), 3);
}

#[test]
fn dialog_test_word_wrap_oversized_word_exact_multiple() {
    assert_eq!(word_wrapped_line_count("abcdefgh", 4), 2);
}

#[test]
fn dialog_test_word_wrap_oversized_after_short_word() {
    assert_eq!(word_wrapped_line_count("hi abcdefghij", 6), 3);
}

#[test]
fn dialog_test_word_wrap_empty_line() {
    assert_eq!(word_wrapped_line_count("", 20), 1);
}

#[test]
fn dialog_test_word_wrap_zero_width() {
    assert_eq!(word_wrapped_line_count("hello", 0), 1);
}

#[test]
fn dialog_test_word_wrap_multi_span_line() {
    let text = format!("{}{}", "hello ", "world");
    assert_eq!(word_wrapped_line_count(&text, 20), 1);
    assert_eq!(word_wrapped_line_count(&text, 8), 2);
}

#[test]
fn word_wrap_counts_bytes_of_multibyte_words() {
    // "éé" is 4 bytes wide by the byte-length measure.
    assert_eq!(word_wrapped_line_count("éé", 3), 2);
}

#[test]
fn test_dialog_size_no_padding() {
    let dialog = Dialog::new(lines(&["hello"]));
    let (w, h) = dialog.size(100);
    assert_eq!(w, 80);
    assert_eq!(h, 3);
}

#[test]
fn test_dialog_size_with_uniform_padding() {
    let dialog = Dialog::new(lines(&["hello"])).padding(Padding::uniform(1));
    let (w, h) = dialog.size(100);
    assert_eq!(w, 80);
    assert_eq!(h, 5);
}

#[test]
fn test_dialog_size_with_horizontal_padding() {
    let dialog = Dialog::new(lines(&["hello"])).padding(Padding::horizontal(1));
    let (w, h) = dialog.size(100);
    assert_eq!(w, 80);
    assert_eq!(h, 3);
}

#[test]
fn test_dialog_size_multiple_lines() {
    let dialog = Dialog::new(lines(&["line one", "", "line three"])).padding(Padding::uniform(1));
    let (_w, h) = dialog.size(100);
    assert_eq!(h, 7);
}

#[test]
fn test_dialog_size_wrapping() {
    let long_text = "a ".repeat(50);
    let dialog = Dialog::new(vec![long_text.trim().to_string()]).padding(Padding::uniform(1));
    let (_w, h) = dialog.size(100);
    assert!(h > 5, "should wrap, height={h}");
}

#[test]
fn test_dialog_builder_defaults() {
    let dialog = Dialog::new(lines(&["test"]));
    assert_eq!(dialog.border_color, Color::White);
    assert!(dialog.title.is_none());
    assert_eq!(dialog.alignment, Alignment::Left);
}

#[test]
fn test_dialog_builder_methods() {
    let dialog = Dialog::new(lines(&["test"]))
        .border_color(Color::Red)
        .title("My Title")
        .alignment(Alignment::Center)
        .padding(Padding::uniform(2));
    assert_eq!(dialog.border_color, Color::Red);
    assert_eq!(dialog.title.as_deref(), Some("My Title"));
    assert_eq!(dialog.alignment, Alignment::Center);
    assert_eq!(dialog.padding, Padding::uniform(2));
}

#[test]
fn test_dialog_chrome_computed_from_padding() {
    let d1 = Dialog::new(vec![]).padding(Padding::zero());
    assert_eq!(d1.h_chrome(), 2);
    assert_eq!(d1.v_chrome(), 2);

    let d2 = Dialog::new(vec![]).padding(Padding::uniform(1));
    assert_eq!(d2.h_chrome(), 4);
    assert_eq!(d2.v_chrome(), 4);

    let d3 = Dialog::new(vec![]).padding(Padding::horizontal(1));
    assert_eq!(d3.h_chrome(), 4);
    assert_eq!(d3.v_chrome(), 2);

    let d4 = Dialog::new(vec![]).padding(Padding::new(1, 2, 3, 4));
    assert_eq!(d4.h_chrome(), 2 + 1 + 2);
    assert_eq!(d4.v_chrome(), 2 + 3 + 4);
}

#[test]
fn dialog_test_error_toast_size_short_message() {
    let dialog = Dialog::new(vec![format!("{}{}", "Error: ", "Something failed")])
        .padding(Padding::uniform(1));
    let (w, h) = dialog.size(100);
    assert_eq!(w, 80);
    assert_eq!(h, 5);
}

#[test]
fn dialog_test_error_toast_size_long_message() {
    let long_msg = "a]".repeat(100);
    let dialog =
        Dialog::new(vec![format!("{}{}", "Error: ", long_msg)]).padding(Padding::uniform(1));
    let (_w, h) = dialog.size(100);
    assert!(h > 5);
}

#[test]
fn dialog_test_error_toast_size_narrow_terminal() {
    let dialog = Dialog::new(vec![format!("{}{}", "Error: ", "fail")]).padding(Padding::uniform(1));
    let (w, h) = dialog.size(20);
    assert_eq!(w, 16);
    assert!(h >= 5);
}

#[test]
fn test_loading_dialog_size_short_message() {
    let (w, h) = loading_dialog_size("⠋ ", "Fetching...", 100);
    assert_eq!(w, 80);
    assert_eq!(h, 3);
}

#[test]
fn test_loading_dialog_size_long_message() {
    let msg = "a".repeat(100);
    let (_w, h) = loading_dialog_size("⠋ ", &msg, 60);
    assert!(h > 3, "long message should wrap, height={h}");
}

#[test]
fn test_loading_dialog_size_narrow_terminal() {
    let (w, _h) = loading_dialog_size("⠋ ", "Creating branch foo from bar...", 30);
    assert!(w <= 30);
}

#[test]
fn test_loading_dialog_width_scales_with_terminal() {
    let (w1, _) = loading_dialog_size("⠋ ", "test", 80);
    let (w2, _) = loading_dialog_size("⠋ ", "test", 40);
    assert!(w1 > w2);
}

#[test]
fn dialog_width_is_eighty_percent_capped_at_eighty() {
    assert_eq!(dialog_width(50), 40);
    assert_eq!(dialog_width(100), 80);
    assert_eq!(dialog_width(200), 80);
    assert_eq!(dialog_width(0), 0);
}

#[test]
fn centered_fixed_rect_centres_and_clamps() {
    let area = Rect::new(0, 0, 100, 40);
    let c = centered_fixed_rect(20, 10, area);
    assert_eq!(c, Rect::new(40, 15, 20, 10));
    let big = centered_fixed_rect(200, 100, Rect::new(5, 5, 30, 10));
    assert_eq!(big, Rect::new(5, 5, 30, 10));
}

#[test]
fn rect_new_clips_at_coordinate_limit() {
    let r = Rect::new(65530, 0, 10, 3);
    assert_eq!(r.width, 5);
    assert_eq!(r.height, 3);
}

// The copy of the word-wrap estimate used by the app's loading popup.
#[test]
fn mod_test_word_wrap_single_line_no_wrap() {
    assert_eq!(word_wrapped_line_count("hello world", 20), 1);
}

#[test]
fn mod_test_word_wrap_exact_fit() {
    assert_eq!(word_wrapped_line_count("hello world", 11), 1);
}

#[test]
fn mod_test_word_wrap_breaks_at_word_boundary() {
    assert_eq!(word_wrapped_line_count("hello world", 10), 2);
}

#[test]
fn mod_test_word_wrap_multiple_wraps() {
    assert_eq!(word_wrapped_line_count("one two three four", 5), 4);
}

#[test]
fn mod_test_word_wrap_oversized_word() {
    assert_eq!(word_wrapped_line_count("abcdefghij", 4), 3);
}

#[test]
fn mod_test_word_wrap_oversized_word_exact_multiple() {
    assert_eq!(word_wrapped_line_count("abcdefgh", 4), 2);
}

#[test]
fn mod_test_word_wrap_oversized_after_short_word() {
    assert_eq!(word_wrapped_line_count("hi abcdefghij", 6), 3);
}

#[test]
fn mod_test_word_wrap_empty_line() {
    assert_eq!(word_wrapped_line_count("", 20), 1);
}

#[test]
fn mod_test_word_wrap_zero_width() {
    assert_eq!(word_wrapped_line_count("hello", 0), 1);
}

#[test]
fn mod_test_word_wrap_multi_span_line() {
    let text = format!("{}{}", "hello ", "world");
    assert_eq!(word_wrapped_line_count(&text, 20), 1);
    assert_eq!(word_wrapped_line_count(&text, 8), 2);
}

#[test]
fn error_toast_test_error_toast_size_short_message() {
    let (w, h) = error_toast_size("Something failed", "esc", 100);
    assert_eq!(w, 80);
    assert_eq!(h, 3 + 4); // 3 lines (error + blank + hint) + 4 chrome
}

#[test]
fn error_toast_test_error_toast_size_long_message() {
    let long_msg = "a]".repeat(100);
    let (w, h) = error_toast_size(&long_msg, "esc", 100);
    assert_eq!(w, 80);
    assert!(h > 5);
}

#[test]
fn error_toast_test_error_toast_size_narrow_terminal() {
    let (w, h) = error_toast_size("fail", "esc", 20);
    assert_eq!(w, 16);
    assert!(h >= 5);
}

#[test]
fn test_loading_dialog_short_message_single_line() {
    let (width, height) = loading_dialog_size("⠋ ", "Fetching...", 100);
    assert_eq!(width, 80);
    assert_eq!(height, 3);
}

#[test]
fn test_loading_dialog_long_message_wraps() {
    let msg = "Creating branch my-very-long-feature-branch-name from origin/main-development-branch...";
    let (width, height) = loading_dialog_size("⠋ ", msg, 60);
    assert_eq!(width, 48);
    assert!(height > 3, "long message should wrap to more than 1 line, got height {height}");
}

#[test]
fn test_loading_dialog_narrow_terminal() {
    let (width, height) = loading_dialog_size("⠋ ", "Creating branch foo from bar...", 30);
    assert_eq!(width, 24);
    assert!(height >= 3);
}

#[test]
fn test_loading_dialog_uses_dialog_width() {
    let (w1, _) = loading_dialog_size("⠋ ", "test", 80);
    let (w2, _) = loading_dialog_size("⠋ ", "test", 40);
    assert!(w1 > w2, "wider terminal should produce wider dialog");
}

#[test]
fn test_confirm_delete_layout_short_branch() {
    let layout = confirm_delete_dialog_layout("main", false, "enter", "esc", Color::Magenta, Color::Blue, 120);
    assert_eq!(layout.width, 80, "width should be capped at 80");
    assert_eq!(layout.height, 7, "no wrapping needed for short branch");
    assert_eq!(layout.text[0], "Delete worktree for branch \"main\"?");
    assert_eq!(layout.text[1], "");
    assert_eq!(layout.text[2], "confirm (enter) / cancel (esc)");
}

#[test]
fn test_confirm_delete_layout_long_branch() {
    let long_name = "a".repeat(100);
    let layout = confirm_delete_dialog_layout(&long_name, false, "enter", "esc", Color::Magenta, Color::Blue, 120);
    assert_eq!(layout.width, 80, "width should be capped at 80");
    assert!(layout.height > 7, "long branch should cause wrapping, height={}", layout.height);
}

#[test]
fn test_confirm_delete_layout_very_long_branch() {
    let long_name = "a".repeat(200);
    let layout = confirm_delete_dialog_layout(&long_name, false, "enter", "esc", Color::Magenta, Color::Blue, 80);
    assert_eq!(layout.width, 64, "width should be 80% of terminal");
    assert!(
        layout.height > 8,
        "very long branch on narrow terminal needs more wrapping, height={}",
        layout.height,
    );
}

#[test]
fn test_confirm_delete_layout_narrow_terminal() {
    let layout = confirm_delete_dialog_layout("main", false, "enter", "esc", Color::Magenta, Color::Blue, 50);
    assert!(layout.width <= 50, "dialog width {} must fit in terminal", layout.width);
}

#[test]
fn test_confirm_delete_layout_session_same_width() {
    let without = confirm_delete_dialog_layout("feature-branch", false, "enter", "esc", Color::Magenta, Color::Blue, 120);
    let with = confirm_delete_dialog_layout("feature-branch", true, "enter", "esc", Color::Magenta, Color::Blue, 120);
    assert_eq!(
        with.width, without.width,
        "width is content-independent: with session ({}) should equal without ({})",
        with.width, without.width,
    );
    assert_eq!(
        with.text[0],
        "Delete worktree and kill tmux session for branch \"feature-branch\"?"
    );
}

#[test]
fn test_confirm_delete_layout_exact_fit_no_wrap() {
    let layout = confirm_delete_dialog_layout("exactly-fits", false, "enter", "esc", Color::Magenta, Color::Blue, 120);
    assert_eq!(layout.height, 7, "exact fit should not wrap");
}

#[test]
fn centered_rect_takes_percentages_of_the_area() {
    let area = Rect::new(0, 0, 100, 40);
    assert_eq!(centered_rect(60, 50, area), Rect::new(20, 10, 60, 20));
}

#[test]
fn centered_rect_caps_percentages_at_the_whole_area() {
    let area = Rect::new(5, 3, 50, 20);
    assert_eq!(centered_rect(150, 200, area), area);
}

#[test]
fn dialog_width_is_capped_on_wide_terminals() {
    assert_eq!(dialog_width(820), 80);
    assert_eq!(dialog_width(u16::MAX), 80);
    assert_eq!(dialog_width(50), 40);
}

#[test]
fn confirm_delete_layout_styles_branch_and_keys() {
    let layout = confirm_delete_dialog_layout("main", true, "y", "n", Color::Magenta, Color::Blue, 120);
    assert_eq!(layout.styled.len(), 3);
    assert_eq!(layout.styled[0][1].text, "\"main\"");
    assert_eq!(layout.styled[0][1].style, Some(Color::Magenta));
    assert_eq!(layout.styled[0][0].style, None);
    assert_eq!(layout.styled[2][1].text, "y");
    assert_eq!(layout.styled[2][1].style, Some(Color::Blue));
    assert_eq!(layout.styled[2][5].style, Some(Color::Blue));
}
