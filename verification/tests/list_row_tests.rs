use kiosk::list_row::{
    render_agent_badges, render_with_optional_agent_badges, right_align_suffix,
    total_width as spans_total, truncate_spans, AgentLabels, AgentState, BadgeStyles, StyledSpan,
};
use ratatui::style::{Color, Style};

fn raw(text: &str) -> StyledSpan<Style> {
    StyledSpan { text: text.to_string(), style: None }
}

fn styled(text: &str, style: Style) -> StyledSpan<Style> {
    StyledSpan { text: text.to_string(), style: Some(style) }
}

fn total_width(spans: &[StyledSpan<Style>]) -> usize {
    spans_total(spans)
}

fn concat_text(spans: &[StyledSpan<Style>]) -> String {
    spans.iter().map(|s| s.text.as_str()).collect()
}

#[test]
fn truncate_spans_no_truncation_needed() {
    let spans = vec![raw("hello")];
    let result = truncate_spans(&spans, 10);
    assert_eq!(concat_text(&result), "hello");
    assert_eq!(total_width(&result), 5);
}

#[test]
fn truncate_spans_exact_fit() {
    let spans = vec![raw("hello")];
    let result = truncate_spans(&spans, 5);
    assert_eq!(concat_text(&result), "hello");
    assert_eq!(total_width(&result), 5);
}

#[test]
fn truncate_spans_with_ellipsis() {
    let spans = vec![raw("hello world")];
    let result = truncate_spans(&spans, 6);
    assert_eq!(concat_text(&result), "hello\u{2026}");
    assert_eq!(total_width(&result), 6);
}

#[test]
fn truncate_spans_multi_span() {
    let spans = vec![
        styled("abc", Style::default().fg(Color::Red)),
        styled("def", Style::default().fg(Color::Blue)),
    ];
    let result = truncate_spans(&spans, 5);
    assert_eq!(concat_text(&result), "abcd\u{2026}");
    assert_eq!(total_width(&result), 5);
    assert_eq!(result[0].style, Some(Style::default().fg(Color::Red)));
    assert_eq!(result[1].style, Some(Style::default().fg(Color::Blue)));
}

#[test]
fn truncate_spans_zero_width() {
    let spans = vec![raw("hello")];
    let result = truncate_spans(&spans, 0);
    assert!(result.is_empty());
}

#[test]
fn truncate_spans_width_one() {
    let spans = vec![raw("hello")];
    let result = truncate_spans(&spans, 1);
    assert_eq!(concat_text(&result), "\u{2026}");
    assert_eq!(total_width(&result), 1);
}

#[test]
fn truncate_spans_wide_characters() {
    // "日本" is four columns; with five columns it does not fit with more text
    let spans = vec![raw("日本語")];
    let result = truncate_spans(&spans, 4);
    assert_eq!(concat_text(&result), "日\u{2026}");
    assert_eq!(total_width(&result), 3);
}

#[test]
fn right_align_wide_terminal() {
    let left = vec![raw("main")];
    let right = vec![styled("[RUNNING]", Style::default().fg(Color::Red))];
    let result = right_align_suffix(&left, &right, 40);
    assert_eq!(total_width(&result), 40);
    let text = concat_text(&result);
    assert!(text.starts_with("main"), "got: {text}");
    assert!(text.ends_with("[RUNNING]"), "got: {text}");
}

#[test]
fn right_align_exact_fit() {
    let left = vec![raw("main")];
    let right = vec![styled("[WAITING]", Style::default().fg(Color::Yellow))];
    let result = right_align_suffix(&left, &right, 14);
    assert_eq!(total_width(&result), 14);
    assert_eq!(concat_text(&result), "main [WAITING]");
}

#[test]
fn right_align_branch_truncated() {
    let left = vec![raw("very-long-branch-name")];
    let right = vec![styled("[WAITING]", Style::default().fg(Color::Yellow))];
    let result = right_align_suffix(&left, &right, 25);
    assert_eq!(total_width(&result), 25);
    let text = concat_text(&result);
    assert!(text.ends_with(" [WAITING]"), "label missing: {text}");
    assert!(text.contains('\u{2026}'), "no ellipsis: {text}");
}

#[test]
fn right_align_multi_span_truncated() {
    let left = vec![
        raw("long-branch"),
        styled(" (session)", Style::default().fg(Color::Green)),
    ];
    let right = vec![styled("[RUNNING]", Style::default().fg(Color::Red))];
    let result = right_align_suffix(&left, &right, 22);
    assert_eq!(total_width(&result), 22);
    let text = concat_text(&result);
    assert!(text.ends_with(" [RUNNING]"), "label missing: {text}");
    assert!(text.contains('\u{2026}'), "no ellipsis: {text}");
}

#[test]
fn right_align_label_dropped_when_too_narrow() {
    let left = vec![raw("main")];
    let right = vec![styled("[WAITING]", Style::default().fg(Color::Yellow))];
    let result = right_align_suffix(&left, &right, 9);
    assert_eq!(concat_text(&result), "main");
}

#[test]
fn right_align_label_just_fits() {
    let left = vec![raw("m")];
    let right = vec![styled("[RUNNING]", Style::default().fg(Color::Red))];
    let result = right_align_suffix(&left, &right, 11);
    assert_eq!(concat_text(&result), "m [RUNNING]");
}

#[test]
fn right_align_label_boundary_drop() {
    let left = vec![raw("main")];
    let right = vec![styled("[UNKNOWN]", Style::default().fg(Color::Gray))];
    let result = right_align_suffix(&left, &right, 9);
    assert!(!concat_text(&result).contains("[UNKNOWN]"));
}

#[test]
fn right_align_label_boundary_keep() {
    let left = vec![raw("main")];
    let right = vec![styled("[UNKNOWN]", Style::default().fg(Color::Gray))];
    let result = right_align_suffix(&left, &right, 10);
    assert!(concat_text(&result).contains("[UNKNOWN]"));
}

#[test]
fn right_align_very_narrow() {
    let left = vec![raw("main")];
    let right = vec![styled("[IDLE]", Style::default().fg(Color::DarkGray))];
    let result = right_align_suffix(&left, &right, 3);
    let text = concat_text(&result);
    assert!(!text.contains("[IDLE]"));
    assert_eq!(total_width(&result), 3);
}

#[test]
fn right_align_custom_no_brackets() {
    let left = vec![raw("main")];
    let right = vec![styled("RUNNING", Style::default().fg(Color::Red))];
    let result = right_align_suffix(&left, &right, 20);
    assert_eq!(concat_text(&result), "main         RUNNING");
}

#[test]
fn right_align_custom_short_label() {
    let left = vec![raw("main")];
    let right = vec![styled("W", Style::default().fg(Color::Yellow))];
    let result = right_align_suffix(&left, &right, 8);
    assert_eq!(concat_text(&result), "main   W");
}

fn labels() -> AgentLabels {
    AgentLabels {
        running: "[RUNNING]".to_string(),
        waiting: "[WAITING]".to_string(),
        idle: "[IDLE]".to_string(),
        unknown: "[?]".to_string(),
    }
}

fn badge_styles() -> BadgeStyles<Style> {
    BadgeStyles {
        running: Style::default().fg(Color::Green),
        waiting: Style::default().fg(Color::Yellow),
        idle: Style::default().fg(Color::DarkGray),
        unknown: Style::default().fg(Color::Gray),
    }
}

#[test]
fn agent_badges_are_spaced_and_styled_by_state() {
    let states = [AgentState::Running, AgentState::Waiting, AgentState::Unknown];
    let badges = render_agent_badges(&states, &labels(), &badge_styles());
    assert_eq!(concat_text(&badges), "[RUNNING] [WAITING] [?]");
    assert_eq!(badges.len(), 5);
    assert_eq!(badges[0].style, Some(Style::default().fg(Color::Green)));
    assert_eq!(badges[1].style, None);
    assert_eq!(badges[2].style, Some(Style::default().fg(Color::Yellow)));
    assert_eq!(badges[4].style, Some(Style::default().fg(Color::Gray)));
}

#[test]
fn agent_badges_empty_without_agents() {
    let badges = render_agent_badges(&[], &labels(), &badge_styles());
    assert!(badges.is_empty());
}

#[test]
fn row_without_agents_is_left_unchanged() {
    let left = vec![raw("a-very-long-branch-name")];
    let result = render_with_optional_agent_badges(&left, &[], &labels(), &badge_styles(), 5);
    assert_eq!(concat_text(&result), "a-very-long-branch-name");
}

#[test]
fn row_with_agent_puts_badge_at_right_edge() {
    let left = vec![raw("main")];
    let result =
        render_with_optional_agent_badges(&left, &[AgentState::Idle], &labels(), &badge_styles(), 16);
    assert_eq!(concat_text(&result), "main      [IDLE]");
    assert_eq!(total_width(&result), 16);
}
