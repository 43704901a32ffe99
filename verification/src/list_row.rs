//! Fitting a row of styled text into a number of display columns: cutting
//! it with an ellipsis, and placing a label at the right edge. Widths are
//! display columns (`unicode_width`).
use vstd::prelude::*;
use unicode_width::UnicodeWidthChar;
use crate::search_bar::{display_width, str_width};
use crate::text::{chars_of, owned, push_spaces, spaces};

verus! {

/// A piece of text with a style; `None` is the default style (an unstyled
/// span).
pub struct StyledSpan<S> {
    pub text: String,
    pub style: Option<S>,
}

/// A span as plain values.
pub type SpanView<S> = (Seq<char>, Option<S>);

impl<S> View for StyledSpan<S> {
    type V = SpanView<S>;

    open spec fn view(&self) -> SpanView<S> {
        (self.text@, self.style)
    }
}

/// The views of a sequence of spans.
pub open spec fn span_views<S>(spans: Seq<StyledSpan<S>>) -> Seq<SpanView<S>> {
    spans.map_values(|s: StyledSpan<S>| s@)
}

/// The display width of a character, or `None` for a control character
/// (`UnicodeWidthChar::width`).
pub uninterp spec fn char_display_width(c: char) -> Option<usize>;

/// Calls `UnicodeWidthChar::width`. Claimed: the result is
/// `char_display_width` of the character.
#[verifier::external_body]
fn char_width(c: char) -> (r: Option<usize>)
    ensures
        r == char_display_width(c),
{
    UnicodeWidthChar::width(c)
}

/// Columns of a character, counting a control character as none.
pub open spec fn char_cols(c: char) -> int {
    match char_display_width(c) {
        Some(w) => w as int,
        None => 0,
    }
}

/// Total display width of the spans.
pub open spec fn spans_width<S>(spans: Seq<SpanView<S>>) -> int
    decreases spans.len(),
{
    if spans.len() == 0 {
        0
    } else {
        spans_width(spans.drop_last()) + display_width(spans.last().0)
    }
}

/// The leading characters of `cs` that fit, one by one, in `limit` columns
/// when `used` are taken already.
pub open spec fn fitting_chars(cs: Seq<char>, used: int, limit: int) -> Seq<char>
    decreases cs.len(),
{
    if cs.len() == 0 || used + char_cols(cs[0]) > limit {
        Seq::empty()
    } else {
        seq![cs[0]] + fitting_chars(cs.drop_first(), used + char_cols(cs[0]), limit)
    }
}

/// The spans that fit in `limit` columns when `used` are taken: whole spans
/// while they fit, then the part of the next span that fits, if any.
pub open spec fn fit_spans<S>(spans: Seq<SpanView<S>>, used: int, limit: int) -> Seq<SpanView<S>>
    decreases spans.len(),
{
    if spans.len() == 0 {
        Seq::empty()
    } else {
        let w = display_width(spans[0].0);
        if used + w <= limit {
            seq![spans[0]] + fit_spans(spans.drop_first(), used + w, limit)
        } else {
            let part = fitting_chars(spans[0].0, used, limit);
            if part.len() > 0 {
                seq![(part, spans[0].1)]
            } else {
                Seq::empty()
            }
        }
    }
}

/// The ellipsis that ends a cut row.
pub open spec fn ellipsis<S>() -> SpanView<S> {
    (seq!['\u{2026}'], None)
}

/// The spans fitted to `max_width` columns: nothing for no room, all of them
/// when they fit, else what fits in one column less followed by an
/// ellipsis.
pub open spec fn truncate_spec<S>(spans: Seq<SpanView<S>>, max_width: int) -> Seq<SpanView<S>> {
    if max_width == 0 {
        Seq::empty()
    } else if spans_width(spans) <= max_width {
        spans
    } else {
        fit_spans(spans, 0, max_width - 1).push(ellipsis())
    }
}

/// A copy of a span.
fn copy_span<S: Copy>(s: &StyledSpan<S>) -> (r: StyledSpan<S>)
    ensures
        r@ == s@,
{
    StyledSpan { text: s.text.clone(), style: s.style }
}

/// Copies of all the spans.
fn copy_spans<S: Copy>(spans: &[StyledSpan<S>]) -> (r: Vec<StyledSpan<S>>)
    ensures
        span_views(r@) == span_views(spans@),
{
    let mut r: Vec<StyledSpan<S>> = Vec::new();
    let mut i: usize = 0;
    while i < spans.len()
        invariant
            i <= spans.len(),
            span_views(r@) =~= span_views(spans@.take(i as int)),
        decreases spans.len() - i,
    {
        let c = copy_span(&spans[i]);
        r.push(c);
        assert(span_views(spans@.take(i + 1)) =~= span_views(spans@.take(i as int)).push(spans@[i as int]@));
        i = i + 1;
    }
    assert(spans@.take(spans.len() as int) =~= spans@);
    r
}

/// The total width of the spans.
pub fn total_width<S>(spans: &[StyledSpan<S>]) -> (w: usize)
    requires
        spans_width(span_views(spans@)) <= usize::MAX,
    ensures
        w == spans_width(span_views(spans@)),
{
    let ghost vs = span_views(spans@);
    let mut w: usize = 0;
    let mut i: usize = 0;
    while i < spans.len()
        invariant
            i <= spans.len(),
            vs == span_views(spans@),
            w == spans_width(vs.take(i as int)),
            spans_width(vs) <= usize::MAX,
        decreases spans.len() - i,
    {
        assert(vs.take(i + 1).drop_last() =~= vs.take(i as int));
        proof {
            lemma_spans_width_prefix(vs, i + 1);
        }
        w = w + str_width(spans[i].text.as_str());
        i = i + 1;
    }
    assert(vs.take(spans.len() as int) =~= vs);
    w
}

proof fn lemma_spans_width_prefix<S>(vs: Seq<SpanView<S>>, k: int)
    requires
        0 <= k <= vs.len(),
    ensures
        spans_width(vs.take(k)) <= spans_width(vs),
    decreases vs.len() - k,
{
    if k < vs.len() {
        lemma_spans_width_prefix(vs, k + 1);
        assert(vs.take(k + 1).drop_last() =~= vs.take(k));
    } else {
        assert(vs.take(k) =~= vs);
    }
}

/// The characters of `text` that fit in `limit` columns when `used` are
/// taken, and the columns taken after them.
fn fitting_prefix(text: &str, used: usize, limit: usize) -> (r: (String, usize))
    requires
        used <= limit,
    ensures
        r.0@ == fitting_chars(text@, used as int, limit as int),
        r.1 <= limit,
{
    let cs = chars_of(text);
    let mut part = String::new();
    let mut u = used;
    let mut i: usize = 0;
    assert(cs@.skip(0) =~= cs@);
    while i < cs.len()
        invariant_except_break
            i <= cs.len(),
            u <= limit,
            part@ + fitting_chars(cs@.skip(i as int), u as int, limit as int) == fitting_chars(
                text@,
                used as int,
                limit as int,
            ),
        ensures
            u <= limit,
            part@ == fitting_chars(text@, used as int, limit as int),
        decreases cs.len() - i,
    {
        let cw = match char_width(cs[i]) {
            Some(w) => w,
            None => 0,
        };
        let ghost rest = cs@.skip(i as int);
        assert(rest[0] == cs@[i as int]);
        if cw > limit - u {
            assert(fitting_chars(rest, u as int, limit as int) =~= Seq::<char>::empty());
            assert(part@ =~= part@ + Seq::<char>::empty());
            break;
        }
        part.push(cs[i]);
        u = u + cw;
        assert(rest.drop_first() =~= cs@.skip(i + 1));
        assert(part@ + fitting_chars(cs@.skip(i + 1), u as int, limit as int) =~= part@.drop_last() + (seq![
            cs@[i as int],
        ] + fitting_chars(rest.drop_first(), u as int, limit as int)));
        i = i + 1;
    }
    proof {
        if i == cs.len() {
            assert(cs@.skip(i as int) =~= Seq::<char>::empty());
            assert(part@ =~= part@ + Seq::<char>::empty());
        }
    }
    (part, u)
}

/// Truncate a span list to `max_width` display columns with ellipsis.
pub fn truncate_spans<S: Copy>(spans: &[StyledSpan<S>], max_width: usize) -> (r: Vec<StyledSpan<S>>)
    requires
        spans_width(span_views(spans@)) <= usize::MAX,
    ensures
        span_views(r@) == truncate_spec(span_views(spans@), max_width as int),
{
    if max_width == 0 {
        let r: Vec<StyledSpan<S>> = Vec::new();
        assert(span_views(r@) =~= Seq::<SpanView<S>>::empty());
        return r;
    }
    let total = total_width(spans);
    if total <= max_width {
        return copy_spans(spans);
    }
    let ghost vs = span_views(spans@);
    let content_width = max_width - 1;
    let mut result: Vec<StyledSpan<S>> = Vec::new();
    let mut used: usize = 0;
    let mut i: usize = 0;
    assert(vs.skip(0) =~= vs);
    assert(span_views(result@) + fit_spans(vs.skip(0), 0, content_width as int) =~= fit_spans(vs, 0, content_width as int));
    while i < spans.len()
        invariant_except_break
            i <= spans.len(),
            vs == span_views(spans@),
            used <= content_width,
            span_views(result@) + fit_spans(vs.skip(i as int), used as int, content_width as int) == fit_spans(
                vs,
                0,
                content_width as int,
            ),
        ensures
            span_views(result@) == fit_spans(vs, 0, content_width as int),
        decreases spans.len() - i,
    {
        let ghost rest = vs.skip(i as int);
        assert(rest[0] == spans@[i as int]@);
        assert(rest.drop_first() =~= vs.skip(i + 1));
        let ghost before = span_views(result@);
        let span_w = str_width(spans[i].text.as_str());
        if span_w <= content_width - used {
            result.push(copy_span(&spans[i]));
            used = used + span_w;
            assert(span_views(result@) =~= before.push(rest[0]));
            assert(before + (seq![rest[0]] + fit_spans(rest.drop_first(), used as int, content_width as int))
                =~= span_views(result@) + fit_spans(rest.drop_first(), used as int, content_width as int));
        } else {
            let (partial, _u) = fitting_prefix(spans[i].text.as_str(), used, content_width);
            let partial_len = chars_of(partial.as_str()).len();
            if partial_len > 0 {
                result.push(StyledSpan { text: partial, style: spans[i].style });
            }
            proof {
                let part = fitting_chars(rest[0].0, used as int, content_width as int);
                if part.len() > 0 {
                    assert(span_views(result@) =~= before + seq![(part, rest[0].1)]);
                } else {
                    assert(span_views(result@) =~= before + Seq::<SpanView<S>>::empty());
                }
            }
            break;
        }
        i = i + 1;
    }
    proof {
        if i == spans.len() {
            assert(vs.skip(i as int) =~= Seq::<SpanView<S>>::empty());
            assert(span_views(result@) =~= span_views(result@) + Seq::<SpanView<S>>::empty());
        }
    }
    let mut dots = String::new();
    dots.push('\u{2026}');
    let ghost before = span_views(result@);
    result.push(StyledSpan { text: dots, style: None });
    assert(span_views(result@) =~= before.push(ellipsis()));
    result
}

/// The row of `left` with `right` at its right edge in `row_width` columns:
/// without room for the label and a space, `left` cut to the row; else
/// `left`, spaces up to the label and the label when `left` fits, or `left`
/// cut to the room left, a space and the label.
pub open spec fn right_align_spec<S>(left: Seq<SpanView<S>>, right: Seq<SpanView<S>>, row_width: int) -> Seq<
    SpanView<S>,
> {
    let rw = spans_width(right);
    if row_width < 1 + rw {
        truncate_spec(left, row_width)
    } else {
        let lw = spans_width(left);
        let available = row_width - 1 - rw;
        if lw <= available {
            left.push((spaces((row_width - lw - rw) as nat), None)) + right
        } else {
            truncate_spec(left, available).push((seq![' '], None)) + right
        }
    }
}

/// Combine left content with a right-aligned label, padding or truncating as needed.
pub fn right_align_suffix<S: Copy>(left: &[StyledSpan<S>], right: &[StyledSpan<S>], row_width: usize) -> (r: Vec<
    StyledSpan<S>,
>)
    requires
        spans_width(span_views(left@)) <= usize::MAX,
        spans_width(span_views(right@)) <= usize::MAX,
    ensures
        span_views(r@) == right_align_spec(span_views(left@), span_views(right@), row_width as int),
{
    let right_width = total_width(right);
    if row_width < 1 || row_width - 1 < right_width {
        return truncate_spans(left, row_width);
    }
    let left_width = total_width(left);
    let available_for_left = row_width - 1 - right_width;
    let mut result;
    if left_width <= available_for_left {
        result = copy_spans(left);
        let padding = row_width - left_width - right_width;
        let mut pad = String::new();
        push_spaces(&mut pad, padding);
        let ghost before = span_views(result@);
        result.push(StyledSpan { text: pad, style: None });
        assert(span_views(result@) =~= before.push((spaces(padding as nat), None)));
    } else {
        result = truncate_spans(left, available_for_left);
        let ghost before = span_views(result@);
        result.push(StyledSpan { text: owned(" "), style: None });
        proof {
            reveal_strlit(" ");
            assert(" "@ =~= seq![' ']);
        }
        assert(span_views(result@) =~= before.push((seq![' '], None)));
    }
    let ghost head = span_views(result@);
    let tail = copy_spans(right);
    let mut k: usize = 0;
    while k < tail.len()
        invariant
            k <= tail.len(),
            span_views(tail@) == span_views(right@),
            span_views(result@) == head + span_views(tail@).take(k as int),
        decreases tail.len() - k,
    {
        let c = copy_span(&tail[k]);
        let ghost before = span_views(result@);
        result.push(c);
        assert(span_views(result@) =~= before.push(span_views(tail@)[k as int]));
        assert(span_views(tail@).take(k + 1) =~= span_views(tail@).take(k as int).push(span_views(tail@)[k as int]));
        k = k + 1;
    }
    assert(span_views(tail@).take(tail.len() as int) =~= span_views(tail@));
    result
}

/// What a coding agent detected in a session is doing.
#[derive(Debug, Clone, Copy, PartialEq, Eq, Structural)]
pub enum AgentState {
    Running,
    Waiting,
    Idle,
    Unknown,
}

/// The badge text shown for each agent state.
pub struct AgentLabels {
    pub running: String,
    pub waiting: String,
    pub idle: String,
    pub unknown: String,
}

/// The style of each agent state's badge (the theme's accent, warning, muted
/// and hint colours in the terminal interface).
pub struct BadgeStyles<S> {
    pub running: S,
    pub waiting: S,
    pub idle: S,
    pub unknown: S,
}

/// The badge of one agent: its state's label in its state's style.
pub open spec fn badge_spec<S>(state: AgentState, labels: AgentLabels, styles: BadgeStyles<S>) -> SpanView<S> {
    match state {
        AgentState::Running => (labels.running@, Some(styles.running)),
        AgentState::Waiting => (labels.waiting@, Some(styles.waiting)),
        AgentState::Idle => (labels.idle@, Some(styles.idle)),
        AgentState::Unknown => (labels.unknown@, Some(styles.unknown)),
    }
}

/// The badges of all agents, in order, one unstyled space between two.
pub open spec fn badges_spec<S>(states: Seq<AgentState>, labels: AgentLabels, styles: BadgeStyles<S>) -> Seq<
    SpanView<S>,
>
    decreases states.len(),
{
    if states.len() == 0 {
        Seq::empty()
    } else {
        let sep: Seq<SpanView<S>> = if states.len() > 1 {
            seq![(seq![' '], None)]
        } else {
            Seq::empty()
        };
        badges_spec(states.drop_last(), labels, styles) + sep + seq![badge_spec(states.last(), labels, styles)]
    }
}

/// Render color-coded status badges for all detected agents.
pub fn render_agent_badges<S: Copy>(states: &[AgentState], labels: &AgentLabels, styles: &BadgeStyles<S>) -> (r: Vec<
    StyledSpan<S>,
>)
    ensures
        span_views(r@) == badges_spec(states@, *labels, *styles),
{
    let mut r: Vec<StyledSpan<S>> = Vec::new();
    let mut i: usize = 0;
    while i < states.len()
        invariant
            i <= states.len(),
            span_views(r@) == badges_spec(states@.take(i as int), *labels, *styles),
        decreases states.len() - i,
    {
        let ghost before = span_views(r@);
        if i > 0 {
            r.push(StyledSpan { text: owned(" "), style: None });
            proof {
                reveal_strlit(" ");
                assert(" "@ =~= seq![' ']);
            }
        }
        let ghost mid = span_views(r@);
        let (text, style) = match states[i] {
            AgentState::Running => (labels.running.clone(), styles.running),
            AgentState::Waiting => (labels.waiting.clone(), styles.waiting),
            AgentState::Idle => (labels.idle.clone(), styles.idle),
            AgentState::Unknown => (labels.unknown.clone(), styles.unknown),
        };
        assert((text@, Some(style)) == badge_spec(states@[i as int], *labels, *styles));
        r.push(StyledSpan { text, style: Some(style) });
        proof {
            assert(span_views(r@) =~= mid.push(badge_spec(states@[i as int], *labels, *styles)));
            let t = states@.take(i + 1);
            assert(t.drop_last() =~= states@.take(i as int));
            assert(t.last() == states@[i as int]);
            let sep: Seq<SpanView<S>> = if t.len() > 1 {
                seq![(seq![' '], None)]
            } else {
                Seq::empty()
            };
            assert(span_views(r@) =~= before + sep + seq![badge_spec(states@[i as int], *labels, *styles)]);
        }
        i = i + 1;
    }
    assert(states@.take(states.len() as int) =~= states@);
    r
}

/// A list row, with the agents' badges at its right edge when there are any.
pub fn render_with_optional_agent_badges<S: Copy>(
    left: &[StyledSpan<S>],
    states: &[AgentState],
    labels: &AgentLabels,
    styles: &BadgeStyles<S>,
    row_width: usize,
) -> (r: Vec<StyledSpan<S>>)
    requires
        spans_width(span_views(left@)) <= usize::MAX,
        spans_width(badges_spec(states@, *labels, *styles)) <= usize::MAX,
    ensures
        span_views(r@) == (if states.len() == 0 {
            span_views(left@)
        } else {
            right_align_spec(span_views(left@), badges_spec(states@, *labels, *styles), row_width as int)
        }),
{
    if states.len() == 0 {
        copy_spans(left)
    } else {
        let right = render_agent_badges(states, labels, styles);
        right_align_suffix(left, &right, row_width)
    }
}

} // verus!
