//! Geometry of popups: dialog widths, centring a fixed-size rectangle, and
//! the height of a dialog whose lines are word-wrapped.
use vstd::prelude::*;
use ratatui::layout::{Constraint, Layout};
use crate::list_row::{span_views, SpanView, StyledSpan};
use crate::text::{owned, push_str, split_chars, split_pieces, utf8_len, utf8_len_wide};

verus! {

/// A rectangle of terminal cells.
#[derive(Debug, Clone, Copy, PartialEq, Eq, Structural)]
pub struct Rect {
    pub x: u16,
    pub y: u16,
    pub width: u16,
    pub height: u16,
}

impl Rect {
    /// A rectangle at `(x, y)`; width and height are clipped so that it ends
    /// at the last representable coordinate at the latest (as ratatui's
    /// `Rect::new` does).
    pub fn new(x: u16, y: u16, width: u16, height: u16) -> (r: Rect)
        ensures
            r.x == x,
            r.y == y,
            r.width == (if x + width <= u16::MAX {
                width as int
            } else {
                u16::MAX - x
            }),
            r.height == (if y + height <= u16::MAX {
                height as int
            } else {
                u16::MAX - y
            }),
    {
        let w = x.saturating_add(width) - x;
        let h = y.saturating_add(height) - y;
        Rect { x, y, width: w, height: h }
    }
}

/// Space between a block's border and its content, in cells.
#[derive(Debug, Clone, Copy, PartialEq, Eq, Structural)]
pub struct Padding {
    pub left: u16,
    pub right: u16,
    pub top: u16,
    pub bottom: u16,
}

impl Padding {
    /// No padding.
    pub fn zero() -> (p: Padding)
        ensures
            p == (Padding { left: 0, right: 0, top: 0, bottom: 0 }),
    {
        Padding { left: 0, right: 0, top: 0, bottom: 0 }
    }

    /// The same padding on all four sides.
    pub fn uniform(v: u16) -> (p: Padding)
        ensures
            p == (Padding { left: v, right: v, top: v, bottom: v }),
    {
        Padding { left: v, right: v, top: v, bottom: v }
    }

    /// Padding on the left and right only.
    pub fn horizontal(v: u16) -> (p: Padding)
        ensures
            p == (Padding { left: v, right: v, top: 0, bottom: 0 }),
    {
        Padding { left: v, right: v, top: 0, bottom: 0 }
    }

    /// Padding given side by side.
    pub fn new(left: u16, right: u16, top: u16, bottom: u16) -> (p: Padding)
        ensures
            p == (Padding { left, right, top, bottom }),
    {
        Padding { left, right, top, bottom }
    }
}

/// 80% of the terminal width, at most 80 columns.
pub open spec fn dialog_width_spec(terminal_width: int) -> int {
    let w = terminal_width * 80 / 100;
    if w < 80 {
        w
    } else {
        80
    }
}

/// Standard dialog width: 80% of terminal width, capped at 80 columns.
pub fn dialog_width(terminal_width: u16) -> (w: u16)
    ensures
        w == dialog_width_spec(terminal_width as int),
{
    let w: u32 = (terminal_width as u32) * 80 / 100;
    if w < 80 {
        w as u16
    } else {
        80
    }
}

/// The middle of the three rows into which ratatui's layout solver divides
/// `area` for the constraints `[Fill(fill), Percentage(percent), Fill(fill)]`.
pub uninterp spec fn rows_middle(fill: u16, percent: u16, area: Rect) -> Rect;

/// The middle of the three columns into which ratatui's layout solver
/// divides `area` for the constraints `[Fill(fill), Percentage(percent),
/// Fill(fill)]`.
pub uninterp spec fn columns_middle(fill: u16, percent: u16, area: Rect) -> Rect;

/// Calls `Layout::vertical` with `[Fill(fill), Percentage(percent),
/// Fill(fill)]` and `split` on `area`, and gives the middle area. Claimed:
/// the result is `rows_middle` of the arguments (the solver is
/// deterministic). Not claimed: where the row lies; that is the solver's.
#[verifier::external_body]
fn split_rows_middle(fill: u16, percent: u16, area: Rect) -> (m: Rect)
    ensures
        m == rows_middle(fill, percent, area),
{
    let chunks = Layout::vertical([Constraint::Fill(fill), Constraint::Percentage(percent), Constraint::Fill(fill)])
        .split(ratatui::layout::Rect { x: area.x, y: area.y, width: area.width, height: area.height });
    Rect { x: chunks[1].x, y: chunks[1].y, width: chunks[1].width, height: chunks[1].height }
}

/// Calls `Layout::horizontal` with `[Fill(fill), Percentage(percent),
/// Fill(fill)]` and `split` on `area`, and gives the middle area. Claimed:
/// the result is `columns_middle` of the arguments. Not claimed: where the
/// column lies; that is the solver's.
#[verifier::external_body]
fn split_columns_middle(fill: u16, percent: u16, area: Rect) -> (m: Rect)
    ensures
        m == columns_middle(fill, percent, area),
{
    let chunks = Layout::horizontal([Constraint::Fill(fill), Constraint::Percentage(percent), Constraint::Fill(fill)])
        .split(ratatui::layout::Rect { x: area.x, y: area.y, width: area.width, height: area.height });
    Rect { x: chunks[1].x, y: chunks[1].y, width: chunks[1].width, height: chunks[1].height }
}

/// A popup area of `percent_x` of the width and `percent_y` of the height of
/// `r` (each at most 100), centred by equal fills on both sides: the middle
/// row of `r`, then the middle column of that row.
pub fn centered_rect(percent_x: u16, percent_y: u16, r: Rect) -> (c: Rect)
    ensures
        c == columns_middle(
            1,
            if percent_x < 100 { percent_x } else { 100 },
            rows_middle(1, if percent_y < 100 { percent_y } else { 100 }, r),
        ),
{
    let py: u16 = if percent_y < 100 { percent_y } else { 100 };
    let px: u16 = if percent_x < 100 { percent_x } else { 100 };
    let row = split_rows_middle(1, py, r);
    split_columns_middle(1, px, row)
}

/// Center a rect with a fixed width and height, clamped to fit within `r`.
pub fn centered_fixed_rect(width: u16, height: u16, r: Rect) -> (c: Rect)
    requires
        r.x + (r.width - (if width < r.width { width as int } else { r.width as int })) / 2 <= u16::MAX,
        r.y + (r.height - (if height < r.height { height as int } else { r.height as int })) / 2 <= u16::MAX,
    ensures
        ({
            let cw = if width < r.width {
                width as int
            } else {
                r.width as int
            };
            let ch = if height < r.height {
                height as int
            } else {
                r.height as int
            };
            let x = r.x + (r.width - cw) / 2;
            let y = r.y + (r.height - ch) / 2;
            &&& c.x == x
            &&& c.y == y
            &&& c.width == (if x + cw <= u16::MAX { cw } else { u16::MAX - x })
            &&& c.height == (if y + ch <= u16::MAX { ch } else { u16::MAX - y })
        }),
{
    let clamped_width = if width < r.width {
        width
    } else {
        r.width
    };
    let clamped_height = if height < r.height {
        height
    } else {
        r.height
    };
    let offset_x = r.x + (r.width - clamped_width) / 2;
    let offset_y = r.y + (r.height - clamped_height) / 2;
    Rect::new(offset_x, offset_y, clamped_width, clamped_height)
}

/// A word of `w` columns that is wider than the line is broken across lines:
/// the number of extra lines and the column after its last piece.
pub open spec fn spill(w: int, max: int) -> (int, int)
    decreases w,
{
    if max > 0 && w > max {
        let (e, c) = spill(w - max, max);
        (e + 1, c)
    } else {
        (0, w)
    }
}

/// Lines used and current column after placing one more word of `w` columns
/// (`first`: it is the first word of the line of text).
pub open spec fn wrap_step(state: (int, int), w: int, first: bool, max: int) -> (int, int) {
    let (lines, col) = state;
    let needed = if first || col == 0 {
        w
    } else {
        w + 1
    };
    if col + needed <= max {
        (lines, col + needed)
    } else if w <= max {
        (lines + 1, w)
    } else {
        let (extra, c) = spill(w, max);
        ((if col > 0 {
            lines + 1
        } else {
            lines
        }) + extra, c)
    }
}

/// Lines used and current column after placing the given space-separated
/// words, each as wide as its UTF-8 byte length.
pub open spec fn wrap_words(words: Seq<Seq<char>>, max: int) -> (int, int)
    decreases words.len(),
{
    if words.len() == 0 {
        (1, 0)
    } else {
        wrap_step(wrap_words(words.drop_last(), max), utf8_len(words.last()) as int, words.len() == 1, max)
    }
}

/// The number of lines `text` takes when word-wrapped to `max_width` columns,
/// measuring words by their byte length (exact for ASCII, an overestimate
/// otherwise): at least one line.
pub open spec fn wrapped_line_count(text: Seq<char>, max_width: int) -> int {
    if max_width == 0 || text.len() == 0 {
        1
    } else {
        wrap_words(split_pieces(text, ' '), max_width).0
    }
}

proof fn lemma_spill(w: int, max: int)
    requires
        max > 0,
        w >= 0,
    ensures
        spill(w, max).0 >= 0,
        0 <= spill(w, max).1 <= max || (w <= max && spill(w, max).1 == w),
        spill(w, max).1 <= max,
    decreases w,
{
    if w > max {
        lemma_spill(w - max, max);
    }
}

proof fn lemma_wrap_words_grow(words: Seq<Seq<char>>, max: int)
    requires
        max > 0,
    ensures
        wrap_words(words, max).0 >= 1,
        0 <= wrap_words(words, max).1 <= max,
        words.len() > 0 ==> wrap_words(words, max).0 >= wrap_words(words.drop_last(), max).0,
    decreases words.len(),
{
    if words.len() > 0 {
        lemma_wrap_words_grow(words.drop_last(), max);
        lemma_spill(utf8_len(words.last()) as int, max);
    }
}

proof fn lemma_wrap_words_prefix(words: Seq<Seq<char>>, k: int, max: int)
    requires
        max > 0,
        0 <= k <= words.len(),
    ensures
        wrap_words(words.take(k), max).0 <= wrap_words(words, max).0,
    decreases words.len() - k,
{
    if k < words.len() {
        lemma_wrap_words_prefix(words, k + 1, max);
        assert(words.take(k + 1).drop_last() =~= words.take(k));
        lemma_wrap_words_grow(words.take(k + 1), max);
    } else {
        assert(words.take(k) =~= words);
    }
}

/// Estimate visual line count when `text` is word-wrapped to `max_width` columns.
/// Uses byte length as a width proxy, which is exact for ASCII and a safe overestimate
/// for multi-byte UTF-8 (produces a taller dialog rather than clipping content).
pub fn word_wrapped_line_count(text: &str, max_width: u16) -> (n: u16)
    requires
        wrapped_line_count(text@, max_width as int) <= u16::MAX,
    ensures
        n == wrapped_line_count(text@, max_width as int),
{
    if max_width == 0 || text.is_empty() {
        return 1;
    }
    let words = split_chars(text, ' ');
    let ghost ws = split_pieces(text@, ' ');
    let max: u128 = max_width as u128;
    let mut lines: u16 = 1;
    let mut col: u128 = 0;
    let mut i: usize = 0;
    while i < words.len()
        invariant
            i <= words.len(),
            max == max_width as u128,
            max > 0,
            words@.map_values(|p: Vec<char>| p@) == ws,
            wrap_words(ws, max as int).0 <= u16::MAX,
            (lines as int, col as int) == wrap_words(ws.take(i as int), max as int),
            col <= max,
        decreases words.len() - i,
    {
        proof {
            assert(ws.take(i + 1).drop_last() =~= ws.take(i as int));
            assert(ws.take(i + 1).last() == words@[i as int]@);
            lemma_wrap_words_prefix(ws, i + 1, max as int);
            lemma_wrap_words_grow(ws.take(i + 1), max as int);
        }
        let w = utf8_len_wide(&words[i]);
        let needed: u128 = if i == 0 || col == 0 {
            w
        } else {
            w + 1
        };
        if col + needed <= max {
            col = col + needed;
        } else if w <= max {
            lines = lines + 1;
            col = w;
        } else {
            proof {
                lemma_spill(w as int, max as int);
            }
            if col > 0 {
                lines = lines + 1;
            }
            let ghost base = lines as int;
            col = w;
            while col > max
                invariant
                    max > 0,
                    col >= 0,
                    lines as int + spill(col as int, max as int).0 == base + spill(w as int, max as int).0,
                    spill(col as int, max as int).1 == spill(w as int, max as int).1,
                    base + spill(w as int, max as int).0 <= u16::MAX,
                decreases col,
            {
                proof {
                    lemma_spill(col - max, max as int);
                }
                lines = lines + 1;
                col = col - max;
            }
        }
        i = i + 1;
    }
    assert(ws.take(words.len() as int) =~= ws);
    lines
}

/// ratatui's colour of a cell's foreground or background, carried through
/// unread to the renderer.
#[verifier::external_type_specification]
#[verifier::external_body]
pub struct ExColor(ratatui::style::Color);

/// ratatui's horizontal alignment of a paragraph, carried through unread to
/// the renderer.
#[verifier::external_type_specification]
#[verifier::external_body]
pub struct ExHorizontalAlignment(ratatui::layout::HorizontalAlignment);

/// The colour a dialog's border has unless one is chosen: `Color::White`.
/// Nothing is claimed of the value; it is handed to the renderer as it is.
#[verifier::external_body]
fn white_border() -> (c: ratatui::style::Color) {
    ratatui::style::Color::White
}

/// ratatui's default horizontal alignment (`Alignment::default()`, which is
/// `Left`). Nothing is claimed of the value; it is handed to the renderer.
#[verifier::external_body]
fn default_alignment() -> (a: ratatui::layout::HorizontalAlignment) {
    ratatui::layout::HorizontalAlignment::default()
}

/// A popup with word-wrapped lines of text and padding inside its border.
pub struct Dialog {
    pub lines: Vec<String>,
    pub border_color: ratatui::style::Color,
    pub title: Option<String>,
    pub padding: Padding,
    pub alignment: ratatui::layout::HorizontalAlignment,
}

/// Total wrapped height of the lines.
pub open spec fn lines_height(lines: Seq<Seq<char>>, text_width: int) -> int
    decreases lines.len(),
{
    if lines.len() == 0 {
        0
    } else {
        lines_height(lines.drop_last(), text_width) + wrapped_line_count(lines.last(), text_width)
    }
}

/// The size of a dialog with these lines and padding in a terminal this wide.
pub open spec fn dialog_size_spec(lines: Seq<Seq<char>>, padding: Padding, terminal_width: int) -> (int, int) {
    let width = dialog_width_spec(terminal_width);
    let h_chrome = 2 + padding.left + padding.right;
    let text_width = if width - h_chrome > 1 {
        width - h_chrome
    } else {
        1
    };
    (width, lines_height(lines, text_width) + 2 + padding.top + padding.bottom)
}

proof fn lemma_wrapped_line_count_positive(text: Seq<char>, max: int)
    requires
        max >= 0,
    ensures
        wrapped_line_count(text, max) >= 1,
{
    if max > 0 && text.len() > 0 {
        lemma_wrap_words_grow(split_pieces(text, ' '), max);
    }
}

proof fn lemma_lines_height_prefix(lines: Seq<Seq<char>>, k: int, w: int)
    requires
        0 <= k <= lines.len(),
        w >= 0,
    ensures
        lines_height(lines.take(k), w) <= lines_height(lines, w),
    decreases lines.len() - k,
{
    if k < lines.len() {
        lemma_lines_height_prefix(lines, k + 1, w);
        assert(lines.take(k + 1).drop_last() =~= lines.take(k));
        lemma_wrapped_line_count_positive(lines.take(k + 1).last(), w);
    } else {
        assert(lines.take(k) =~= lines);
    }
}

impl Dialog {
    /// A dialog with these lines, a white border, no title, no padding and
    /// left-aligned text.
    pub fn new(lines: Vec<String>) -> (d: Dialog)
        ensures
            d.lines@ == lines@,
            d.title.is_none(),
            d.padding == Padding::zero_spec(),
    {
        Dialog {
            lines,
            border_color: white_border(),
            title: None,
            padding: Padding { left: 0, right: 0, top: 0, bottom: 0 },
            alignment: default_alignment(),
        }
    }

    /// The same dialog with another border colour.
    pub fn border_color(self, color: ratatui::style::Color) -> (d: Dialog)
        ensures
            d.lines@ == self.lines@,
            d.border_color == color,
            d.title == self.title,
            d.padding == self.padding,
            d.alignment == self.alignment,
    {
        Dialog { border_color: color, ..self }
    }

    /// The same dialog with a title on its border.
    pub fn title(self, title: &str) -> (d: Dialog)
        ensures
            d.lines@ == self.lines@,
            d.border_color == self.border_color,
            d.title is Some && d.title->0@ == title@,
            d.padding == self.padding,
            d.alignment == self.alignment,
    {
        Dialog { title: Some(title.to_string()), ..self }
    }

    /// The same dialog with another padding.
    pub fn padding(self, padding: Padding) -> (d: Dialog)
        ensures
            d.lines@ == self.lines@,
            d.border_color == self.border_color,
            d.title == self.title,
            d.padding == padding,
            d.alignment == self.alignment,
    {
        Dialog { padding, ..self }
    }

    /// The same dialog with its text aligned otherwise.
    pub fn alignment(self, alignment: ratatui::layout::HorizontalAlignment) -> (d: Dialog)
        ensures
            d.lines@ == self.lines@,
            d.border_color == self.border_color,
            d.title == self.title,
            d.padding == self.padding,
            d.alignment == alignment,
    {
        Dialog { alignment, ..self }
    }

    /// Horizontal chrome: 2 (borders) + left padding + right padding.
    pub fn h_chrome(&self) -> (c: u16)
        requires
            2 + self.padding.left + self.padding.right <= u16::MAX,
        ensures
            c == 2 + self.padding.left + self.padding.right,
    {
        2 + self.padding.left + self.padding.right
    }

    /// Vertical chrome: 2 (borders) + top padding + bottom padding.
    pub fn v_chrome(&self) -> (c: u16)
        requires
            2 + self.padding.top + self.padding.bottom <= u16::MAX,
        ensures
            c == 2 + self.padding.top + self.padding.bottom,
    {
        2 + self.padding.top + self.padding.bottom
    }

    /// Compute `(width, height)` for this dialog given the terminal width.
    pub fn size(&self, terminal_width: u16) -> (s: (u16, u16))
        requires
            2 + self.padding.left + self.padding.right <= u16::MAX,
            dialog_size_spec(self.lines.deep_view(), self.padding, terminal_width as int).1 <= u16::MAX,
        ensures
            (s.0 as int, s.1 as int) == dialog_size_spec(self.lines.deep_view(), self.padding, terminal_width as int),
    {
        let width = dialog_width(terminal_width);
        let chrome = self.h_chrome();
        let text_width: u16 = if width > chrome && width - chrome > 1 {
            width - chrome
        } else {
            1
        };
        let ghost ls = self.lines.deep_view();
        let mut content_height: u16 = 0;
        let mut i: usize = 0;
        while i < self.lines.len()
            invariant
                i <= self.lines.len(),
                ls == self.lines.deep_view(),
                text_width >= 1,
                content_height == lines_height(ls.take(i as int), text_width as int),
                lines_height(ls, text_width as int) + 2 + self.padding.top + self.padding.bottom <= u16::MAX,
            decreases self.lines.len() - i,
        {
            proof {
                assert(ls.take(i + 1).drop_last() =~= ls.take(i as int));
                assert(ls.take(i + 1).last() == self.lines@[i as int]@);
                lemma_lines_height_prefix(ls, i + 1, text_width as int);
                lemma_wrapped_line_count_positive(self.lines@[i as int]@, text_width as int);
            }
            let n = word_wrapped_line_count(self.lines[i].as_str(), text_width);
            content_height = content_height + n;
            i = i + 1;
        }
        assert(ls.take(self.lines.len() as int) =~= ls);
        (width, content_height + 2 + self.padding.top + self.padding.bottom)
    }
}

impl Padding {
    /// No padding, as a value.
    pub open spec fn zero_spec() -> Padding {
        Padding { left: 0, right: 0, top: 0, bottom: 0 }
    }
}

/// The size of the loading popup: the spinner prefix and the message on one
/// word-wrapped line, with 1-cell horizontal padding.
pub open spec fn loading_dialog_size_spec(text: Seq<char>, terminal_width: int) -> (int, int) {
    let width = dialog_width_spec(terminal_width);
    let text_width = if width - 4 > 1 {
        width - 4
    } else {
        1
    };
    (width, wrapped_line_count(text, text_width) + 2)
}

/// Compute the width and height for a loading-spinner dialog.
/// `spinner_prefix` is the "⠋ " (or similar) text prepended to `message`.
pub fn loading_dialog_size(spinner_prefix: &str, message: &str, terminal_width: u16) -> (s: (u16, u16))
    requires
        loading_dialog_size_spec(spinner_prefix@ + message@, terminal_width as int).1 <= u16::MAX,
    ensures
        (s.0 as int, s.1 as int) == loading_dialog_size_spec(spinner_prefix@ + message@, terminal_width as int),
{
    let mut text = String::new();
    push_str(&mut text, spinner_prefix);
    push_str(&mut text, message);
    let width = dialog_width(terminal_width);
    let h_chrome: u16 = 4;
    let v_chrome: u16 = 2;
    let text_width: u16 = if width > h_chrome && width - h_chrome > 1 {
        width - h_chrome
    } else {
        1
    };
    assert(text@ =~= spinner_prefix@ + message@);
    let content_height = word_wrapped_line_count(text.as_str(), text_width);
    (width, content_height + v_chrome)
}

/// The lines of an error toast: the error after `Error: `, an empty line,
/// and the key that closes it.
pub open spec fn error_dialog_lines(error: Seq<char>, dismiss_key: Seq<char>) -> Seq<Seq<char>> {
    seq!["Error: "@ + error, Seq::empty(), dismiss_key + ": close"@]
}

/// The lines of an error toast.
pub fn error_dialog(error: &str, dismiss_key: &str) -> (d: Dialog)
    ensures
        d.lines.deep_view() == error_dialog_lines(error@, dismiss_key@),
        d.padding == (Padding { left: 1, right: 1, top: 1, bottom: 1 }),
{
    let mut first = String::new();
    push_str(&mut first, "Error: ");
    push_str(&mut first, error);
    let mut hint = String::new();
    push_str(&mut hint, dismiss_key);
    push_str(&mut hint, ": close");
    let mut lines: Vec<String> = Vec::new();
    lines.push(first);
    lines.push(String::new());
    lines.push(hint);
    assert(lines.deep_view() =~= error_dialog_lines(error@, dismiss_key@));
    Dialog::new(lines).padding(Padding::uniform(1))
}

/// Compute the width and height for an error toast dialog.
pub fn error_toast_size(error: &str, dismiss_key: &str, terminal_width: u16) -> (s: (u16, u16))
    requires
        dialog_size_spec(
            error_dialog_lines(error@, dismiss_key@),
            Padding { left: 1, right: 1, top: 1, bottom: 1 },
            terminal_width as int,
        ).1 <= u16::MAX,
    ensures
        (s.0 as int, s.1 as int) == dialog_size_spec(
            error_dialog_lines(error@, dismiss_key@),
            Padding { left: 1, right: 1, top: 1, bottom: 1 },
            terminal_width as int,
        ),
{
    let d = error_dialog(error, dismiss_key);
    d.size(terminal_width)
}

/// The text and size of the dialog that confirms deleting a worktree.
pub struct ConfirmDeleteDialogLayout<S> {
    /// Each line as plain text.
    pub text: Vec<String>,
    /// Each line as styled spans: the branch name in the accent style, the
    /// keys in the hint style, the rest unstyled.
    pub styled: Vec<Vec<StyledSpan<S>>>,
    pub width: u16,
    pub height: u16,
}

/// The styled lines of the delete confirmation: the quoted branch in
/// `accent`, the two keys in `hint`.
pub open spec fn confirm_delete_spans<S>(
    branch_name: Seq<char>,
    has_session: bool,
    confirm_key: Seq<char>,
    cancel_key: Seq<char>,
    accent: S,
    hint: S,
) -> Seq<Seq<SpanView<S>>> {
    let action = if has_session {
        "Delete worktree and kill tmux session for branch "@
    } else {
        "Delete worktree for branch "@
    };
    seq![
        seq![(action, None), (seq!['"'] + branch_name + seq!['"'], Some(accent)), (seq!['?'], None)],
        seq![(Seq::<char>::empty(), None)],
        seq![
            ("confirm ("@, None),
            (confirm_key, Some(hint)),
            (")"@, None),
            (" / "@, None),
            ("cancel ("@, None),
            (cancel_key, Some(hint)),
            (")"@, None),
        ],
    ]
}

/// A span of plain text.
fn plain<S>(text: &str) -> (r: StyledSpan<S>)
    ensures
        r@ == (text@, None::<S>),
{
    StyledSpan { text: owned(text), style: None }
}

/// The lines of the delete confirmation: the question, an empty line, and
/// the keys that confirm and cancel.
pub open spec fn confirm_delete_lines(
    branch_name: Seq<char>,
    has_session: bool,
    confirm_key: Seq<char>,
    cancel_key: Seq<char>,
) -> Seq<Seq<char>> {
    let action = if has_session {
        "Delete worktree and kill tmux session for branch "@
    } else {
        "Delete worktree for branch "@
    };
    seq![
        action + seq!['"'] + branch_name + seq!['"', '?'],
        Seq::empty(),
        "confirm ("@ + confirm_key + ")"@ + " / "@ + "cancel ("@ + cancel_key + ")"@,
    ]
}

/// Lays out the dialog that confirms deleting the worktree of
/// `branch_name`: its lines, 1 cell of padding all round, and its size.
pub fn confirm_delete_dialog_layout<S: Copy>(
    branch_name: &str,
    has_session: bool,
    confirm_key: &str,
    cancel_key: &str,
    accent: S,
    hint: S,
    terminal_width: u16,
) -> (r: ConfirmDeleteDialogLayout<S>)
    requires
        dialog_size_spec(
            confirm_delete_lines(branch_name@, has_session, confirm_key@, cancel_key@),
            Padding { left: 1, right: 1, top: 1, bottom: 1 },
            terminal_width as int,
        ).1 <= u16::MAX,
    ensures
        r.text.deep_view() == confirm_delete_lines(branch_name@, has_session, confirm_key@, cancel_key@),
        r.styled@.map_values(|l: Vec<StyledSpan<S>>| span_views(l@)) == confirm_delete_spans(
            branch_name@,
            has_session,
            confirm_key@,
            cancel_key@,
            accent,
            hint,
        ),
        (r.width as int, r.height as int) == dialog_size_spec(
            confirm_delete_lines(branch_name@, has_session, confirm_key@, cancel_key@),
            Padding { left: 1, right: 1, top: 1, bottom: 1 },
            terminal_width as int,
        ),
{
    let mut message = String::new();
    if has_session {
        push_str(&mut message, "Delete worktree and kill tmux session for branch ");
    } else {
        push_str(&mut message, "Delete worktree for branch ");
    }
    message.push('"');
    push_str(&mut message, branch_name);
    message.push('"');
    message.push('?');
    let mut hints = String::new();
    push_str(&mut hints, "confirm (");
    push_str(&mut hints, confirm_key);
    push_str(&mut hints, ")");
    push_str(&mut hints, " / ");
    push_str(&mut hints, "cancel (");
    push_str(&mut hints, cancel_key);
    push_str(&mut hints, ")");
    let ghost want = confirm_delete_lines(branch_name@, has_session, confirm_key@, cancel_key@);
    assert(message@ =~= want[0]);
    assert(hints@ =~= want[2]);
    let mut lines: Vec<String> = Vec::new();
    lines.push(message);
    lines.push(String::new());
    lines.push(hints);
    assert(lines.deep_view() =~= confirm_delete_lines(branch_name@, has_session, confirm_key@, cancel_key@));
    let d = Dialog::new(lines).padding(Padding::uniform(1));
    let (width, height) = d.size(terminal_width);
    let styled = confirm_delete_styled(branch_name, has_session, confirm_key, cancel_key, accent, hint);
    ConfirmDeleteDialogLayout { text: d.lines, styled, width, height }
}

/// The styled lines of the delete confirmation.
fn confirm_delete_styled<S: Copy>(
    branch_name: &str,
    has_session: bool,
    confirm_key: &str,
    cancel_key: &str,
    accent: S,
    hint: S,
) -> (r: Vec<Vec<StyledSpan<S>>>)
    ensures
        r@.map_values(|l: Vec<StyledSpan<S>>| span_views(l@)) == confirm_delete_spans(
            branch_name@,
            has_session,
            confirm_key@,
            cancel_key@,
            accent,
            hint,
        ),
{
    let action = if has_session {
        plain("Delete worktree and kill tmux session for branch ")
    } else {
        plain("Delete worktree for branch ")
    };
    let mut quoted = String::new();
    quoted.push('"');
    push_str(&mut quoted, branch_name);
    quoted.push('"');
    assert(quoted@ =~= seq!['"'] + branch_name@ + seq!['"']);
    let mut first: Vec<StyledSpan<S>> = Vec::new();
    first.push(action);
    first.push(StyledSpan { text: quoted, style: Some(accent) });
    first.push(plain("?"));
    let mut second: Vec<StyledSpan<S>> = Vec::new();
    second.push(StyledSpan { text: String::new(), style: None });
    let mut third: Vec<StyledSpan<S>> = Vec::new();
    third.push(plain("confirm ("));
    third.push(StyledSpan { text: owned(confirm_key), style: Some(hint) });
    third.push(plain(")"));
    third.push(plain(" / "));
    third.push(plain("cancel ("));
    third.push(StyledSpan { text: owned(cancel_key), style: Some(hint) });
    third.push(plain(")"));
    proof {
        reveal_strlit("?");
        assert("?"@ =~= seq!['?']);
    }
    let ghost want = confirm_delete_spans(branch_name@, has_session, confirm_key@, cancel_key@, accent, hint);
    assert(first@[0]@ == want[0][0]);
    assert(first@[1]@ == want[0][1]);
    assert(first@[2]@ == want[0][2]);
    assert(span_views(first@) =~= want[0]);
    assert(span_views(second@) =~= want[1]);
    assert(span_views(third@) =~= want[2]);
    let mut r: Vec<Vec<StyledSpan<S>>> = Vec::new();
    r.push(first);
    r.push(second);
    r.push(third);
    assert(r@.map_values(|l: Vec<StyledSpan<S>>| span_views(l@)) =~= want);
    r
}

} // verus!
