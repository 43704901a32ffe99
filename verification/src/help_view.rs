//! The key-binding help overlay: its visual rows (section headers, blank
//! separators and binding rows) and the scrolling that keeps the selected
//! binding in view.
use vstd::prelude::*;
use crate::readme::replace_char_str;
use crate::search_filter::{grouped_by_section, section_key};
use crate::text::{chars_equal, chars_of, decimal, owned, pad_right, push_decimal, push_padded, push_str, replace_char};

verus! {

/// One visual row of the help list.
#[derive(Debug, Clone, PartialEq, Eq)]
pub enum HelpLayoutEntry {
    /// The heading of a section of bindings.
    SectionHeader(String),
    /// An empty row between two sections.
    Blank,
    /// The binding row with this index.
    Row(usize),
}

/// A visual row, as plain values.
pub enum HelpEntryView {
    SectionHeader(Seq<char>),
    Blank,
    Row(usize),
}

impl View for HelpLayoutEntry {
    type V = HelpEntryView;

    open spec fn view(&self) -> HelpEntryView {
        match self {
            HelpLayoutEntry::SectionHeader(s) => HelpEntryView::SectionHeader(s@),
            HelpLayoutEntry::Blank => HelpEntryView::Blank,
            HelpLayoutEntry::Row(i) => HelpEntryView::Row(*i),
        }
    }
}

/// The rows, and the section of the last row, after laying out the given
/// binding rows (indices into `sections`, the section of each binding; an
/// index with no binding is skipped). A section's heading comes before its
/// first row, and a blank row between sections.
pub open spec fn layout_scan(rows: Seq<usize>, sections: Seq<Seq<char>>) -> (Seq<HelpEntryView>, Option<Seq<char>>)
    decreases rows.len(),
{
    if rows.len() == 0 {
        (Seq::empty(), None)
    } else {
        let (es, cur) = layout_scan(rows.drop_last(), sections);
        let idx = rows.last();
        if idx >= sections.len() {
            (es, cur)
        } else {
            let sec = sections[idx as int];
            if cur == Some(sec) {
                (es.push(HelpEntryView::Row(idx)), cur)
            } else {
                let sep = if cur is Some {
                    seq![HelpEntryView::Blank]
                } else {
                    Seq::empty()
                };
                ((es + sep).push(HelpEntryView::SectionHeader(sec)).push(HelpEntryView::Row(idx)), Some(sec))
            }
        }
    }
}

/// The row indices of the filtered bindings.
pub open spec fn filtered_rows(filtered: Seq<(usize, i64)>) -> Seq<usize> {
    filtered.map_values(|p: (usize, i64)| p.0)
}

/// The visual rows of the help list.
pub open spec fn help_layout_spec(filtered: Seq<(usize, i64)>, sections: Seq<Seq<char>>) -> Seq<HelpEntryView> {
    layout_scan(filtered_rows(filtered), sections).0
}

/// Lays out the filtered bindings under their section headings.
pub fn compute_help_layout(filtered: &[(usize, i64)], sections: &Vec<String>) -> (r: Vec<HelpLayoutEntry>)
    ensures
        r@.map_values(|e: HelpLayoutEntry| e@) == help_layout_spec(filtered@, sections.deep_view()),
{
    let ghost rows = filtered_rows(filtered@);
    let ghost secs = sections.deep_view();
    let mut entries: Vec<HelpLayoutEntry> = Vec::new();
    let mut current: Option<Vec<char>> = None;
    let mut i: usize = 0;
    while i < filtered.len()
        invariant
            i <= filtered.len(),
            rows == filtered_rows(filtered@),
            secs == sections.deep_view(),
            entries@.map_values(|e: HelpLayoutEntry| e@) == layout_scan(rows.take(i as int), secs).0,
            (match current {
                Some(c) => Some(c@),
                None => None,
            }) == layout_scan(rows.take(i as int), secs).1,
        decreases filtered.len() - i,
    {
        let ghost before = entries@.map_values(|e: HelpLayoutEntry| e@);
        proof {
            assert(rows.take(i + 1).drop_last() =~= rows.take(i as int));
            assert(rows.take(i + 1).last() == filtered@[i as int].0);
        }
        let (idx, _) = filtered[i];
        if idx < sections.len() {
            let sec = chars_of(sections[idx].as_str());
            assert(sec@ == secs[idx as int]);
            let same = match &current {
                Some(c) => chars_equal(c, &sec),
                None => false,
            };
            if !same {
                if current.is_some() {
                    entries.push(HelpLayoutEntry::Blank);
                }
                entries.push(HelpLayoutEntry::SectionHeader(sections[idx].clone()));
                current = Some(sec);
            }
            entries.push(HelpLayoutEntry::Row(idx));
            proof {
                let st = layout_scan(rows.take(i as int), secs);
                if same {
                    assert(entries@.map_values(|e: HelpLayoutEntry| e@) =~= before.push(HelpEntryView::Row(idx)));
                } else if st.1 is Some {
                    assert(entries@.map_values(|e: HelpLayoutEntry| e@) =~= (before + seq![HelpEntryView::Blank]).push(
                        HelpEntryView::SectionHeader(secs[idx as int]),
                    ).push(HelpEntryView::Row(idx)));
                } else {
                    assert(entries@.map_values(|e: HelpLayoutEntry| e@) =~= (before + Seq::<HelpEntryView>::empty()).push(
                        HelpEntryView::SectionHeader(secs[idx as int]),
                    ).push(HelpEntryView::Row(idx)));
                }
            }
        }
        i = i + 1;
    }
    assert(rows.take(filtered.len() as int) =~= rows);
    entries
}

/// Positions of the binding rows among the visual rows, in order.
pub open spec fn row_positions(layout: Seq<HelpEntryView>) -> Seq<usize>
    decreases layout.len(),
{
    if layout.len() == 0 {
        Seq::empty()
    } else if layout.last() is Row {
        row_positions(layout.drop_last()).push((layout.len() - 1) as usize)
    } else {
        row_positions(layout.drop_last())
    }
}

/// The visual row of each binding row and the number of visual rows.
pub fn help_visual_metrics(filtered: &[(usize, i64)], sections: &Vec<String>) -> (r: (Vec<usize>, usize))
    ensures
        r.0@ == row_positions(help_layout_spec(filtered@, sections.deep_view())),
        r.1 == help_layout_spec(filtered@, sections.deep_view()).len(),
{
    let layout = compute_help_layout(filtered, sections);
    let ghost lv = layout@.map_values(|e: HelpLayoutEntry| e@);
    let mut positions: Vec<usize> = Vec::new();
    let mut k: usize = 0;
    while k < layout.len()
        invariant
            k <= layout.len(),
            lv == layout@.map_values(|e: HelpLayoutEntry| e@),
            positions@ == row_positions(lv.take(k as int)),
        decreases layout.len() - k,
    {
        assert(lv.take(k + 1).drop_last() =~= lv.take(k as int));
        assert(lv.take(k + 1).last() == layout@[k as int]@);
        match &layout[k] {
            HelpLayoutEntry::Row(_) => positions.push(k),
            _ => {},
        }
        k = k + 1;
    }
    assert(lv.take(layout.len() as int) =~= lv);
    (positions, layout.len())
}

/// `a + b`, at most `usize::MAX` (`usize::saturating_add`).
pub open spec fn sat_add(a: int, b: int) -> int {
    if a + b > usize::MAX {
        usize::MAX as int
    } else {
        a + b
    }
}

/// The scroll offset, in visual rows, that keeps the selected binding in
/// view: the current offset while the selection stays between the second
/// row and the second-to-last row of the viewport (when it has more than two
/// rows), else the nearest offset that brings it there, never past the end.
pub open spec fn help_scroll_spec(
    positions: Seq<usize>,
    total: int,
    len: int,
    selected: Option<usize>,
    scroll_offset: int,
    viewport_rows: int,
) -> int {
    if len == 0 {
        0
    } else {
        let sel = match selected {
            Some(s) => if s < len - 1 {
                s as int
            } else {
                len - 1
            },
            None => 0,
        };
        let sel_visual = if sel < positions.len() {
            positions[sel] as int
        } else {
            0
        };
        let vp = if viewport_rows > 1 {
            viewport_rows
        } else {
            1
        };
        let max_off = if total > vp {
            total - vp
        } else {
            0
        };
        let cur = if scroll_offset < max_off {
            scroll_offset
        } else {
            max_off
        };
        let top = if vp > 2 {
            1int
        } else {
            0
        };
        let bottom = if vp > 2 {
            vp - 2
        } else {
            0
        };
        let desired = if sel_visual < sat_add(cur, top) {
            if sel_visual > top {
                sel_visual - top
            } else {
                0
            }
        } else if sel_visual > sat_add(cur, bottom) {
            if sel_visual > bottom {
                sel_visual - bottom
            } else {
                0
            }
        } else {
            cur
        };
        if desired < max_off {
            desired
        } else {
            max_off
        }
    }
}

/// The new scroll offset of the help list for a viewport of `viewport_rows`
/// rows, from the visual positions of its binding rows, its number of
/// visual rows, its number of filtered bindings, the selected binding and
/// the current offset.
pub fn help_scroll_offset(
    positions: &Vec<usize>,
    total: usize,
    len: usize,
    selected: Option<usize>,
    scroll_offset: usize,
    viewport_rows: usize,
) -> (r: usize)
    ensures
        r == help_scroll_spec(positions@, total as int, len as int, selected, scroll_offset as int, viewport_rows as int),
{
    if len == 0 {
        return 0;
    }
    let sel = match selected {
        Some(s) => if s < len - 1 {
            s
        } else {
            len - 1
        },
        None => 0,
    };
    let sel_visual = if sel < positions.len() {
        positions[sel]
    } else {
        0
    };
    let vp = if viewport_rows > 1 {
        viewport_rows
    } else {
        1
    };
    let max_off = if total > vp {
        total - vp
    } else {
        0
    };
    let cur = if scroll_offset < max_off {
        scroll_offset
    } else {
        max_off
    };
    let top: usize = if vp > 2 {
        1
    } else {
        0
    };
    let bottom = if vp > 2 {
        vp - 2
    } else {
        0
    };
    let desired = if sel_visual < cur.saturating_add(top) {
        if sel_visual > top {
            sel_visual - top
        } else {
            0
        }
    } else if sel_visual > cur.saturating_add(bottom) {
        if sel_visual > bottom {
            sel_visual - bottom
        } else {
            0
        }
    } else {
        cur
    };
    if desired < max_off {
        desired
    } else {
        max_off
    }
}

/// The new scroll offset of the help list after the selection or the
/// filter changed.
pub fn update_help_scroll_offset(
    filtered: &[(usize, i64)],
    sections: &Vec<String>,
    selected: Option<usize>,
    scroll_offset: usize,
    viewport_rows: usize,
) -> (r: usize)
    ensures
        ({
            let layout = help_layout_spec(filtered@, sections.deep_view());
            r == help_scroll_spec(
                row_positions(layout),
                layout.len() as int,
                filtered@.len() as int,
                selected,
                scroll_offset as int,
                viewport_rows as int,
            )
        }),
{
    let (positions, total) = help_visual_metrics(filtered, sections);
    help_scroll_offset(&positions, total, filtered.len(), selected, scroll_offset, viewport_rows)
}

/// Law: when the visual position of the selected binding lies inside the
/// list, the new offset shows it: it is at most that position and the
/// viewport reaches past it; and the offset never scrolls past the end.
pub proof fn lemma_help_scroll_keeps_selection_visible(
    positions: Seq<usize>,
    total: int,
    len: int,
    selected: Option<usize>,
    scroll_offset: int,
    viewport_rows: int,
)
    requires
        0 < len,
        len <= positions.len(),
        forall|k: int| 0 <= k < positions.len() ==> #[trigger] positions[k] < total,
        0 <= scroll_offset,
        0 <= viewport_rows,
        total <= usize::MAX,
    ensures
        ({
            let r = help_scroll_spec(positions, total, len, selected, scroll_offset, viewport_rows);
            let sel = match selected {
                Some(s) => if s < len - 1 {
                    s as int
                } else {
                    len - 1
                },
                None => 0,
            };
            let vp = if viewport_rows > 1 {
                viewport_rows
            } else {
                1
            };
            &&& 0 <= r <= positions[sel]
            &&& positions[sel] < r + vp
            &&& (total > vp ==> r <= total - vp)
            &&& (total <= vp ==> r == 0)
        }),
{
    let sel = match selected {
        Some(s) => if s < len - 1 {
            s as int
        } else {
            len - 1
        },
        None => 0,
    };
    assert(positions[sel] < total);
}

/// Law: the binding rows appear among the visual rows in increasing
/// positions, each position holds a binding row, and every position is a
/// visual row.
pub proof fn lemma_row_positions(layout: Seq<HelpEntryView>)
    requires
        layout.len() <= usize::MAX,
    ensures
        forall|k: int| 0 <= k < row_positions(layout).len() ==> #[trigger] row_positions(layout)[k] < layout.len(),
        forall|k: int|
            0 <= k < row_positions(layout).len() ==> layout[#[trigger] row_positions(layout)[k] as int] is Row,
        forall|a: int, b: int|
            0 <= a < b < row_positions(layout).len() ==> #[trigger] row_positions(layout)[a] < #[trigger] row_positions(
                layout,
            )[b],
    decreases layout.len(),
{
    if layout.len() > 0 {
        let d = layout.drop_last();
        lemma_row_positions(d);
        let p = row_positions(d);
        let rp = row_positions(layout);
        assert forall|k: int| 0 <= k < p.len() implies layout[p[k] as int] == d[p[k] as int] by {}
        if layout.last() is Row {
            assert(rp == p.push((layout.len() - 1) as usize));
            assert forall|k: int| 0 <= k < rp.len() implies #[trigger] rp[k] < layout.len() && layout[rp[k] as int] is Row by {
                if k < p.len() {
                    assert(rp[k] == p[k]);
                }
            }
            assert forall|a: int, b: int| 0 <= a < b < rp.len() implies #[trigger] rp[a] < #[trigger] rp[b] by {
                if b < p.len() {
                    assert(rp[a] == p[a] && rp[b] == p[b]);
                } else {
                    assert(rp[a] == p[a]);
                }
            }
        } else {
            assert(rp == p);
        }
    }
}

/// Law: when every filtered binding exists, the scroll offset that
/// `update_help_scroll_offset` computes shows the selected binding (the last
/// one when the selection is past the end, the first when there is none),
/// and never scrolls past the end of the list.
pub proof fn lemma_update_help_scroll_shows_selection(
    filtered: Seq<(usize, i64)>,
    sections: Seq<Seq<char>>,
    selected: Option<usize>,
    scroll_offset: usize,
    viewport_rows: usize,
)
    requires
        filtered.len() > 0,
        forall|k: int| 0 <= k < filtered.len() ==> (#[trigger] filtered[k]).0 < sections.len(),
        help_layout_spec(filtered, sections).len() <= usize::MAX,
    ensures
        ({
            let layout = help_layout_spec(filtered, sections);
            let positions = row_positions(layout);
            let len = filtered.len() as int;
            let r = help_scroll_spec(
                positions,
                layout.len() as int,
                len,
                selected,
                scroll_offset as int,
                viewport_rows as int,
            );
            let sel = match selected {
                Some(s) => if s < len - 1 {
                    s as int
                } else {
                    len - 1
                },
                None => 0,
            };
            let vp = if viewport_rows > 1 {
                viewport_rows as int
            } else {
                1
            };
            &&& positions.len() == len
            &&& layout[positions[sel] as int] == HelpEntryView::Row(filtered[sel].0)
            &&& r <= positions[sel] < r + vp
        }),
{
    let rows = filtered_rows(filtered);
    assert forall|k: int| 0 <= k < rows.len() implies #[trigger] rows[k] < sections.len() by {
        assert(rows[k] == filtered[k].0);
    }
    lemma_rows_in_order_all(rows, sections);
    let layout = help_layout_spec(filtered, sections);
    lemma_row_positions(layout);
    let positions = row_positions(layout);
    let len = filtered.len() as int;
    let sel = match selected {
        Some(s) => if s < len - 1 {
            s as int
        } else {
            len - 1
        },
        None => 0,
    };
    lemma_help_scroll_keeps_selection_visible(
        positions,
        layout.len() as int,
        len,
        selected,
        scroll_offset as int,
        viewport_rows as int,
    );
}

proof fn lemma_push_non_row(s: Seq<HelpEntryView>, x: HelpEntryView)
    requires
        !(x is Row),
    ensures
        row_positions(s.push(x)) == row_positions(s),
        forall|i: int| 0 <= i < s.len() ==> #[trigger] s.push(x)[i] == s[i],
{
    assert(s.push(x).drop_last() =~= s);
}

proof fn lemma_push_row(s: Seq<HelpEntryView>, idx: usize)
    requires
        s.len() < usize::MAX,
    ensures
        row_positions(s.push(HelpEntryView::Row(idx))) == row_positions(s).push(s.len() as usize),
        forall|i: int| 0 <= i < s.len() ==> #[trigger] s.push(HelpEntryView::Row(idx))[i] == s[i],
{
    assert(s.push(HelpEntryView::Row(idx)).drop_last() =~= s);
}

/// Each binding row shows at its position, in the order of the rows.
proof fn lemma_rows_in_order_all(rows: Seq<usize>, sections: Seq<Seq<char>>)
    requires
        forall|k: int| 0 <= k < rows.len() ==> #[trigger] rows[k] < sections.len(),
        layout_scan(rows, sections).0.len() <= usize::MAX,
    ensures
        row_positions(layout_scan(rows, sections).0).len() == rows.len(),
        forall|k: int|
            0 <= k < rows.len() ==> layout_scan(rows, sections).0[#[trigger] row_positions(
                layout_scan(rows, sections).0,
            )[k] as int] == HelpEntryView::Row(rows[k]),
    decreases rows.len(),
{
    if rows.len() > 0 {
        let d = rows.drop_last();
        assert forall|k: int| 0 <= k < d.len() implies #[trigger] d[k] < sections.len() by {
            assert(d[k] == rows[k]);
        }
        let (es, cur) = layout_scan(d, sections);
        let idx = rows.last();
        assert(idx == rows[rows.len() - 1]);
        let sec = sections[idx as int];
        let full = layout_scan(rows, sections).0;
        let mid = if cur == Some(sec) {
            es
        } else if cur is Some {
            es.push(HelpEntryView::Blank).push(HelpEntryView::SectionHeader(sec))
        } else {
            es.push(HelpEntryView::SectionHeader(sec))
        };
        if cur != Some(sec) {
            if cur is Some {
                assert(es + seq![HelpEntryView::Blank] =~= es.push(HelpEntryView::Blank));
            } else {
                assert(es + Seq::<HelpEntryView>::empty() =~= es);
            }
        }
        assert(full == mid.push(HelpEntryView::Row(idx)));
        assert(es.len() <= mid.len() < full.len());
        lemma_rows_in_order_all(d, sections);
        let pe = row_positions(es);
        if cur != Some(sec) {
            if cur is Some {
                lemma_push_non_row(es, HelpEntryView::Blank);
                lemma_push_non_row(es.push(HelpEntryView::Blank), HelpEntryView::SectionHeader(sec));
                assert forall|i: int| 0 <= i < es.len() implies #[trigger] mid[i] == es[i] by {
                    assert(es.push(HelpEntryView::Blank)[i] == es[i]);
                }
            } else {
                lemma_push_non_row(es, HelpEntryView::SectionHeader(sec));
            }
        }
        assert(row_positions(mid) == pe);
        lemma_push_row(mid, idx);
        let pf = row_positions(full);
        assert(pf == pe.push(mid.len() as usize));
        assert forall|k: int| 0 <= k < rows.len() implies full[#[trigger] pf[k] as int] == HelpEntryView::Row(rows[k]) by {
            if k < d.len() {
                assert(pf[k] == pe[k]);
                lemma_row_positions(es);
                assert(pe[k] < es.len());
                assert(full[pe[k] as int] == mid[pe[k] as int]);
                assert(mid[pe[k] as int] == es[pe[k] as int]);
                assert(d[k] == rows[k]);
            } else {
                assert(pf[k] == mid.len());
            }
        }
    }
}

/// The heading shown for a section: its name with `_` shown as spaces,
/// then a colon.
pub open spec fn section_heading_spec(name: Seq<char>) -> Seq<char> {
    replace_char(name, '_', seq![' ']) + seq![':']
}

/// The heading shown for a section.
pub fn section_heading(name: &str) -> (r: String)
    ensures
        r@ == section_heading_spec(name@),
{
    let mut r = replace_char_str(name, '_', " ");
    proof {
        reveal_strlit(" ");
        assert(" "@ =~= seq![' ']);
    }
    r.push(':');
    r
}

/// The three cells of a binding row: the key padded to 13 columns, the
/// description after a space, and the command in parentheses after two
/// spaces.
pub fn binding_row_texts(key_display: &str, description: &str, command: &str) -> (r: (String, String, String))
    ensures
        r.0@ == pad_right(key_display@, 13),
        r.1@ == seq![' '] + description@,
        r.2@ == "  ("@ + command@ + seq![')'],
{
    let mut key = String::new();
    push_padded(&mut key, key_display, 13);
    let mut desc = String::new();
    desc.push(' ');
    push_str(&mut desc, description);
    let mut cmd = owned("  (");
    push_str(&mut cmd, command);
    cmd.push(')');
    (key, desc, cmd)
}

/// A binding of the help overlay: its section's name, the keys, what the
/// command does, and the command's name.
pub struct HelpRow {
    pub section_name: String,
    pub key_display: String,
    pub description: String,
    pub command: String,
}

/// One line of the help list, as text.
#[derive(Debug, Clone, PartialEq, Eq)]
pub enum HelpItem {
    /// The message that no binding matches the search.
    NoMatches,
    /// An empty line between sections.
    Blank,
    /// A section's heading.
    Heading(String),
    /// A binding's three cells (see `binding_row_texts`).
    Binding(String, String, String),
}

/// A line of the help list, as plain values.
pub enum HelpItemView {
    NoMatches,
    Blank,
    Heading(Seq<char>),
    Binding(Seq<char>, Seq<char>, Seq<char>),
}

impl View for HelpItem {
    type V = HelpItemView;

    open spec fn view(&self) -> HelpItemView {
        match self {
            HelpItem::NoMatches => HelpItemView::NoMatches,
            HelpItem::Blank => HelpItemView::Blank,
            HelpItem::Heading(h) => HelpItemView::Heading(h@),
            HelpItem::Binding(k, d, c) => HelpItemView::Binding(k@, d@, c@),
        }
    }
}

/// The section name of each binding.
pub open spec fn section_names(rows: Seq<HelpRow>) -> Seq<Seq<char>> {
    rows.map_values(|r: HelpRow| r.section_name@)
}

/// The line shown for a visual row.
pub open spec fn item_of(e: HelpEntryView, rows: Seq<HelpRow>) -> HelpItemView {
    match e {
        HelpEntryView::SectionHeader(name) => HelpItemView::Heading(section_heading_spec(name)),
        HelpEntryView::Blank => HelpItemView::Blank,
        HelpEntryView::Row(i) => HelpItemView::Binding(
            pad_right(rows[i as int].key_display@, 13),
            seq![' '] + rows[i as int].description@,
            "  ("@ + rows[i as int].command@ + seq![')'],
        ),
    }
}

/// Every binding row of the layout names a binding that exists.
proof fn lemma_layout_rows_exist(rows: Seq<usize>, sections: Seq<Seq<char>>)
    ensures
        forall|k: int|
            0 <= k < layout_scan(rows, sections).0.len() ==> (#[trigger] layout_scan(rows, sections).0[k] matches HelpEntryView::Row(i) ==> i < sections.len()),
    decreases rows.len(),
{
    if rows.len() > 0 {
        lemma_layout_rows_exist(rows.drop_last(), sections);
        let (es, cur) = layout_scan(rows.drop_last(), sections);
        let idx = rows.last();
        if idx < sections.len() {
            let sep = if cur is Some {
                seq![HelpEntryView::Blank]
            } else {
                Seq::<HelpEntryView>::empty()
            };
            assert forall|k: int| 0 <= k < layout_scan(rows, sections).0.len() implies (
            #[trigger] layout_scan(rows, sections).0[k] matches HelpEntryView::Row(i) ==> i < sections.len()) by {
                if k < es.len() {
                    assert(layout_scan(rows, sections).0[k] == es[k]);
                }
            }
        }
    }
}

/// The lines of the help list and, for each shown binding, the line it is
/// on: the message that nothing matches when no binding is shown, else the
/// visual rows of `compute_help_layout` as text.
pub fn build_visible_items(filtered: &[(usize, i64)], rows: &[HelpRow]) -> (r: (Vec<HelpItem>, Vec<usize>))
    ensures
        filtered.len() == 0 ==> r.0@.map_values(|e: HelpItem| e@) == seq![HelpItemView::NoMatches] && r.1@.len()
            == 0,
        filtered.len() > 0 ==> ({
            let layout = help_layout_spec(filtered@, section_names(rows@));
            &&& r.0@.map_values(|e: HelpItem| e@) == layout.map_values(|e: HelpEntryView| item_of(e, rows@))
            &&& r.1@ == row_positions(layout)
        }),
{
    if filtered.len() == 0 {
        let items = vec![HelpItem::NoMatches];
        assert(items@.map_values(|e: HelpItem| e@) =~= seq![HelpItemView::NoMatches]);
        return (items, Vec::new());
    }
    let mut sections: Vec<String> = Vec::new();
    let mut j: usize = 0;
    while j < rows.len()
        invariant
            j <= rows.len(),
            sections.deep_view() =~= section_names(rows@.take(j as int)),
        decreases rows.len() - j,
    {
        sections.push(rows[j].section_name.clone());
        assert(section_names(rows@.take(j + 1)) =~= section_names(rows@.take(j as int)).push(rows@[j as int].section_name@));
        j = j + 1;
    }
    assert(rows@.take(rows.len() as int) =~= rows@);
    let layout = compute_help_layout(filtered, &sections);
    let ghost lv = layout@.map_values(|e: HelpLayoutEntry| e@);
    proof {
        lemma_layout_rows_exist(filtered_rows(filtered@), sections.deep_view());
    }
    let mut items: Vec<HelpItem> = Vec::new();
    let mut positions: Vec<usize> = Vec::new();
    let mut k: usize = 0;
    while k < layout.len()
        invariant
            k <= layout.len(),
            lv == layout@.map_values(|e: HelpLayoutEntry| e@),
            lv == help_layout_spec(filtered@, section_names(rows@)),
            sections.len() == rows.len(),
            forall|t: int| 0 <= t < lv.len() ==> (#[trigger] lv[t] matches HelpEntryView::Row(i) ==> i < rows.len()),
            items@.map_values(|e: HelpItem| e@) == lv.take(k as int).map_values(|e: HelpEntryView| item_of(e, rows@)),
            positions@ == row_positions(lv.take(k as int)),
        decreases layout.len() - k,
    {
        assert(lv.take(k + 1).drop_last() =~= lv.take(k as int));
        assert(lv.take(k + 1).last() == layout@[k as int]@);
        assert(lv[k as int] == layout@[k as int]@);
        let ghost before = items@.map_values(|e: HelpItem| e@);
        let item = match &layout[k] {
            HelpLayoutEntry::Blank => HelpItem::Blank,
            HelpLayoutEntry::SectionHeader(name) => HelpItem::Heading(section_heading(name.as_str())),
            HelpLayoutEntry::Row(i) => {
                let (a, b, c) = binding_row_texts(
                    rows[*i].key_display.as_str(),
                    rows[*i].description.as_str(),
                    rows[*i].command.as_str(),
                );
                HelpItem::Binding(a, b, c)
            },
        };
        match &layout[k] {
            HelpLayoutEntry::Row(_) => positions.push(k),
            _ => {},
        }
        assert(item@ == item_of(lv[k as int], rows@));
        let ghost iv = item@;
        items.push(item);
        assert(items@.map_values(|e: HelpItem| e@) =~= before.push(iv));
        assert(lv.take(k + 1).map_values(|e: HelpEntryView| item_of(e, rows@)) =~= lv.take(k as int).map_values(
            |e: HelpEntryView| item_of(e, rows@),
        ).push(item_of(lv[k as int], rows@)));
        k = k + 1;
    }
    assert(lv.take(layout.len() as int) =~= lv);
    (items, positions)
}

/// The title of the help list: the number of bindings shown.
pub fn help_title(count: usize) -> (t: String)
    ensures
        t@ == " "@ + decimal(count as nat) + " bindings (esc: close) "@,
{
    let mut t = owned(" ");
    push_decimal(&mut t, count);
    push_str(&mut t, " bindings (esc: close) ");
    t
}

/// The section headings among the visual rows, in order.
pub open spec fn headings(layout: Seq<HelpEntryView>) -> Seq<Seq<char>>
    decreases layout.len(),
{
    if layout.len() == 0 {
        Seq::empty()
    } else {
        match layout.last() {
            HelpEntryView::SectionHeader(h) => headings(layout.drop_last()).push(h),
            _ => headings(layout.drop_last()),
        }
    }
}

/// No heading occurs twice.
pub open spec fn distinct_headings(hs: Seq<Seq<char>>) -> bool {
    forall|i: int, j: int| 0 <= i < j < hs.len() ==> hs[i] != hs[j]
}

proof fn lemma_headings_push(l: Seq<HelpEntryView>, x: HelpEntryView)
    ensures
        headings(l.push(x)) == (match x {
            HelpEntryView::SectionHeader(h) => headings(l).push(h),
            _ => headings(l),
        }),
{
    assert(l.push(x).drop_last() =~= l);
}

/// Rows whose sections' indices never decrease along the list.
pub open spec fn rows_grouped(rows: Seq<usize>, section_index: Seq<usize>) -> bool {
    forall|a: int, b: int|
        0 <= a < b < rows.len() ==> section_index[#[trigger] rows[a] as int] <= section_index[#[trigger] rows[b] as int]
}

/// Two bindings have the same section name exactly when they have the same
/// section index.
pub open spec fn names_match_indices(sections: Seq<Seq<char>>, section_index: Seq<usize>) -> bool {
    forall|r1: int, r2: int|
        0 <= r1 < sections.len() && 0 <= r2 < sections.len() ==> ((#[trigger] sections[r1] == #[trigger] sections[r2])
            == (section_index[r1] == section_index[r2]))
}

proof fn lemma_grouped_rows_distinct_headings(rows: Seq<usize>, sections: Seq<Seq<char>>, section_index: Seq<usize>)
    requires
        rows.len() > 0,
        sections.len() == section_index.len(),
        forall|k: int| 0 <= k < rows.len() ==> #[trigger] rows[k] < sections.len(),
        names_match_indices(sections, section_index),
        rows_grouped(rows, section_index),
    ensures
        distinct_headings(headings(layout_scan(rows, sections).0)),
        layout_scan(rows, sections).1 == Some(sections[rows.last() as int]),
        forall|i: int|
            0 <= i < headings(layout_scan(rows, sections).0).len() ==> exists|k: int|
                0 <= k < rows.len() && sections[rows[k] as int] == #[trigger] headings(
                    layout_scan(rows, sections).0,
                )[i],
    decreases rows.len(),
{
    let d = rows.drop_last();
    let x = rows.last();
    assert(x == rows[rows.len() - 1]);
    let s = sections[x as int];
    let (es, cur) = layout_scan(d, sections);
    let full = layout_scan(rows, sections).0;
    if d.len() == 0 {
        assert(es =~= Seq::<HelpEntryView>::empty());
        assert(headings(es) =~= Seq::<Seq<char>>::empty());
        let e1 = es.push(HelpEntryView::SectionHeader(s));
        assert((es + Seq::<HelpEntryView>::empty()) =~= es);
        assert(full == e1.push(HelpEntryView::Row(x)));
        lemma_headings_push(es, HelpEntryView::SectionHeader(s));
        lemma_headings_push(e1, HelpEntryView::Row(x));
        assert(headings(full) =~= seq![s]);
        assert forall|i: int| 0 <= i < headings(full).len() implies exists|k: int|
            0 <= k < rows.len() && sections[rows[k] as int] == #[trigger] headings(full)[i] by {
            assert(sections[rows[0] as int] == headings(full)[i]);
        }
    } else {
        assert forall|k: int| 0 <= k < d.len() implies #[trigger] d[k] < sections.len() by {
            assert(d[k] == rows[k]);
        }
        assert forall|a: int, b: int| 0 <= a < b < d.len() implies section_index[#[trigger] d[a] as int]
            <= section_index[#[trigger] d[b] as int] by {
            assert(d[a] == rows[a] && d[b] == rows[b]);
        }
        lemma_grouped_rows_distinct_headings(d, sections, section_index);
        let hs = headings(es);
        let last = d.last();
        assert(last == rows[rows.len() - 2]);
        assert(cur == Some(sections[last as int]));
        if cur == Some(s) {
            lemma_headings_push(es, HelpEntryView::Row(x));
            assert(headings(full) == hs);
            assert forall|i: int| 0 <= i < headings(full).len() implies exists|k: int|
                0 <= k < rows.len() && sections[rows[k] as int] == #[trigger] headings(full)[i] by {
                let k = choose|k: int| 0 <= k < d.len() && sections[d[k] as int] == hs[i];
                assert(d[k] == rows[k]);
            }
        } else {
            let e0 = es.push(HelpEntryView::Blank);
            let e1 = e0.push(HelpEntryView::SectionHeader(s));
            assert(es + seq![HelpEntryView::Blank] =~= e0);
            assert(full == e1.push(HelpEntryView::Row(x)));
            lemma_headings_push(es, HelpEntryView::Blank);
            lemma_headings_push(e0, HelpEntryView::SectionHeader(s));
            lemma_headings_push(e1, HelpEntryView::Row(x));
            assert(headings(full) == hs.push(s));
            // The new heading differs from every earlier one.
            assert forall|i: int| 0 <= i < hs.len() implies hs[i] != s by {
                let k = choose|k: int| 0 <= k < d.len() && sections[d[k] as int] == hs[i];
                assert(d[k] == rows[k]);
                if hs[i] == s {
                    assert(section_index[rows[k] as int] == section_index[x as int]);
                    if k < d.len() - 1 {
                        assert(section_index[rows[k] as int] <= section_index[last as int]);
                    }
                    assert(section_index[last as int] <= section_index[x as int]);
                    assert(section_index[last as int] == section_index[x as int]);
                    assert(sections[last as int] == sections[x as int]);
                }
            }
            assert forall|i: int, j: int| 0 <= i < j < headings(full).len() implies headings(full)[i] != headings(full)[j] by {
                if j == hs.len() {
                    assert(headings(full)[j] == s);
                    assert(headings(full)[i] == hs[i]);
                } else {
                    assert(headings(full)[i] == hs[i] && headings(full)[j] == hs[j]);
                }
            }
            assert forall|i: int| 0 <= i < headings(full).len() implies exists|k: int|
                0 <= k < rows.len() && sections[rows[k] as int] == #[trigger] headings(full)[i] by {
                if i < hs.len() {
                    let k = choose|k: int| 0 <= k < d.len() && sections[d[k] as int] == hs[i];
                    assert(d[k] == rows[k]);
                    assert(headings(full)[i] == hs[i]);
                } else {
                    assert(headings(full)[i] == s);
                    assert(sections[rows[rows.len() - 1] as int] == s);
                }
            }
        }
    }
}

/// Law: when the filtered bindings are grouped by section (as
/// `apply_help_filter` leaves them) and section names and indices agree,
/// each section's heading appears once in the help list.
pub proof fn lemma_grouped_help_has_distinct_headings(
    filtered: Seq<(usize, i64)>,
    sections: Seq<Seq<char>>,
    section_index: Seq<usize>,
)
    requires
        sections.len() == section_index.len(),
        forall|k: int| 0 <= k < filtered.len() ==> (#[trigger] filtered[k]).0 < sections.len(),
        names_match_indices(sections, section_index),
        grouped_by_section(filtered, section_index),
    ensures
        distinct_headings(headings(help_layout_spec(filtered, sections))),
{
    let rows = filtered_rows(filtered);
    if rows.len() == 0 {
        assert(rows =~= Seq::<usize>::empty());
        assert(help_layout_spec(filtered, sections) =~= Seq::<HelpEntryView>::empty());
        assert(headings(help_layout_spec(filtered, sections)) =~= Seq::<Seq<char>>::empty());
    } else {
        assert forall|k: int| 0 <= k < rows.len() implies #[trigger] rows[k] < sections.len() by {
            assert(rows[k] == filtered[k].0);
        }
        assert forall|a: int, b: int| 0 <= a < b < rows.len() implies section_index[#[trigger] rows[a] as int]
            <= section_index[#[trigger] rows[b] as int] by {
            assert(rows[a] == filtered[a].0 && rows[b] == filtered[b].0);
            assert(section_key(filtered[a], section_index) <= section_key(filtered[b], section_index));
        }
        lemma_grouped_rows_distinct_headings(rows, sections, section_index);
    }
}

} // verus!
