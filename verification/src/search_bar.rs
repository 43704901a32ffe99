//! The part of a search input that fits in the search bar: the visible byte
//! range of the text and the column of the cursor, scrolled so that the
//! cursor stays in view. Text is measured in grapheme clusters
//! (`unicode_segmentation`) and display columns (`unicode_width`).
use vstd::prelude::*;
use unicode_segmentation::UnicodeSegmentation;
use unicode_width::UnicodeWidthStr;
use crate::text::{byte_len, utf8_len};

verus! {

/// The byte range of the text to draw and the cursor's column inside it.
#[derive(Clone, Copy, Debug, PartialEq, Eq)]
pub struct VisibleSlice {
    pub start: usize,
    pub end: usize,
    pub cursor_col: u16,
}

/// The extended grapheme clusters of a text, in order.
pub uninterp spec fn grapheme_clusters(text: Seq<char>) -> Seq<Seq<char>>;

/// The display width in columns of a text (`UnicodeWidthStr::width`).
pub uninterp spec fn display_width(text: Seq<char>) -> usize;

/// All pieces joined in order.
pub open spec fn concat_all(pieces: Seq<Seq<char>>) -> Seq<char>
    decreases pieces.len(),
{
    if pieces.len() == 0 {
        Seq::empty()
    } else {
        concat_all(pieces.drop_last()) + pieces.last()
    }
}

/// Byte offset of each cluster: the UTF-8 length of the clusters before it.
pub open spec fn cluster_offsets(pieces: Seq<Seq<char>>) -> Seq<int> {
    Seq::new(pieces.len(), |i: int| utf8_len(concat_all(pieces.take(i))) as int)
}

/// Calls `UnicodeSegmentation::grapheme_indices(text, true)` and copies each
/// cluster. Claimed: the clusters are `grapheme_clusters(text)`, none is
/// empty, together they spell the text, and each comes with the byte offset at
/// which it starts (the crate's iterator yields consecutive slices of the text
/// from its start to its end).
#[verifier::external_body]
fn grapheme_indices(text: &str) -> (r: Vec<(usize, String)>)
    ensures
        r@.map_values(|p: (usize, String)| p.1@) == grapheme_clusters(text@),
        concat_all(r@.map_values(|p: (usize, String)| p.1@)) == text@,
        forall|i: int| 0 <= i < r@.len() ==> (#[trigger] r@[i]).1@.len() > 0,
        forall|i: int| 0 <= i < r@.len() ==> #[trigger] r@[i].0 == cluster_offsets(grapheme_clusters(text@))[i],
{
    text.grapheme_indices(true).map(|(i, g)| (i, g.to_string())).collect()
}

/// Calls `UnicodeWidthStr::width`. Claimed: the result is `display_width` of
/// the text.
#[verifier::external_body]
pub(crate) fn str_width(text: &str) -> (r: usize)
    ensures
        r == display_width(text@),
{
    text.width()
}

/// Sum of the first `k` widths.
pub open spec fn width_sum(w: Seq<usize>, k: int) -> int
    decreases k,
{
    if k <= 0 {
        0
    } else {
        width_sum(w, k - 1) + w[k - 1]
    }
}

/// Column at which each item starts, and the total after the last.
pub open spec fn prefix_widths(w: Seq<usize>) -> Seq<int> {
    Seq::new(w.len() + 1, |k: int| width_sum(w, k))
}

/// Index of the last element that is at most `x`, or -1.
pub open spec fn last_at_most(s: Seq<int>, x: int) -> int
    decreases s.len(),
{
    if s.len() == 0 {
        -1
    } else if s.last() <= x {
        s.len() - 1
    } else {
        last_at_most(s.drop_last(), x)
    }
}

/// The visible slice for items starting at byte `offsets[i]` with display
/// width `widths[i]`, in a text of `text_len` bytes: the cursor sits at the
/// last item boundary at or before `cursor_pos`; the view starts at the last
/// item boundary at or before the column that keeps the cursor on the last
/// visible column (but before the final item), and ends after as many items as
/// fit in `max_width` columns.
pub open spec fn visible_slice_spec(
    offsets: Seq<int>,
    widths: Seq<usize>,
    text_len: int,
    cursor_pos: int,
    max_width: int,
) -> (int, int, int) {
    let n = widths.len() as int;
    let b = offsets.push(text_len);
    let pw = prefix_widths(widths);
    let cursor = if cursor_pos < text_len {
        cursor_pos
    } else {
        text_len
    };
    let bi = last_at_most(b, cursor);
    let cursor_col = pw[bi];
    let max_cursor_col = max_width - 1;
    let scroll = if cursor_col > max_cursor_col {
        cursor_col - max_cursor_col
    } else {
        0
    };
    let s0 = last_at_most(pw, scroll);
    let si = if s0 >= n {
        n - 1
    } else {
        s0
    };
    let ei = last_at_most(pw, pw[si] + max_width);
    let col = if cursor_col > pw[si] {
        cursor_col - pw[si]
    } else {
        0
    };
    (b[si], b[ei], if col < max_cursor_col {
        col
    } else {
        max_cursor_col
    })
}

proof fn lemma_last_at_most_bounds(s: Seq<int>, x: int)
    ensures
        -1 <= last_at_most(s, x) < s.len(),
        last_at_most(s, x) >= 0 ==> s[last_at_most(s, x)] <= x,
        forall|k: int| 0 <= k < s.len() && s[k] <= x ==> k <= last_at_most(s, x),
    decreases s.len(),
{
    if s.len() > 0 && !(s.last() <= x) {
        lemma_last_at_most_bounds(s.drop_last(), x);
        assert forall|k: int| 0 <= k < s.len() && s[k] <= x implies k <= last_at_most(s, x) by {
            if k < s.len() - 1 {
                assert(s.drop_last()[k] == s[k]);
            }
        }
    }
}

proof fn lemma_width_sum_bound(w: Seq<usize>, k: int)
    requires
        0 <= k <= w.len(),
    ensures
        0 <= width_sum(w, k) <= k * 0xFFFF_FFFF_FFFF_FFFFint,
    decreases k,
{
    if k > 0 {
        lemma_width_sum_bound(w, k - 1);
        assert(w[k - 1] <= 0xFFFF_FFFF_FFFF_FFFFint);
    }
}

/// Index of the last element of `s` that is at most `x`, or -1 (as `None`).
fn last_index_at_most(s: &Vec<u128>, x: u128, Ghost(m): Ghost<Seq<int>>) -> (r: Option<usize>)
    requires
        m.len() == s@.len(),
        forall|j: int| 0 <= j < m.len() ==> m[j] == s@[j] as int,
    ensures
        match r {
            Some(k) => last_at_most(m, x as int) == k,
            None => last_at_most(m, x as int) == -1,
        },
{
    let mut r: Option<usize> = None;
    let mut k: usize = 0;
    while k < s.len()
        invariant
            k <= s.len() == m.len(),
            forall|j: int| 0 <= j < m.len() ==> m[j] == s@[j] as int,
            match r {
                Some(j) => last_at_most(m.take(k as int), x as int) == j,
                None => last_at_most(m.take(k as int), x as int) == -1,
            },
        decreases s.len() - k,
    {
        assert(m.take(k + 1).drop_last() =~= m.take(k as int));
        assert(m.take(k + 1).last() == s@[k as int] as int);
        if s[k] <= x {
            r = Some(k);
        }
        k = k + 1;
    }
    assert(m.take(s.len() as int) =~= m);
    r
}

/// The visible slice for items starting at byte offsets `offsets` with
/// display widths `widths`, in a text of `text_len` bytes.
pub fn visible_slice_in(
    offsets: &Vec<usize>,
    widths: &Vec<usize>,
    text_len: usize,
    cursor_pos: usize,
    max_width: u16,
) -> (r: VisibleSlice)
    requires
        offsets.len() == widths.len(),
        offsets.len() > 0,
        offsets[0] == 0,
        max_width > 0,
    ensures
        ({
            let (start, end, col) = visible_slice_spec(
                offsets@.map_values(|o: usize| o as int),
                widths@,
                text_len as int,
                cursor_pos as int,
                max_width as int,
            );
            r.start == start && r.end == end && r.cursor_col == col
        }),
{
    let n = widths.len();
    let ghost ws = widths@;
    let ghost bs = offsets@.map_values(|o: usize| o as int).push(text_len as int);
    let ghost pws = prefix_widths(ws);
    // boundaries: offsets followed by the text length
    let mut b: Vec<u128> = Vec::new();
    let mut i: usize = 0;
    while i < n
        invariant
            i <= n == offsets.len() == widths.len(),
            bs == offsets@.map_values(|o: usize| o as int).push(text_len as int),
            b@.len() == i,
            forall|j: int| 0 <= j < i ==> b@[j] as int == bs[j] && b@[j] <= usize::MAX,
        decreases n - i,
    {
        b.push(offsets[i] as u128);
        i = i + 1;
    }
    b.push(text_len as u128);
    assert(forall|j: int| 0 <= j <= n ==> b@[j] as int == bs[j] && b@[j] <= usize::MAX);
    // prefix widths
    let mut pw: Vec<u128> = Vec::new();
    pw.push(0);
    let mut acc: u128 = 0;
    let mut k: usize = 0;
    while k < n
        invariant
            k <= n == widths.len(),
            ws == widths@,
            pws == prefix_widths(ws),
            acc == width_sum(ws, k as int),
            pw@.len() == k + 1,
            forall|j: int| 0 <= j <= k ==> pw@[j] as int == pws[j],
            b@.len() == n + 1,
            forall|j: int| 0 <= j <= n ==> b@[j] as int == bs[j] && b@[j] <= usize::MAX,
        decreases n - k,
    {
        proof {
            lemma_width_sum_bound(ws, k + 1);
            assert((k + 1) * 0xFFFF_FFFF_FFFF_FFFFint <= 0xFFFF_FFFF_FFFF_FFFFint * 0xFFFF_FFFF_FFFF_FFFFint) by (nonlinear_arith)
                requires
                    k + 1 <= 0xFFFF_FFFF_FFFF_FFFFint,
            ;
        }
        acc = acc + widths[k] as u128;
        pw.push(acc);
        k = k + 1;
    }

    let cursor: u128 = if cursor_pos < text_len {
        cursor_pos as u128
    } else {
        text_len as u128
    };
    let bi = last_index_at_most(&b, cursor, Ghost(bs));
    proof {
        lemma_last_at_most_bounds(bs, cursor as int);
        assert(bs[0] == 0);
    }
    let bi = bi.unwrap();
    let cursor_col = pw[bi];
    let max_cursor_col: u128 = max_width as u128 - 1;
    let scroll: u128 = if cursor_col > max_cursor_col {
        cursor_col - max_cursor_col
    } else {
        0
    };
    let s0 = last_index_at_most(&pw, scroll, Ghost(pws));
    proof {
        lemma_last_at_most_bounds(pws, scroll as int);
        assert(pws[0] == 0);
    }
    let s0 = s0.unwrap();
    let si = if s0 >= n {
        n - 1
    } else {
        s0
    };
    proof {
        lemma_width_sum_bound(ws, si as int);
        assert(si * 0xFFFF_FFFF_FFFF_FFFFint <= 0xFFFF_FFFF_FFFF_FFFFint * 0xFFFF_FFFF_FFFF_FFFFint) by (nonlinear_arith)
            requires
                si <= 0xFFFF_FFFF_FFFF_FFFFint,
        ;
    }
    assert(0xFFFF_FFFF_FFFF_FFFFint * 0xFFFF_FFFF_FFFF_FFFFint + 0xFFFF < 0x1_0000_0000_0000_0000_0000_0000_0000_0000int);
    assert(pw@[si as int] as int == pws[si as int]);
    let threshold: u128 = pw[si] + max_width as u128;
    let ei = last_index_at_most(&pw, threshold, Ghost(pws));
    proof {
        lemma_last_at_most_bounds(pws, threshold as int);
    }
    let ei = ei.unwrap();
    let col: u128 = if cursor_col > pw[si] {
        cursor_col - pw[si]
    } else {
        0
    };
    let col = if col < max_cursor_col {
        col
    } else {
        max_cursor_col
    };
    VisibleSlice { start: b[si] as usize, end: b[ei] as usize, cursor_col: col as u16 }
}

/// The visible part of `text` in a bar `max_width` columns wide, with the
/// cursor at byte `cursor_pos`: nothing for an empty text or bar, else the
/// slice of `visible_slice_in` over the text's grapheme clusters.
pub fn visible_slice(text: &str, cursor_pos: usize, max_width: u16) -> (r: VisibleSlice)
    ensures
        max_width == 0 || text@.len() == 0 ==> r == (VisibleSlice { start: 0, end: 0, cursor_col: 0 }),
        max_width != 0 && text@.len() != 0 ==> ({
            let gs = grapheme_clusters(text@);
            let (start, end, col) = visible_slice_spec(
                cluster_offsets(gs),
                gs.map_values(|g: Seq<char>| display_width(g)),
                utf8_len(text@) as int,
                cursor_pos as int,
                max_width as int,
            );
            r.start == start && r.end == end && r.cursor_col == col
        }),
{
    if max_width == 0 || text.is_empty() {
        return VisibleSlice { start: 0, end: 0, cursor_col: 0 };
    }
    let graphemes = grapheme_indices(text);
    let ghost gs = grapheme_clusters(text@);
    let mut offsets: Vec<usize> = Vec::new();
    let mut widths: Vec<usize> = Vec::new();
    let mut i: usize = 0;
    while i < graphemes.len()
        invariant
            i <= graphemes.len(),
            graphemes@.map_values(|p: (usize, String)| p.1@) == gs,
            forall|j: int| 0 <= j < graphemes@.len() ==> #[trigger] graphemes@[j].0 == cluster_offsets(gs)[j],
            offsets@.len() == i,
            widths@.len() == i,
            forall|j: int| 0 <= j < i ==> offsets@[j] as int == cluster_offsets(gs)[j],
            forall|j: int| 0 <= j < i ==> widths@[j] == display_width(gs[j]),
        decreases graphemes.len() - i,
    {
        let w = str_width(graphemes[i].1.as_str());
        assert(graphemes@.map_values(|p: (usize, String)| p.1@)[i as int] == graphemes@[i as int].1@);
        offsets.push(graphemes[i].0);
        widths.push(w);
        i = i + 1;
    }
    assert(offsets@.map_values(|o: usize| o as int) =~= cluster_offsets(gs));
    assert(widths@ =~= gs.map_values(|g: Seq<char>| display_width(g)));
    proof {
        // the text is not empty, so neither is its list of clusters
        if gs.len() == 0 {
            assert(concat_all(gs) =~= Seq::<char>::empty());
        }
        assert(gs.take(0) =~= Seq::<Seq<char>>::empty());
        assert(cluster_offsets(gs)[0] == 0);
    }
    let text_len = byte_len(text);
    visible_slice_in(&offsets, &widths, text_len, cursor_pos, max_width)
}

} // verus!
