//! Fuzzy filtering of the searchable lists of the `kiosk` interface: the
//! ranking of matches (best score first, then shorter, then alphabetical),
//! matches kept in the order of the list (sessions), and the selection that
//! survives a refresh of the list.
use vstd::prelude::*;
use crate::matching::{
    is_ranking, lemma_sorted_same_elements_equal, rank_matches,
    scores_of, skim_match_all, sorted_strictly, unranked, unranked_matches,
};
use crate::order::{chars_lt, lemma_text_lt_irreflexive, lemma_text_lt_total, lemma_text_lt_transitive, text_lt};
use crate::text::{byte_len, chars_equal, chars_of, push_str, utf8_len};

verus! {

/// `a` is listed before `b`: a higher score, or the same score and a
/// shorter item (in bytes), or the same score and length and an item that
/// comes first alphabetically, or the same item and a lower index.
pub open spec fn kiosk_before(a: (usize, i64), b: (usize, i64), items: Seq<Seq<char>>) -> bool {
    let ta = items[a.0 as int];
    let tb = items[b.0 as int];
    ||| a.1 > b.1
    ||| a.1 == b.1 && utf8_len(ta) < utf8_len(tb)
    ||| a.1 == b.1 && utf8_len(ta) == utf8_len(tb) && text_lt(ta, tb)
    ||| a.1 == b.1 && utf8_len(ta) == utf8_len(tb) && ta == tb && a.0 < b.0
}

/// `r` lists exactly the items that have a score, each with its score,
/// ordered by `kiosk_before`.
pub open spec fn is_kiosk_ranking(r: Seq<(usize, i64)>, scores: Seq<Option<i64>>, items: Seq<Seq<char>>) -> bool {
    &&& forall|k: int| 0 <= k < r.len() ==> (#[trigger] r[k]).0 < scores.len() && scores[r[k].0 as int] == Some(r[k].1)
    &&& forall|i: int| 0 <= i < scores.len() && #[trigger] scores[i] is Some ==> r.contains((i as usize, scores[i]->0))
    &&& forall|k1: int, k2: int| 0 <= k1 < k2 < r.len() ==> kiosk_before(#[trigger] r[k1], #[trigger] r[k2], items)
}

proof fn lemma_kiosk_before_facts(a: (usize, i64), b: (usize, i64), c: (usize, i64), items: Seq<Seq<char>>)
    ensures
        !kiosk_before(a, a, items),
        kiosk_before(a, b, items) ==> !kiosk_before(b, a, items),
        kiosk_before(a, b, items) && kiosk_before(b, c, items) ==> kiosk_before(a, c, items),
        a.0 != b.0 ==> kiosk_before(a, b, items) || kiosk_before(b, a, items),
{
    let ta = items[a.0 as int];
    let tb = items[b.0 as int];
    let tc = items[c.0 as int];
    lemma_text_lt_irreflexive(ta);
    if text_lt(ta, tb) && text_lt(tb, ta) {
        lemma_text_lt_transitive(ta, tb, ta);
    }
    if text_lt(ta, tb) && text_lt(tb, tc) {
        lemma_text_lt_transitive(ta, tb, tc);
    }
    if !text_lt(ta, tb) && !text_lt(tb, ta) {
        lemma_text_lt_total(ta, tb);
    }
    if text_lt(ta, tb) && tb == tc {
    }
    if ta == tb && text_lt(tb, tc) {
    }
}

/// `kiosk_before` over the given items, as a value.
pub open spec fn kiosk_order(items: Seq<Seq<char>>) -> spec_fn((usize, i64), (usize, i64)) -> bool {
    |a: (usize, i64), b: (usize, i64)| kiosk_before(a, b, items)
}

/// Law: a ranking of given scores and items is unique, so
/// `is_kiosk_ranking` pins the result.
pub proof fn lemma_kiosk_ranking_unique(
    r1: Seq<(usize, i64)>,
    r2: Seq<(usize, i64)>,
    scores: Seq<Option<i64>>,
    items: Seq<Seq<char>>,
)
    requires
        is_kiosk_ranking(r1, scores, items),
        is_kiosk_ranking(r2, scores, items),
    ensures
        r1 == r2,
{
    let lt = kiosk_order(items);
    assert forall|a: (usize, i64), b: (usize, i64)| #[trigger] lt(a, b) implies !lt(b, a) by {
        lemma_kiosk_before_facts(a, b, a, items);
    }
    assert(sorted_strictly(r1, lt));
    assert(sorted_strictly(r2, lt));
    assert forall|x: (usize, i64)| r1.contains(x) <==> r2.contains(x) by {
        if r1.contains(x) {
            let k = choose|k: int| 0 <= k < r1.len() && r1[k] == x;
            assert(scores[x.0 as int] == Some(x.1));
        }
        if r2.contains(x) {
            let k = choose|k: int| 0 <= k < r2.len() && r2[k] == x;
            assert(scores[x.0 as int] == Some(x.1));
        }
    }
    lemma_sorted_same_elements_equal(r1, r2, lt);
}

/// Whether `a` is listed before `b`, given the characters and byte lengths
/// of the items.
fn kiosk_before_exec(
    a: (usize, i64),
    b: (usize, i64),
    texts: &Vec<Vec<char>>,
    lens: &Vec<usize>,
    Ghost(items): Ghost<Seq<Seq<char>>>,
) -> (r: bool)
    requires
        a.0 < texts.len(),
        b.0 < texts.len(),
        texts.len() == lens.len() == items.len(),
        forall|i: int| 0 <= i < texts.len() ==> (#[trigger] texts@[i])@ == items[i],
        forall|i: int| 0 <= i < lens.len() ==> #[trigger] lens@[i] == utf8_len(items[i]),
    ensures
        r == kiosk_before(a, b, items),
{
    if a.1 != b.1 {
        return a.1 > b.1;
    }
    let la = lens[a.0];
    let lb = lens[b.0];
    if la != lb {
        return la < lb;
    }
    if chars_lt(&texts[a.0], &texts[b.0]) {
        return true;
    }
    chars_equal(&texts[a.0], &texts[b.0]) && a.0 < b.0
}

/// Ranks the items that have a score by `kiosk_before`.
pub fn kiosk_rank(scores: &Vec<Option<i64>>, items: &Vec<String>) -> (r: Vec<(usize, i64)>)
    requires
        scores.len() == items.len(),
    ensures
        is_kiosk_ranking(r@, scores@, items.deep_view()),
{
    let ghost its = items.deep_view();
    let mut texts: Vec<Vec<char>> = Vec::new();
    let mut lens: Vec<usize> = Vec::new();
    let mut t: usize = 0;
    while t < items.len()
        invariant
            t <= items.len(),
            its == items.deep_view(),
            texts.len() == t,
            lens.len() == t,
            forall|i: int| 0 <= i < t ==> (#[trigger] texts@[i])@ == its[i],
            forall|i: int| 0 <= i < t ==> #[trigger] lens@[i] == utf8_len(its[i]),
        decreases items.len() - t,
    {
        texts.push(chars_of(items[t].as_str()));
        lens.push(byte_len(items[t].as_str()));
        t = t + 1;
    }
    let mut out: Vec<(usize, i64)> = Vec::new();
    let mut i: usize = 0;
    while i < scores.len()
        invariant
            i <= scores.len(),
            scores.len() == items.len() == texts.len() == lens.len(),
            its == items.deep_view(),
            its.len() == items.len(),
            forall|j: int| 0 <= j < texts.len() ==> (#[trigger] texts@[j])@ == its[j],
            forall|j: int| 0 <= j < lens.len() ==> #[trigger] lens@[j] == utf8_len(its[j]),
            forall|k: int| 0 <= k < out.len() ==> (#[trigger] out@[k]).0 < i && scores@[out@[k].0 as int] == Some(out@[k].1),
            forall|j: int| 0 <= j < i && #[trigger] scores@[j] is Some ==> out@.contains((j as usize, scores@[j]->0)),
            forall|k1: int, k2: int| 0 <= k1 < k2 < out.len() ==> kiosk_before(#[trigger] out@[k1], #[trigger] out@[k2], its),
        decreases scores.len() - i,
    {
        if let Some(s) = scores[i] {
            let x = (i, s);
            let mut p: usize = 0;
            while p < out.len() && kiosk_before_exec(out[p], x, &texts, &lens, Ghost(its))
                invariant
                    p <= out.len(),
                    i < texts.len(),
                    x.0 == i,
                    texts.len() == lens.len() == its.len(),
                    forall|j: int| 0 <= j < texts.len() ==> (#[trigger] texts@[j])@ == its[j],
                    forall|j: int| 0 <= j < lens.len() ==> #[trigger] lens@[j] == utf8_len(its[j]),
                    forall|k: int| 0 <= k < out.len() ==> (#[trigger] out@[k]).0 < i,
                    forall|k: int| 0 <= k < p ==> kiosk_before(#[trigger] out@[k], x, its),
                decreases out.len() - p,
            {
                p = p + 1;
            }
            let ghost old_out = out@;
            proof {
                assert forall|k: int| p <= k < old_out.len() implies kiosk_before(x, #[trigger] old_out[k], its) by {
                    lemma_kiosk_before_facts(old_out[p as int], x, x, its);
                    assert(old_out[p as int].0 < i);
                    if k > p {
                        assert(kiosk_before(old_out[p as int], old_out[k], its));
                        lemma_kiosk_before_facts(x, old_out[p as int], old_out[k], its);
                    }
                }
            }
            out.insert(p, x);
            proof {
                assert forall|k1: int, k2: int| 0 <= k1 < k2 < out.len() implies kiosk_before(
                    #[trigger] out@[k1],
                    #[trigger] out@[k2],
                    its,
                ) by {
                    if k2 < p {
                        assert(out@[k1] == old_out[k1] && out@[k2] == old_out[k2]);
                    } else if k2 == p {
                        assert(out@[k1] == old_out[k1]);
                    } else if k1 < p {
                        assert(out@[k1] == old_out[k1] && out@[k2] == old_out[k2 - 1]);
                        assert(kiosk_before(old_out[k1], x, its));
                        lemma_kiosk_before_facts(old_out[k1], x, old_out[k2 - 1], its);
                    } else if k1 == p {
                        assert(out@[k2] == old_out[k2 - 1]);
                    } else {
                        assert(out@[k1] == old_out[k1 - 1] && out@[k2] == old_out[k2 - 1]);
                    }
                }
                assert forall|j: int| 0 <= j < i + 1 && #[trigger] scores@[j] is Some implies out@.contains(
                    (j as usize, scores@[j]->0),
                ) by {
                    if j < i {
                        let k = choose|k: int| 0 <= k < old_out.len() && old_out[k] == (j as usize, scores@[j]->0);
                        if k < p {
                            assert(out@[k] == old_out[k]);
                        } else {
                            assert(out@[k + 1] == old_out[k]);
                        }
                    } else {
                        assert(out@[p as int] == x);
                    }
                }
                assert forall|k: int| 0 <= k < out.len() implies (#[trigger] out@[k]).0 < i + 1 && scores@[out@[k].0 as int]
                    == Some(out@[k].1) by {
                    if k < p {
                        assert(out@[k] == old_out[k]);
                    } else if k > p {
                        assert(out@[k] == old_out[k - 1]);
                    }
                }
            }
        }
        i = i + 1;
    }
    out
}

/// The selection right after filtering: the first item, if any.
pub open spec fn first_selected(len: nat) -> Option<usize> {
    if len == 0 {
        None
    } else {
        Some(0usize)
    }
}

/// Filters the items by the search: every item in order when the search is
/// empty, else the matches ranked by `kiosk_before`; the first row is
/// selected (the scroll offset goes back to the top).
pub fn apply_fuzzy_filter(items: &Vec<String>, search: &str) -> (r: (Vec<(usize, i64)>, Option<usize>))
    ensures
        search@.len() == 0 ==> r.0@ == unranked(items@.len()),
        search@.len() != 0 ==> is_kiosk_ranking(r.0@, scores_of(items.deep_view(), search@), items.deep_view()),
        r.1 == first_selected(r.0@.len()),
{
    let filtered = if chars_of(search).len() == 0 {
        unranked_matches(items.len())
    } else {
        let scores = skim_match_all(items, search);
        kiosk_rank(&scores, items)
    };
    let selected = if filtered.len() == 0 {
        None
    } else {
        Some(0)
    };
    (filtered, selected)
}

/// The matches, each with its score, in the order of the items.
pub open spec fn source_order_matches(scores: Seq<Option<i64>>) -> Seq<(usize, i64)>
    decreases scores.len(),
{
    if scores.len() == 0 {
        Seq::empty()
    } else {
        let prev = source_order_matches(scores.drop_last());
        match scores.last() {
            Some(s) => prev.push(((scores.len() - 1) as usize, s)),
            None => prev,
        }
    }
}

/// The items that match `query`, with their scores, in the order of the
/// items.
pub fn fuzzy_matches_in_source_order(query: &str, items: &Vec<String>) -> (r: Vec<(usize, i64)>)
    ensures
        r@ == source_order_matches(scores_of(items.deep_view(), query@)),
{
    let scores = skim_match_all(items, query);
    let ghost sc = scores@;
    let mut r: Vec<(usize, i64)> = Vec::new();
    let mut i: usize = 0;
    while i < scores.len()
        invariant
            i <= scores.len(),
            sc == scores@,
            r@ == source_order_matches(sc.take(i as int)),
        decreases scores.len() - i,
    {
        assert(sc.take(i + 1).drop_last() =~= sc.take(i as int));
        assert(sc.take(i + 1).last() == sc[i as int]);
        if let Some(s) = scores[i] {
            r.push((i, s));
        }
        i = i + 1;
    }
    assert(sc.take(scores.len() as int) =~= sc);
    r
}

/// The text a session is searched by: its name, repository and branch
/// (empty when detached), separated by spaces.
pub open spec fn session_search_text(session_name: Seq<char>, repo_name: Seq<char>, branch: Option<Seq<char>>) -> Seq<char> {
    session_name + seq![' '] + repo_name + seq![' '] + match branch {
        Some(b) => b,
        None => Seq::empty(),
    }
}

/// The text a session is searched by.
pub fn session_search_item(session_name: &str, repo_name: &str, branch: &Option<String>) -> (r: String)
    ensures
        r@ == session_search_text(session_name@, repo_name@, branch.deep_view()),
{
    let mut r = String::new();
    push_str(&mut r, session_name);
    r.push(' ');
    push_str(&mut r, repo_name);
    r.push(' ');
    match branch {
        Some(b) => push_str(&mut r, b.as_str()),
        None => {},
    }
    assert(r@ =~= session_search_text(session_name@, repo_name@, branch.deep_view()));
    r
}

/// Filters sessions by the search, keeping them in their order: every
/// session when the search is empty, else the matches; the first row is
/// selected.
pub fn apply_session_filter(items: &Vec<String>, search: &str) -> (r: (Vec<(usize, i64)>, Option<usize>))
    ensures
        search@.len() == 0 ==> r.0@ == unranked(items@.len()),
        search@.len() != 0 ==> r.0@ == source_order_matches(scores_of(items.deep_view(), search@)),
        r.1 == first_selected(r.0@.len()),
{
    let filtered = if chars_of(search).len() == 0 {
        unranked_matches(items.len())
    } else {
        fuzzy_matches_in_source_order(search, items)
    };
    let selected = if filtered.len() == 0 {
        None
    } else {
        Some(0)
    };
    (filtered, selected)
}

/// The selection kept after the list was refiltered, clamped to bounds:
/// kept while it is still a row, the last row when it fell off the end,
/// the first row when there was none, none for an empty list.
pub open spec fn preserved_selection(selected: Option<usize>, len: nat) -> Option<usize> {
    if len == 0 {
        None
    } else {
        match selected {
            Some(s) => Some(if s < len { s } else { (len - 1) as usize }),
            None => Some(0),
        }
    }
}

/// Refilters a list whose items changed, keeping its search: every item in
/// order when the search is empty, else the matches by descending score
/// (ties in item order); the selection is clamped to the new bounds.
pub fn rebuild_filtered_preserving_search(search: &str, names: &Vec<String>, selected: Option<usize>) -> (r: (
    Vec<(usize, i64)>,
    Option<usize>,
))
    ensures
        search@.len() == 0 ==> r.0@ == unranked(names@.len()),
        search@.len() != 0 ==> is_ranking(r.0@, scores_of(names.deep_view(), search@)),
        r.1 == preserved_selection(selected, r.0@.len()),
{
    let filtered = if chars_of(search).len() == 0 {
        unranked_matches(names.len())
    } else {
        let scores = skim_match_all(names, search);
        rank_matches(&scores)
    };
    let sel = if filtered.len() == 0 {
        None
    } else {
        match selected {
            Some(s) => Some(if s < filtered.len() { s } else { filtered.len() - 1 }),
            None => Some(0),
        }
    };
    (filtered, sel)
}

/// The section of a filtered help row (0 for a row that does not exist).
pub open spec fn section_key(p: (usize, i64), section_index: Seq<usize>) -> int {
    if p.0 < section_index.len() {
        section_index[p.0 as int] as int
    } else {
        0
    }
}

/// Where a row with section `k` goes among rows ordered by section: after
/// every row whose section is not greater.
pub open spec fn section_insert_pos(ps: Seq<(usize, i64)>, k: int, section_index: Seq<usize>) -> int
    decreases ps.len(),
{
    if ps.len() == 0 {
        0
    } else if k < section_key(ps.last(), section_index) {
        section_insert_pos(ps.drop_last(), k, section_index)
    } else {
        ps.len() as int
    }
}

/// The rows stably sorted by section (`sort_by_key`): ordered by section,
/// rows of the same section in their previous order.
pub open spec fn sorted_by_section(ps: Seq<(usize, i64)>, section_index: Seq<usize>) -> Seq<(usize, i64)>
    decreases ps.len(),
{
    if ps.len() == 0 {
        ps
    } else {
        let t = sorted_by_section(ps.drop_last(), section_index);
        t.insert(section_insert_pos(t, section_key(ps.last(), section_index), section_index), ps.last())
    }
}

/// The section of a filtered help row.
fn section_key_exec(p: (usize, i64), section_index: &Vec<usize>) -> (k: usize)
    ensures
        k as int == section_key(p, section_index@),
{
    if p.0 < section_index.len() {
        section_index[p.0]
    } else {
        0
    }
}

/// Sorts filtered help rows by their section, keeping the order of rows of
/// the same section.
pub fn sort_by_section(filtered: Vec<(usize, i64)>, section_index: &Vec<usize>) -> (r: Vec<(usize, i64)>)
    ensures
        r@ == sorted_by_section(filtered@, section_index@),
{
    let ghost all = filtered@;
    let ghost idx = section_index@;
    assert(all.take(0) =~= Seq::<(usize, i64)>::empty());
    let mut out: Vec<(usize, i64)> = Vec::new();
    let mut i: usize = 0;
    while i < filtered.len()
        invariant
            i <= filtered.len(),
            all == filtered@,
            idx == section_index@,
            out@ == sorted_by_section(all.take(i as int), idx),
        decreases filtered.len() - i,
    {
        let x = filtered[i];
        let k = section_key_exec(x, section_index);
        let ghost t = out@;
        let mut j: usize = out.len();
        assert(t.take(j as int) =~= t);
        while j > 0 && k < section_key_exec(out[j - 1], section_index)
            invariant
                j <= out.len(),
                out@ == t,
                idx == section_index@,
                k as int == section_key(x, idx),
                section_insert_pos(t, k as int, idx) == section_insert_pos(t.take(j as int), k as int, idx),
            decreases j,
        {
            assert(t.take(j as int).drop_last() =~= t.take(j - 1));
            assert(t.take(j as int).last() == t[j - 1]);
            j = j - 1;
        }
        proof {
            if j > 0 {
                assert(t.take(j as int).last() == t[j - 1]);
            }
            assert(all.take(i + 1).drop_last() =~= all.take(i as int));
            assert(all.take(i + 1).last() == x);
        }
        out.insert(j, x);
        i = i + 1;
    }
    assert(all.take(filtered.len() as int) =~= all);
    out
}

/// Filters the help rows by the search (ranked as `apply_fuzzy_filter`
/// does) and then groups them by section, so that each section's heading
/// is shown once; the first row is selected.
pub fn apply_help_filter(search_items: &Vec<String>, section_index: &Vec<usize>, search: &str) -> (r: (
    Vec<(usize, i64)>,
    Option<usize>,
))
    ensures
        exists|ranked: Seq<(usize, i64)>|
            #![trigger sorted_by_section(ranked, section_index@)]
            (search@.len() == 0 ==> ranked == unranked(search_items@.len())) && (search@.len() != 0
                ==> is_kiosk_ranking(ranked, scores_of(search_items.deep_view(), search@), search_items.deep_view()))
                && r.0@ == sorted_by_section(ranked, section_index@),
        r.1 == first_selected(r.0@.len()),
{
    let (ranked, _) = apply_fuzzy_filter(search_items, search);
    let ghost rk = ranked@;
    let sorted = sort_by_section(ranked, section_index);
    proof {
        lemma_sorted_by_section_len(rk, section_index@);
    }
    let selected = if sorted.len() == 0 {
        None
    } else {
        Some(0)
    };
    (sorted, selected)
}

proof fn lemma_sorted_by_section_len(ps: Seq<(usize, i64)>, section_index: Seq<usize>)
    ensures
        sorted_by_section(ps, section_index).len() == ps.len(),
    decreases ps.len(),
{
    if ps.len() > 0 {
        lemma_sorted_by_section_len(ps.drop_last(), section_index);
        lemma_section_insert_pos(
            sorted_by_section(ps.drop_last(), section_index),
            section_key(ps.last(), section_index),
            section_index,
        );
    }
}

proof fn lemma_section_insert_pos(ps: Seq<(usize, i64)>, k: int, section_index: Seq<usize>)
    ensures
        0 <= section_insert_pos(ps, k, section_index) <= ps.len(),
        forall|j: int|
            section_insert_pos(ps, k, section_index) <= j < ps.len() ==> k < section_key(
                #[trigger] ps[j],
                section_index,
            ),
        section_insert_pos(ps, k, section_index) > 0 ==> section_key(
            ps[section_insert_pos(ps, k, section_index) - 1],
            section_index,
        ) <= k,
    decreases ps.len(),
{
    if ps.len() > 0 && k < section_key(ps.last(), section_index) {
        lemma_section_insert_pos(ps.drop_last(), k, section_index);
        assert forall|j: int| section_insert_pos(ps, k, section_index) <= j < ps.len() implies k < section_key(
            #[trigger] ps[j],
            section_index,
        ) by {
            if j < ps.len() - 1 {
                assert(ps.drop_last()[j] == ps[j]);
            }
        }
    }
}

/// Rows ordered by section: no row's section is greater than a later one's.
pub open spec fn grouped_by_section(ps: Seq<(usize, i64)>, section_index: Seq<usize>) -> bool {
    forall|a: int, b: int|
        0 <= a < b < ps.len() ==> section_key(#[trigger] ps[a], section_index) <= section_key(
            #[trigger] ps[b],
            section_index,
        )
}

/// Law: sorting by section orders the rows by section and keeps exactly
/// the rows that were there.
pub proof fn lemma_sorted_by_section(ps: Seq<(usize, i64)>, section_index: Seq<usize>)
    ensures
        grouped_by_section(sorted_by_section(ps, section_index), section_index),
        sorted_by_section(ps, section_index).to_multiset() == ps.to_multiset(),
    decreases ps.len(),
{
    if ps.len() > 0 {
        lemma_sorted_by_section(ps.drop_last(), section_index);
        let t = sorted_by_section(ps.drop_last(), section_index);
        let x = ps.last();
        let k = section_key(x, section_index);
        let p = section_insert_pos(t, k, section_index);
        lemma_section_insert_pos(t, k, section_index);
        let n = t.insert(p, x);
        assert forall|a: int, b: int| 0 <= a < b < n.len() implies section_key(#[trigger] n[a], section_index)
            <= section_key(#[trigger] n[b], section_index) by {
            if b < p {
                assert(n[a] == t[a] && n[b] == t[b]);
            } else if b == p {
                assert(n[a] == t[a]);
                assert(section_key(t[a], section_index) <= section_key(t[p - 1], section_index));
            } else if a < p {
                assert(n[a] == t[a] && n[b] == t[b - 1]);
            } else if a == p {
                assert(n[b] == t[b - 1]);
            } else {
                assert(n[a] == t[a - 1] && n[b] == t[b - 1]);
            }
        }
        vstd::seq_lib::to_multiset_insert(t, p, x);
        vstd::seq_lib::to_multiset_build(ps.drop_last(), x);
        assert(ps.drop_last().push(x) =~= ps);
    }
}

/// The text a help row is searched by: section, key, command and
/// description, separated by spaces.
pub fn help_search_item(section_name: &str, key_display: &str, command: &str, description: &str) -> (r: String)
    ensures
        r@ == section_name@ + seq![' '] + key_display@ + seq![' '] + command@ + seq![' '] + description@,
{
    let mut r = String::new();
    push_str(&mut r, section_name);
    r.push(' ');
    push_str(&mut r, key_display);
    r.push(' ');
    push_str(&mut r, command);
    r.push(' ');
    push_str(&mut r, description);
    r
}

} // verus!
