//! Fuzzy filtering of item names with the skim matcher of `fuzzy_matcher`,
//! and the ranking of the matches: best score first, ties in item order.
use vstd::prelude::*;
use fuzzy_matcher::FuzzyMatcher;

verus! {

/// The score that `SkimMatcherV2::default().fuzzy_match(choice, pattern)`
/// gives, or `None` when `pattern` does not match `choice`.
pub uninterp spec fn skim_score(choice: Seq<char>, pattern: Seq<char>) -> Option<i64>;

/// Calls `fuzzy_matcher::skim::SkimMatcherV2::fuzzy_match` with the default
/// matcher. Claimed: the result is `skim_score` of the two strings (the matcher
/// is deterministic), and an empty pattern matches with score 0, which the
/// crate's `fuzzy` function returns before anything else.
#[verifier::external_body]
fn skim_fuzzy_match(choice: &str, pattern: &str) -> (r: Option<i64>)
    ensures
        r == skim_score(choice@, pattern@),
        pattern@.len() == 0 ==> r == Some(0i64),
{
    fuzzy_matcher::skim::SkimMatcherV2::default().fuzzy_match(choice, pattern)
}

/// `a` ranks strictly before `b`: a higher score, or the same score and a
/// lower item index.
pub open spec fn ranks_before(a: (usize, i64), b: (usize, i64)) -> bool {
    a.1 > b.1 || (a.1 == b.1 && a.0 < b.0)
}

/// `r` lists exactly the items that have a score, each with its score, ordered
/// by `ranks_before` (so each item appears once).
pub open spec fn is_ranking(r: Seq<(usize, i64)>, scores: Seq<Option<i64>>) -> bool {
    &&& forall|k: int| 0 <= k < r.len() ==> (#[trigger] r[k]).0 < scores.len() && scores[r[k].0 as int] == Some(r[k].1)
    &&& forall|i: int| 0 <= i < scores.len() && #[trigger] scores[i] is Some ==> r.contains((i as usize, scores[i]->0))
    &&& forall|k1: int, k2: int| 0 <= k1 < k2 < r.len() ==> ranks_before(#[trigger] r[k1], #[trigger] r[k2])
}

/// Every item with score 0, in item order.
pub open spec fn unranked(n: nat) -> Seq<(usize, i64)> {
    Seq::new(n, |i: int| (i as usize, 0i64))
}

/// The scores of the items against a pattern.
pub open spec fn scores_of(items: Seq<Seq<char>>, pattern: Seq<char>) -> Seq<Option<i64>> {
    items.map_values(|it: Seq<char>| skim_score(it, pattern))
}

/// `lt` never holds both ways round.
pub open spec fn asymmetric(lt: spec_fn((usize, i64), (usize, i64)) -> bool) -> bool {
    forall|a: (usize, i64), b: (usize, i64)| #[trigger] lt(a, b) ==> !lt(b, a)
}

/// Every earlier element of `r` comes before every later one under `lt`.
pub open spec fn sorted_strictly(r: Seq<(usize, i64)>, lt: spec_fn((usize, i64), (usize, i64)) -> bool) -> bool {
    forall|k1: int, k2: int| 0 <= k1 < k2 < r.len() ==> lt(#[trigger] r[k1], #[trigger] r[k2])
}

proof fn lemma_rank_first_equal(
    r1: Seq<(usize, i64)>,
    r2: Seq<(usize, i64)>,
    lt: spec_fn((usize, i64), (usize, i64)) -> bool,
)
    requires
        r1.len() > 0,
        r2.len() > 0,
        asymmetric(lt),
        forall|x: (usize, i64)| r1.contains(x) <==> r2.contains(x),
        sorted_strictly(r1, lt),
        sorted_strictly(r2, lt),
    ensures
        r1[0] == r2[0],
{
    assert(r1.contains(r1[0]));
    assert(r2.contains(r1[0]));
    assert(r2.contains(r2[0]));
    assert(r1.contains(r2[0]));
    let m = choose|m: int| 0 <= m < r2.len() && r2[m] == r1[0];
    let m2 = choose|m: int| 0 <= m < r1.len() && r1[m] == r2[0];
    if m > 0 {
        assert(lt(r2[0], r2[m]));
        if m2 > 0 {
            assert(lt(r1[0], r1[m2]));
        }
    }
}

/// Law: a ranking of given scores is unique, so `is_ranking` pins the result.
pub proof fn lemma_ranking_unique(r1: Seq<(usize, i64)>, r2: Seq<(usize, i64)>, scores: Seq<Option<i64>>)
    requires
        is_ranking(r1, scores),
        is_ranking(r2, scores),
    ensures
        r1 == r2,
{
    let lt = |a: (usize, i64), b: (usize, i64)| ranks_before(a, b);
    assert(asymmetric(lt));
    assert(sorted_strictly(r1, lt));
    assert(sorted_strictly(r2, lt));
    assert forall|x: (usize, i64)| r1.contains(x) <==> r2.contains(x) by {
        if r1.contains(x) {
            let k = choose|k: int| 0 <= k < r1.len() && r1[k] == x;
            assert(scores[x.0 as int] == Some(x.1));
        }
        if r2.contains(x) {
            let k = choose|k: int| 0 <= k < r2.len() && r2[k] == x;
            assert(scores[x.0 as int] == Some(x.1));
        }
    }
    lemma_sorted_same_elements_equal(r1, r2, lt);
}

/// Two sequences sorted by the same asymmetric order and holding the same
/// elements are equal.
pub proof fn lemma_sorted_same_elements_equal(
    r1: Seq<(usize, i64)>,
    r2: Seq<(usize, i64)>,
    lt: spec_fn((usize, i64), (usize, i64)) -> bool,
)
    requires
        asymmetric(lt),
        forall|x: (usize, i64)| r1.contains(x) <==> r2.contains(x),
        sorted_strictly(r1, lt),
        sorted_strictly(r2, lt),
    ensures
        r1 == r2,
    decreases r1.len() + r2.len(),
{
    if r1.len() == 0 {
        if r2.len() > 0 {
            assert(r2.contains(r2[0]));
        }
        assert(r1 =~= r2);
    } else if r2.len() == 0 {
        assert(r1.contains(r1[0]));
    } else {
        lemma_rank_first_equal(r1, r2, lt);
        let t1 = r1.drop_first();
        let t2 = r2.drop_first();
        assert forall|x: (usize, i64)| t1.contains(x) <==> t2.contains(x) by {
            if t1.contains(x) {
                let k = choose|k: int| 0 <= k < t1.len() && t1[k] == x;
                assert(lt(r1[0], r1[k + 1]));
                assert(r2.contains(x));
                let j = choose|j: int| 0 <= j < r2.len() && r2[j] == x;
                assert(j != 0);
                assert(t2[j - 1] == x);
            }
            if t2.contains(x) {
                let k = choose|k: int| 0 <= k < t2.len() && t2[k] == x;
                assert(lt(r2[0], r2[k + 1]));
                assert(r1.contains(x));
                let j = choose|j: int| 0 <= j < r1.len() && r1[j] == x;
                assert(j != 0);
                assert(t1[j - 1] == x);
            }
        }
        assert forall|k1: int, k2: int| 0 <= k1 < k2 < t1.len() implies lt(#[trigger] t1[k1], #[trigger] t1[k2]) by {
            assert(lt(r1[k1 + 1], r1[k2 + 1]));
        }
        assert forall|k1: int, k2: int| 0 <= k1 < k2 < t2.len() implies lt(#[trigger] t2[k1], #[trigger] t2[k2]) by {
            assert(lt(r2[k1 + 1], r2[k2 + 1]));
        }
        lemma_sorted_same_elements_equal(t1, t2, lt);
        assert(r1 =~= r2) by {
            assert forall|k: int| 0 <= k < r1.len() implies r1[k] == r2[k] by {
                if k > 0 {
                    assert(r1[k] == t1[k - 1]);
                    assert(r2[k] == t2[k - 1]);
                }
            }
        }
    }
}

/// Ranks the items that have a score: best score first, ties in item order
/// (the order a stable sort by descending score gives to matches listed in
/// item order).
pub fn rank_matches(scores: &Vec<Option<i64>>) -> (r: Vec<(usize, i64)>)
    ensures
        is_ranking(r@, scores@),
{
    let mut out: Vec<(usize, i64)> = Vec::new();
    let mut i: usize = 0;
    while i < scores.len()
        invariant
            i <= scores.len(),
            forall|k: int| 0 <= k < out.len() ==> (#[trigger] out@[k]).0 < i && scores@[out@[k].0 as int] == Some(out@[k].1),
            forall|j: int| 0 <= j < i && #[trigger] scores@[j] is Some ==> out@.contains((j as usize, scores@[j]->0)),
            forall|k1: int, k2: int| 0 <= k1 < k2 < out.len() ==> ranks_before(#[trigger] out@[k1], #[trigger] out@[k2]),
        decreases scores.len() - i,
    {
        if let Some(s) = scores[i] {
            let x = (i, s);
            // position: after every element that ranks before x
            let mut p: usize = 0;
            while p < out.len() && ranks_before_exec(out[p], x)
                invariant
                    p <= out.len(),
                    forall|k: int| 0 <= k < p ==> ranks_before(#[trigger] out@[k], x),
                decreases out.len() - p,
            {
                p = p + 1;
            }
            let ghost old_out = out@;
            proof {
                // everything at or after p ranks after x: out[p] does, the rest by transitivity
                assert forall|k: int| p <= k < old_out.len() implies ranks_before(x, #[trigger] old_out[k]) by {
                    assert(!ranks_before(old_out[p as int], x));
                    assert(old_out[p as int].0 < i);
                    if k > p {
                        assert(ranks_before(old_out[p as int], old_out[k]));
                    }
                }
            }
            out.insert(p, x);
            proof {
                assert forall|k1: int, k2: int| 0 <= k1 < k2 < out.len() implies ranks_before(#[trigger] out@[k1], #[trigger] out@[k2]) by {
                    if k2 < p {
                        assert(out@[k1] == old_out[k1] && out@[k2] == old_out[k2]);
                    } else if k2 == p {
                        assert(out@[k1] == old_out[k1]);
                    } else if k1 < p {
                        assert(out@[k1] == old_out[k1] && out@[k2] == old_out[k2 - 1]);
                        assert(ranks_before(old_out[k1], x));
                    } else if k1 == p {
                        assert(out@[k2] == old_out[k2 - 1]);
                    } else {
                        assert(out@[k1] == old_out[k1 - 1] && out@[k2] == old_out[k2 - 1]);
                    }
                }
                assert forall|j: int| 0 <= j < i + 1 && #[trigger] scores@[j] is Some implies out@.contains((j as usize, scores@[j]->0)) by {
                    if j < i {
                        let k = choose|k: int| 0 <= k < old_out.len() && old_out[k] == (j as usize, scores@[j]->0);
                        if k < p {
                            assert(out@[k] == old_out[k]);
                        } else {
                            assert(out@[k + 1] == old_out[k]);
                        }
                    } else {
                        assert(out@[p as int] == x);
                    }
                }
                assert forall|k: int| 0 <= k < out.len() implies (#[trigger] out@[k]).0 < i + 1 && scores@[out@[k].0 as int] == Some(out@[k].1) by {
                    if k < p {
                        assert(out@[k] == old_out[k]);
                    } else if k > p {
                        assert(out@[k] == old_out[k - 1]);
                    }
                }
            }
        }
        i = i + 1;
    }
    out
}

fn ranks_before_exec(a: (usize, i64), b: (usize, i64)) -> (r: bool)
    ensures
        r == ranks_before(a, b),
{
    a.1 > b.1 || (a.1 == b.1 && a.0 < b.0)
}

/// `(i, 0)` for every item, in item order.
pub fn unranked_matches(n: usize) -> (r: Vec<(usize, i64)>)
    ensures
        r@ == unranked(n as nat),
{
    let mut out: Vec<(usize, i64)> = Vec::new();
    let mut i: usize = 0;
    while i < n
        invariant
            i <= n,
            out@ == unranked(i as nat),
        decreases n - i,
    {
        out.push((i, 0i64));
        assert(out@ =~= unranked((i + 1) as nat));
        i = i + 1;
    }
    out
}

/// The score of each item against `pattern`.
pub fn skim_match_all(items: &Vec<String>, pattern: &str) -> (scores: Vec<Option<i64>>)
    ensures
        scores@ == scores_of(items.deep_view(), pattern@),
{
    let mut scores: Vec<Option<i64>> = Vec::new();
    let mut i: usize = 0;
    while i < items.len()
        invariant
            i <= items.len(),
            scores@ == scores_of(items.deep_view(), pattern@).take(i as int),
        decreases items.len() - i,
    {
        let s = skim_fuzzy_match(items[i].as_str(), pattern);
        scores.push(s);
        assert(scores@ =~= scores_of(items.deep_view(), pattern@).take(i + 1));
        i = i + 1;
    }
    assert(scores@ =~= scores_of(items.deep_view(), pattern@));
    scores
}

/// The items that match `pattern`, ranked best first; every item, in order and
/// with score 0, when the pattern is empty.
pub fn filter_and_rank(items: &Vec<String>, pattern: &str) -> (r: Vec<(usize, i64)>)
    ensures
        pattern@.len() == 0 ==> r@ == unranked(items@.len()),
        pattern@.len() != 0 ==> is_ranking(r@, scores_of(items.deep_view(), pattern@)),
{
    if pattern.is_empty() {
        return unranked_matches(items.len());
    }
    let scores = skim_match_all(items, pattern);
    rank_matches(&scores)
}

} // verus!
