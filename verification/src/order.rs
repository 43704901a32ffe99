//! The order of `String`'s `Ord` on character sequences, and sorting by it:
//! where a key goes into an ordered sequence, and the proof that inserting
//! there keeps the sequence ordered.
use vstd::prelude::*;
use vstd::seq_lib::{to_multiset_build, to_multiset_insert};
use crate::text::chars_of;

verus! {

/// `a` comes strictly before `b` in the order of `String`'s `Ord`
/// (lexicographic by character; UTF-8 bytes compare in the same order as
/// the characters they encode).
pub open spec fn text_lt(a: Seq<char>, b: Seq<char>) -> bool
    decreases a.len(),
{
    if a.len() == 0 {
        b.len() > 0
    } else if b.len() == 0 {
        false
    } else if a[0] != b[0] {
        a[0] < b[0]
    } else {
        text_lt(a.drop_first(), b.drop_first())
    }
}

pub proof fn lemma_text_lt_irreflexive(a: Seq<char>)
    ensures
        !text_lt(a, a),
    decreases a.len(),
{
    if a.len() > 0 {
        lemma_text_lt_irreflexive(a.drop_first());
    }
}

pub proof fn lemma_text_lt_transitive(a: Seq<char>, b: Seq<char>, c: Seq<char>)
    requires
        text_lt(a, b),
        text_lt(b, c),
    ensures
        text_lt(a, c),
    decreases a.len(),
{
    if a.len() > 0 && b.len() > 0 && c.len() > 0 && a[0] == b[0] && b[0] == c[0] {
        lemma_text_lt_transitive(a.drop_first(), b.drop_first(), c.drop_first());
    }
}

pub proof fn lemma_text_lt_total(a: Seq<char>, b: Seq<char>)
    requires
        !text_lt(a, b),
        !text_lt(b, a),
    ensures
        a == b,
    decreases a.len(),
{
    if a.len() > 0 && b.len() > 0 {
        lemma_text_lt_total(a.drop_first(), b.drop_first());
        assert(a =~= seq![a[0]] + a.drop_first());
        assert(b =~= seq![b[0]] + b.drop_first());
    } else {
        assert(a =~= b);
    }
}

/// Whether `a` comes strictly before `b`.
pub fn chars_lt(a: &Vec<char>, b: &Vec<char>) -> (r: bool)
    ensures
        r == text_lt(a@, b@),
{
    let mut i: usize = 0;
    assert(a@.skip(0) =~= a@);
    assert(b@.skip(0) =~= b@);
    while i < a.len() && i < b.len() && a[i] == b[i]
        invariant
            i <= a.len(),
            i <= b.len(),
            text_lt(a@, b@) == text_lt(a@.skip(i as int), b@.skip(i as int)),
        decreases a.len() - i,
    {
        assert(a@.skip(i as int).drop_first() =~= a@.skip(i + 1));
        assert(b@.skip(i as int).drop_first() =~= b@.skip(i + 1));
        i = i + 1;
    }
    if i == a.len() {
        i < b.len()
    } else if i == b.len() {
        false
    } else {
        a[i] < b[i]
    }
}

/// Where a key goes into an ordered sequence of keys: after every key that
/// does not come after it.
pub open spec fn insert_pos(keys: Seq<Seq<char>>, k: Seq<char>) -> int
    decreases keys.len(),
{
    if keys.len() == 0 {
        0
    } else if text_lt(k, keys.last()) {
        insert_pos(keys.drop_last(), k)
    } else {
        keys.len() as int
    }
}

/// Keys in order: no key comes before an earlier one.
pub open spec fn keys_ordered(keys: Seq<Seq<char>>) -> bool {
    forall|i: int, j: int| 0 <= i < j < keys.len() ==> !text_lt(#[trigger] keys[j], #[trigger] keys[i])
}

pub proof fn lemma_insert_pos(keys: Seq<Seq<char>>, k: Seq<char>)
    ensures
        0 <= insert_pos(keys, k) <= keys.len(),
        forall|j: int| insert_pos(keys, k) <= j < keys.len() ==> text_lt(k, #[trigger] keys[j]),
        insert_pos(keys, k) > 0 ==> !text_lt(k, keys[insert_pos(keys, k) - 1]),
    decreases keys.len(),
{
    if keys.len() > 0 && text_lt(k, keys.last()) {
        lemma_insert_pos(keys.drop_last(), k);
        assert forall|j: int| insert_pos(keys, k) <= j < keys.len() implies text_lt(k, #[trigger] keys[j]) by {
            if j < keys.len() - 1 {
                assert(keys.drop_last()[j] == keys[j]);
            }
        }
    }
}

pub proof fn lemma_insert_keeps_order(keys: Seq<Seq<char>>, k: Seq<char>)
    requires
        keys_ordered(keys),
    ensures
        keys_ordered(keys.insert(insert_pos(keys, k), k)),
{
    let p = insert_pos(keys, k);
    lemma_insert_pos(keys, k);
    let n = keys.insert(p, k);
    assert forall|i: int, j: int| 0 <= i < j < n.len() implies !text_lt(#[trigger] n[j], #[trigger] n[i]) by {
        if i < p && j == p {
            // keys[i] <= keys[p - 1] <= k
            if text_lt(k, keys[i]) {
                if i < p - 1 {
                    if text_lt(keys[p - 1], keys[i]) {
                    } else {
                        assert(!text_lt(keys[p - 1], keys[i]));
                        if text_lt(keys[i], keys[p - 1]) {
                            lemma_text_lt_transitive(k, keys[i], keys[p - 1]);
                        } else {
                            lemma_text_lt_total(keys[i], keys[p - 1]);
                        }
                    }
                }
            }
        } else if i == p && j > p {
            assert(text_lt(k, keys[j - 1]));
            if text_lt(keys[j - 1], k) {
                lemma_text_lt_transitive(k, keys[j - 1], k);
                lemma_text_lt_irreflexive(k);
            }
        } else if i < p && j > p {
            assert(n[i] == keys[i] && n[j] == keys[j - 1]);
        } else if i > p {
            assert(n[i] == keys[i - 1] && n[j] == keys[j - 1]);
        }
    }
}

/// The texts in `String` order (an insertion sort: each text goes after
/// every earlier one that does not come after it).
pub open spec fn sorted_texts(ts: Seq<Seq<char>>) -> Seq<Seq<char>>
    decreases ts.len(),
{
    if ts.len() == 0 {
        ts
    } else {
        let s = sorted_texts(ts.drop_last());
        s.insert(insert_pos(s, ts.last()), ts.last())
    }
}

/// Law: sorting texts gives them in order, as a rearrangement of the texts
/// that went in.
pub proof fn lemma_sorted_texts(ts: Seq<Seq<char>>)
    ensures
        keys_ordered(sorted_texts(ts)),
        sorted_texts(ts).to_multiset() == ts.to_multiset(),
    decreases ts.len(),
{
    if ts.len() > 0 {
        lemma_sorted_texts(ts.drop_last());
        let s = sorted_texts(ts.drop_last());
        lemma_insert_keeps_order(s, ts.last());
        lemma_insert_pos(s, ts.last());
        to_multiset_insert(s, insert_pos(s, ts.last()), ts.last());
        to_multiset_build(ts.drop_last(), ts.last());
        assert(ts.drop_last().push(ts.last()) =~= ts);
    }
}

/// Sorts strings in `String` order (`slice::sort` on strings).
pub fn sort_texts(v: Vec<String>) -> (r: Vec<String>)
    ensures
        r.deep_view() == sorted_texts(v.deep_view()),
{
    let ghost all = v.deep_view();
    assert(all.len() == v.len());
    assert(all.take(0) =~= Seq::<Seq<char>>::empty());
    let mut out: Vec<String> = Vec::new();
    let mut keys: Vec<Vec<char>> = Vec::new();
    let mut i: usize = 0;
    while i < v.len()
        invariant
            i <= v.len(),
            all == v.deep_view(),
            out.deep_view() == sorted_texts(all.take(i as int)),
            keys@.map_values(|k: Vec<char>| k@) == out.deep_view(),
        decreases v.len() - i,
    {
        let key = chars_of(v[i].as_str());
        let ghost ks = out.deep_view();
        let mut j: usize = keys.len();
        proof {
            assert(ks.take(j as int) =~= ks);
        }
        while j > 0 && chars_lt(&key, &keys[j - 1])
            invariant
                j <= keys.len(),
                keys@.map_values(|k: Vec<char>| k@) == ks,
                key@ == all[i as int],
                insert_pos(ks, key@) == insert_pos(ks.take(j as int), key@),
            decreases j,
        {
            assert(ks.take(j as int).drop_last() =~= ks.take(j - 1));
            assert(ks.take(j as int).last() == keys@[j - 1]@);
            j = j - 1;
        }
        proof {
            if j > 0 {
                assert(ks.take(j as int).last() == keys@[j - 1]@);
            }
            assert(all.take(i + 1).drop_last() =~= all.take(i as int));
            assert(all.take(i + 1).last() == all[i as int]);
        }
        let ghost before_keys = keys@;
        let ghost before_out = out@;
        out.insert(j, v[i].clone());
        keys.insert(j, key);
        proof {
            assert(keys@.map_values(|k: Vec<char>| k@) =~= before_keys.map_values(|k: Vec<char>| k@).insert(
                j as int,
                all[i as int],
            ));
            assert(out.deep_view() =~= ks.insert(j as int, all[i as int]));
        }
        i = i + 1;
    }
    assert(all.take(v.len() as int) =~= all);
    out
}

} // verus!
