//! Text transformations of the README generator: replacing the lines between
//! two marker lines, escaping TOML strings, and writing a sorted section of
//! key bindings.
use vstd::prelude::*;
use crate::order::{chars_lt, text_lt};
use crate::text::{
    chars_equal, chars_of, lemma_text_lines_append, lemma_text_lines_no_newline,
    lemma_text_lines_of_line, push_str, replace_char, split_lines, text_lines,
};

verus! {

/// The line that starts the generated configuration documentation.
pub const CONFIG_START_MARKER: &'static str = "<!-- CONFIG START -->";

/// The line that ends the generated configuration documentation.
pub const CONFIG_END_MARKER: &'static str = "<!-- CONFIG END -->";

/// `s` with every occurrence of `from` replaced by `to`.
pub fn replace_char_str(s: &str, from: char, to: &str) -> (r: String)
    ensures
        r@ == replace_char(s@, from, to@),
{
    let v = chars_of(s);
    let mut r = String::new();
    let mut i: usize = 0;
    while i < v.len()
        invariant
            i <= v.len(),
            v@ == s@,
            r@ == replace_char(v@.take(i as int), from, to@),
        decreases v.len() - i,
    {
        assert(v@.take(i + 1).drop_last() =~= v@.take(i as int));
        if v[i] == from {
            push_str(&mut r, to);
        } else {
            r.push(v[i]);
            assert(r@ =~= replace_char(v@.take(i as int), from, to@) + seq![v@[i as int]]);
        }
        i = i + 1;
    }
    assert(v@.take(v.len() as int) =~= v@);
    r
}

/// A text escaped for a basic TOML string: each `\` doubled, then each `"`
/// preceded by `\`.
pub open spec fn escape_toml_spec(s: Seq<char>) -> Seq<char> {
    replace_char(replace_char(s, '\\', seq!['\\', '\\']), '"', seq!['\\', '"'])
}

/// Escapes backslashes and double quotes for a TOML basic string.
pub fn escape_toml_string(input: &str) -> (r: String)
    ensures
        r@ == escape_toml_spec(input@),
{
    let mut two_slashes = String::new();
    two_slashes.push('\\');
    two_slashes.push('\\');
    let mut slash_quote = String::new();
    slash_quote.push('\\');
    slash_quote.push('"');
    assert(two_slashes@ =~= seq!['\\', '\\']);
    assert(slash_quote@ =~= seq!['\\', '"']);
    let a = replace_char_str(input, '\\', two_slashes.as_str());
    replace_char_str(a.as_str(), '"', slash_quote.as_str())
}

/// The text written so far and whether the lines are inside the replaced
/// section, after one more line.
pub open spec fn section_step(
    acc: (Seq<char>, bool),
    line: Seq<char>,
    start: Seq<char>,
    end: Seq<char>,
    new_content: Seq<char>,
) -> (Seq<char>, bool) {
    let (out, inside) = acc;
    if line == start {
        (out + line + seq!['\n'] + new_content, true)
    } else if line == end {
        (out + line + seq!['\n'], false)
    } else if !inside {
        (out + line + seq!['\n'], inside)
    } else {
        (out, inside)
    }
}

/// The state after the given lines.
pub open spec fn section_scan(
    lines: Seq<Seq<char>>,
    start: Seq<char>,
    end: Seq<char>,
    new_content: Seq<char>,
) -> (Seq<char>, bool)
    decreases lines.len(),
{
    if lines.len() == 0 {
        (Seq::empty(), false)
    } else {
        section_step(section_scan(lines.drop_last(), start, end, new_content), lines.last(), start, end, new_content)
    }
}

/// The content with the lines between a start marker line and the next end
/// marker line replaced by `new_content`: each line is kept with a newline,
/// except those inside a section; a start marker is followed by the new
/// content.
pub open spec fn replace_section_spec(
    content: Seq<char>,
    start: Seq<char>,
    end: Seq<char>,
    new_content: Seq<char>,
) -> Seq<char> {
    section_scan(text_lines(content), start, end, new_content).0
}

/// Replaces what stands between `start_marker` and `end_marker` lines.
pub fn replace_section_content(content: &str, start_marker: &str, end_marker: &str, new_content: &str) -> (r:
    String)
    ensures
        r@ == replace_section_spec(content@, start_marker@, end_marker@, new_content@),
{
    let lines = split_lines(content);
    let ghost ls = lines.deep_view();
    let start = chars_of(start_marker);
    let end = chars_of(end_marker);
    let mut result = String::new();
    let mut in_section = false;
    let mut i: usize = 0;
    while i < lines.len()
        invariant
            i <= lines.len(),
            ls == lines.deep_view(),
            ls == text_lines(content@),
            start@ == start_marker@,
            end@ == end_marker@,
            (result@, in_section) == section_scan(ls.take(i as int), start_marker@, end_marker@, new_content@),
        decreases lines.len() - i,
    {
        assert(ls.take(i + 1).drop_last() =~= ls.take(i as int));
        assert(ls.take(i + 1).last() == lines@[i as int]@);
        let line = chars_of(lines[i].as_str());
        if chars_equal(&line, &start) {
            push_str(&mut result, lines[i].as_str());
            result.push('\n');
            push_str(&mut result, new_content);
            in_section = true;
        } else if chars_equal(&line, &end) {
            in_section = false;
            push_str(&mut result, lines[i].as_str());
            result.push('\n');
        } else if !in_section {
            push_str(&mut result, lines[i].as_str());
            result.push('\n');
        }
        i = i + 1;
    }
    assert(ls.take(lines.len() as int) =~= ls);
    result
}

/// The state after scanning `lines` from the state `acc`.
pub open spec fn scan_from(
    acc: (Seq<char>, bool),
    lines: Seq<Seq<char>>,
    start: Seq<char>,
    end: Seq<char>,
    new_content: Seq<char>,
) -> (Seq<char>, bool)
    decreases lines.len(),
{
    if lines.len() == 0 {
        acc
    } else {
        section_step(scan_from(acc, lines.drop_last(), start, end, new_content), lines.last(), start, end, new_content)
    }
}

proof fn lemma_scan_append(
    a: Seq<Seq<char>>,
    b: Seq<Seq<char>>,
    start: Seq<char>,
    end: Seq<char>,
    nc: Seq<char>,
)
    ensures
        section_scan(a + b, start, end, nc) == scan_from(section_scan(a, start, end, nc), b, start, end, nc),
    decreases b.len(),
{
    if b.len() == 0 {
        assert(a + b =~= a);
    } else {
        assert((a + b).drop_last() =~= a + b.drop_last());
        assert((a + b).last() == b.last());
        lemma_scan_append(a, b.drop_last(), start, end, nc);
    }
}

/// Inside a section, lines that are neither marker leave the state as it is.
proof fn lemma_scan_inside(
    o: Seq<char>,
    lines: Seq<Seq<char>>,
    start: Seq<char>,
    end: Seq<char>,
    nc: Seq<char>,
)
    requires
        forall|i: int| 0 <= i < lines.len() ==> #[trigger] lines[i] != start && lines[i] != end,
    ensures
        scan_from((o, true), lines, start, end, nc) == (o, true),
    decreases lines.len(),
{
    if lines.len() > 0 {
        assert(lines.last() == lines[lines.len() - 1]);
        lemma_scan_inside(o, lines.drop_last(), start, end, nc);
    }
}

/// A line kept by the replacement is read back as the same line.
proof fn lemma_kept_line(o: Seq<char>, l: Seq<char>)
    requires
        o.len() == 0 || o.last() == '\n',
        !l.contains('\n'),
        l.len() == 0 || l.last() != '\r',
    ensures
        text_lines(o + l + seq!['\n']) == text_lines(o).push(l),
        (o + l + seq!['\n']).last() == '\n',
{
    assert(o + l + seq!['\n'] =~= o + l.push('\n'));
    lemma_text_lines_append(o, l.push('\n'));
    lemma_text_lines_of_line(l);
    assert(text_lines(o) + seq![l] =~= text_lines(o).push(l));
}

/// After any prefix of the lines, scanning the text written so far gives
/// that text back, in the same state.
proof fn lemma_replace_prefix_stable(
    ls: Seq<Seq<char>>,
    k: int,
    start: Seq<char>,
    end: Seq<char>,
    nc: Seq<char>,
)
    requires
        0 <= k <= ls.len(),
        forall|i: int| 0 <= i < ls.len() ==> !(#[trigger] ls[i]).contains('\n'),
        forall|i: int| 0 <= i < ls.len() ==> (#[trigger] ls[i]).len() == 0 || ls[i].last() != '\r',
        nc.len() == 0 || nc.last() == '\n',
        forall|i: int| 0 <= i < text_lines(nc).len() ==> #[trigger] text_lines(nc)[i] != start && text_lines(nc)[i] != end,
    ensures
        ({
            let st = section_scan(ls.take(k), start, end, nc);
            &&& st.0.len() == 0 || st.0.last() == '\n'
            &&& section_scan(text_lines(st.0), start, end, nc) == st
        }),
    decreases k,
{
    if k == 0 {
        assert(ls.take(0) =~= Seq::<Seq<char>>::empty());
        assert(text_lines(Seq::<char>::empty()) =~= Seq::<Seq<char>>::empty());
    } else {
        lemma_replace_prefix_stable(ls, k - 1, start, end, nc);
        assert(ls.take(k).drop_last() =~= ls.take(k - 1));
        assert(ls.take(k).last() == ls[k - 1]);
        let (o, ins) = section_scan(ls.take(k - 1), start, end, nc);
        let l = ls[k - 1];
        let o1 = o + l + seq!['\n'];
        lemma_kept_line(o, l);
        assert(text_lines(o1).drop_last() =~= text_lines(o));
        assert(text_lines(o1).last() == l);
        let st1 = section_scan(text_lines(o1), start, end, nc);
        assert(st1 == section_step((o, ins), l, start, end, nc));
        if l == start {
            assert(st1 == (o1 + nc, true));
            lemma_text_lines_append(o1, nc);
            lemma_scan_append(text_lines(o1), text_lines(nc), start, end, nc);
            lemma_scan_inside(o1 + nc, text_lines(nc), start, end, nc);
            if nc.len() > 0 {
                assert((o1 + nc).last() == nc.last());
            } else {
                assert(o1 + nc =~= o1);
            }
        } else if l == end {
            assert(st1 == (o1, false));
        } else if !ins {
            assert(st1 == (o1, false));
        }
    }
}

/// Replacing a section a second time with the same content changes nothing,
/// so a regenerated README is already up to date. This holds when no line
/// of the text ends with a carriage return that a second reading would
/// drop, the new content is empty or ends with a newline, and no line of it
/// is a marker.
pub proof fn lemma_replace_section_idempotent(
    content: Seq<char>,
    start: Seq<char>,
    end: Seq<char>,
    new_content: Seq<char>,
)
    requires
        forall|i: int|
            0 <= i < text_lines(content).len() ==> (#[trigger] text_lines(content)[i]).len() == 0
                || text_lines(content)[i].last() != '\r',
        new_content.len() == 0 || new_content.last() == '\n',
        forall|i: int|
            0 <= i < text_lines(new_content).len() ==> #[trigger] text_lines(new_content)[i] != start
                && text_lines(new_content)[i] != end,
    ensures
        replace_section_spec(replace_section_spec(content, start, end, new_content), start, end, new_content)
            == replace_section_spec(content, start, end, new_content),
{
    let ls = text_lines(content);
    lemma_text_lines_no_newline(content);
    lemma_replace_prefix_stable(ls, ls.len() as int, start, end, new_content);
    assert(ls.take(ls.len() as int) =~= ls);
}

/// `a` comes before `b` in the order of `(String, String)`: by key, then by
/// value.
pub open spec fn pair_lt(a: (Seq<char>, Seq<char>), b: (Seq<char>, Seq<char>)) -> bool {
    text_lt(a.0, b.0) || (a.0 == b.0 && text_lt(a.1, b.1))
}

/// Pairs in order: no pair comes before an earlier one.
pub open spec fn pairs_ordered(ps: Seq<(Seq<char>, Seq<char>)>) -> bool {
    forall|i: int, j: int| 0 <= i < j < ps.len() ==> !pair_lt(#[trigger] ps[j], #[trigger] ps[i])
}

/// The text of one key binding line: `"key" = "command"`, both escaped.
pub open spec fn binding_line(p: (Seq<char>, Seq<char>)) -> Seq<char> {
    seq!['"'] + escape_toml_spec(p.0) + "\" = \""@ + escape_toml_spec(p.1) + seq!['"', '\n']
}

/// The binding lines of the pairs, in the order given.
pub open spec fn binding_lines(ps: Seq<(Seq<char>, Seq<char>)>) -> Seq<char>
    decreases ps.len(),
{
    if ps.len() == 0 {
        Seq::empty()
    } else {
        binding_lines(ps.drop_last()) + binding_line(ps.last())
    }
}

/// The text of the pairs of strings.
pub open spec fn pair_texts(ps: Seq<(String, String)>) -> Seq<(Seq<char>, Seq<char>)> {
    ps.map_values(|p: (String, String)| (p.0@, p.1@))
}

/// Whether pair `a` comes before pair `b`.
fn pair_before(a: &(String, String), b: &(String, String)) -> (r: bool)
    ensures
        r == pair_lt((a.0@, a.1@), (b.0@, b.1@)),
{
    let a0 = chars_of(a.0.as_str());
    let b0 = chars_of(b.0.as_str());
    if chars_lt(&a0, &b0) {
        return true;
    }
    if !chars_equal(&a0, &b0) {
        return false;
    }
    chars_lt(&chars_of(a.1.as_str()), &chars_of(b.1.as_str()))
}

/// One section of the default key bindings: a `[keys.<section>]` header,
/// one `"key" = "command"` line per binding in the order of the pairs, and
/// an empty line.
pub open spec fn keymap_section_spec(section: Seq<char>, ps: Seq<(Seq<char>, Seq<char>)>) -> Seq<char> {
    "[keys."@ + section + "]\n"@ + binding_lines(ps) + seq!['\n']
}

/// Writes one section of key bindings, sorted by key and then by command.
pub fn write_keymap_section(out: &mut String, section: &str, entries: Vec<(String, String)>)
    ensures
        exists|sorted: Seq<(Seq<char>, Seq<char>)>|
            pairs_ordered(sorted) && sorted.to_multiset() == pair_texts(entries@).to_multiset()
                && final(out)@ == old(out)@ + #[trigger] keymap_section_spec(section@, sorted),
{
    let sorted = sort_pairs(entries);
    push_str(out, "[keys.");
    push_str(out, section);
    push_str(out, "]\n");
    let ghost head = out@;
    let ghost ps = pair_texts(sorted@);
    let mut i: usize = 0;
    while i < sorted.len()
        invariant
            i <= sorted.len(),
            ps == pair_texts(sorted@),
            out@ == head + binding_lines(ps.take(i as int)),
        decreases sorted.len() - i,
    {
        assert(ps.take(i + 1).drop_last() =~= ps.take(i as int));
        assert(ps.take(i + 1).last() == ps[i as int]);
        out.push('"');
        let k = escape_toml_string(sorted[i].0.as_str());
        push_str(out, k.as_str());
        push_str(out, "\" = \"");
        let c = escape_toml_string(sorted[i].1.as_str());
        push_str(out, c.as_str());
        out.push('"');
        out.push('\n');
        assert(out@ =~= head + binding_lines(ps.take(i as int)) + binding_line(ps[i as int]));
        i = i + 1;
    }
    assert(ps.take(sorted.len() as int) =~= ps);
    out.push('\n');
    assert(out@ =~= old(out)@ + keymap_section_spec(section@, ps));
}

proof fn lemma_pair_lt_facts(a: (Seq<char>, Seq<char>), b: (Seq<char>, Seq<char>), c: (Seq<char>, Seq<char>))
    ensures
        !pair_lt(a, a),
        pair_lt(a, b) && pair_lt(b, c) ==> pair_lt(a, c),
        !pair_lt(a, b) && !pair_lt(b, a) ==> a == b,
{
    crate::order::lemma_text_lt_irreflexive(a.0);
    crate::order::lemma_text_lt_irreflexive(a.1);
    if pair_lt(a, b) && pair_lt(b, c) {
        if text_lt(a.0, b.0) && text_lt(b.0, c.0) {
            crate::order::lemma_text_lt_transitive(a.0, b.0, c.0);
        } else if a.0 == b.0 && b.0 == c.0 {
            crate::order::lemma_text_lt_transitive(a.1, b.1, c.1);
        }
    }
    if !pair_lt(a, b) && !pair_lt(b, a) {
        crate::order::lemma_text_lt_total(a.0, b.0);
        crate::order::lemma_text_lt_total(a.1, b.1);
    }
}

/// Two ordered arrangements of the same key bindings are the same sequence:
/// the section `write_keymap_section` writes depends only on which bindings
/// it is given, not on their order.
pub proof fn lemma_ordered_pairs_unique(a: Seq<(Seq<char>, Seq<char>)>, b: Seq<(Seq<char>, Seq<char>)>)
    requires
        pairs_ordered(a),
        pairs_ordered(b),
        a.to_multiset() == b.to_multiset(),
    ensures
        a == b,
    decreases a.len(),
{
    vstd::seq_lib::to_multiset_len(a);
    vstd::seq_lib::to_multiset_len(b);
    if a.len() == 0 {
        assert(a =~= b);
    } else {
        let x = a[0];
        let y = b[0];
        vstd::seq_lib::to_multiset_contains(b, y);
        vstd::seq_lib::to_multiset_contains(a, y);
        vstd::seq_lib::to_multiset_contains(a, x);
        vstd::seq_lib::to_multiset_contains(b, x);
        assert(b.contains(y)) by {
            assert(b[0] == y);
        }
        assert(a.contains(x)) by {
            assert(a[0] == x);
        }
        let j = choose|j: int| 0 <= j < a.len() && a[j] == y;
        let k = choose|k: int| 0 <= k < b.len() && b[k] == x;
        lemma_pair_lt_facts(x, y, x);
        lemma_pair_lt_facts(y, x, y);
        if j > 0 {
            assert(!pair_lt(a[j], a[0]));
        }
        if k > 0 {
            assert(!pair_lt(b[k], b[0]));
        }
        assert(x == y);
        vstd::seq_lib::to_multiset_remove(a, 0);
        vstd::seq_lib::to_multiset_remove(b, 0);
        let ra = a.remove(0);
        let rb = b.remove(0);
        assert(pairs_ordered(ra)) by {
            assert forall|i: int, l: int| 0 <= i < l < ra.len() implies !pair_lt(#[trigger] ra[l], #[trigger] ra[i]) by {
                assert(ra[l] == a[l + 1] && ra[i] == a[i + 1]);
            }
        }
        assert(pairs_ordered(rb)) by {
            assert forall|i: int, l: int| 0 <= i < l < rb.len() implies !pair_lt(#[trigger] rb[l], #[trigger] rb[i]) by {
                assert(rb[l] == b[l + 1] && rb[i] == b[i + 1]);
            }
        }
        lemma_ordered_pairs_unique(ra, rb);
        assert(a =~= b) by {
            assert forall|i: int| 0 <= i < a.len() implies a[i] == b[i] by {
                if i > 0 {
                    assert(a[i] == ra[i - 1]);
                    assert(b[i] == rb[i - 1]);
                }
            }
        }
    }
}

/// Sorts pairs of strings by key and then by value (`sort_unstable` on
/// `(String, String)`; equal pairs are indistinguishable, so the result is
/// the same as a stable sort's).
fn sort_pairs(v: Vec<(String, String)>) -> (r: Vec<(String, String)>)
    ensures
        pairs_ordered(pair_texts(r@)),
        pair_texts(r@).to_multiset() == pair_texts(v@).to_multiset(),
{
    let ghost all = pair_texts(v@);
    let mut out: Vec<(String, String)> = Vec::new();
    let mut i: usize = 0;
    assert(all.take(0) =~= Seq::<(Seq<char>, Seq<char>)>::empty());
    assert(pair_texts(out@) =~= Seq::<(Seq<char>, Seq<char>)>::empty());
    while i < v.len()
        invariant
            i <= v.len(),
            all == pair_texts(v@),
            pairs_ordered(pair_texts(out@)),
            pair_texts(out@).to_multiset() == all.take(i as int).to_multiset(),
        decreases v.len() - i,
    {
        let item = (v[i].0.clone(), v[i].1.clone());
        let ghost x = (item.0@, item.1@);
        assert(x == all[i as int]);
        let ghost ps = pair_texts(out@);
        let mut j: usize = out.len();
        while j > 0 && pair_before(&item, &out[j - 1])
            invariant
                j <= out.len(),
                ps == pair_texts(out@),
                x == (item.0@, item.1@),
                forall|t: int| j <= t < out.len() ==> pair_lt(x, #[trigger] ps[t]),
            decreases j,
        {
            j = j - 1;
        }
        proof {
            assert forall|a: int, b: int| 0 <= a < b < ps.len() + 1 implies !pair_lt(
                #[trigger] ps.insert(j as int, x)[b],
                #[trigger] ps.insert(j as int, x)[a],
            ) by {
                let n = ps.insert(j as int, x);
                if a < j && b == j {
                    assert(n[a] == ps[a] && n[b] == x);
                    if a < j - 1 {
                        assert(!pair_lt(ps[j - 1], ps[a]));
                    }
                    lemma_pair_lt_facts(x, ps[a], ps[j - 1]);
                    lemma_pair_lt_facts(ps[a], ps[j - 1], x);
                } else if a == j && b > j {
                    assert(n[b] == ps[b - 1]);
                    assert(pair_lt(x, ps[b - 1]));
                    lemma_pair_lt_facts(x, ps[b - 1], x);
                } else if a < j && b > j {
                    assert(n[a] == ps[a] && n[b] == ps[b - 1]);
                } else if a > j {
                    assert(n[a] == ps[a - 1] && n[b] == ps[b - 1]);
                }
            }
            vstd::seq_lib::to_multiset_insert(ps, j as int, x);
            vstd::seq_lib::to_multiset_build(all.take(i as int), x);
            assert(all.take(i + 1) =~= all.take(i as int).push(x));
        }
        out.insert(j, item);
        assert(pair_texts(out@) =~= ps.insert(j as int, x));
        i = i + 1;
    }
    assert(all.take(v.len() as int) =~= all);
    out
}

} // verus!
