//! Character-level text helpers shared by the rest of the library: line
//! splitting with the semantics of `str::lines`, UTF-8 byte lengths, prefix
//! tests and conversions between `String` and character vectors.
use vstd::prelude::*;

verus! {

/// Appending one character to a `String` (`String::push` from std) extends its
/// character sequence by that character.
pub assume_specification[ String::push ](s: &mut String, ch: char)
    ensures
        final(s)@ == old(s)@.push(ch),
;

/// Removing the last character of a `String` (`String::pop` from std) returns
/// it and shortens the string by it; an empty string is left as it is.
pub assume_specification[ String::pop ](s: &mut String) -> (r: Option<char>)
    ensures
        old(s)@.len() == 0 ==> r.is_none() && final(s)@ == old(s)@,
        old(s)@.len() > 0 ==> r == Some(old(s)@.last()) && final(s)@ == old(s)@.drop_last(),
;

// ---------------------------------------------------------------------------
// Specifications
// ---------------------------------------------------------------------------

/// Number of bytes in the UTF-8 encoding of one character.
pub open spec fn char_utf8_len(c: char) -> nat {
    if (c as u32) < 0x80 {
        1
    } else if (c as u32) < 0x800 {
        2
    } else if (c as u32) < 0x10000 {
        3
    } else {
        4
    }
}

/// Number of bytes in the UTF-8 encoding of a character sequence (what
/// `str::len` reports for a string holding these characters).
pub open spec fn utf8_len(s: Seq<char>) -> nat
    decreases s.len(),
{
    if s.len() == 0 {
        0
    } else {
        utf8_len(s.drop_last()) + char_utf8_len(s.last())
    }
}

/// Pieces of `s` between occurrences of `sep`: one more piece than there are
/// separators (what `str::split` yields for a single-character pattern).
pub open spec fn split_pieces(s: Seq<char>, sep: char) -> Seq<Seq<char>>
    decreases s.len(),
{
    if s.len() == 0 {
        seq![Seq::<char>::empty()]
    } else {
        let prev = split_pieces(s.drop_last(), sep);
        if s.last() == sep {
            prev.push(Seq::<char>::empty())
        } else {
            prev.update(prev.len() - 1, prev.last().push(s.last()))
        }
    }
}

/// Pieces of `s` between newline characters (the last piece is empty when `s`
/// ends with a newline).
pub open spec fn newline_pieces(s: Seq<char>) -> Seq<Seq<char>> {
    split_pieces(s, '\n')
}

/// A line that was ended by `\n` loses one trailing `\r` (so `\r\n` also ends a line).
pub open spec fn strip_cr(l: Seq<char>) -> Seq<char> {
    if l.len() > 0 && l.last() == '\r' {
        l.drop_last()
    } else {
        l
    }
}

/// The lines of `s` as `str::lines` yields them: split at `\n`, each terminated
/// line without its trailing `\r`, no empty line after a final newline, and the
/// last unterminated line kept as it is.
pub open spec fn text_lines(s: Seq<char>) -> Seq<Seq<char>> {
    let pieces = newline_pieces(s);
    let terminated = pieces.drop_last().map_values(|l: Seq<char>| strip_cr(l));
    if pieces.last().len() == 0 {
        terminated
    } else {
        terminated.push(pieces.last())
    }
}

/// `p` is a prefix of `s`.
pub open spec fn has_prefix(s: Seq<char>, p: Seq<char>) -> bool {
    p.len() <= s.len() && s.take(p.len() as int) == p
}

/// `p` is a suffix of `s`.
pub open spec fn has_suffix(s: Seq<char>, p: Seq<char>) -> bool {
    p.len() <= s.len() && s.skip(s.len() - p.len()) == p
}

/// `n` spaces.
pub open spec fn spaces(n: nat) -> Seq<char> {
    Seq::new(n, |i: int| ' ')
}

/// `s` padded on the right with spaces up to `width` characters (what
/// `format!("{:<width$}", s)` produces).
pub open spec fn pad_right(s: Seq<char>, width: nat) -> Seq<char> {
    if s.len() >= width {
        s
    } else {
        s + spaces((width - s.len()) as nat)
    }
}

/// `s` with every occurrence of `from` replaced by the character sequence `to`.
pub open spec fn replace_char(s: Seq<char>, from: char, to: Seq<char>) -> Seq<char>
    decreases s.len(),
{
    if s.len() == 0 {
        Seq::empty()
    } else {
        replace_char(s.drop_last(), from, to) + (if s.last() == from {
            to
        } else {
            seq![s.last()]
        })
    }
}

/// The pieces written one after another with `sep` between neighbours
/// (`[T]::join`).
pub open spec fn join_seqs(parts: Seq<Seq<char>>, sep: Seq<char>) -> Seq<char>
    decreases parts.len(),
{
    if parts.len() == 0 {
        Seq::empty()
    } else if parts.len() == 1 {
        parts[0]
    } else {
        join_seqs(parts.drop_last(), sep) + sep + parts.last()
    }
}

/// Characters with the Unicode `White_Space` property (`char::is_whitespace`).
pub open spec fn is_space(c: char) -> bool {
    ||| ('\u{9}' <= c && c <= '\u{d}')
    ||| c == ' '
    ||| c == '\u{85}'
    ||| c == '\u{a0}'
    ||| c == '\u{1680}'
    ||| ('\u{2000}' <= c && c <= '\u{200a}')
    ||| c == '\u{2028}'
    ||| c == '\u{2029}'
    ||| c == '\u{202f}'
    ||| c == '\u{205f}'
    ||| c == '\u{3000}'
}

/// Number of whitespace characters that begin `s`.
pub open spec fn leading_spaces(s: Seq<char>) -> nat
    decreases s.len(),
{
    if s.len() > 0 && is_space(s[0]) {
        1 + leading_spaces(s.drop_first())
    } else {
        0
    }
}

/// Number of whitespace characters that end `s`.
pub open spec fn trailing_spaces(s: Seq<char>) -> nat
    decreases s.len(),
{
    if s.len() > 0 && is_space(s.last()) {
        1 + trailing_spaces(s.drop_last())
    } else {
        0
    }
}

/// `s` without leading and trailing whitespace (`str::trim`).
pub open spec fn trim(s: Seq<char>) -> Seq<char> {
    let t = s.skip(leading_spaces(s) as int);
    t.take(t.len() - trailing_spaces(t))
}

/// ASCII letters lowered, other characters kept (`str::to_ascii_lowercase`).
pub open spec fn ascii_lower(s: Seq<char>) -> Seq<char> {
    s.map_values(|c: char| if 'A' <= c && c <= 'Z' { ((c as u32) + 32) as char } else { c })
}

/// The decimal digit for `d` (`0`..`9`).
pub open spec fn digit(d: nat) -> char {
    ((48 + d) as u32) as char
}

/// The decimal notation of `n`, as `Display` writes an unsigned integer.
pub open spec fn decimal(n: nat) -> Seq<char>
    decreases n,
{
    if n < 10 {
        seq![digit(n)]
    } else {
        decimal(n / 10).push(digit(n % 10))
    }
}

/// `p` occurs somewhere in `s` as a contiguous piece.
pub open spec fn contains_seq(s: Seq<char>, p: Seq<char>) -> bool {
    exists|i: int| 0 <= i && i + p.len() <= s.len() && #[trigger] s.subrange(i, i + p.len()) == p
}

// ---------------------------------------------------------------------------
// Lemmas
// ---------------------------------------------------------------------------

pub proof fn lemma_split_pieces_nonempty(s: Seq<char>, sep: char)
    ensures
        split_pieces(s, sep).len() >= 1,
    decreases s.len(),
{
    if s.len() > 0 {
        lemma_split_pieces_nonempty(s.drop_last(), sep);
    }
}

/// Splitting `a + b`, where `a` ends with the separator, splits `a` and `b`
/// apart: the empty piece after `a`'s last separator becomes `b`'s first.
pub proof fn lemma_split_pieces_append(a: Seq<char>, b: Seq<char>, sep: char)
    requires
        a.len() > 0,
        a.last() == sep,
    ensures
        split_pieces(a + b, sep) == split_pieces(a, sep).drop_last() + split_pieces(b, sep),
    decreases b.len(),
{
    if b.len() == 0 {
        assert(a + b =~= a);
        assert(a.drop_last() + seq![sep] =~= a);
        assert(split_pieces(a, sep) =~= split_pieces(a, sep).drop_last() + split_pieces(b, sep));
    } else {
        assert((a + b).drop_last() =~= a + b.drop_last());
        assert((a + b).last() == b.last());
        lemma_split_pieces_append(a, b.drop_last(), sep);
        lemma_split_pieces_nonempty(b.drop_last(), sep);
        let q = split_pieces(a, sep).drop_last();
        let r = split_pieces(b.drop_last(), sep);
        if b.last() == sep {
            assert((q + r).push(Seq::<char>::empty()) =~= q + r.push(Seq::<char>::empty()));
        } else {
            assert((q + r).update((q + r).len() - 1, (q + r).last().push(b.last())) =~= q + r.update(
                r.len() - 1,
                r.last().push(b.last()),
            ));
        }
    }
}

/// Text without the separator is a single piece.
pub proof fn lemma_split_pieces_single(s: Seq<char>, sep: char)
    requires
        !s.contains(sep),
    ensures
        split_pieces(s, sep) == seq![s],
    decreases s.len(),
{
    if s.len() > 0 {
        assert(!s.drop_last().contains(sep)) by {
            if s.drop_last().contains(sep) {
                let i = choose|i: int| 0 <= i < s.drop_last().len() && s.drop_last()[i] == sep;
                assert(s[i] == sep);
            }
        }
        assert(s[s.len() - 1] == s.last());
        assert(s.last() != sep);
        lemma_split_pieces_single(s.drop_last(), sep);
        assert(s.drop_last().push(s.last()) =~= s);
        let prev = split_pieces(s.drop_last(), sep);
        assert(prev.update(prev.len() - 1, prev.last().push(s.last())) =~= seq![s]);
    } else {
        assert(s =~= Seq::<char>::empty());
    }
}

/// No piece holds the separator.
pub proof fn lemma_split_pieces_no_sep(s: Seq<char>, sep: char)
    ensures
        forall|i: int| 0 <= i < split_pieces(s, sep).len() ==> !(#[trigger] split_pieces(s, sep)[i]).contains(sep),
    decreases s.len(),
{
    if s.len() > 0 {
        lemma_split_pieces_no_sep(s.drop_last(), sep);
        lemma_split_pieces_nonempty(s.drop_last(), sep);
        let prev = split_pieces(s.drop_last(), sep);
        if s.last() != sep {
            let l = prev.last().push(s.last());
            assert(!l.contains(sep)) by {
                assert(!prev[prev.len() - 1].contains(sep));
                if l.contains(sep) {
                    let j = choose|j: int| 0 <= j < l.len() && l[j] == sep;
                    if j < l.len() - 1 {
                        assert(prev.last()[j] == sep);
                    }
                }
            }
            assert forall|i: int| 0 <= i < split_pieces(s, sep).len() implies !(
            #[trigger] split_pieces(s, sep)[i]).contains(sep) by {
                if i < prev.len() - 1 {
                    assert(split_pieces(s, sep)[i] == prev[i]);
                }
            }
        } else {
            assert forall|i: int| 0 <= i < split_pieces(s, sep).len() implies !(
            #[trigger] split_pieces(s, sep)[i]).contains(sep) by {
                if i < prev.len() {
                    assert(split_pieces(s, sep)[i] == prev[i]);
                } else {
                    assert(split_pieces(s, sep)[i] =~= Seq::<char>::empty());
                }
            }
        }
    }
}

/// The lines of `a + b`, where `a` is empty or ends with a newline, are the
/// lines of `a` followed by those of `b`.
pub proof fn lemma_text_lines_append(a: Seq<char>, b: Seq<char>)
    requires
        a.len() == 0 || a.last() == '\n',
    ensures
        text_lines(a + b) == text_lines(a) + text_lines(b),
{
    if a.len() == 0 {
        assert(a + b =~= b);
        assert(text_lines(a) =~= Seq::<Seq<char>>::empty());
        assert(text_lines(a + b) =~= text_lines(a) + text_lines(b));
    } else {
        lemma_split_pieces_append(a, b, '\n');
        lemma_split_pieces_nonempty(a, '\n');
        lemma_split_pieces_nonempty(b, '\n');
        let pa = newline_pieces(a);
        let pb = newline_pieces(b);
        let p = pa.drop_last();
        assert(pa.last() =~= Seq::<char>::empty()) by {
            assert(a.drop_last().push('\n') =~= a);
        }
        assert((p + pb).drop_last() =~= p + pb.drop_last());
        assert((p + pb).last() == pb.last());
        assert(text_lines(a) =~= p.map_values(|l: Seq<char>| strip_cr(l)));
        assert((p + pb.drop_last()).map_values(|l: Seq<char>| strip_cr(l)) =~= p.map_values(
            |l: Seq<char>| strip_cr(l),
        ) + pb.drop_last().map_values(|l: Seq<char>| strip_cr(l)));
        if pb.last().len() == 0 {
            assert(text_lines(a + b) =~= text_lines(a) + text_lines(b));
        } else {
            assert(text_lines(a + b) =~= text_lines(a) + text_lines(b));
        }
    }
}

/// A line without a newline or a final `\r`, ended by a newline, is that one
/// line.
pub proof fn lemma_text_lines_of_line(l: Seq<char>)
    requires
        !l.contains('\n'),
        l.len() == 0 || l.last() != '\r',
    ensures
        text_lines(l.push('\n')) == seq![l],
{
    lemma_split_pieces_single(l, '\n');
    assert(l.push('\n').drop_last() =~= l);
    assert(newline_pieces(l.push('\n')) =~= seq![l, Seq::<char>::empty()]);
    assert(text_lines(l.push('\n')) =~= seq![l]);
}

/// No line holds a newline.
pub proof fn lemma_text_lines_no_newline(s: Seq<char>)
    ensures
        forall|i: int| 0 <= i < text_lines(s).len() ==> !(#[trigger] text_lines(s)[i]).contains('\n'),
{
    lemma_split_pieces_no_sep(s, '\n');
    lemma_split_pieces_nonempty(s, '\n');
    let pieces = newline_pieces(s);
    assert forall|i: int| 0 <= i < text_lines(s).len() implies !(#[trigger] text_lines(s)[i]).contains('\n') by {
        if i < pieces.len() - 1 {
            let l = pieces[i];
            assert(!l.contains('\n'));
            assert(text_lines(s)[i] == strip_cr(l));
            if strip_cr(l).contains('\n') {
                let j = choose|j: int| 0 <= j < strip_cr(l).len() && strip_cr(l)[j] == '\n';
                assert(l[j] == '\n');
            }
        } else {
            assert(text_lines(s)[i] == pieces.last());
            assert(!pieces[pieces.len() - 1].contains('\n'));
        }
    }
}

pub proof fn lemma_utf8_len_append(a: Seq<char>, b: Seq<char>)
    ensures
        utf8_len(a + b) == utf8_len(a) + utf8_len(b),
    decreases b.len(),
{
    if b.len() == 0 {
        assert(a + b == a);
    } else {
        lemma_utf8_len_append(a, b.drop_last());
        assert((a + b).drop_last() == a + b.drop_last());
    }
}

pub proof fn lemma_utf8_len_positive(s: Seq<char>)
    requires
        s.len() > 0,
    ensures
        utf8_len(s) >= s.len(),
        utf8_len(s) > 0,
    decreases s.len(),
{
    if s.len() > 1 {
        lemma_utf8_len_positive(s.drop_last());
    }
}

pub proof fn lemma_utf8_len_at_least_len(s: Seq<char>)
    ensures
        utf8_len(s) >= s.len(),
    decreases s.len(),
{
    if s.len() > 0 {
        lemma_utf8_len_at_least_len(s.drop_last());
    }
}

proof fn lemma_utf8_len_front(s: Seq<char>)
    requires
        s.len() > 0,
    ensures
        utf8_len(s) == char_utf8_len(s[0]) + utf8_len(s.drop_first()),
{
    lemma_utf8_len_append(seq![s[0]], s.drop_first());
    assert(seq![s[0]] + s.drop_first() =~= s);
    assert(seq![s[0]].drop_last() =~= Seq::<char>::empty());
    assert(utf8_len(Seq::<char>::empty()) == 0);
    assert(seq![s[0]].last() == s[0]);
    assert(utf8_len(seq![s[0]]) == char_utf8_len(s[0]));
}

/// `utf8_len` is the length of the UTF-8 encoding that `str::len` reports.
pub proof fn lemma_utf8_len_is_encoded_len(s: Seq<char>)
    ensures
        utf8_len(s) == vstd::utf8::encode_utf8(s).len(),
    decreases s.len(),
{
    if s.len() > 0 {
        lemma_utf8_len_front(s);
        lemma_utf8_len_is_encoded_len(s.drop_first());
        vstd::utf8::char_is_scalar(s[0]);
    }
}

/// Number of bytes of a string slice.
pub fn byte_len(s: &str) -> (n: usize)
    ensures
        n == utf8_len(s@),
{
    proof {
        lemma_utf8_len_is_encoded_len(s@);
    }
    let b = s.as_bytes();
    b.len()
}

// ---------------------------------------------------------------------------
// Executable helpers
// ---------------------------------------------------------------------------

/// The characters of a string slice, in order.
pub fn chars_of(s: &str) -> (v: Vec<char>)
    ensures
        v@ == s@,
{
    let mut v: Vec<char> = Vec::new();
    for c in it: s.chars()
        invariant
            v@ == it.seq().take(it.index() as int),
    {
        v.push(c);
    }
    v
}

/// A `String` holding exactly the given characters.
pub fn string_from_chars(v: &Vec<char>) -> (s: String)
    ensures
        s@ == v@,
{
    let mut s = String::new();
    let mut i: usize = 0;
    while i < v.len()
        invariant
            i <= v.len(),
            s@ == v@.take(i as int),
        decreases v.len() - i,
    {
        s.push(v[i]);
        assert(v@.take(i + 1) == v@.take(i as int).push(v@[i as int]));
        i = i + 1;
    }
    assert(v@.take(v.len() as int) == v@);
    s
}

/// A `String` holding the characters `v[lo..hi]`.
pub fn string_from_range(v: &Vec<char>, lo: usize, hi: usize) -> (s: String)
    requires
        lo <= hi <= v.len(),
    ensures
        s@ == v@.subrange(lo as int, hi as int),
{
    let mut s = String::new();
    let mut i: usize = lo;
    while i < hi
        invariant
            lo <= i <= hi <= v.len(),
            s@ == v@.subrange(lo as int, i as int),
        decreases hi - i,
    {
        s.push(v[i]);
        assert(v@.subrange(lo as int, i + 1) == v@.subrange(lo as int, i as int).push(v@[i as int]));
        i = i + 1;
    }
    s
}

/// A copy of a string slice as an owned `String`.
pub fn owned(s: &str) -> (r: String)
    ensures
        r@ == s@,
{
    s.to_owned()
}

/// Appends the characters of `t` to `s`.
pub fn push_str(s: &mut String, t: &str)
    ensures
        final(s)@ == old(s)@ + t@,
{
    let v = chars_of(t);
    let ghost start = s@;
    let mut i: usize = 0;
    while i < v.len()
        invariant
            i <= v.len(),
            v@ == t@,
            s@ == start + v@.take(i as int),
        decreases v.len() - i,
    {
        s.push(v[i]);
        assert(v@.take(i + 1) == v@.take(i as int).push(v@[i as int]));
        i = i + 1;
    }
    assert(v@.take(v.len() as int) == v@);
}

/// Appends `n` spaces to `s`.
pub fn push_spaces(s: &mut String, n: usize)
    ensures
        final(s)@ == old(s)@ + spaces(n as nat),
{
    let ghost start = s@;
    let mut i: usize = 0;
    while i < n
        invariant
            i <= n,
            s@ == start + spaces(i as nat),
        decreases n - i,
    {
        s.push(' ');
        assert(spaces((i + 1) as nat) == spaces(i as nat).push(' '));
        i = i + 1;
    }
}

/// Appends `t` padded with spaces to at least `width` characters.
pub fn push_padded(s: &mut String, t: &str, width: usize)
    ensures
        final(s)@ == old(s)@ + pad_right(t@, width as nat),
{
    let n = char_count(t);
    push_str(s, t);
    if n < width {
        push_spaces(s, width - n);
    }
}

/// Number of characters in a string slice.
pub fn char_count(s: &str) -> (n: usize)
    ensures
        n == s@.len(),
{
    let v = chars_of(s);
    v.len()
}

/// Number of bytes in the UTF-8 encoding of one character.
pub fn char_byte_len(c: char) -> (n: usize)
    ensures
        n == char_utf8_len(c),
{
    let u = c as u32;
    if u < 0x80 {
        1
    } else if u < 0x800 {
        2
    } else if u < 0x10000 {
        3
    } else {
        4
    }
}

/// Number of bytes in the UTF-8 encoding of the characters in `v`.
pub fn byte_len_of_chars(v: &Vec<char>) -> (n: usize)
    requires
        utf8_len(v@) <= usize::MAX,
    ensures
        n == utf8_len(v@),
{
    let mut n: usize = 0;
    let mut i: usize = 0;
    while i < v.len()
        invariant
            i <= v.len(),
            n == utf8_len(v@.take(i as int)),
            utf8_len(v@) <= usize::MAX,
        decreases v.len() - i,
    {
        proof {
            assert(v@.take(i + 1).drop_last() == v@.take(i as int));
            lemma_utf8_len_append(v@.take(i + 1), v@.skip(i + 1));
            assert(v@.take(i + 1) + v@.skip(i + 1) == v@);
        }
        n = n + char_byte_len(v[i]);
        i = i + 1;
    }
    assert(v@.take(v.len() as int) == v@);
    n
}

/// Whether the characters of `t` begin the character vector `s`.
pub fn chars_start_with(s: &Vec<char>, t: &Vec<char>) -> (b: bool)
    ensures
        b == has_prefix(s@, t@),
{
    if t.len() > s.len() {
        return false;
    }
    let mut i: usize = 0;
    while i < t.len()
        invariant
            i <= t.len() <= s.len(),
            s@.take(i as int) == t@.take(i as int),
        decreases t.len() - i,
    {
        if s[i] != t[i] {
            assert(s@.take(t.len() as int)[i as int] != t@[i as int]);
            return false;
        }
        assert(s@.take(i + 1) == s@.take(i as int).push(s@[i as int]));
        assert(t@.take(i + 1) == t@.take(i as int).push(t@[i as int]));
        i = i + 1;
    }
    assert(t@.take(t.len() as int) == t@);
    true
}

/// Whether the characters of `t` end the character vector `s`.
pub fn chars_end_with(s: &Vec<char>, t: &Vec<char>) -> (b: bool)
    ensures
        b == has_suffix(s@, t@),
{
    if t.len() > s.len() {
        return false;
    }
    let off = s.len() - t.len();
    let mut i: usize = 0;
    while i < t.len()
        invariant
            i <= t.len() <= s.len(),
            off == s.len() - t.len(),
            forall|j: int| 0 <= j < i ==> s@[off + j] == t@[j],
        decreases t.len() - i,
    {
        if s[off + i] != t[i] {
            assert(s@.skip(off as int)[i as int] != t@[i as int]);
            return false;
        }
        i = i + 1;
    }
    assert(s@.skip(off as int) =~= t@);
    true
}

/// Whether two character vectors are equal.
pub fn chars_equal(s: &Vec<char>, t: &Vec<char>) -> (b: bool)
    ensures
        b == (s@ == t@),
{
    if s.len() != t.len() {
        return false;
    }
    let r = chars_start_with(s, t);
    assert(s@.take(t.len() as int) == s@);
    r
}

/// Whether `t` occurs in `s`.
pub fn chars_contain(s: &Vec<char>, t: &Vec<char>) -> (b: bool)
    ensures
        b == contains_seq(s@, t@),
{
    if t.len() > s.len() {
        return false;
    }
    let last = s.len() - t.len();
    let mut i: usize = 0;
    loop
        invariant
            last == s.len() - t.len(),
            i <= last,
            forall|k: int| 0 <= k < i ==> #[trigger] s@.subrange(k, k + t.len()) != t@,
        decreases last - i,
    {
        let mut j: usize = 0;
        let mut matched = true;
        while j < t.len()
            invariant
                i <= last,
                last == s.len() - t.len(),
                j <= t.len(),
                matched ==> forall|m: int| 0 <= m < j ==> s@[i + m] == t@[m],
                !matched ==> s@.subrange(i as int, i + t.len()) != t@,
            decreases t.len() - j,
        {
            if s[i + j] != t[j] {
                assert(s@.subrange(i as int, i + t.len())[j as int] != t@[j as int]);
                matched = false;
            }
            j = j + 1;
        }
        if matched {
            assert(s@.subrange(i as int, i + t.len()) =~= t@);
            return true;
        }
        if i == last {
            proof {
                assert forall|k: int| 0 <= k && k + t@.len() <= s@.len() implies #[trigger] s@.subrange(
                    k,
                    k + t@.len(),
                ) != t@ by {
                    assert(k <= i);
                }
            }
            return false;
        }
        i = i + 1;
    }
}

/// The strings `parts[lo..hi]` joined with `sep` between neighbours.
pub fn join_range(parts: &Vec<String>, lo: usize, hi: usize, sep: &str) -> (r: String)
    requires
        lo <= hi <= parts.len(),
    ensures
        r@ == join_seqs(parts.deep_view().subrange(lo as int, hi as int), sep@),
{
    let ghost all = parts.deep_view();
    let mut r = String::new();
    let mut i: usize = lo;
    while i < hi
        invariant
            lo <= i <= hi <= parts.len(),
            all == parts.deep_view(),
            r@ == join_seqs(all.subrange(lo as int, i as int), sep@),
        decreases hi - i,
    {
        assert(all.subrange(lo as int, i + 1).drop_last() =~= all.subrange(lo as int, i as int));
        if i > lo {
            push_str(&mut r, sep);
        } else {
            assert(all.subrange(lo as int, i as int).len() == 0);
        }
        push_str(&mut r, parts[i].as_str());
        assert(all[i as int] == parts@[i as int]@);
        i = i + 1;
    }
    r
}

/// Whether the character `c` occurs in `v`.
pub fn chars_have(v: &Vec<char>, c: char) -> (b: bool)
    ensures
        b == v@.contains(c),
{
    let mut i: usize = 0;
    while i < v.len()
        invariant
            i <= v.len(),
            forall|j: int| 0 <= j < i ==> v@[j] != c,
        decreases v.len() - i,
    {
        if v[i] == c {
            assert(v@[i as int] == c);
            return true;
        }
        i = i + 1;
    }
    false
}

/// Whether `c` is whitespace (`char::is_whitespace`).
pub fn char_is_space(c: char) -> (b: bool)
    ensures
        b == is_space(c),
{
    ('\u{9}' <= c && c <= '\u{d}') || c == ' ' || c == '\u{85}' || c == '\u{a0}' || c
        == '\u{1680}' || ('\u{2000}' <= c && c <= '\u{200a}') || c == '\u{2028}' || c
        == '\u{2029}' || c == '\u{202f}' || c == '\u{205f}' || c == '\u{3000}'
}

/// `s` without leading and trailing whitespace.
pub fn trim_str(s: &str) -> (r: String)
    ensures
        r@ == trim(s@),
{
    let v = chars_of(s);
    let mut i: usize = 0;
    assert(v@.skip(0) =~= v@);
    while i < v.len() && char_is_space(v[i])
        invariant
            i <= v.len(),
            v@ == s@,
            leading_spaces(v@) == i + leading_spaces(v@.skip(i as int)),
        decreases v.len() - i,
    {
        assert(v@.skip(i as int).drop_first() =~= v@.skip(i + 1));
        i = i + 1;
    }
    assert(leading_spaces(v@.skip(i as int)) == 0);
    let ghost t = v@.skip(i as int);
    let mut e: usize = v.len();
    assert(t.take(t.len() - 0) =~= t);
    while e > i && char_is_space(v[e - 1])
        invariant
            i <= e <= v.len(),
            t == v@.skip(i as int),
            trailing_spaces(t) == (v.len() - e) + trailing_spaces(t.take(e - i)),
        decreases e - i,
    {
        assert(t.take(e - i).drop_last() =~= t.take(e - 1 - i));
        assert(t.take(e - i).last() == v@[e - 1]);
        e = e - 1;
    }
    assert(trailing_spaces(t.take(e - i)) == 0);
    let r = string_from_range(&v, i, e);
    assert(r@ =~= t.take(t.len() - trailing_spaces(t)));
    r
}

/// `s` with ASCII letters lowered.
pub fn ascii_lower_str(s: &str) -> (r: String)
    ensures
        r@ == ascii_lower(s@),
{
    let v = chars_of(s);
    let mut r = String::new();
    let mut i: usize = 0;
    while i < v.len()
        invariant
            i <= v.len(),
            v@ == s@,
            r@ == ascii_lower(v@.take(i as int)),
        decreases v.len() - i,
    {
        let c = v[i];
        let d = if 'A' <= c && c <= 'Z' {
            let u: u32 = c as u32;
            let l: u8 = (u + 32) as u8;
            assert(((u + 32) as u8) == u + 32) by (bit_vector)
                requires
                    65 <= u <= 90,
            ;
            l as char
        } else {
            c
        };
        r.push(d);
        assert(ascii_lower(v@.take(i + 1)) =~= ascii_lower(v@.take(i as int)).push(d));
        i = i + 1;
    }
    assert(v@.take(v.len() as int) =~= v@);
    r
}

/// Appends the decimal notation of `n`.
pub fn push_decimal(s: &mut String, n: usize)
    ensures
        final(s)@ == old(s)@ + decimal(n as nat),
    decreases n,
{
    if n >= 10 {
        push_decimal(s, n / 10);
    }
    let d: usize = n % 10;
    let b: u8 = (d as u8) + 48;
    assert((d as u8) == d) by (bit_vector)
        requires
            d < 10,
    ;
    let c = b as char;
    s.push(c);
    assert(c == digit(d as nat));
}

/// The text lowered by `str::to_lowercase` (Unicode case mapping).
pub uninterp spec fn lowercase(s: Seq<char>) -> Seq<char>;

/// Calls `str::to_lowercase`. Claimed: the result is `lowercase` of the
/// text, a function of the text alone.
#[verifier::external_body]
pub(crate) fn to_lowercase(s: &str) -> (r: String)
    ensures
        r@ == lowercase(s@),
{
    s.to_lowercase()
}

/// The pieces of `s` between occurrences of `sep` (`str::split` with a
/// character pattern), as character vectors.
pub fn split_chars(s: &str, sep: char) -> (pieces: Vec<Vec<char>>)
    ensures
        pieces@.map_values(|p: Vec<char>| p@) == split_pieces(s@, sep),
        pieces@.len() <= s@.len() + 1,
{
    let cs = chars_of(s);
    let mut done: Vec<Vec<char>> = Vec::new();
    let mut cur: Vec<char> = Vec::new();
    let mut i: usize = 0;
    while i < cs.len()
        invariant
            i <= cs.len(),
            cs@ == s@,
            split_pieces(cs@.take(i as int), sep).len() >= 1,
            done@.map_values(|p: Vec<char>| p@) == split_pieces(cs@.take(i as int), sep).drop_last(),
            cur@ == split_pieces(cs@.take(i as int), sep).last(),
            done@.len() <= i,
        decreases cs.len() - i,
    {
        let c = cs[i];
        proof {
            assert(cs@.take(i + 1).drop_last() == cs@.take(i as int));
            lemma_split_pieces_nonempty(cs@.take(i + 1), sep);
        }
        let ghost prev = split_pieces(cs@.take(i as int), sep);
        if c == sep {
            let finished = cur;
            done.push(finished);
            cur = Vec::new();
            proof {
                let next = split_pieces(cs@.take(i + 1), sep);
                assert(next == prev.push(Seq::<char>::empty()));
                assert(prev.drop_last().push(prev.last()) == prev);
                assert(done@.map_values(|p: Vec<char>| p@) =~= next.drop_last());
            }
        } else {
            cur.push(c);
            proof {
                let next = split_pieces(cs@.take(i + 1), sep);
                assert(next == prev.update(prev.len() - 1, prev.last().push(c)));
                assert(next.drop_last() =~= prev.drop_last());
            }
        }
        i = i + 1;
    }
    assert(cs@.take(cs.len() as int) == cs@);
    let ghost before = done@;
    let ghost all = split_pieces(s@, sep);
    done.push(cur);
    proof {
        assert(all.drop_last().push(all.last()) == all);
        assert(done@.map_values(|p: Vec<char>| p@) =~= before.map_values(|p: Vec<char>| p@).push(all.last()));
    }
    done
}

/// Number of bytes in the UTF-8 encoding of the characters in `v`, as a wide integer.
pub fn utf8_len_wide(v: &Vec<char>) -> (n: u128)
    ensures
        n == utf8_len(v@),
        n <= 4 * v.len(),
{
    let mut n: u128 = 0;
    let mut i: usize = 0;
    while i < v.len()
        invariant
            i <= v.len(),
            n == utf8_len(v@.take(i as int)),
            n <= 4 * i,
        decreases v.len() - i,
    {
        assert(v@.take(i + 1).drop_last() == v@.take(i as int));
        n = n + char_byte_len(v[i]) as u128;
        i = i + 1;
    }
    assert(v@.take(v.len() as int) == v@);
    n
}

/// The line with one trailing `\r` removed.
fn strip_cr_chars(l: &Vec<char>) -> (r: String)
    ensures
        r@ == strip_cr(l@),
{
    if l.len() > 0 && l[l.len() - 1] == '\r' {
        string_from_range(l, 0, l.len() - 1)
    } else {
        string_from_chars(l)
    }
}

/// The lines of `s`, with the semantics of `str::lines`.
pub fn split_lines(s: &str) -> (lines: Vec<String>)
    ensures
        lines.deep_view() == text_lines(s@),
{
    let cs = chars_of(s);
    let mut done: Vec<String> = Vec::new();
    let mut cur: Vec<char> = Vec::new();
    let mut i: usize = 0;
    while i < cs.len()
        invariant
            i <= cs.len(),
            cs@ == s@,
            newline_pieces(cs@.take(i as int)).len() >= 1,
            done.deep_view() == newline_pieces(cs@.take(i as int)).drop_last().map_values(
                |l: Seq<char>| strip_cr(l),
            ),
            cur@ == newline_pieces(cs@.take(i as int)).last(),
        decreases cs.len() - i,
    {
        let c = cs[i];
        proof {
            assert(cs@.take(i + 1).drop_last() == cs@.take(i as int));
            lemma_split_pieces_nonempty(cs@.take(i + 1), '\n');
        }
        let ghost prev = newline_pieces(cs@.take(i as int));
        if c == '\n' {
            let line = strip_cr_chars(&cur);
            done.push(line);
            cur = Vec::new();
            proof {
                let next = newline_pieces(cs@.take(i + 1));
                assert(next == prev.push(Seq::<char>::empty()));
                assert(next.drop_last() == prev);
                assert(prev.drop_last().push(prev.last()) == prev);
                assert(prev.map_values(|l: Seq<char>| strip_cr(l)) =~= prev.drop_last().map_values(
                    |l: Seq<char>| strip_cr(l),
                ).push(strip_cr(prev.last())));
                assert(done.deep_view() =~= next.drop_last().map_values(|l: Seq<char>| strip_cr(l)));
            }
        } else {
            cur.push(c);
            proof {
                let next = newline_pieces(cs@.take(i + 1));
                assert(next == prev.update(prev.len() - 1, prev.last().push(c)));
                assert(next.drop_last() =~= prev.drop_last());
            }
        }
        i = i + 1;
    }
    assert(cs@.take(cs.len() as int) == cs@);
    if cur.len() > 0 {
        let last = string_from_chars(&cur);
        done.push(last);
        proof {
            assert(done.deep_view() =~= text_lines(s@));
        }
    }
    done
}

} // verus!
