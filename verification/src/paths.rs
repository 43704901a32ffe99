//! A model of Unix `std::path::Path` operations on character sequences:
//! final component (`file_name`), `parent` and `join`, with the component
//! rules of `Path::components` (repeated separators and `.` components are
//! ignored, a leading `.` of a relative path is the current directory).
use vstd::prelude::*;
use crate::text::{chars_of, owned, push_str, string_from_range};

verus! {

/// Index of the last `/` in `b`, or -1 when there is none.
pub open spec fn last_sep(b: Seq<char>) -> int
    decreases b.len(),
{
    if b.len() == 0 {
        -1
    } else if b.last() == '/' {
        b.len() - 1
    } else {
        last_sep(b.drop_last())
    }
}

/// The characters after the last `/` (all of `b` when there is none).
pub open spec fn last_piece(b: Seq<char>) -> Seq<char> {
    b.skip(last_sep(b) + 1)
}

/// The characters before the last `/` (nothing when there is none).
pub open spec fn before_last_piece(b: Seq<char>) -> Seq<char> {
    if last_sep(b) >= 0 {
        b.take(last_sep(b))
    } else {
        Seq::empty()
    }
}

/// Pieces that do not form a path component: empty ones and `.`.
pub open spec fn skippable(p: Seq<char>) -> bool {
    p.len() == 0 || p == seq!['.']
}

/// `b` without trailing separators and `.` pieces.
pub open spec fn trim_skippable(b: Seq<char>) -> Seq<char>
    decreases b.len(),
{
    if b.len() == 0 {
        b
    } else if skippable(last_piece(b)) {
        proof {
            lemma_last_sep_bounds(b);
        }
        trim_skippable(before_last_piece(b))
    } else {
        b
    }
}

/// The path starts at the root directory.
pub open spec fn has_root(p: Seq<char>) -> bool {
    p.len() > 0 && p[0] == '/'
}

/// The relative path starts with the current directory component `.`.
pub open spec fn has_cur_dir(p: Seq<char>) -> bool {
    !has_root(p) && p.len() > 0 && p[0] == '.' && (p.len() == 1 || p[1] == '/')
}

/// Length of the leading root or current-directory component.
pub open spec fn body_start(p: Seq<char>) -> int {
    if has_root(p) || has_cur_dir(p) {
        1
    } else {
        0
    }
}

/// The final component of the path when it is a normal name (`Path::file_name`).
pub open spec fn path_file_name(p: Seq<char>) -> Option<Seq<char>> {
    let t = trim_skippable(p.skip(body_start(p)));
    if t.len() == 0 {
        None
    } else if last_piece(t) == seq!['.', '.'] {
        None
    } else {
        Some(last_piece(t))
    }
}

/// The path without its final component (`Path::parent`): `None` for the root
/// and for paths with no component at all.
pub open spec fn path_parent(p: Seq<char>) -> Option<Seq<char>> {
    let t = trim_skippable(p.skip(body_start(p)));
    if t.len() > 0 {
        Some(p.take(body_start(p)) + trim_skippable(before_last_piece(t)))
    } else if has_cur_dir(p) {
        Some(Seq::empty())
    } else {
        None
    }
}

/// `PathBuf::join`: an absolute `rest` replaces the base, otherwise a separator
/// is inserted unless the base is empty or already ends with one.
pub open spec fn path_join(base: Seq<char>, rest: Seq<char>) -> Seq<char> {
    if rest.len() > 0 && rest[0] == '/' {
        rest
    } else if base.len() > 0 && base.last() != '/' {
        base + seq!['/'] + rest
    } else {
        base + rest
    }
}

pub proof fn lemma_last_sep_bounds(b: Seq<char>)
    ensures
        -1 <= last_sep(b) < b.len(),
        last_sep(b) >= 0 ==> b[last_sep(b)] == '/',
        forall|j: int| last_sep(b) < j < b.len() ==> b[j] != '/',
    decreases b.len(),
{
    if b.len() > 0 && b.last() != '/' {
        lemma_last_sep_bounds(b.drop_last());
        assert forall|j: int| last_sep(b) < j < b.len() implies b[j] != '/' by {
            if j < b.len() - 1 {
                assert(b.drop_last()[j] == b[j]);
            }
        }
    }
}

/// A `/` at `i` with none after it is the last separator.
pub proof fn lemma_last_sep_at(b: Seq<char>, i: int)
    requires
        -1 <= i < b.len(),
        i >= 0 ==> b[i] == '/',
        forall|j: int| i < j < b.len() ==> b[j] != '/',
    ensures
        last_sep(b) == i,
    decreases b.len(),
{
    if b.len() > 0 && i < b.len() - 1 {
        lemma_last_sep_at(b.drop_last(), i);
    }
}

/// Joining a plain name (no separator, not `.` or `..`) to any base gives a
/// path whose final component is that name.
pub proof fn lemma_join_file_name(base: Seq<char>, name: Seq<char>)
    requires
        name.len() > 0,
        !name.contains('/'),
        name != seq!['.'],
        name != seq!['.', '.'],
    ensures
        path_file_name(path_join(base, name)) == Some(name),
{
    let q = path_join(base, name);
    let x = q.take(q.len() - name.len());
    assert(q =~= x + name);
    assert(x.len() == 0 || x.last() == '/');
    let bs = body_start(q);
    if x.len() == 0 {
        assert(q =~= name);
        if name.len() >= 2 {
            assert(name[1] != '/') by {
                assert(!name.contains('/'));
            }
        }
        assert(!has_root(q)) by {
            assert(!name.contains('/'));
        }
        if has_cur_dir(q) {
            assert(name.len() == 1);
            assert(name =~= seq!['.']);
        }
        assert(bs == 0);
    }
    assert(bs <= x.len());
    let t = q.skip(bs);
    let y = x.skip(bs);
    assert(t =~= y + name);
    assert forall|j: int| y.len() - 1 < j < t.len() implies t[j] != '/' by {
        assert(t[j] == name[j - y.len()]);
        assert(!name.contains('/'));
    }
    lemma_last_sep_at(t, y.len() - 1);
    assert(last_piece(t) =~= name);
    assert(!skippable(last_piece(t)));
    assert(trim_skippable(t) == t);
}

/// The last `/` in `v[lo..hi]`, as an index into `v`.
pub(crate) fn find_last_sep(v: &Vec<char>, lo: usize, hi: usize) -> (r: Option<usize>)
    requires
        lo <= hi <= v.len(),
    ensures
        match r {
            Some(i) => lo <= i < hi && last_sep(v@.subrange(lo as int, hi as int)) == i - lo,
            None => last_sep(v@.subrange(lo as int, hi as int)) == -1,
        },
{
    let mut k: usize = hi;
    while k > lo
        invariant
            lo <= k <= hi <= v.len(),
            forall|j: int| k <= j < hi ==> v@[j] != '/',
        decreases k - lo,
    {
        if v[k - 1] == '/' {
            proof {
                lemma_last_sep_at(v@.subrange(lo as int, hi as int), k - 1 - lo);
            }
            return Some(k - 1);
        }
        k = k - 1;
    }
    proof {
        lemma_last_sep_at(v@.subrange(lo as int, hi as int), -1);
    }
    None
}

/// Whether `v[lo..hi]` is empty or `.`.
fn is_skippable(v: &Vec<char>, lo: usize, hi: usize) -> (b: bool)
    requires
        lo <= hi <= v.len(),
    ensures
        b == skippable(v@.subrange(lo as int, hi as int)),
{
    if lo == hi {
        true
    } else if hi - lo == 1 && v[lo] == '.' {
        assert(v@.subrange(lo as int, hi as int) =~= seq!['.']);
        true
    } else {
        proof {
            let p = v@.subrange(lo as int, hi as int);
            assert(seq!['.'].len() == 1);
            if hi - lo == 1 {
                assert(p[0] != seq!['.'][0]);
            }
            assert(p != seq!['.']);
        }
        false
    }
}

/// End `e` such that `v[lo..e]` is `v[lo..hi]` with trailing separators and
/// `.` pieces removed.
fn trim_end(v: &Vec<char>, lo: usize, hi: usize) -> (e: usize)
    requires
        lo <= hi <= v.len(),
    ensures
        lo <= e <= hi,
        v@.subrange(lo as int, e as int) == trim_skippable(v@.subrange(lo as int, hi as int)),
{
    let mut e: usize = hi;
    loop
        invariant
            lo <= e <= hi <= v.len(),
            trim_skippable(v@.subrange(lo as int, e as int)) == trim_skippable(
                v@.subrange(lo as int, hi as int),
            ),
        decreases e - lo,
    {
        if e == lo {
            return e;
        }
        let ghost b = v@.subrange(lo as int, e as int);
        let ls = find_last_sep(v, lo, e);
        let piece_start = match ls {
            Some(i) => i + 1,
            None => lo,
        };
        proof {
            lemma_last_sep_bounds(b);
            assert(last_piece(b) =~= v@.subrange(piece_start as int, e as int));
        }
        if is_skippable(v, piece_start, e) {
            let next = match ls {
                Some(i) => i,
                None => lo,
            };
            assert(before_last_piece(b) =~= v@.subrange(lo as int, next as int));
            e = next;
        } else {
            return e;
        }
    }
}

/// Length of the leading root or current-directory component of `v`.
fn body_start_of(v: &Vec<char>) -> (n: usize)
    ensures
        n == body_start(v@),
        n <= v.len(),
{
    if v.len() > 0 && v[0] == '/' {
        1
    } else if v.len() > 0 && v[0] == '.' && (v.len() == 1 || v[1] == '/') {
        1
    } else {
        0
    }
}

/// The final normal component of a path (`Path::file_name`).
pub fn file_name(path: &str) -> (r: Option<String>)
    ensures
        r.deep_view() == path_file_name(path@),
{
    let v = chars_of(path);
    let start = body_start_of(&v);
    let e = trim_end(&v, start, v.len());
    assert(v@.skip(start as int) =~= v@.subrange(start as int, v.len() as int));
    if e == start {
        return None;
    }
    let ghost t = v@.subrange(start as int, e as int);
    let ls = find_last_sep(&v, start, e);
    let piece_start = match ls {
        Some(i) => i + 1,
        None => start,
    };
    proof {
        lemma_last_sep_bounds(t);
        assert(last_piece(t) =~= v@.subrange(piece_start as int, e as int));
    }
    if e - piece_start == 2 && v[piece_start] == '.' && v[piece_start + 1] == '.' {
        assert(v@.subrange(piece_start as int, e as int) =~= seq!['.', '.']);
        return None;
    }
    proof {
        if e - piece_start == 2 {
            let q = v@.subrange(piece_start as int, e as int);
            assert(q[0] != '.' || q[1] != '.');
            assert(q != seq!['.', '.']) by {
                if q == seq!['.', '.'] {
                    assert(q[0] == '.' && q[1] == '.');
                }
            }
        }
    }
    Some(string_from_range(&v, piece_start, e))
}

/// The path without its final component (`Path::parent`).
pub fn parent(path: &str) -> (r: Option<String>)
    ensures
        r.deep_view() == path_parent(path@),
{
    let v = chars_of(path);
    let start = body_start_of(&v);
    let e = trim_end(&v, start, v.len());
    assert(v@.skip(start as int) =~= v@.subrange(start as int, v.len() as int));
    if e == start {
        if start == 1 && v[0] == '.' {
            return Some(String::new());
        }
        return None;
    }
    let ghost t = v@.subrange(start as int, e as int);
    let ls = find_last_sep(&v, start, e);
    let before_end = match ls {
        Some(i) => i,
        None => start,
    };
    proof {
        lemma_last_sep_bounds(t);
        assert(before_last_piece(t) =~= v@.subrange(start as int, before_end as int));
    }
    let e2 = trim_end(&v, start, before_end);
    assert(v@.take(start as int) + v@.subrange(start as int, e2 as int) =~= v@.subrange(0, e2 as int));
    Some(string_from_range(&v, 0, e2))
}

/// `PathBuf::join` on strings.
pub fn join(base: &str, rest: &str) -> (r: String)
    ensures
        r@ == path_join(base@, rest@),
{
    let b = chars_of(base);
    let t = chars_of(rest);
    if t.len() > 0 && t[0] == '/' {
        return owned(rest);
    }
    let mut out = owned(base);
    if b.len() > 0 && b[b.len() - 1] != '/' {
        out.push('/');
    }
    push_str(&mut out, rest);
    out
}

} // verus!
