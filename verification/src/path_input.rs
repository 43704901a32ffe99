//! Helpers of the path prompt: splitting what was typed into a directory and
//! a name prefix, joining completions back, the longest common prefix of the
//! completions, and `~` expansion.
use vstd::prelude::*;
use crate::paths::{find_last_sep, last_sep, path_join, join};
use crate::order::{sort_texts, sorted_texts};
use crate::text::{chars_of, chars_start_with, has_prefix, lowercase, owned, push_str, string_from_range, to_lowercase};

verus! {

/// `input` split after its last `/` into the directory part (with the `/`)
/// and the name prefix; without a `/` the directory is `./`.
pub open spec fn split_input_spec(input: Seq<char>) -> (Seq<char>, Seq<char>) {
    let k = last_sep(input);
    if k >= 0 {
        (input.take(k + 1), input.skip(k + 1))
    } else {
        (seq!['.', '/'], input)
    }
}

/// Split input into (`parent_dir`, prefix).
/// e.g. `~/Dev` → `("~/", "Dev")`, `test` → `("./", "test")`
pub fn split_input(input: &str) -> (r: (String, String))
    ensures
        (r.0@, r.1@) == split_input_spec(input@),
{
    let v = chars_of(input);
    match find_last_sep(&v, 0, v.len()) {
        Some(k) => {
            assert(v@.subrange(0, v.len() as int) =~= v@);
            let parent = string_from_range(&v, 0, k + 1);
            let prefix = string_from_range(&v, k + 1, v.len());
            assert(v@.subrange(0, k + 1) =~= input@.take(k + 1));
            assert(v@.subrange(k + 1, v.len() as int) =~= input@.skip(k + 1));
            (parent, prefix)
        },
        None => {
            assert(v@.subrange(0, v.len() as int) =~= v@);
            let mut parent = String::new();
            parent.push('.');
            parent.push('/');
            assert(parent@ =~= seq!['.', '/']);
            (parent, owned(input))
        },
    }
}

/// A completion shown in the prompt: the directory as typed, then the name.
pub open spec fn join_path_spec(parent: Seq<char>, name: Seq<char>) -> Seq<char> {
    if parent.len() > 0 && parent.last() == '/' {
        parent + name
    } else {
        parent + seq!['/'] + name
    }
}

/// Join parent directory with a name, preserving `~/` display.
pub fn join_path(parent: &str, name: &str) -> (r: String)
    ensures
        r@ == join_path_spec(parent@, name@),
{
    let p = chars_of(parent);
    let mut r = owned(parent);
    if !(p.len() > 0 && p[p.len() - 1] == '/') {
        r.push('/');
    }
    push_str(&mut r, name);
    r
}

/// `p` is a prefix of every sequence in `ss`.
pub open spec fn is_common_prefix(p: Seq<char>, ss: Seq<Seq<char>>) -> bool {
    forall|i: int| 0 <= i < ss.len() ==> p.len() <= (#[trigger] ss[i]).len() && ss[i].take(p.len() as int) == p
}

/// `p` is the longest common prefix of the non-empty `ss`: a common prefix
/// that cannot be extended by the next character of the first sequence.
pub open spec fn is_longest_common_prefix(p: Seq<char>, ss: Seq<Seq<char>>) -> bool {
    &&& is_common_prefix(p, ss)
    &&& exists|i: int|
        0 <= i < ss.len() && ((#[trigger] ss[i]).len() == p.len() || ss[i][p.len() as int] != ss[0][p.len() as int])
}

/// The texts of a slice of strings.
pub open spec fn texts(ss: Seq<String>) -> Seq<Seq<char>> {
    ss.map_values(|s: String| s@)
}

/// Number of leading characters that `a` and `b[..]` share, at most `k`.
fn shared_len(a: &Vec<char>, b: &Vec<char>, k: usize) -> (j: usize)
    requires
        k <= a.len(),
    ensures
        j <= k,
        j <= b.len(),
        forall|t: int| 0 <= t < j ==> a@[t] == b@[t],
        j == k || j == b.len() || a@[j as int] != b@[j as int],
{
    let mut j: usize = 0;
    while j < k && j < b.len() && a[j] == b[j]
        invariant
            j <= k <= a.len(),
            j <= b.len(),
            forall|t: int| 0 <= t < j ==> a@[t] == b@[t],
        decreases k - j,
    {
        j = j + 1;
    }
    j
}

/// Find the longest common prefix of all completions.
pub fn common_prefix(completions: &[String]) -> (r: String)
    ensures
        completions@.len() == 0 ==> r@ == Seq::<char>::empty(),
        completions@.len() > 0 ==> is_longest_common_prefix(r@, texts(completions@)),
{
    if completions.len() == 0 {
        return String::new();
    }
    let ghost ss = texts(completions@);
    let first = chars_of(completions[0].as_str());
    let mut k: usize = first.len();
    let mut t: usize = 1;
    assert(ss[0] == first@);
    assert(ss[0].take(k as int) =~= first@);
    while t < completions.len()
        invariant
            1 <= t <= completions.len(),
            ss == texts(completions@),
            ss[0] == first@,
            k <= first.len(),
            is_common_prefix(first@.take(k as int), ss.take(t as int)),
            exists|i: int|
                0 <= i < t && ((#[trigger] ss[i]).len() == k || ss[i][k as int] != ss[0][k as int]),
        decreases completions.len() - t,
    {
        let other = chars_of(completions[t].as_str());
        assert(ss[t as int] == other@);
        let j = shared_len(&first, &other, k);
        proof {
            let p = first@.take(j as int);
            assert forall|i: int| 0 <= i < t + 1 implies p.len() <= (#[trigger] ss.take(t + 1)[i]).len()
                && ss.take(t + 1)[i].take(p.len() as int) == p by {
                if i < t {
                    assert(ss.take(t as int)[i] == ss[i]);
                    assert(ss[i].take(j as int) =~= ss[i].take(k as int).take(j as int));
                    assert(first@.take(k as int).take(j as int) =~= p);
                } else {
                    assert(ss[i] == other@);
                    assert(other@.take(j as int) =~= p);
                }
            }
            if j == k {
                let w = choose|i: int| 0 <= i < t && ((#[trigger] ss[i]).len() == k || ss[i][k as int] != ss[0][k as int]);
                assert(0 <= w < t + 1 && (ss[w].len() == j || ss[w][j as int] != ss[0][j as int]));
            } else {
                assert(ss[t as int].len() == j || ss[t as int][j as int] != ss[0][j as int]);
            }
        }
        k = j;
        t = t + 1;
    }
    assert(ss.take(completions.len() as int) =~= ss);
    let r = string_from_range(&first, 0, k);
    assert(r@ =~= first@.take(k as int));
    r
}

/// The `~` expansion of `path` for a home directory `home` (`.` when there
/// is none): `~` alone is the home directory, `~/rest` is `rest` joined to it,
/// anything else is left as it is.
pub open spec fn expand_tilde_spec(path: Seq<char>, home: Option<Seq<char>>) -> Seq<char> {
    let base = match home {
        Some(h) => h,
        None => seq!['.'],
    };
    if path == seq!['~'] {
        base
    } else if path.len() >= 2 && path[0] == '~' && path[1] == '/' {
        path_join(base, path.skip(2))
    } else {
        path
    }
}

/// Expand `~` in `path` against the given home directory.
pub fn expand_tilde_with(path: &str, home: Option<String>) -> (r: String)
    ensures
        r@ == expand_tilde_spec(path@, home.deep_view()),
{
    let v = chars_of(path);
    let base = match home {
        Some(h) => h,
        None => {
            let mut d = String::new();
            d.push('.');
            d
        },
    };
    if v.len() == 1 && v[0] == '~' {
        assert(path@ =~= seq!['~']);
        base
    } else if v.len() >= 2 && v[0] == '~' && v[1] == '/' {
        assert(path@ != seq!['~']);
        let rest = string_from_range(&v, 2, v.len());
        assert(rest@ =~= path@.skip(2));
        join(base.as_str(), rest.as_str())
    } else {
        assert(v.len() == 1 ==> path@ != seq!['~']);
        owned(path)
    }
}

/// The user's home directory, as text (`dirs::home_dir`).
/// It depends on the environment and the user database, so nothing is
/// claimed of it; a path that is not valid UTF-8 is converted lossily.
#[verifier::external_body]
pub(crate) fn home_dir() -> (r: Option<String>) {
    match dirs::home_dir() {
        Some(p) => Some(p.to_string_lossy().into_owned()),
        None => None,
    }
}

/// Whether something exists at `path` on the file system
/// (`std::path::Path::exists`). It depends on the disk, so nothing is
/// claimed of it.
#[verifier::external_body]
fn fs_path_exists(path: &str) -> (b: bool) {
    std::path::Path::new(path).exists()
}

/// Expand `~` to home directory for filesystem operations.
pub fn expand_tilde(path: &str) -> (r: String)
    ensures
        exists|home: Option<Seq<char>>| r@ == expand_tilde_spec(path@, home),
{
    let home = home_dir();
    let r = expand_tilde_with(path, home);
    assert(r@ == expand_tilde_spec(path@, home.deep_view()));
    r
}

/// Check if a path exists (expanding `~` if needed).
pub fn path_exists(path: &str) -> (b: bool) {
    let expanded = expand_tilde(path);
    fs_path_exists(expanded.as_str())
}

/// A directory named `name` is offered for the typed `prefix`: hidden ones
/// only when the prefix starts with `.`, and only names that begin with the
/// prefix, ignoring case.
pub open spec fn offered(name: Seq<char>, prefix: Seq<char>) -> bool {
    &&& !(has_prefix(name, seq!['.']) && !has_prefix(prefix, seq!['.']))
    &&& has_prefix(lowercase(name), lowercase(prefix))
}

/// The completions for the directories `names` inside `parent`, in listing
/// order.
pub open spec fn candidates(parent: Seq<char>, prefix: Seq<char>, names: Seq<Seq<char>>) -> Seq<Seq<char>>
    decreases names.len(),
{
    if names.len() == 0 {
        Seq::empty()
    } else {
        let c = candidates(parent, prefix, names.drop_last());
        if offered(names.last(), prefix) {
            c.push(join_path_spec(parent, names.last()))
        } else {
            c
        }
    }
}

/// The completions of `input` when the directory it names holds the
/// directories `names`: none for empty input, else the offered ones joined
/// to the typed directory, sorted.
pub open spec fn completions_spec(input: Seq<char>, names: Seq<Seq<char>>) -> Seq<Seq<char>> {
    if input.len() == 0 {
        Seq::empty()
    } else {
        let (parent, prefix) = split_input_spec(input);
        sorted_texts(candidates(parent, prefix, names))
    }
}

/// The directory to list for completing `input`: its directory part with
/// `~` expanded; none for empty input.
pub fn completion_dir(input: &str) -> (r: Option<String>)
    ensures
        r is None <==> input@.len() == 0,
        r matches Some(d) ==> exists|home: Option<Seq<char>>|
            d@ == #[trigger] expand_tilde_spec(split_input_spec(input@).0, home),
{
    if char_count_of(input) == 0 {
        return None;
    }
    let (parent, _prefix) = split_input(input);
    let d = expand_tilde(parent.as_str());
    proof {
        let h = choose|h: Option<Seq<char>>| d@ == expand_tilde_spec(parent@, h);
        assert(d@ == expand_tilde_spec(split_input_spec(input@).0, h));
    }
    Some(d)
}

/// Number of characters of `s`.
fn char_count_of(s: &str) -> (n: usize)
    ensures
        n == s@.len(),
{
    let v = chars_of(s);
    v.len()
}

/// Whether the directory `name` is offered for `prefix`.
fn is_offered(name: &str, prefix: &str) -> (b: bool)
    ensures
        b == offered(name@, prefix@),
{
    let n = chars_of(name);
    let p = chars_of(prefix);
    let mut dot: Vec<char> = Vec::new();
    dot.push('.');
    assert(dot@ =~= seq!['.']);
    if chars_start_with(&n, &dot) && !chars_start_with(&p, &dot) {
        return false;
    }
    let ln = to_lowercase(name);
    let lp = to_lowercase(prefix);
    chars_start_with(&chars_of(ln.as_str()), &chars_of(lp.as_str()))
}

/// Generate completions for `input` from the names of the directories in
/// the directory that `completion_dir` gave: directories only,
/// prefix-matched (case-insensitive), hidden ones skipped unless the prefix
/// starts with `.`, sorted.
pub fn complete_from_listing(input: &str, dir_names: &Vec<String>) -> (r: Vec<String>)
    ensures
        r.deep_view() == completions_spec(input@, dir_names.deep_view()),
{
    if char_count_of(input) == 0 {
        return Vec::new();
    }
    let (parent, prefix) = split_input(input);
    let ghost names = dir_names.deep_view();
    let mut found: Vec<String> = Vec::new();
    let mut i: usize = 0;
    while i < dir_names.len()
        invariant
            i <= dir_names.len(),
            names == dir_names.deep_view(),
            found.deep_view() == candidates(parent@, prefix@, names.take(i as int)),
        decreases dir_names.len() - i,
    {
        assert(names.take(i + 1).drop_last() =~= names.take(i as int));
        assert(names.take(i + 1).last() == dir_names@[i as int]@);
        if is_offered(dir_names[i].as_str(), prefix.as_str()) {
            let c = join_path(parent.as_str(), dir_names[i].as_str());
            found.push(c);
            assert(found.deep_view() =~= candidates(parent@, prefix@, names.take(i as int)).push(c@));
        }
        i = i + 1;
    }
    assert(names.take(dir_names.len() as int) =~= names);
    sort_texts(found)
}

} // verus!
