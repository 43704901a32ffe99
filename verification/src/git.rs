//! Git worktree records and the parser for `git worktree list --porcelain`.
use vstd::prelude::*;
use crate::paths::{file_name, path_file_name};
use vstd::seq_lib::{to_multiset_build, to_multiset_insert};
use crate::order::{chars_lt, insert_pos, keys_ordered, lemma_insert_keeps_order, lemma_insert_pos};
use crate::text::{
    char_count, chars_of, chars_start_with, has_prefix, has_suffix, lemma_text_lines_append,
    lemma_text_lines_of_line, owned, push_str, split_lines, string_from_range,
    lowercase, text_lines, to_lowercase, trim, trim_str,
};

verus! {

/// A checkout of a repository: its directory, its branch (none when the
/// checkout is detached) and whether it is the repository's main checkout.
#[derive(Debug, Clone)]
pub struct Worktree {
    pub path: String,
    pub branch: Option<String>,
    pub is_main: bool,
}

/// A repository found in a search directory, with its worktrees.
#[derive(Debug, Clone)]
pub struct Repo {
    pub name: String,
    pub path: String,
    pub worktrees: Vec<Worktree>,
}

/// What a `Worktree` holds, as plain values.
pub struct WorktreeView {
    pub path: Seq<char>,
    pub branch: Option<Seq<char>>,
    pub is_main: bool,
}

impl View for Worktree {
    type V = WorktreeView;

    open spec fn view(&self) -> WorktreeView {
        WorktreeView { path: self.path@, branch: self.branch.deep_view(), is_main: self.is_main }
    }
}

impl Worktree {
    /// A copy of this worktree record.
    pub fn duplicate(&self) -> (r: Worktree)
        ensures
            r@ == self@,
    {
        let branch = match &self.branch {
            Some(b) => Some(b.clone()),
            None => None,
        };
        Worktree { path: self.path.clone(), branch, is_main: self.is_main }
    }
}

/// The views of a sequence of worktrees.
pub open spec fn worktree_views(ws: Seq<Worktree>) -> Seq<WorktreeView> {
    ws.map_values(|w: Worktree| w@)
}

/// Line prefix that starts a worktree record.
pub open spec fn worktree_line_prefix() -> Seq<char> {
    "worktree "@
}

/// Line prefix that names the branch checked out in a worktree.
pub open spec fn branch_line_prefix() -> Seq<char> {
    "branch refs/heads/"@
}

/// What the porcelain parser has gathered after some lines: the finished
/// worktrees, the path and branch of the record being read, and whether no
/// record has been finished yet.
pub struct PorcelainState {
    pub done: Seq<WorktreeView>,
    pub path: Option<Seq<char>>,
    pub branch: Option<Seq<char>>,
    pub is_first: bool,
}

/// The parser state before any line.
pub open spec fn porcelain_start() -> PorcelainState {
    PorcelainState { done: Seq::empty(), path: None, branch: None, is_first: true }
}

/// The effect of one line: `worktree <path>` sets the path, `branch
/// refs/heads/<name>` sets the branch, an empty line finishes the record (when
/// it has a path) and forgets the branch; other lines change nothing.
pub open spec fn porcelain_step(st: PorcelainState, line: Seq<char>) -> PorcelainState {
    if has_prefix(line, worktree_line_prefix()) {
        PorcelainState { path: Some(line.skip(worktree_line_prefix().len() as int)), ..st }
    } else if has_prefix(line, branch_line_prefix()) {
        PorcelainState { branch: Some(line.skip(branch_line_prefix().len() as int)), ..st }
    } else if line.len() == 0 {
        match st.path {
            Some(p) => PorcelainState {
                done: st.done.push(WorktreeView { path: p, branch: st.branch, is_main: st.is_first }),
                path: None,
                branch: None,
                is_first: false,
            },
            None => PorcelainState { branch: None, ..st },
        }
    } else {
        st
    }
}

/// The parser state after the given lines.
pub open spec fn porcelain_scan(lines: Seq<Seq<char>>) -> PorcelainState
    decreases lines.len(),
{
    if lines.len() == 0 {
        porcelain_start()
    } else {
        porcelain_step(porcelain_scan(lines.drop_last()), lines.last())
    }
}

/// The worktrees described by `git worktree list --porcelain` output: the
/// finished records, then the record still open at the end of the output.
pub open spec fn porcelain_worktrees(output: Seq<char>) -> Seq<WorktreeView> {
    let st = porcelain_scan(text_lines(output));
    match st.path {
        Some(p) => st.done.push(WorktreeView { path: p, branch: st.branch, is_main: st.is_first }),
        None => st.done,
    }
}

/// In every state the scan reaches, `is_first` says that nothing is finished
/// yet and exactly the first finished record is the main one.
proof fn lemma_scan_main_first(lines: Seq<Seq<char>>)
    ensures
        porcelain_scan(lines).is_first == (porcelain_scan(lines).done.len() == 0),
        forall|i: int|
            0 <= i < porcelain_scan(lines).done.len() ==> (#[trigger] porcelain_scan(
                lines,
            ).done[i]).is_main == (i == 0),
    decreases lines.len(),
{
    if lines.len() > 0 {
        lemma_scan_main_first(lines.drop_last());
    }
}

/// Law: of the worktrees read from porcelain output, exactly the first one is
/// marked as the main checkout.
pub proof fn lemma_porcelain_only_first_is_main(output: Seq<char>)
    ensures
        forall|i: int|
            0 <= i < porcelain_worktrees(output).len() ==> (#[trigger] porcelain_worktrees(
                output,
            )[i]).is_main == (i == 0),
{
    lemma_scan_main_first(text_lines(output));
}

/// The parser state after `lines`, read from state `st`.
pub open spec fn porcelain_scan_from(st: PorcelainState, lines: Seq<Seq<char>>) -> PorcelainState
    decreases lines.len(),
{
    if lines.len() == 0 {
        st
    } else {
        porcelain_step(porcelain_scan_from(st, lines.drop_last()), lines.last())
    }
}

/// Scanning `a + b` is scanning `b` from the state that `a` leaves.
proof fn lemma_porcelain_scan_append(a: Seq<Seq<char>>, b: Seq<Seq<char>>)
    ensures
        porcelain_scan(a + b) == porcelain_scan_from(porcelain_scan(a), b),
    decreases b.len(),
{
    if b.len() == 0 {
        assert(a + b =~= a);
    } else {
        assert((a + b).drop_last() =~= a + b.drop_last());
        assert((a + b).last() == b.last());
        lemma_porcelain_scan_append(a, b.drop_last());
    }
}

/// A line that is neither empty nor starts a worktree or branch line.
pub open spec fn neutral_porcelain_line(l: Seq<char>) -> bool {
    l.len() > 0 && !has_prefix(l, worktree_line_prefix()) && !has_prefix(l, branch_line_prefix())
}

/// Lines that are all neutral leave the parser state as it is.
proof fn lemma_scan_neutral(st: PorcelainState, lines: Seq<Seq<char>>)
    requires
        forall|i: int| 0 <= i < lines.len() ==> neutral_porcelain_line(#[trigger] lines[i]),
    ensures
        porcelain_scan_from(st, lines) == st,
    decreases lines.len(),
{
    if lines.len() > 0 {
        assert(neutral_porcelain_line(lines[lines.len() - 1]));
        lemma_scan_neutral(st, lines.drop_last());
    }
}

/// After an empty line no record is open and no branch is remembered.
proof fn lemma_scan_after_blank(lines: Seq<Seq<char>>)
    requires
        lines.len() == 0 || lines.last().len() == 0,
    ensures
        porcelain_scan(lines).path is None,
        porcelain_scan(lines).branch is None,
{
    if lines.len() > 0 {
        reveal_strlit("worktree ");
        reveal_strlit("branch refs/heads/");
    }
}

/// The text of one worktree record: its `worktree` line, other lines, the
/// `branch` line when there is a branch, and the blank line that ends it.
pub open spec fn porcelain_record(path: Seq<char>, other: Seq<char>, branch: Option<Seq<char>>) -> Seq<char> {
    let branch_text = match branch {
        Some(b) => branch_line_prefix() + b + "\n"@,
        None => Seq::empty(),
    };
    worktree_line_prefix() + path + "\n"@ + other + branch_text + "\n"@
}

/// The lines of the `branch` line of a record, if it has one.
pub open spec fn branch_lines(branch: Option<Seq<char>>) -> Seq<Seq<char>> {
    match branch {
        Some(b) => seq![branch_line_prefix() + b],
        None => Seq::empty(),
    }
}

/// Porcelain output that is empty or ends in a blank line ends with an empty
/// line, if it has any.
proof fn lemma_ends_in_blank(pre: Seq<char>)
    requires
        pre.len() == 0 || has_suffix(pre, "\n\n"@),
    ensures
        pre.len() == 0 || pre.last() == '\n',
        text_lines(pre).len() == 0 || text_lines(pre).last().len() == 0,
{
    reveal_strlit("\n");
    reveal_strlit("\n\n");
    let nl: Seq<char> = "\n"@;
    let empty = Seq::<char>::empty();
    assert(empty.push('\n') =~= nl);
    lemma_text_lines_of_line(empty);
    if pre.len() > 0 {
        let pre1 = pre.drop_last();
        assert(pre.skip(pre.len() - 2)[0] == '\n');
        assert(pre.skip(pre.len() - 2)[1] == '\n');
        assert(pre1.push('\n') =~= pre);
        assert(pre1 + nl =~= pre);
        assert(pre1.last() == '\n');
        lemma_text_lines_append(pre1, nl);
    } else {
        assert(text_lines(pre) =~= Seq::<Seq<char>>::empty());
    }
}

/// A fixed line start followed by a text without newline or final `\r`,
/// then a newline, is one line.
proof fn lemma_prefixed_line(prefix: Seq<char>, x: Seq<char>)
    requires
        prefix.len() > 0,
        !prefix.contains('\n'),
        prefix.last() != '\r',
        !x.contains('\n'),
        x.len() == 0 || x.last() != '\r',
    ensures
        text_lines(prefix + x + "\n"@) == seq![prefix + x],
{
    reveal_strlit("\n");
    let l = prefix + x;
    assert(!l.contains('\n')) by {
        if l.contains('\n') {
            let j = choose|j: int| 0 <= j < l.len() && l[j] == '\n';
            if j >= prefix.len() {
                assert(x[j - prefix.len()] == '\n');
            } else {
                assert(prefix[j] == '\n');
            }
        }
    }
    if x.len() == 0 {
        assert(l =~= prefix);
    } else {
        assert(l.last() == x.last());
    }
    lemma_text_lines_of_line(l);
    assert(l + "\n"@ =~= l.push('\n'));
}

/// The lines of porcelain output followed by one record.
proof fn lemma_record_lines(pre: Seq<char>, path: Seq<char>, other: Seq<char>, branch: Option<Seq<char>>)
    requires
        pre.len() == 0 || pre.last() == '\n',
        !path.contains('\n'),
        path.len() == 0 || path.last() != '\r',
        other.len() == 0 || other.last() == '\n',
        branch matches Some(b) ==> !b.contains('\n') && (b.len() == 0 || b.last() != '\r'),
    ensures
        text_lines(pre + porcelain_record(path, other, branch)) == text_lines(pre) + seq![
            worktree_line_prefix() + path,
        ] + text_lines(other) + branch_lines(branch) + seq![Seq::<char>::empty()],
{
    reveal_strlit("worktree ");
    reveal_strlit("branch refs/heads/");
    reveal_strlit("\n");
    let nl: Seq<char> = "\n"@;
    let empty = Seq::<char>::empty();
    assert(empty.push('\n') =~= nl);
    lemma_text_lines_of_line(empty);
    let wl = worktree_line_prefix() + path;
    lemma_prefixed_line(worktree_line_prefix(), path);
    let bt = match branch {
        Some(b) => branch_line_prefix() + b + nl,
        None => empty,
    };
    match branch {
        Some(b) => {
            lemma_prefixed_line(branch_line_prefix(), b);
        },
        None => {
            assert(text_lines(bt) =~= branch_lines(branch));
        },
    }
    let rec = porcelain_record(path, other, branch);
    assert(pre + rec =~= pre + (wl + nl) + other + bt + nl);
    lemma_text_lines_append(pre, wl + nl);
    lemma_text_lines_append(pre + (wl + nl), other);
    let a2 = pre + (wl + nl) + other;
    if other.len() > 0 {
        assert(a2.last() == other.last());
    } else {
        assert(a2 =~= pre + (wl + nl));
    }
    lemma_text_lines_append(a2, bt);
    let a3 = a2 + bt;
    if bt.len() > 0 {
        assert(a3.last() == bt.last());
    } else {
        assert(a3 =~= a2);
    }
    lemma_text_lines_append(a3, nl);
}

/// Law: a worktree record appended to porcelain output (empty, or ending in a
/// blank line) adds exactly one worktree: at the record's path, on the branch
/// named by the record's own `branch` line and on no branch (detached) when the
/// record has none, whatever the records before it say; it is the main checkout
/// exactly when it is the first.
pub proof fn lemma_porcelain_record_branch(
    pre: Seq<char>,
    path: Seq<char>,
    other: Seq<char>,
    branch: Option<Seq<char>>,
)
    requires
        pre.len() == 0 || has_suffix(pre, "\n\n"@),
        !path.contains('\n'),
        path.len() == 0 || path.last() != '\r',
        other.len() == 0 || other.last() == '\n',
        forall|i: int| 0 <= i < text_lines(other).len() ==> neutral_porcelain_line(#[trigger] text_lines(other)[i]),
        branch matches Some(b) ==> !b.contains('\n') && (b.len() == 0 || b.last() != '\r'),
    ensures
        porcelain_worktrees(pre + porcelain_record(path, other, branch)) == porcelain_worktrees(pre).push(
            WorktreeView { path, branch, is_main: porcelain_worktrees(pre).len() == 0 },
        ),
{
    reveal_strlit("worktree ");
    reveal_strlit("branch refs/heads/");
    lemma_ends_in_blank(pre);
    lemma_record_lines(pre, path, other, branch);
    let empty = Seq::<char>::empty();
    let t0 = text_lines(pre);
    lemma_scan_after_blank(t0);
    lemma_scan_main_first(t0);
    let s0 = porcelain_scan(t0);
    assert(porcelain_worktrees(pre) == s0.done);
    let wl = worktree_line_prefix() + path;
    let t1 = t0 + seq![wl];
    let t2 = t1 + text_lines(other);
    let t3 = t2 + branch_lines(branch);
    let t4 = t3 + seq![empty];
    assert(t4.drop_last() =~= t3);
    assert(t4.last() == empty);
    assert(t1.drop_last() =~= t0);
    assert(t1.last() == wl);
    assert(!has_prefix(wl, branch_line_prefix())) by {
        if has_prefix(wl, branch_line_prefix()) {
            assert(wl.take(18)[0] == 'b');
        }
    }
    assert(wl.skip(9) =~= path);
    assert(wl.take(9) =~= worktree_line_prefix());
    let s1 = porcelain_scan(t1);
    assert(s1 == PorcelainState { path: Some(path), ..s0 });
    lemma_porcelain_scan_append(t1, text_lines(other));
    lemma_scan_neutral(s1, text_lines(other));
    assert(porcelain_scan(t2) == s1);
    let s3 = porcelain_scan(t3);
    match branch {
        Some(b) => {
            let bl = branch_line_prefix() + b;
            assert(t3.drop_last() =~= t2);
            assert(t3.last() == bl);
            assert(!has_prefix(bl, worktree_line_prefix())) by {
                if has_prefix(bl, worktree_line_prefix()) {
                    assert(bl.take(9)[0] == 'w');
                }
            }
            assert(bl.skip(18) =~= b);
            assert(bl.take(18) =~= branch_line_prefix());
            assert(s3 == PorcelainState { branch: Some(b), ..s1 });
        },
        None => {
            assert(t3 =~= t2);
        },
    }
    let s4 = porcelain_scan(t4);
    assert(s4.done == s0.done.push(WorktreeView { path, branch, is_main: s0.is_first }));
    assert(s4.path is None);
}

/// Parses `git worktree list --porcelain` output into worktrees.
pub fn parse_worktree_porcelain(output: &str) -> (worktrees: Vec<Worktree>)
    ensures
        worktree_views(worktrees@) == porcelain_worktrees(output@),
{
    let lines = split_lines(output);
    let wt_prefix = chars_of("worktree ");
    let br_prefix = chars_of("branch refs/heads/");
    let mut worktrees: Vec<Worktree> = Vec::new();
    let mut current_path: Option<String> = None;
    let mut current_branch: Option<String> = None;
    let mut is_first = true;
    let ghost all = text_lines(output@);
    let mut i: usize = 0;
    while i < lines.len()
        invariant
            i <= lines.len(),
            lines.deep_view() == all,
            all == text_lines(output@),
            wt_prefix@ == worktree_line_prefix(),
            br_prefix@ == branch_line_prefix(),
            ({
                let st = porcelain_scan(all.take(i as int));
                &&& worktree_views(worktrees@) == st.done
                &&& current_path.deep_view() == st.path
                &&& current_branch.deep_view() == st.branch
                &&& is_first == st.is_first
            }),
        decreases lines.len() - i,
    {
        let line = chars_of(lines[i].as_str());
        proof {
            assert(all.take(i + 1).drop_last() == all.take(i as int));
            assert(line@ == all[i as int]);
        }
        let ghost before = worktrees@;
        if chars_start_with(&line, &wt_prefix) {
            current_path = Some(string_from_range(&line, wt_prefix.len(), line.len()));
            assert(line@.subrange(wt_prefix.len() as int, line.len() as int) == line@.skip(
                wt_prefix.len() as int,
            ));
        } else if chars_start_with(&line, &br_prefix) {
            current_branch = Some(string_from_range(&line, br_prefix.len(), line.len()));
            assert(line@.subrange(br_prefix.len() as int, line.len() as int) == line@.skip(
                br_prefix.len() as int,
            ));
        } else if line.len() == 0 {
            if current_path.is_some() {
                let path = current_path.take().unwrap();
                let branch = current_branch.take();
                worktrees.push(Worktree { path, branch, is_main: is_first });
                is_first = false;
                assert(worktree_views(worktrees@) =~= worktree_views(before).push(worktrees@.last()@));
            }
            current_branch = None;
        }
        i = i + 1;
    }
    assert(all.take(lines.len() as int) == all);
    let ghost before = worktrees@;
    if let Some(path) = current_path {
        worktrees.push(Worktree { path, branch: current_branch, is_main: is_first });
        assert(worktree_views(worktrees@) =~= worktree_views(before).push(worktrees@.last()@));
    }
    worktrees
}

/// Whether two paths are equal as `Path`s (component by component, so that
/// `/a/b` and `/a/b/` are the same path).
pub uninterp spec fn same_path(a: Seq<char>, b: Seq<char>) -> bool;

/// Compares `Path::new(a) == Path::new(b)`. Claimed: the result is
/// `same_path` of the two texts, and equal texts are the same path (`Path`
/// is `Eq`).
#[verifier::external_body]
pub(crate) fn paths_equal(a: &str, b: &str) -> (r: bool)
    ensures
        r == same_path(a@, b@),
        a@ == b@ ==> r,
{
    std::path::Path::new(a) == std::path::Path::new(b)
}

/// Some `worktree <path>` line of a porcelain listing names `path`.
pub open spec fn lists_worktree(lines: Seq<Seq<char>>, path: Seq<char>) -> bool {
    exists|i: int|
        0 <= i < lines.len() && has_prefix(#[trigger] lines[i], worktree_line_prefix()) && same_path(
            lines[i].skip(worktree_line_prefix().len() as int),
            path,
        )
}

/// Whether `git worktree list --porcelain` output lists a worktree at
/// `path` (already made canonical, as git's paths are).
pub fn worktree_listed(porcelain: &str, path: &str) -> (r: bool)
    ensures
        r == lists_worktree(text_lines(porcelain@), path@),
{
    let lines = split_lines(porcelain);
    let wt_prefix = chars_of("worktree ");
    let ghost all = text_lines(porcelain@);
    let mut i: usize = 0;
    while i < lines.len()
        invariant
            i <= lines.len(),
            lines.deep_view() == all,
            all == text_lines(porcelain@),
            wt_prefix@ == worktree_line_prefix(),
            forall|j: int|
                0 <= j < i ==> !(has_prefix(#[trigger] all[j], worktree_line_prefix()) && same_path(
                    all[j].skip(worktree_line_prefix().len() as int),
                    path@,
                )),
        decreases lines.len() - i,
    {
        let line = chars_of(lines[i].as_str());
        assert(line@ == all[i as int]);
        if chars_start_with(&line, &wt_prefix) {
            let listed = string_from_range(&line, wt_prefix.len(), line.len());
            assert(line@.subrange(wt_prefix.len() as int, line.len() as int) == line@.skip(
                wt_prefix.len() as int,
            ));
            if paths_equal(listed.as_str(), path) {
                return true;
            }
        }
        i = i + 1;
    }
    false
}

/// Builds the record for a repository at `path` with the given worktrees; the
/// repository is named after the final component of its path, and there is no
/// record when the path has none.
pub fn build_repo(path: &str, worktrees: Vec<Worktree>) -> (r: Option<Repo>)
    ensures
        r.is_none() == path_file_name(path@).is_none(),
        r matches Some(repo) ==> {
            &&& Some(repo.name@) == path_file_name(path@)
            &&& repo.path@ == path@
            &&& repo.worktrees@ == worktrees@
        },
{
    let name = file_name(path)?;
    Some(Repo { name, path: path.to_owned(), worktrees })
}

/// The branch that `git rev-parse --abbrev-ref HEAD` printed, trimmed; none
/// when the command failed or printed only whitespace.
pub open spec fn head_branch_spec(stdout: Option<Seq<char>>) -> Option<Seq<char>> {
    match stdout {
        Some(out) => if trim(out).len() == 0 {
            None
        } else {
            Some(trim(out))
        },
        None => None,
    }
}

/// The checked-out branch read from the output of `git rev-parse
/// --abbrev-ref HEAD` (`None` when the command could not run).
pub fn head_branch(stdout: Option<&str>) -> (r: Option<String>)
    ensures
        r.deep_view() == head_branch_spec(match stdout {
            Some(s) => Some(s@),
            None => None,
        }),
{
    match stdout {
        Some(out) => {
            let t = trim_str(out);
            if char_count(t.as_str()) == 0 {
                None
            } else {
                Some(t)
            }
        },
        None => None,
    }
}

/// The main checkout of the repository at `repo_path`, on branch `head`.
pub fn main_worktree(repo_path: &str, head: Option<String>) -> (w: Worktree)
    ensures
        w@ == (WorktreeView { path: repo_path@, branch: head.deep_view(), is_main: true }),
{
    Worktree { path: owned(repo_path), branch: head, is_main: true }
}

/// What listing the worktrees of a repository came to.
pub enum WorktreeListing {
    /// The worktrees that git listed.
    Listed(Vec<Worktree>),
    /// Git listed none (or could not run): the repository's own checkout
    /// stands alone, and its branch has to be asked for.
    MainOnly,
}

/// The worktrees listed in the output of `git worktree list --porcelain`
/// (`None` when the command could not run).
pub fn worktree_listing(stdout: Option<&str>) -> (r: WorktreeListing)
    ensures
        match r {
            WorktreeListing::Listed(ws) => stdout is Some && worktree_views(ws@) == porcelain_worktrees(
                stdout->0@,
            ) && ws@.len() > 0,
            WorktreeListing::MainOnly => stdout is None || porcelain_worktrees(stdout->0@).len() == 0,
        },
{
    match stdout {
        Some(out) => {
            let ws = parse_worktree_porcelain(out);
            if ws.len() == 0 {
                WorktreeListing::MainOnly
            } else {
                WorktreeListing::Listed(ws)
            }
        },
        None => WorktreeListing::MainOnly,
    }
}

/// The arguments of `git worktree add <path> <branch>`.
pub fn add_worktree_args(branch: &str, worktree_path: &str) -> (r: Vec<String>)
    ensures
        r.deep_view() == seq!["worktree"@, "add"@, worktree_path@, branch@],
{
    let mut r: Vec<String> = Vec::new();
    r.push(owned("worktree"));
    r.push(owned("add"));
    r.push(owned(worktree_path));
    r.push(owned(branch));
    assert(r.deep_view() =~= seq!["worktree"@, "add"@, worktree_path@, branch@]);
    r
}

/// The error reported when `git worktree add` fails with `stderr`.
pub fn add_worktree_error(stderr: &str) -> (r: String)
    ensures
        r@ == "git worktree add failed: "@ + stderr@,
{
    let mut r = owned("git worktree add failed: ");
    push_str(&mut r, stderr);
    r
}

/// The arguments of `git worktree add -b <new> <path> <base>`.
pub fn create_branch_and_worktree_args(new_branch: &str, base_branch: &str, worktree_path: &str) -> (r: Vec<
    String,
>)
    ensures
        r.deep_view() == seq!["worktree"@, "add"@, "-b"@, new_branch@, worktree_path@, base_branch@],
{
    let mut r: Vec<String> = Vec::new();
    r.push(owned("worktree"));
    r.push(owned("add"));
    r.push(owned("-b"));
    r.push(owned(new_branch));
    r.push(owned(worktree_path));
    r.push(owned(base_branch));
    assert(r.deep_view() =~= seq!["worktree"@, "add"@, "-b"@, new_branch@, worktree_path@, base_branch@]);
    r
}

/// The error reported when `git worktree add -b` fails with `stderr`.
pub fn create_branch_and_worktree_error(stderr: &str) -> (r: String)
    ensures
        r@ == "git worktree add -b failed: "@ + stderr@,
{
    let mut r = owned("git worktree add -b failed: ");
    push_str(&mut r, stderr);
    r
}

/// The key by which repositories are listed: the lowered name.
pub open spec fn name_key(r: Repo) -> Seq<char> {
    lowercase(r.name@)
}

/// The keys of a sequence of repositories.
pub open spec fn name_keys(rs: Seq<Repo>) -> Seq<Seq<char>> {
    rs.map_values(|r: Repo| name_key(r))
}

/// The repositories ordered by lowered name, those with equal keys in the
/// order they came in (a stable sort).
pub open spec fn sorted_by_name(rs: Seq<Repo>) -> Seq<Repo>
    decreases rs.len(),
{
    if rs.len() == 0 {
        rs
    } else {
        let t = sorted_by_name(rs.drop_last());
        t.insert(insert_pos(name_keys(t), name_key(rs.last())), rs.last())
    }
}

/// Law: repositories come out ordered by lowered name, as a rearrangement
/// of the repositories that went in.
pub proof fn lemma_sorted_by_name(rs: Seq<Repo>)
    ensures
        keys_ordered(name_keys(sorted_by_name(rs))),
        sorted_by_name(rs).to_multiset() == rs.to_multiset(),
    decreases rs.len(),
{
    if rs.len() > 0 {
        lemma_sorted_by_name(rs.drop_last());
        let t = sorted_by_name(rs.drop_last());
        let k = name_key(rs.last());
        let p = insert_pos(name_keys(t), k);
        lemma_insert_pos(name_keys(t), k);
        lemma_insert_keeps_order(name_keys(t), k);
        assert(name_keys(t.insert(p, rs.last())) =~= name_keys(t).insert(p, k));
        to_multiset_insert(t, p, rs.last());
        to_multiset_build(rs.drop_last(), rs.last());
        assert(rs.drop_last().push(rs.last()) =~= rs);
    }
}

/// Orders repositories by lowered name; those with equal keys keep their
/// order.
pub fn sort_repos_by_name(repos: Vec<Repo>) -> (r: Vec<Repo>)
    ensures
        r@ == sorted_by_name(repos@),
{
    let ghost all = repos@;
    assert(all.len() == repos.len());
    assert(all.skip(0) =~= all);
    assert(all.take(0) =~= Seq::<Repo>::empty());
    let mut rest = repos;
    let mut out: Vec<Repo> = Vec::new();
    let mut keys: Vec<Vec<char>> = Vec::new();
    let mut i: usize = 0;
    while rest.len() > 0
        invariant
            i + rest@.len() == all.len(),
            all.len() <= usize::MAX,
            rest@ == all.skip(i as int),
            out@ == sorted_by_name(all.take(i as int)),
            keys@.map_values(|k: Vec<char>| k@) == name_keys(out@),
        decreases rest@.len(),
    {
        let repo = rest.remove(0);
        assert(repo == all[i as int]);
        let lowered = to_lowercase(repo.name.as_str());
        let key = chars_of(lowered.as_str());
        let ghost ks = name_keys(out@);
        let mut j: usize = keys.len();
        proof {
            assert(ks.take(j as int) =~= ks);
        }
        while j > 0 && chars_lt(&key, &keys[j - 1])
            invariant
                j <= keys.len(),
                keys@.map_values(|k: Vec<char>| k@) == ks,
                key@ == name_key(repo),
                insert_pos(ks, key@) == insert_pos(ks.take(j as int), key@),
            decreases j,
        {
            assert(ks.take(j as int).drop_last() =~= ks.take(j - 1));
            assert(ks.take(j as int).last() == keys@[j - 1]@);
            j = j - 1;
        }
        proof {
            if j > 0 {
                assert(ks.take(j as int).last() == keys@[j - 1]@);
            }
            assert(all.take(i + 1).drop_last() =~= all.take(i as int));
            assert(all.take(i + 1).last() == repo);
        }
        let ghost before_keys = keys@;
        out.insert(j, repo);
        keys.insert(j, key);
        proof {
            assert(keys@.map_values(|k: Vec<char>| k@) =~= before_keys.map_values(|k: Vec<char>| k@).insert(
                j as int,
                key@,
            ));
            assert(name_keys(out@) =~= ks.insert(j as int, key@));
            assert(rest@ =~= all.skip(i + 1));
        }
        i = i + 1;
    }
    assert(all.take(i as int) =~= all);
    out
}

} // verus!
