//! The command-line interface's own logic: its error values, the arguments of
//! its subcommands, the tables it prints, the validation of session log
//! paths and the tail of a log.
use vstd::prelude::*;
use crate::git::{Repo, Worktree};
use crate::paths::{join, path_join};
use crate::text::{
    byte_len, char_count, chars_contain, chars_equal, chars_have, chars_of, contains_seq, join_range, join_seqs, owned,
    pad_right, push_padded, push_str, split_lines, text_lines, utf8_len, lemma_text_lines_append,
    lemma_text_lines_of_line, lemma_utf8_len_at_least_len, spaces,
};

verus! {

/// An error of a subcommand: its message and the process exit code (1 for
/// a mistake of the user, 2 for a failure of the system).
#[derive(Debug)]
pub struct CliError {
    message: String,
    code: i32,
}

impl Clone for CliError {
    fn clone(&self) -> (e: CliError)
        ensures
            e.spec_message() == self.spec_message(),
            e.spec_code() == self.spec_code(),
    {
        proof {
            use_type_invariant(self);
        }
        CliError { message: self.message.clone(), code: self.code }
    }
}

/// anyhow's error, as the subcommands' git and tmux calls return it; carried
/// through unread.
#[verifier::external_type_specification]
#[verifier::external_body]
pub struct ExAnyhowError(anyhow::Error);

/// The text of an anyhow error (`ToString::to_string`, its `Display`).
/// Nothing is claimed of it: the error is opaque here.
#[verifier::external_body]
fn anyhow_text(error: &anyhow::Error) -> (t: String) {
    error.to_string()
}

impl CliError {
    /// Every error exits with 1 (a mistake of the user) or 2 (a failure of
    /// the system).
    #[verifier::type_invariant]
    spec fn valid_code(self) -> bool {
        self.code == 1 || self.code == 2
    }

    /// The message, as text.
    pub closed spec fn spec_message(&self) -> Seq<char> {
        self.message@
    }

    /// The exit code.
    pub closed spec fn spec_code(&self) -> i32 {
        self.code
    }

    /// An error caused by the user's input (exit code 1).
    pub fn user(message: &str) -> (e: CliError)
        ensures
            e.spec_message() == message@,
            e.spec_code() == 1,
    {
        CliError { message: owned(message), code: 1 }
    }

    /// An error of the system or environment (exit code 2).
    pub fn system(message: &str) -> (e: CliError)
        ensures
            e.spec_message() == message@,
            e.spec_code() == 2,
    {
        CliError { message: owned(message), code: 2 }
    }

    pub fn message(&self) -> (m: &str)
        ensures
            m@ == self.spec_message(),
    {
        self.message.as_str()
    }

    /// The exit code: 1 for an error of the user, 2 for one of the system.
    pub fn code(&self) -> (c: i32)
        ensures
            c == self.spec_code(),
            c == 1 || c == 2,
    {
        proof {
            use_type_invariant(self);
        }
        self.code
    }

    /// An error returned by a git or tmux call, as the subcommands report
    /// it: a failure of the system with the error's text.
    pub fn from_anyhow(error: &anyhow::Error) -> (e: CliError)
        ensures
            e.spec_code() == 2,
    {
        let text = anyhow_text(error);
        CliError::system(text.as_str())
    }
}

/// Arguments of `kiosk open`.
#[derive(Debug, Clone)]
pub struct OpenArgs {
    pub repo: String,
    pub branch: Option<String>,
    pub new_branch: Option<String>,
    pub base: Option<String>,
    pub no_switch: bool,
    pub run: Option<String>,
    pub log: bool,
    pub json: bool,
}

/// Arguments of `kiosk status`.
#[derive(Debug, Clone)]
pub struct StatusArgs {
    pub repo: String,
    pub branch: Option<String>,
    pub json: bool,
    pub lines: Option<usize>,
}

/// Arguments of `kiosk delete`.
#[derive(Debug, Clone)]
pub struct DeleteArgs {
    pub repo: String,
    pub branch: String,
    pub force: bool,
    pub json: bool,
}

/// The text that git's error carries when the branch is checked out in
/// another (possibly stale) worktree.
pub open spec fn already_used_marker() -> Seq<char> {
    "already used by worktree"@
}

/// Whether an error message says that the branch is already used by a
/// worktree.
pub fn is_worktree_already_used_error(message: &str) -> (b: bool)
    ensures
        b == contains_seq(message@, already_used_marker()),
{
    let m = chars_of(message);
    let marker = chars_of("already used by worktree");
    chars_contain(&m, &marker)
}

/// The hint shown when stale worktree metadata may block a branch.
pub open spec fn stale_worktree_hint_spec(repo_path: Seq<char>) -> Seq<char> {
    "stale worktree metadata may be blocking this branch. Try `git -C "@ + repo_path
        + " worktree prune --expire now` (or `kiosk clean`)."@
}

/// The hint shown when stale worktree metadata may block a branch.
pub fn stale_worktree_hint(repo_path: &str) -> (r: String)
    ensures
        r@ == stale_worktree_hint_spec(repo_path@),
{
    let mut r = String::new();
    push_str(&mut r, "stale worktree metadata may be blocking this branch. Try `git -C ");
    push_str(&mut r, repo_path);
    push_str(&mut r, " worktree prune --expire now` (or `kiosk clean`).");
    r
}

/// A session name that can name a log file: not empty, not hidden, and with
/// no separator or `..` that could leave the log directory.
pub open spec fn is_valid_session_name(name: Seq<char>) -> bool {
    &&& name.len() > 0
    &&& name[0] != '.'
    &&& !name.contains('/')
    &&& !name.contains('\\')
    &&& !contains_seq(name, seq!['.', '.'])
}

/// Where the log of a session is kept in `log_dir`, or the error for a name
/// that is refused.
pub fn log_path_for_session(session_name: &str, log_dir: &str) -> (r: Result<String, CliError>)
    ensures
        r is Ok <==> is_valid_session_name(session_name@),
        r matches Ok(p) ==> p@ == path_join(log_dir@, session_name@ + ".log"@),
        r matches Err(e) ==> e.spec_message() == "Invalid session name"@ && e.spec_code() == 2,
{
    let v = chars_of(session_name);
    let mut dots: Vec<char> = Vec::new();
    dots.push('.');
    dots.push('.');
    assert(dots@ =~= seq!['.', '.']);
    if v.len() == 0 || v[0] == '.' || chars_have(&v, '/') || chars_have(&v, '\\') || chars_contain(
        &v,
        &dots,
    ) {
        return Err(CliError::system("Invalid session name"));
    }
    let mut file = owned(session_name);
    push_str(&mut file, ".log");
    Ok(join(log_dir, file.as_str()))
}

/// The directory of session logs: `$XDG_STATE_HOME/kiosk/logs` when that
/// variable is set and not empty, else `$HOME/.local/state/kiosk/logs`.
pub open spec fn log_dir_spec(xdg_state_home: Option<Seq<char>>, home: Option<Seq<char>>) -> Option<
    Seq<char>,
> {
    if xdg_state_home is Some && xdg_state_home->0.len() > 0 {
        Some(path_join(path_join(xdg_state_home->0, "kiosk"@), "logs"@))
    } else {
        match home {
            Some(h) => Some(
                path_join(
                    path_join(path_join(path_join(h, ".local"@), "state"@), "kiosk"@),
                    "logs"@,
                ),
            ),
            None => None,
        }
    }
}

/// The directory of session logs for the given values of `XDG_STATE_HOME`
/// and `HOME`; an error when neither gives one.
pub fn log_dir(xdg_state_home: Option<String>, home: Option<String>) -> (r: Result<String, CliError>)
    ensures
        r is Ok <==> log_dir_spec(xdg_state_home.deep_view(), home.deep_view()) is Some,
        r matches Ok(d) ==> Some(d@) == log_dir_spec(xdg_state_home.deep_view(), home.deep_view()),
        r matches Err(e) ==> e.spec_message() == "HOME environment variable not set"@
            && e.spec_code() == 2,
{
    let xdg_set = match &xdg_state_home {
        Some(x) => char_count(x.as_str()) > 0,
        None => false,
    };
    let base = if xdg_set {
        match xdg_state_home {
            Some(x) => x,
            None => String::new(),
        }
    } else {
        match home {
            Some(h) => {
                let local = join(h.as_str(), ".local");
                join(local.as_str(), "state")
            },
            None => {
                return Err(CliError::system("HOME environment variable not set"));
            },
        }
    };
    let k = join(base.as_str(), "kiosk");
    Ok(join(k.as_str(), "logs"))
}

/// The last `n` lines of `content` (all of them when it has fewer), joined
/// with newlines.
pub open spec fn tail_lines_spec(content: Seq<char>, n: nat) -> Seq<char> {
    let ls = text_lines(content);
    let k = if n < ls.len() {
        n as int
    } else {
        ls.len() as int
    };
    join_seqs(ls.skip(ls.len() - k), seq!['\n'])
}

/// The last `lines` lines of `content`, joined with newlines.
pub fn tail_lines(content: &str, lines: usize) -> (r: String)
    ensures
        r@ == tail_lines_spec(content@, lines as nat),
{
    let ls = split_lines(content);
    let start: usize = if lines < ls.len() {
        ls.len() - lines
    } else {
        0
    };
    let mut sep = String::new();
    sep.push('\n');
    assert(sep@ =~= seq!['\n']);
    let r = join_range(&ls, start, ls.len(), sep.as_str());
    assert(ls.deep_view().subrange(start as int, ls.len() as int) =~= ls.deep_view().skip(start as int));
    r
}

/// A repository as `kiosk list` reports it.
#[derive(Debug, Clone)]
pub struct RepoOutput {
    pub name: String,
    pub path: String,
}

/// A branch as `kiosk branches` reports it.
#[derive(Debug, Clone)]
pub struct BranchOutput {
    pub name: String,
    pub worktree_path: Option<String>,
    pub has_session: bool,
    pub is_current: bool,
    pub is_remote: bool,
}

/// A session as `kiosk sessions` reports it.
#[derive(Debug, Clone)]
pub struct SessionOutput {
    pub session: String,
    pub repo: String,
    pub branch: Option<String>,
    pub path: String,
    pub attached: bool,
}

/// The names of the repository rows.
pub open spec fn repo_names(rows: Seq<RepoOutput>) -> Seq<Seq<char>> {
    rows.map_values(|r: RepoOutput| r.name@)
}

/// The names of the branch rows.
pub open spec fn branch_names(rows: Seq<BranchOutput>) -> Seq<Seq<char>> {
    rows.map_values(|r: BranchOutput| r.name@)
}

/// The session names of the session rows.
pub open spec fn session_names(rows: Seq<SessionOutput>) -> Seq<Seq<char>> {
    rows.map_values(|r: SessionOutput| r.session@)
}

/// The repository names of the session rows.
pub open spec fn session_repos(rows: Seq<SessionOutput>) -> Seq<Seq<char>> {
    rows.map_values(|r: SessionOutput| r.repo@)
}

/// The branch cells of the session rows.
pub open spec fn session_branches(rows: Seq<SessionOutput>) -> Seq<Seq<char>> {
    rows.map_values(|r: SessionOutput| branch_label(r.branch.deep_view()))
}

/// The paths of the session rows.
pub open spec fn session_paths(rows: Seq<SessionOutput>) -> Seq<Seq<char>> {
    rows.map_values(|r: SessionOutput| r.path@)
}

/// Width of a table column: the byte length of its widest cell, at least
/// that of its header.
pub open spec fn col_width(cells: Seq<Seq<char>>, header: Seq<char>) -> nat
    decreases cells.len(),
{
    if cells.len() == 0 {
        utf8_len(header)
    } else {
        let m = col_width(cells.drop_last(), header);
        let w = utf8_len(cells.last());
        if w > m {
            w
        } else {
            m
        }
    }
}

/// The width of the column holding `cells` under `header`.
pub fn column_width(cells: &Vec<String>, header: &str) -> (w: usize)
    ensures
        w == col_width(cells.deep_view(), header@),
{
    let ghost cs = cells.deep_view();
    let mut w = byte_len(header);
    let mut i: usize = 0;
    while i < cells.len()
        invariant
            i <= cells.len(),
            cs == cells.deep_view(),
            w == col_width(cs.take(i as int), header@),
        decreases cells.len() - i,
    {
        assert(cs.take(i + 1).drop_last() =~= cs.take(i as int));
        assert(cs.take(i + 1).last() == cells@[i as int]@);
        let n = byte_len(cells[i].as_str());
        if n > w {
            w = n;
        }
        i = i + 1;
    }
    assert(cs.take(cells.len() as int) =~= cs);
    w
}

/// Two spaces between columns.
pub open spec fn gap() -> Seq<char> {
    "  "@
}

/// End of a table line.
pub open spec fn eol() -> Seq<char> {
    "\n"@
}

/// One line of the repository table.
pub open spec fn repo_line(name: Seq<char>, path: Seq<char>, w: nat) -> Seq<char> {
    pad_right(name, w) + gap() + path + eol()
}

/// The lines of the repository table for these rows.
pub open spec fn repo_lines(rows: Seq<RepoOutput>, w: nat) -> Seq<char>
    decreases rows.len(),
{
    if rows.len() == 0 {
        Seq::empty()
    } else {
        repo_lines(rows.drop_last(), w) + repo_line(rows.last().name@, rows.last().path@, w)
    }
}

/// The repository table: a header and one line per repository, the name
/// column padded to its widest entry.
pub open spec fn repo_table_spec(rows: Seq<RepoOutput>) -> Seq<char> {
    let w = col_width(repo_names(rows), "repo"@);
    repo_line("repo"@, "path"@, w) + repo_lines(rows, w)
}

/// The table that `kiosk list` prints.
pub fn format_repo_table(repos: &[RepoOutput]) -> (r: String)
    ensures
        r@ == repo_table_spec(repos@),
{
    let mut names: Vec<String> = Vec::new();
    let mut i: usize = 0;
    while i < repos.len()
        invariant
            i <= repos.len(),
            names.deep_view() =~= repo_names(repos@.take(i as int)),
        decreases repos.len() - i,
    {
        assert(repo_names(repos@.take(i + 1)) =~= repo_names(repos@.take(i as int)).push(repos@[i as int].name@));
        names.push(repos[i].name.clone());
        i = i + 1;
    }
    assert(repos@.take(repos.len() as int) =~= repos@);
    let w = column_width(&names, "repo");
    let mut out = String::new();
    push_padded(&mut out, "repo", w);
    push_str(&mut out, "  ");
    push_str(&mut out, "path");
    push_str(&mut out, "\n");
    let ghost head = out@;
    let mut i: usize = 0;
    while i < repos.len()
        invariant
            i <= repos.len(),
            w == col_width(repo_names(repos@), "repo"@),
            out@ == head + repo_lines(repos@.take(i as int), w as nat),
        decreases repos.len() - i,
    {
        assert(repos@.take(i + 1).drop_last() =~= repos@.take(i as int));
        push_padded(&mut out, repos[i].name.as_str(), w);
        push_str(&mut out, "  ");
        push_str(&mut out, repos[i].path.as_str());
        push_str(&mut out, "\n");
        i = i + 1;
    }
    assert(repos@.take(repos.len() as int) =~= repos@);
    out
}

/// The four status flags of a branch: current (`*`), has a worktree (`W`),
/// has a session (`S`), remote (`R`); `-` for each flag not set.
pub open spec fn branch_stat(b: BranchOutput) -> Seq<char> {
    seq![
        if b.is_current { '*' } else { '-' },
        if b.worktree_path is Some { 'W' } else { '-' },
        if b.has_session { 'S' } else { '-' },
        if b.is_remote { 'R' } else { '-' },
    ]
}

/// The worktree cell of a branch: its path, or `-`.
pub open spec fn worktree_cell(p: Option<Seq<char>>) -> Seq<char> {
    match p {
        Some(x) => x,
        None => "-"@,
    }
}

/// One line of the branch table.
pub open spec fn branch_line(name: Seq<char>, stat: Seq<char>, worktree: Seq<char>, w: nat) -> Seq<char> {
    pad_right(name, w) + gap() + pad_right(stat, 4) + gap() + worktree + eol()
}

/// The lines of the branch table for these rows.
pub open spec fn branch_lines(rows: Seq<BranchOutput>, w: nat) -> Seq<char>
    decreases rows.len(),
{
    if rows.len() == 0 {
        Seq::empty()
    } else {
        branch_lines(rows.drop_last(), w) + branch_line(
            rows.last().name@,
            branch_stat(rows.last()),
            worktree_cell(rows.last().worktree_path.deep_view()),
            w,
        )
    }
}

/// The branch table: a header and one line per branch with its flags and
/// worktree.
pub open spec fn branch_table_spec(rows: Seq<BranchOutput>) -> Seq<char> {
    let w = col_width(branch_names(rows), "branch"@);
    branch_line("branch"@, "stat"@, "worktree"@, w) + branch_lines(rows, w)
}

/// Appends the branch table's line for `e`, its name padded to `w`.
fn push_branch_row(out: &mut String, e: &BranchOutput, w: usize)
    ensures
        final(out)@ == old(out)@ + branch_line(
            e.name@,
            branch_stat(*e),
            worktree_cell(e.worktree_path.deep_view()),
            w as nat,
        ),
{
    let mut stat = String::new();
    stat.push(if e.is_current { '*' } else { '-' });
    stat.push(if e.worktree_path.is_some() { 'W' } else { '-' });
    stat.push(if e.has_session { 'S' } else { '-' });
    stat.push(if e.is_remote { 'R' } else { '-' });
    assert(stat@ =~= branch_stat(*e));
    push_padded(out, e.name.as_str(), w);
    push_str(out, "  ");
    push_padded(out, stat.as_str(), 4);
    push_str(out, "  ");
    match &e.worktree_path {
        Some(p) => push_str(out, p.as_str()),
        None => push_str(out, "-"),
    }
    push_str(out, "\n");
    proof {
        reveal_strlit("  ");
        reveal_strlit("-");
        reveal_strlit("\n");
    }
    assert(final(out)@ =~= old(out)@ + branch_line(
        e.name@,
        branch_stat(*e),
        worktree_cell(e.worktree_path.deep_view()),
        w as nat,
    ));
}

/// Two texts without a newline make one without a newline.
proof fn lemma_no_newline_concat(a: Seq<char>, b: Seq<char>)
    requires
        !a.contains('\n'),
        !b.contains('\n'),
    ensures
        !(a + b).contains('\n'),
{
    if (a + b).contains('\n') {
        let j = choose|j: int| 0 <= j < (a + b).len() && (a + b)[j] == '\n';
        if j < a.len() {
            assert(a[j] == '\n');
        } else {
            assert(b[j - a.len()] == '\n');
        }
    }
}

/// Padding keeps the text in front and adds only spaces.
proof fn lemma_pad_right_shape(s: Seq<char>, w: nat)
    ensures
        pad_right(s, w).len() == if s.len() >= w { s.len() } else { w },
        pad_right(s, w).take(s.len() as int) == s,
        forall|j: int| s.len() <= j < pad_right(s, w).len() ==> #[trigger] pad_right(s, w)[j] == ' ',
        !s.contains('\n') ==> !pad_right(s, w).contains('\n'),
{
    if s.len() < w {
        let sp = spaces((w - s.len()) as nat);
        assert(pad_right(s, w).take(s.len() as int) =~= s);
        assert(!sp.contains('\n')) by {
            if sp.contains('\n') {
                let j = choose|j: int| 0 <= j < sp.len() && sp[j] == '\n';
                assert(sp[j] == ' ');
            }
        }
        if !s.contains('\n') {
            lemma_no_newline_concat(s, sp);
        }
    } else {
        assert(pad_right(s, w).take(s.len() as int) =~= s);
    }
}

/// A column is at least as wide as each of its cells.
proof fn lemma_col_width_covers(cells: Seq<Seq<char>>, header: Seq<char>)
    ensures
        utf8_len(header) <= col_width(cells, header),
        forall|i: int| 0 <= i < cells.len() ==> utf8_len(#[trigger] cells[i]) <= col_width(cells, header),
    decreases cells.len(),
{
    if cells.len() > 0 {
        lemma_col_width_covers(cells.drop_last(), header);
        assert forall|i: int| 0 <= i < cells.len() implies utf8_len(#[trigger] cells[i]) <= col_width(
            cells,
            header,
        ) by {
            if i < cells.len() - 1 {
                assert(cells.drop_last()[i] == cells[i]);
            }
        }
    }
}

/// A branch row that a table line can show: its name and worktree path hold
/// no newline, and the path does not end in `\r`.
pub open spec fn branch_row_printable(b: BranchOutput) -> bool {
    &&& !b.name@.contains('\n')
    &&& b.worktree_path matches Some(p) ==> !p@.contains('\n') && (p@.len() == 0 || p@.last() != '\r')
}

/// The text of a branch line, without its newline.
spec fn branch_row_text(b: BranchOutput, w: nat) -> Seq<char> {
    pad_right(b.name@, w) + gap() + pad_right(branch_stat(b), 4) + gap() + worktree_cell(
        b.worktree_path.deep_view(),
    )
}

/// The shape of a branch line: the name padded to `w`, two spaces, the four
/// flags, two spaces and the worktree cell.
proof fn lemma_branch_row_text(b: BranchOutput, w: nat)
    requires
        branch_row_printable(b),
        b.name@.len() <= w,
    ensures
        branch_line(b.name@, branch_stat(b), worktree_cell(b.worktree_path.deep_view()), w) == branch_row_text(
            b,
            w,
        ).push('\n'),
        !branch_row_text(b, w).contains('\n'),
        branch_row_text(b, w).last() != '\r',
        branch_row_text(b, w).len() == w + 8 + worktree_cell(b.worktree_path.deep_view()).len(),
        branch_row_text(b, w).take(b.name@.len() as int) == b.name@,
        branch_row_text(b, w)[w as int + 2] == branch_stat(b)[0],
        branch_row_text(b, w)[w as int + 3] == branch_stat(b)[1],
        branch_row_text(b, w)[w as int + 4] == branch_stat(b)[2],
        branch_row_text(b, w)[w as int + 5] == branch_stat(b)[3],
        branch_row_text(b, w).skip(w as int + 8) == worktree_cell(b.worktree_path.deep_view()),
{
    reveal_strlit("  ");
    reveal_strlit("\n");
    reveal_strlit("-");
    let name = b.name@;
    let stat = branch_stat(b);
    let cell = worktree_cell(b.worktree_path.deep_view());
    let pn = pad_right(name, w);
    lemma_pad_right_shape(name, w);
    assert(pad_right(stat, 4) == stat);
    let t = branch_row_text(b, w);
    let a1 = pn + gap();
    let a2 = a1 + stat;
    let a3 = a2 + gap();
    assert(t == a3 + cell);
    assert(!gap().contains('\n')) by {
        if gap().contains('\n') {
            let j = choose|j: int| 0 <= j < gap().len() && gap()[j] == '\n';
            assert(gap()[j] == ' ');
        }
    }
    assert(!stat.contains('\n')) by {
        if stat.contains('\n') {
            let j = choose|j: int| 0 <= j < stat.len() && stat[j] == '\n';
            assert(0 <= j < 4);
        }
    }
    assert(!cell.contains('\n')) by {
        if cell.contains('\n') {
            let j = choose|j: int| 0 <= j < cell.len() && cell[j] == '\n';
            if b.worktree_path is None {
                assert(cell[j] == '-');
            }
        }
    }
    lemma_no_newline_concat(pn, gap());
    lemma_no_newline_concat(a1, stat);
    lemma_no_newline_concat(a2, gap());
    lemma_no_newline_concat(a3, cell);
    assert(a3.len() == w + 8);
    if cell.len() > 0 {
        assert(t.last() == cell.last());
    } else {
        assert(t.last() == a3[w as int + 7]);
    }
    assert(t.take(name.len() as int) =~= pn.take(name.len() as int));
    assert(t[w as int + 2] == stat[0]);
    assert(t[w as int + 3] == stat[1]);
    assert(t[w as int + 4] == stat[2]);
    assert(t[w as int + 5] == stat[3]);
    assert(t.skip(w as int + 8) =~= cell);
    assert(branch_line(name, stat, cell, w) =~= t.push('\n'));
}

/// The lines of the branch rows are their texts.
proof fn lemma_branch_lines_text(rows: Seq<BranchOutput>, w: nat)
    requires
        forall|j: int| 0 <= j < rows.len() ==> branch_row_printable(#[trigger] rows[j]) && rows[j].name@.len() <= w,
    ensures
        branch_lines(rows, w).len() == 0 || branch_lines(rows, w).last() == '\n',
        text_lines(branch_lines(rows, w)) == rows.map_values(|b: BranchOutput| branch_row_text(b, w)),
    decreases rows.len(),
{
    if rows.len() == 0 {
        assert(text_lines(branch_lines(rows, w)) =~= rows.map_values(|b: BranchOutput| branch_row_text(b, w)));
    } else {
        let d = rows.drop_last();
        let b = rows.last();
        assert(b == rows[rows.len() - 1]);
        assert forall|j: int| 0 <= j < d.len() implies branch_row_printable(#[trigger] d[j]) && d[j].name@.len()
            <= w by {
            assert(d[j] == rows[j]);
        }
        lemma_branch_lines_text(d, w);
        lemma_branch_row_text(b, w);
        let t = branch_row_text(b, w);
        lemma_text_lines_of_line(t);
        lemma_text_lines_append(branch_lines(d, w), t.push('\n'));
        assert(rows.map_values(|b: BranchOutput| branch_row_text(b, w)) =~= d.map_values(
            |b: BranchOutput| branch_row_text(b, w),
        ).push(t));
        assert(text_lines(branch_lines(rows, w)) =~= rows.map_values(|b: BranchOutput| branch_row_text(b, w)));
    }
}

/// Law: the branch table has a header line and then one line per branch, in
/// order. The line of a branch starts with its name; after the name column
/// (as wide as the widest name, and at least as `branch`) and two spaces
/// come its four flags: `*` exactly when it is the current branch, `W`
/// exactly when it has a worktree, `S` exactly when it has a session, `R`
/// exactly when it is remote-only, each flag independent of the others and
/// `-` when unset; after two more spaces comes its worktree path, or `-`.
pub proof fn lemma_branch_table_rows(rows: Seq<BranchOutput>, k: int)
    requires
        0 <= k < rows.len(),
        forall|j: int| 0 <= j < rows.len() ==> branch_row_printable(#[trigger] rows[j]),
    ensures
        ({
            let lines = text_lines(branch_table_spec(rows));
            let w = col_width(branch_names(rows), "branch"@);
            let line = lines[k + 1];
            let b = rows[k];
            &&& lines.len() == rows.len() + 1
            &&& line.len() >= w + 8
            &&& line.take(b.name@.len() as int) == b.name@
            &&& line[w as int + 2] == (if b.is_current { '*' } else { '-' })
            &&& line[w as int + 3] == (if b.worktree_path is Some { 'W' } else { '-' })
            &&& line[w as int + 4] == (if b.has_session { 'S' } else { '-' })
            &&& line[w as int + 5] == (if b.is_remote { 'R' } else { '-' })
            &&& line.skip(w as int + 8) == (match b.worktree_path {
                Some(p) => p@,
                None => "-"@,
            })
        }),
{
    reveal_strlit("branch");
    reveal_strlit("stat");
    reveal_strlit("worktree");
    reveal_strlit("  ");
    reveal_strlit("\n");
    let w = col_width(branch_names(rows), "branch"@);
    lemma_col_width_covers(branch_names(rows), "branch"@);
    assert forall|j: int| 0 <= j < rows.len() implies branch_row_printable(#[trigger] rows[j]) && rows[j].name@.len()
        <= w by {
        assert(branch_names(rows)[j] == rows[j].name@);
        lemma_utf8_len_at_least_len(rows[j].name@);
    }
    lemma_branch_lines_text(rows, w);
    // The header line.
    let hn = pad_right("branch"@, w);
    lemma_pad_right_shape("branch"@, w);
    let h1 = hn + gap();
    let h2 = h1 + pad_right("stat"@, 4);
    let h3 = h2 + gap();
    let h = h3 + "worktree"@;
    assert(pad_right("stat"@, 4) == "stat"@);
    assert(!gap().contains('\n')) by {
        if gap().contains('\n') {
            let j = choose|j: int| 0 <= j < gap().len() && gap()[j] == '\n';
            assert(gap()[j] == ' ');
        }
    }
    assert(!"branch"@.contains('\n')) by {
        if "branch"@.contains('\n') {
            let j = choose|j: int| 0 <= j < 6 && "branch"@[j] == '\n';
        }
    }
    assert(!"stat"@.contains('\n')) by {
        if "stat"@.contains('\n') {
            let j = choose|j: int| 0 <= j < 4 && "stat"@[j] == '\n';
        }
    }
    assert(!"worktree"@.contains('\n')) by {
        if "worktree"@.contains('\n') {
            let j = choose|j: int| 0 <= j < 8 && "worktree"@[j] == '\n';
        }
    }
    lemma_no_newline_concat(hn, gap());
    lemma_no_newline_concat(h1, "stat"@);
    lemma_no_newline_concat(h2, gap());
    lemma_no_newline_concat(h3, "worktree"@);
    assert(h.last() == 'e');
    lemma_text_lines_of_line(h);
    assert(branch_line("branch"@, "stat"@, "worktree"@, w) =~= h.push('\n'));
    lemma_text_lines_append(h.push('\n'), branch_lines(rows, w));
    let lines = text_lines(branch_table_spec(rows));
    assert(lines == seq![h] + rows.map_values(|b: BranchOutput| branch_row_text(b, w)));
    assert(lines[k + 1] == branch_row_text(rows[k], w));
    lemma_branch_row_text(rows[k], w);
}

/// The table that `kiosk branches` prints.
pub fn format_branch_table(entries: &[BranchOutput]) -> (r: String)
    ensures
        r@ == branch_table_spec(entries@),
{
    let mut names: Vec<String> = Vec::new();
    let mut i: usize = 0;
    while i < entries.len()
        invariant
            i <= entries.len(),
            names.deep_view() =~= branch_names(entries@.take(i as int)),
        decreases entries.len() - i,
    {
        assert(branch_names(entries@.take(i + 1)) =~= branch_names(entries@.take(i as int)).push(entries@[i as int].name@));
        names.push(entries[i].name.clone());
        i = i + 1;
    }
    assert(entries@.take(entries.len() as int) =~= entries@);
    let w = column_width(&names, "branch");
    let mut out = String::new();
    push_padded(&mut out, "branch", w);
    push_str(&mut out, "  ");
    push_padded(&mut out, "stat", 4);
    push_str(&mut out, "  ");
    push_str(&mut out, "worktree");
    push_str(&mut out, "\n");
    let ghost head = out@;
    let mut i: usize = 0;
    while i < entries.len()
        invariant
            i <= entries.len(),
            w == col_width(branch_names(entries@), "branch"@),
            out@ == head + branch_lines(entries@.take(i as int), w as nat),
        decreases entries.len() - i,
    {
        assert(entries@.take(i + 1).drop_last() =~= entries@.take(i as int));
        push_branch_row(&mut out, &entries[i], w);
        i = i + 1;
    }
    assert(entries@.take(entries.len() as int) =~= entries@);
    out
}

/// The branch cell of a session: its branch, or `(detached)`.
pub open spec fn branch_label(b: Option<Seq<char>>) -> Seq<char> {
    match b {
        Some(x) => x,
        None => "(detached)"@,
    }
}

/// `true` or `false`, as `bool` is displayed.
pub open spec fn bool_text(b: bool) -> Seq<char> {
    if b {
        "true"@
    } else {
        "false"@
    }
}

/// The widths of the first four columns of the session table.
pub struct SessionWidths {
    pub session: nat,
    pub repo: nat,
    pub branch: nat,
    pub path: nat,
}

/// One line of the session table.
pub open spec fn session_line(
    session: Seq<char>,
    repo: Seq<char>,
    branch: Seq<char>,
    path: Seq<char>,
    attached: Seq<char>,
    w: SessionWidths,
) -> Seq<char> {
    pad_right(session, w.session) + gap() + pad_right(repo, w.repo) + gap() + pad_right(branch, w.branch)
        + gap() + pad_right(path, w.path) + gap() + attached + eol()
}

/// The lines of the session table for these rows.
pub open spec fn session_lines(rows: Seq<SessionOutput>, w: SessionWidths) -> Seq<char>
    decreases rows.len(),
{
    if rows.len() == 0 {
        Seq::empty()
    } else {
        let r = rows.last();
        session_lines(rows.drop_last(), w) + session_line(
            r.session@,
            r.repo@,
            branch_label(r.branch.deep_view()),
            r.path@,
            bool_text(r.attached),
            w,
        )
    }
}

/// The column widths of the session table for these rows.
pub open spec fn session_widths(rows: Seq<SessionOutput>) -> SessionWidths {
    SessionWidths {
        session: col_width(session_names(rows), "session"@),
        repo: col_width(session_repos(rows), "repo"@),
        branch: col_width(session_branches(rows), "branch"@),
        path: col_width(session_paths(rows), "path"@),
    }
}

/// The session table: a header and one line per session, each of the first
/// four columns padded to its widest entry.
pub open spec fn session_table_spec(rows: Seq<SessionOutput>) -> Seq<char> {
    let w = session_widths(rows);
    session_line("session"@, "repo"@, "branch"@, "path"@, "attached"@, w) + session_lines(rows, w)
}

/// The branch cell of a session row.
fn branch_label_of(b: &Option<String>) -> (r: String)
    ensures
        r@ == branch_label(b.deep_view()),
{
    match b {
        Some(x) => x.clone(),
        None => owned("(detached)"),
    }
}

/// Appends one line of the session table.
fn push_session_line(
    out: &mut String,
    session: &str,
    repo: &str,
    branch: &str,
    path: &str,
    attached: &str,
    ws: usize,
    wr: usize,
    wb: usize,
    wp: usize,
)
    ensures
        final(out)@ == old(out)@ + session_line(
            session@,
            repo@,
            branch@,
            path@,
            attached@,
            SessionWidths { session: ws as nat, repo: wr as nat, branch: wb as nat, path: wp as nat },
        ),
{
    push_padded(out, session, ws);
    push_str(out, "  ");
    push_padded(out, repo, wr);
    push_str(out, "  ");
    push_padded(out, branch, wb);
    push_str(out, "  ");
    push_padded(out, path, wp);
    push_str(out, "  ");
    push_str(out, attached);
    push_str(out, "\n");
}

/// The table that `kiosk sessions` prints.
pub fn format_session_table(rows: &[SessionOutput]) -> (r: String)
    ensures
        r@ == session_table_spec(rows@),
{
    let mut sessions: Vec<String> = Vec::new();
    let mut repos: Vec<String> = Vec::new();
    let mut branches: Vec<String> = Vec::new();
    let mut paths: Vec<String> = Vec::new();
    let mut i: usize = 0;
    while i < rows.len()
        invariant
            i <= rows.len(),
            sessions.deep_view() =~= session_names(rows@.take(i as int)),
            repos.deep_view() =~= session_repos(rows@.take(i as int)),
            branches.deep_view() =~= session_branches(rows@.take(i as int)),
            paths.deep_view() =~= session_paths(rows@.take(i as int)),
        decreases rows.len() - i,
    {
        let ghost r = rows@[i as int];
        assert(session_names(rows@.take(i + 1)) =~= session_names(rows@.take(i as int)).push(r.session@));
        assert(session_repos(rows@.take(i + 1)) =~= session_repos(rows@.take(i as int)).push(r.repo@));
        assert(session_branches(rows@.take(i + 1)) =~= session_branches(rows@.take(i as int)).push(branch_label(r.branch.deep_view())));
        assert(session_paths(rows@.take(i + 1)) =~= session_paths(rows@.take(i as int)).push(r.path@));
        sessions.push(rows[i].session.clone());
        repos.push(rows[i].repo.clone());
        branches.push(branch_label_of(&rows[i].branch));
        paths.push(rows[i].path.clone());
        i = i + 1;
    }
    assert(rows@.take(rows.len() as int) =~= rows@);
    let ws = column_width(&sessions, "session");
    let wr = column_width(&repos, "repo");
    let wb = column_width(&branches, "branch");
    let wp = column_width(&paths, "path");
    let ghost w = session_widths(rows@);
    let mut out = String::new();
    push_session_line(&mut out, "session", "repo", "branch", "path", "attached", ws, wr, wb, wp);
    let ghost head = out@;
    let mut i: usize = 0;
    while i < rows.len()
        invariant
            i <= rows.len(),
            w == session_widths(rows@),
            ws == w.session,
            wr == w.repo,
            wb == w.branch,
            wp == w.path,
            out@ == head + session_lines(rows@.take(i as int), w),
        decreases rows.len() - i,
    {
        assert(rows@.take(i + 1).drop_last() =~= rows@.take(i as int));
        let row = &rows[i];
        let label = branch_label_of(&row.branch);
        let attached = if row.attached {
            "true"
        } else {
            "false"
        };
        push_session_line(
            &mut out,
            row.session.as_str(),
            row.repo.as_str(),
            label.as_str(),
            row.path.as_str(),
            attached,
            ws,
            wr,
            wb,
            wp,
        );
        i = i + 1;
    }
    assert(rows@.take(rows.len() as int) =~= rows@);
    out
}

/// The message for a repository name that matches none: the available names
/// joined with `, `, or `(none)`.
pub open spec fn no_repo_message(name: Seq<char>, names: Seq<Seq<char>>) -> Seq<char> {
    let available = join_seqs(names, ", "@);
    "no repo named '"@ + name + "' found. Available: "@ + (if available.len() == 0 {
        "(none)"@
    } else {
        available
    })
}

/// The names of the repositories.
pub open spec fn names_of(repos: Seq<Repo>) -> Seq<Seq<char>> {
    repos.map_values(|r: Repo| r.name@)
}

/// The repository whose name is exactly `name` (the first one when several
/// are), or a user error that lists the available names.
pub fn resolve_repo_exact<'a>(repos: &'a [Repo], name: &str) -> (r: Result<&'a Repo, CliError>)
    ensures
        r is Ok <==> exists|i: int| 0 <= i < repos@.len() && (#[trigger] repos@[i]).name@ == name@,
        r matches Ok(x) ==> exists|i: int|
            0 <= i < repos@.len() && *x == repos@[i] && (#[trigger] repos@[i]).name@ == name@ && forall|j: int|
                0 <= j < i ==> (#[trigger] repos@[j]).name@ != name@,
        r matches Err(e) ==> e.spec_message() == no_repo_message(name@, names_of(repos@)) && e.spec_code()
            == 1,
{
    let wanted = chars_of(name);
    let mut i: usize = 0;
    while i < repos.len()
        invariant
            i <= repos.len(),
            wanted@ == name@,
            forall|j: int| 0 <= j < i ==> (#[trigger] repos@[j]).name@ != name@,
        decreases repos.len() - i,
    {
        let candidate = chars_of(repos[i].name.as_str());
        if chars_equal(&candidate, &wanted) {
            return Ok(&repos[i]);
        }
        i = i + 1;
    }
    let mut names: Vec<String> = Vec::new();
    let mut k: usize = 0;
    while k < repos.len()
        invariant
            k <= repos.len(),
            names.deep_view() =~= names_of(repos@.take(k as int)),
        decreases repos.len() - k,
    {
        assert(names_of(repos@.take(k + 1)) =~= names_of(repos@.take(k as int)).push(repos@[k as int].name@));
        names.push(repos[k].name.clone());
        k = k + 1;
    }
    assert(repos@.take(repos.len() as int) =~= repos@);
    assert(names@.subrange(0, names.len() as int) =~= names@);
    let available = join_range(&names, 0, names.len(), ", ");
    assert(names.deep_view().subrange(0, names.len() as int) =~= names.deep_view());
    let mut message = String::new();
    push_str(&mut message, "no repo named '");
    push_str(&mut message, name);
    push_str(&mut message, "' found. Available: ");
    if char_count(available.as_str()) == 0 {
        push_str(&mut message, "(none)");
    } else {
        push_str(&mut message, available.as_str());
    }
    Err(CliError::user(message.as_str()))
}

/// The path of the first worktree of `repo` that has `branch` checked out.
pub fn find_worktree_by_branch(repo: &Repo, branch: &str) -> (r: Option<String>)
    ensures
        r is Some <==> exists|i: int|
            0 <= i < repo.worktrees@.len() && (#[trigger] repo.worktrees@[i]).branch.deep_view() == Some(
                branch@,
            ),
        r matches Some(p) ==> exists|i: int|
            0 <= i < repo.worktrees@.len() && (#[trigger] repo.worktrees@[i]).branch.deep_view() == Some(
                branch@,
            ) && p@ == repo.worktrees@[i].path@ && forall|j: int|
                0 <= j < i ==> (#[trigger] repo.worktrees@[j]).branch.deep_view() != Some(branch@),
{
    let wanted = chars_of(branch);
    let mut i: usize = 0;
    while i < repo.worktrees.len()
        invariant
            i <= repo.worktrees.len(),
            wanted@ == branch@,
            forall|j: int|
                0 <= j < i ==> (#[trigger] repo.worktrees@[j]).branch.deep_view() != Some(branch@),
        decreases repo.worktrees.len() - i,
    {
        let w: &Worktree = &repo.worktrees[i];
        match &w.branch {
            Some(b) => {
                let bc = chars_of(b.as_str());
                if chars_equal(&bc, &wanted) {
                    return Some(w.path.clone());
                }
            },
            None => {},
        }
        i = i + 1;
    }
    None
}

} // verus!
