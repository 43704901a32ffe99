//! The decisions that the subcommands `open`, `status`, `sessions` and
//! `delete` make between their calls to git and tmux: which argument
//! combinations are refused, how `open` gets its worktree, what a failed
//! worktree operation leads to, which worktree `status` reports, which
//! sessions are listed and in what order, and which branch's worktree may be
//! deleted.
use vstd::prelude::*;
use crate::cli::{
    already_used_marker, find_worktree_by_branch, is_worktree_already_used_error, stale_worktree_hint,
    stale_worktree_hint_spec, BranchOutput, CliError, OpenArgs, SessionOutput,
};
use crate::git::{paths_equal, same_path, Repo, Worktree};
use crate::order::{chars_lt, insert_pos, keys_ordered, lemma_insert_keeps_order, lemma_insert_pos};
use crate::text::{
    chars_equal, chars_of, contains_seq, decimal, lowercase, owned, push_decimal, push_str, to_lowercase, trim,
    trim_str,
};
use vstd::seq_lib::{to_multiset_build, to_multiset_insert};

verus! {

/// The message with which `kiosk open` refuses its arguments, if it does:
/// a branch and a new branch together, a base without a new branch, a new
/// branch without a base, or switching to the session from outside tmux.
pub open spec fn open_args_error(args: OpenArgs, inside_tmux: bool) -> Option<Seq<char>> {
    if args.branch is Some && args.new_branch is Some {
        Some("cannot use positional branch and --new-branch together"@)
    } else if args.base is Some && args.new_branch is None {
        Some("--base can only be used together with --new-branch"@)
    } else if args.new_branch is Some && args.base is None {
        Some("--new-branch requires --base"@)
    } else if !args.no_switch && !inside_tmux {
        Some("not inside tmux. Use --no-switch to create the session without switching"@)
    } else {
        None
    }
}

/// Checks the arguments of `kiosk open` before anything is done; every
/// refusal is a mistake of the user.
pub fn validate_open_args(args: &OpenArgs, inside_tmux: bool) -> (r: Result<(), CliError>)
    ensures
        match r {
            Ok(()) => open_args_error(*args, inside_tmux) is None,
            Err(e) => open_args_error(*args, inside_tmux) == Some(e.spec_message()) && e.spec_code() == 1,
        },
{
    if args.branch.is_some() && args.new_branch.is_some() {
        return Err(CliError::user("cannot use positional branch and --new-branch together"));
    }
    if args.base.is_some() && args.new_branch.is_none() {
        return Err(CliError::user("--base can only be used together with --new-branch"));
    }
    if args.new_branch.is_some() && args.base.is_none() {
        return Err(CliError::user("--new-branch requires --base"));
    }
    if !args.no_switch && !inside_tmux {
        return Err(CliError::user("not inside tmux. Use --no-switch to create the session without switching"));
    }
    Ok(())
}

/// What follows the first attempt at a worktree operation.
pub enum RetryStep {
    /// It succeeded.
    Done,
    /// It failed for good, with this error.
    Fail(CliError),
    /// The branch is held by a stale worktree: prune the metadata and try
    /// once more.
    PruneAndRetry,
}

/// Decides what follows the first attempt: success ends it, an error that
/// says the branch is already used by a worktree asks for a prune and a
/// retry, and any other error is a failure of the system with its message.
pub fn after_first_attempt(first: Result<(), String>) -> (s: RetryStep)
    ensures
        match first {
            Ok(()) => s is Done,
            Err(m) => if contains_seq(m@, already_used_marker()) {
                s is PruneAndRetry
            } else {
                s matches RetryStep::Fail(e) && e.spec_message() == m@ && e.spec_code() == 2
            },
        },
{
    match first {
        Ok(()) => RetryStep::Done,
        Err(m) => {
            if is_worktree_already_used_error(m.as_str()) {
                RetryStep::PruneAndRetry
            } else {
                RetryStep::Fail(CliError::system(m.as_str()))
            }
        },
    }
}

/// The message when pruning the stale metadata failed: the first error, the
/// hint, and the prune's error, on three lines.
pub open spec fn prune_failed_message(first_error: Seq<char>, repo_path: Seq<char>, prune_error: Seq<char>) -> Seq<
    char,
> {
    first_error + "\n"@ + stale_worktree_hint_spec(repo_path) + "\nFailed to prune stale metadata automatically: "@
        + prune_error
}

/// The error when pruning the stale metadata failed (a failure of the
/// system).
pub fn prune_failed_error(first_error: &str, repo_path: &str, prune_error: &str) -> (e: CliError)
    ensures
        e.spec_message() == prune_failed_message(first_error@, repo_path@, prune_error@),
        e.spec_code() == 2,
{
    let mut m = owned(first_error);
    push_str(&mut m, "\n");
    let hint = stale_worktree_hint(repo_path);
    push_str(&mut m, hint.as_str());
    push_str(&mut m, "\nFailed to prune stale metadata automatically: ");
    push_str(&mut m, prune_error);
    proof {
        reveal_strlit("\n");
        reveal_strlit("\nFailed to prune stale metadata automatically: ");
    }
    assert(m@ =~= prune_failed_message(first_error@, repo_path@, prune_error@));
    CliError::system(m.as_str())
}

/// The outcome of the retry after the prune: success, or its error with the
/// hint on the next line (a failure of the system).
pub fn after_retry(retry: Result<(), String>, repo_path: &str) -> (r: Result<(), CliError>)
    ensures
        match retry {
            Ok(()) => r is Ok,
            Err(m) => r matches Err(e) && e.spec_message() == m@ + "\n"@ + stale_worktree_hint_spec(repo_path@)
                && e.spec_code() == 2,
        },
{
    match retry {
        Ok(()) => Ok(()),
        Err(m) => {
            let mut msg = owned(m.as_str());
            push_str(&mut msg, "\n");
            let hint = stale_worktree_hint(repo_path);
            push_str(&mut msg, hint.as_str());
            proof {
                reveal_strlit("\n");
            }
            assert(msg@ =~= m@ + "\n"@ + stale_worktree_hint_spec(repo_path@));
            Err(CliError::system(msg.as_str()))
        },
    }
}

/// The index of the first branch with this name.
pub open spec fn first_named(entries: Seq<BranchOutput>, name: Seq<char>) -> Option<int> {
    if exists|i: int| 0 <= i < entries.len() && #[trigger] entries[i].name@ == name {
        Some(choose|i: int| 0 <= i < entries.len() && #[trigger] entries[i].name@ == name && (forall|j: int| 0 <= j < i ==> #[trigger] entries[j].name@ != name))
    } else {
        None
    }
}

/// What `kiosk delete` does with the branch it is asked to delete: the path
/// of its worktree, or the refusal when the branch is unknown, has no
/// worktree, or is the current branch.
pub open spec fn delete_target_spec(entries: Seq<BranchOutput>, branch: Seq<char>) -> Result<Seq<char>, Seq<char>> {
    match first_named(entries, branch) {
        None => Err("branch '"@ + branch + "' not found"@),
        Some(i) => match entries[i].worktree_path {
            None => Err("no worktree for branch '"@ + branch + "'"@),
            Some(p) => if entries[i].is_current {
                Err("cannot delete the current branch's worktree"@)
            } else {
                Ok(p@)
            },
        },
    }
}

/// Finds the worktree that `kiosk delete` removes for `branch`; every
/// refusal is a mistake of the user.
pub fn delete_target(entries: &[BranchOutput], branch: &str) -> (r: Result<String, CliError>)
    ensures
        match delete_target_spec(entries@, branch@) {
            Ok(p) => r matches Ok(q) && q@ == p,
            Err(m) => r matches Err(e) && e.spec_message() == m && e.spec_code() == 1,
        },
{
    let name = chars_of(branch);
    let mut i: usize = 0;
    while i < entries.len()
        invariant
            i <= entries.len(),
            name@ == branch@,
            forall|j: int| 0 <= j < i ==> #[trigger] entries@[j].name@ != branch@,
        decreases entries.len() - i,
    {
        let candidate = chars_of(entries[i].name.as_str());
        if chars_equal(&candidate, &name) {
            assert(first_named(entries@, branch@) == Some(i as int)) by {
                let k = choose|k: int| 0 <= k < entries@.len() && #[trigger] entries@[k].name@ == branch@ && (forall|j: int| 0 <= j < k ==> #[trigger] entries@[j].name@ != branch@);
                assert(entries@[i as int].name@ == branch@);
                if k < i {
                } else if k > i {
                    assert(entries@[i as int].name@ != branch@);
                }
            }
            match &entries[i].worktree_path {
                None => {
                    let mut m = owned("no worktree for branch '");
                    push_str(&mut m, branch);
                    push_str(&mut m, "'");
                    return Err(CliError::user(m.as_str()));
                },
                Some(p) => {
                    if entries[i].is_current {
                        return Err(CliError::user("cannot delete the current branch's worktree"));
                    }
                    return Ok(p.clone());
                },
            }
        }
        i = i + 1;
    }
    let mut m = owned("branch '");
    push_str(&mut m, branch);
    push_str(&mut m, "' not found");
    Err(CliError::user(m.as_str()))
}

/// The refusal to kill an attached session without `--force`.
pub open spec fn attached_session_message(session: Seq<char>) -> Seq<char> {
    "session '"@ + session + "' is attached. Use --force"@
}

/// Whether `kiosk delete` may kill the branch's session: not while a client
/// is attached, unless forced.
pub fn check_session_kill(session: &str, has_clients: bool, force: bool) -> (r: Result<(), CliError>)
    ensures
        (has_clients && !force) ==> (r matches Err(e) && e.spec_message() == attached_session_message(session@)
            && e.spec_code() == 1),
        !(has_clients && !force) ==> r is Ok,
{
    if has_clients && !force {
        let mut m = owned("session '");
        push_str(&mut m, session);
        push_str(&mut m, "' is attached. Use --force");
        return Err(CliError::user(m.as_str()));
    }
    Ok(())
}

/// A deletion that is under way: the repository and the branch.
pub open spec fn is_pending(pending: Seq<(String, String)>, repo_path: Seq<char>, branch: Seq<char>, i: int) -> bool {
    same_path(pending[i].0@, repo_path) && pending[i].1@ == branch
}

/// Whether a deletion of this branch of this repository is already under
/// way (repository paths compared as paths).
pub fn deletion_pending(pending: &[(String, String)], repo_path: &str, branch: &str) -> (b: bool)
    ensures
        b == exists|i: int| 0 <= i < pending@.len() && #[trigger] is_pending(pending@, repo_path@, branch@, i),
{
    let name = chars_of(branch);
    let mut i: usize = 0;
    while i < pending.len()
        invariant
            i <= pending.len(),
            name@ == branch@,
            forall|j: int| 0 <= j < i ==> !#[trigger] is_pending(pending@, repo_path@, branch@, j),
        decreases pending.len() - i,
    {
        let b = chars_of(pending[i].1.as_str());
        if paths_equal(pending[i].0.as_str(), repo_path) && chars_equal(&b, &name) {
            assert(is_pending(pending@, repo_path@, branch@, i as int));
            return true;
        }
        i = i + 1;
    }
    false
}

/// How many lines of output `kiosk status` shows: the number asked for, 50
/// when none is, and at least one.
pub fn status_line_count(lines: Option<usize>) -> (n: usize)
    ensures
        n == (match lines {
            Some(k) => if k >= 1 { k } else { 1 },
            None => 50,
        }),
{
    match lines {
        Some(k) => if k >= 1 { k } else { 1 },
        None => 50,
    }
}

/// The worktree whose session `kiosk status` reports: the repository's own
/// path when no branch is named, else the first worktree with the branch
/// checked out, and a mistake of the user when there is none.
pub fn status_worktree(repo: &Repo, branch: Option<&str>) -> (r: Result<String, CliError>)
    ensures
        branch is None ==> (r matches Ok(p) && p@ == repo.path@),
        branch matches Some(b) ==> ({
            let found = exists|i: int|
                0 <= i < repo.worktrees@.len() && (#[trigger] repo.worktrees@[i]).branch.deep_view() == Some(b@);
            &&& found ==> (r matches Ok(p) && exists|i: int|
                0 <= i < repo.worktrees@.len() && (#[trigger] repo.worktrees@[i]).branch.deep_view() == Some(b@)
                    && p@ == repo.worktrees@[i].path@ && forall|j: int|
                    0 <= j < i ==> (#[trigger] repo.worktrees@[j]).branch.deep_view() != Some(b@))
            &&& !found ==> (r matches Err(e) && e.spec_message() == "no worktree for branch '"@ + b@ + "'"@
                && e.spec_code() == 1)
        }),
{
    match branch {
        None => Ok(repo.path.clone()),
        Some(b) => match find_worktree_by_branch(repo, b) {
            Some(p) => Ok(p),
            None => {
                let mut m = owned("no worktree for branch '");
                push_str(&mut m, b);
                push_str(&mut m, "'");
                Err(CliError::user(m.as_str()))
            },
        },
    }
}

/// What `kiosk open` does to get a worktree: create a new branch from a base
/// with its worktree, use a worktree that is there (or the repository
/// itself), add a worktree for a local branch, or create a local branch that
/// tracks a remote one, with its worktree.
#[derive(Debug, Clone, PartialEq, Eq)]
pub enum OpenPlan {
    CreateBranch { branch: String, base: String },
    UseExisting { path: String, branch: Option<String> },
    AddLocal { branch: String },
    TrackRemote { branch: String },
}

/// Some name of the list is `name`.
pub open spec fn names_contain(names: Seq<String>, name: Seq<char>) -> bool {
    exists|i: int| 0 <= i < names.len() && #[trigger] names[i]@ == name
}

/// Whether `names` holds `name`.
fn contains_name(names: &[String], name: &str) -> (b: bool)
    ensures
        b == names_contain(names@, name@),
{
    let wanted = chars_of(name);
    let mut i: usize = 0;
    while i < names.len()
        invariant
            i <= names.len(),
            wanted@ == name@,
            forall|j: int| 0 <= j < i ==> #[trigger] names@[j]@ != name@,
        decreases names.len() - i,
    {
        let c = chars_of(names[i].as_str());
        if chars_equal(&c, &wanted) {
            return true;
        }
        i = i + 1;
    }
    false
}

/// The index of the first worktree with `branch` checked out.
pub open spec fn first_worktree_of(ws: Seq<Worktree>, branch: Seq<char>) -> Option<int> {
    if exists|i: int| 0 <= i < ws.len() && (#[trigger] ws[i]).branch.deep_view() == Some(branch) {
        Some(
            choose|i: int|
                0 <= i < ws.len() && (#[trigger] ws[i]).branch.deep_view() == Some(branch) && (forall|j: int|
                    0 <= j < i ==> (#[trigger] ws[j]).branch.deep_view() != Some(branch)),
        )
    } else {
        None
    }
}

/// The plan of `kiosk open`, or its refusal: a new branch must not
/// exist locally or remotely and its base must be a local branch; a named
/// branch uses its worktree when it has one, else a local branch gets a
/// worktree, else a remote branch is tracked, else it is refused; with no
/// branch the repository itself is used.
pub open spec fn open_plan_spec(
    worktrees: Seq<Worktree>,
    repo_path: Seq<char>,
    local: Seq<String>,
    remote: Seq<String>,
    branch: Option<Seq<char>>,
    new_branch: Option<Seq<char>>,
    base: Option<Seq<char>>,
) -> Result<OpenPlanView, Seq<char>> {
    match new_branch {
        Some(nb) => if names_contain(local, nb) || names_contain(remote, nb) {
            Err("branch '"@ + nb + "' already exists"@)
        } else if !names_contain(local, base->0) {
            Err("base branch '"@ + base->0 + "' not found"@)
        } else {
            Ok(OpenPlanView::CreateBranch { branch: nb, base: base->0 })
        },
        None => match branch {
            Some(b) => match first_worktree_of(worktrees, b) {
                Some(i) => Ok(OpenPlanView::UseExisting { path: worktrees[i].path@, branch: Some(b) }),
                None => if names_contain(local, b) {
                    Ok(OpenPlanView::AddLocal { branch: b })
                } else if names_contain(remote, b) {
                    Ok(OpenPlanView::TrackRemote { branch: b })
                } else {
                    Err("branch '"@ + b + "' not found. Use --new-branch to create it"@)
                },
            },
            None => Ok(OpenPlanView::UseExisting { path: repo_path, branch: None }),
        },
    }
}

/// A plan as plain values.
pub enum OpenPlanView {
    CreateBranch { branch: Seq<char>, base: Seq<char> },
    UseExisting { path: Seq<char>, branch: Option<Seq<char>> },
    AddLocal { branch: Seq<char> },
    TrackRemote { branch: Seq<char> },
}

/// Law: asking for a new branch whose name is already a local or a remote
/// branch of the repository is refused with "branch '<name>' already
/// exists", whatever else is asked; a new branch is planned only under a name
/// that no branch has yet, from a base that is a local branch.
pub proof fn lemma_open_new_branch_must_be_new(
    worktrees: Seq<Worktree>,
    repo_path: Seq<char>,
    local: Seq<String>,
    remote: Seq<String>,
    branch: Option<Seq<char>>,
    new_branch: Seq<char>,
    base: Seq<char>,
)
    ensures
        (exists|i: int| 0 <= i < local.len() && local[i]@ == new_branch) || (exists|i: int|
            0 <= i < remote.len() && remote[i]@ == new_branch) ==> open_plan_spec(
            worktrees,
            repo_path,
            local,
            remote,
            branch,
            Some(new_branch),
            Some(base),
        ) == Err::<OpenPlanView, Seq<char>>("branch '"@ + new_branch + "' already exists"@),
        open_plan_spec(worktrees, repo_path, local, remote, branch, Some(new_branch), Some(base)) matches Ok(
            plan,
        ) ==> {
            &&& plan == (OpenPlanView::CreateBranch { branch: new_branch, base })
            &&& forall|i: int| 0 <= i < local.len() ==> local[i]@ != new_branch
            &&& forall|i: int| 0 <= i < remote.len() ==> remote[i]@ != new_branch
            &&& exists|i: int| 0 <= i < local.len() && local[i]@ == base
        },
{
}

impl View for OpenPlan {
    type V = OpenPlanView;

    open spec fn view(&self) -> OpenPlanView {
        match self {
            OpenPlan::CreateBranch { branch, base } => OpenPlanView::CreateBranch { branch: branch@, base: base@ },
            OpenPlan::UseExisting { path, branch } => OpenPlanView::UseExisting {
                path: path@,
                branch: branch.deep_view(),
            },
            OpenPlan::AddLocal { branch } => OpenPlanView::AddLocal { branch: branch@ },
            OpenPlan::TrackRemote { branch } => OpenPlanView::TrackRemote { branch: branch@ },
        }
    }
}

/// Decides how `kiosk open` gets its worktree, from the repository's
/// worktrees and its local and remote branches; every refusal is a mistake
/// of the user. The arguments have passed `validate_open_args`, so a new
/// branch comes with a base.
pub fn plan_open(repo: &Repo, local: &[String], remote: &[String], args: &OpenArgs) -> (r: Result<OpenPlan, CliError>)
    requires
        args.new_branch is Some ==> args.base is Some,
    ensures
        match open_plan_spec(
            repo.worktrees@,
            repo.path@,
            local@,
            remote@,
            args.branch.deep_view(),
            args.new_branch.deep_view(),
            args.base.deep_view(),
        ) {
            Ok(v) => r matches Ok(p) && p@ == v,
            Err(m) => r matches Err(e) && e.spec_message() == m && e.spec_code() == 1,
        },
{
    match &args.new_branch {
        Some(nb) => {
            if contains_name(local, nb.as_str()) || contains_name(remote, nb.as_str()) {
                let mut m = owned("branch '");
                push_str(&mut m, nb.as_str());
                push_str(&mut m, "' already exists");
                return Err(CliError::user(m.as_str()));
            }
            let base = args.base.as_ref().unwrap();
            if !contains_name(local, base.as_str()) {
                let mut m = owned("base branch '");
                push_str(&mut m, base.as_str());
                push_str(&mut m, "' not found");
                return Err(CliError::user(m.as_str()));
            }
            Ok(OpenPlan::CreateBranch { branch: nb.clone(), base: base.clone() })
        },
        None => match &args.branch {
            Some(b) => {
                match find_worktree_by_branch(repo, b.as_str()) {
                    Some(existing) => {
                        proof {
                            let ws = repo.worktrees@;
                            let k = choose|i: int|
                                0 <= i < ws.len() && (#[trigger] ws[i]).branch.deep_view() == Some(b@) && existing@
                                    == ws[i].path@ && forall|j: int|
                                    0 <= j < i ==> (#[trigger] ws[j]).branch.deep_view() != Some(b@);
                            let f = choose|i: int|
                                0 <= i < ws.len() && (#[trigger] ws[i]).branch.deep_view() == Some(b@) && (forall|
                                    j: int,
                                | 0 <= j < i ==> (#[trigger] ws[j]).branch.deep_view() != Some(b@));
                            assert(first_worktree_of(ws, b@) == Some(f));
                            if f < k {
                            } else if k < f {
                            }
                            assert(f == k);
                        }
                        return Ok(OpenPlan::UseExisting { path: existing, branch: Some(b.clone()) });
                    },
                    None => {},
                }
                if contains_name(local, b.as_str()) {
                    Ok(OpenPlan::AddLocal { branch: b.clone() })
                } else if contains_name(remote, b.as_str()) {
                    Ok(OpenPlan::TrackRemote { branch: b.clone() })
                } else {
                    let mut m = owned("branch '");
                    push_str(&mut m, b.as_str());
                    push_str(&mut m, "' not found. Use --new-branch to create it");
                    Err(CliError::user(m.as_str()))
                }
            },
            None => Ok(OpenPlan::UseExisting { path: repo.path.clone(), branch: None }),
        },
    }
}

/// The rows whose session is running.
pub open spec fn active_rows(rows: Seq<SessionOutput>, active: Seq<String>) -> Seq<SessionOutput> {
    rows.filter(|r: SessionOutput| names_contain(active, r.session@))
}

/// Keeps the rows of `kiosk sessions` whose session is among the running
/// ones, in order.
pub fn keep_active_sessions(rows: Vec<SessionOutput>, active: &[String]) -> (r: Vec<SessionOutput>)
    ensures
        r@ == active_rows(rows@, active@),
{
    let ghost all = rows@;
    assert(all.len() == rows.len());
    let mut out: Vec<SessionOutput> = Vec::new();
    let mut rest = rows;
    let mut i: usize = 0;
    assert(all.skip(0) =~= all);
    assert(all.take(0) =~= Seq::<SessionOutput>::empty());
    while rest.len() > 0
        invariant
            i + rest@.len() == all.len(),
            all.len() <= usize::MAX,
            rest@ == all.skip(i as int),
            out@ == active_rows(all.take(i as int), active@),
        decreases rest@.len(),
    {
        let row = rest.remove(0);
        assert(row == all[i as int]);
        proof {
            assert(all.take(i + 1) =~= all.take(i as int).push(row));
            all.take(i as int).lemma_filter_push(row, |r: SessionOutput| names_contain(active@, r.session@));
            assert(rest@ =~= all.skip(i + 1));
        }
        if contains_name(active, row.session.as_str()) {
            out.push(row);
        }
        i = i + 1;
    }
    assert(all.take(i as int) =~= all);
    out
}

/// The session names of the rows.
pub open spec fn session_keys(rs: Seq<SessionOutput>) -> Seq<Seq<char>> {
    rs.map_values(|r: SessionOutput| r.session@)
}

/// The rows ordered by session name, those with equal names in the order
/// they came in (a stable sort).
pub open spec fn sorted_by_session(rs: Seq<SessionOutput>) -> Seq<SessionOutput>
    decreases rs.len(),
{
    if rs.len() == 0 {
        rs
    } else {
        let t = sorted_by_session(rs.drop_last());
        t.insert(insert_pos(session_keys(t), rs.last().session@), rs.last())
    }
}

/// Law: the rows of `kiosk sessions` come out ordered by session name, as a
/// rearrangement of the rows that went in.
pub proof fn lemma_sorted_by_session(rs: Seq<SessionOutput>)
    ensures
        keys_ordered(session_keys(sorted_by_session(rs))),
        sorted_by_session(rs).to_multiset() == rs.to_multiset(),
    decreases rs.len(),
{
    if rs.len() > 0 {
        lemma_sorted_by_session(rs.drop_last());
        let t = sorted_by_session(rs.drop_last());
        let k = rs.last().session@;
        let p = insert_pos(session_keys(t), k);
        lemma_insert_pos(session_keys(t), k);
        lemma_insert_keeps_order(session_keys(t), k);
        assert(session_keys(t.insert(p, rs.last())) =~= session_keys(t).insert(p, k));
        to_multiset_insert(t, p, rs.last());
        to_multiset_build(rs.drop_last(), rs.last());
        assert(rs.drop_last().push(rs.last()) =~= rs);
    }
}

/// Orders the rows of `kiosk sessions` by session name; rows with equal
/// names keep their order.
pub fn sort_sessions(rows: Vec<SessionOutput>) -> (r: Vec<SessionOutput>)
    ensures
        r@ == sorted_by_session(rows@),
{
    let ghost all = rows@;
    assert(all.len() == rows.len());
    assert(all.skip(0) =~= all);
    assert(all.take(0) =~= Seq::<SessionOutput>::empty());
    let mut rest = rows;
    let mut out: Vec<SessionOutput> = Vec::new();
    let mut keys: Vec<Vec<char>> = Vec::new();
    let mut i: usize = 0;
    while rest.len() > 0
        invariant
            i + rest@.len() == all.len(),
            all.len() <= usize::MAX,
            rest@ == all.skip(i as int),
            out@ == sorted_by_session(all.take(i as int)),
            keys@.map_values(|k: Vec<char>| k@) == session_keys(out@),
        decreases rest@.len(),
    {
        let row = rest.remove(0);
        assert(row == all[i as int]);
        let key = chars_of(row.session.as_str());
        let ghost ks = session_keys(out@);
        let mut j: usize = keys.len();
        proof {
            assert(ks.take(j as int) =~= ks);
        }
        while j > 0 && chars_lt(&key, &keys[j - 1])
            invariant
                j <= keys.len(),
                keys@.map_values(|k: Vec<char>| k@) == ks,
                key@ == row.session@,
                insert_pos(ks, key@) == insert_pos(ks.take(j as int), key@),
            decreases j,
        {
            assert(ks.take(j as int).drop_last() =~= ks.take(j - 1));
            assert(ks.take(j as int).last() == keys@[j - 1]@);
            j = j - 1;
        }
        proof {
            if j > 0 {
                assert(ks.take(j as int).last() == keys@[j - 1]@);
            }
            assert(all.take(i + 1).drop_last() =~= all.take(i as int));
            assert(all.take(i + 1).last() == row);
        }
        let ghost before_keys = keys@;
        out.insert(j, row);
        keys.insert(j, key);
        proof {
            assert(keys@.map_values(|k: Vec<char>| k@) =~= before_keys.map_values(|k: Vec<char>| k@).insert(
                j as int,
                key@,
            ));
            assert(session_keys(out@) =~= ks.insert(j as int, key@));
            assert(rest@ =~= all.skip(i + 1));
        }
        i = i + 1;
    }
    assert(all.take(i as int) =~= all);
    out
}


/// What `kiosk clean` does with the orphaned worktrees it found.
#[derive(Debug, PartialEq, Eq, Structural)]
pub enum CleanRemoval {
    /// Remove none.
    Skip,
    /// Remove all of them.
    All,
    /// Ask on the terminal, and remove them when the answer confirms.
    Ask,
}

/// The removal gate of `kiosk clean`: with `--json` it removes only with
/// `--yes` and without `--dry-run`, and never asks; otherwise nothing is
/// removed when nothing was found or in a dry run, everything with
/// `--yes`, and else it asks.
pub open spec fn clean_removal_spec(json: bool, dry_run: bool, yes: bool, found: nat) -> CleanRemoval {
    if json {
        if yes && !dry_run {
            CleanRemoval::All
        } else {
            CleanRemoval::Skip
        }
    } else if found == 0 || dry_run {
        CleanRemoval::Skip
    } else if yes {
        CleanRemoval::All
    } else {
        CleanRemoval::Ask
    }
}

/// The removal gate of `kiosk clean` (see `clean_removal_spec`).
pub fn clean_removal(json: bool, dry_run: bool, yes: bool, found: usize) -> (r: CleanRemoval)
    ensures
        r == clean_removal_spec(json, dry_run, yes, found as nat),
{
    if json {
        if yes && !dry_run {
            CleanRemoval::All
        } else {
            CleanRemoval::Skip
        }
    } else if found == 0 || dry_run {
        CleanRemoval::Skip
    } else if yes {
        CleanRemoval::All
    } else {
        CleanRemoval::Ask
    }
}

/// Whether the prune of stale worktree metadata that follows only reports
/// what it would do: with `--json`, unless `--yes` is given outside a dry
/// run; otherwise in a dry run.
pub fn clean_prune_dry_run(json: bool, dry_run: bool, yes: bool) -> (b: bool)
    ensures
        b == (if json {
            dry_run || !yes
        } else {
            dry_run
        }),
{
    if json {
        dry_run || !yes
    } else {
        dry_run
    }
}

/// The lines of the orphaned worktrees, each indented by two spaces.
pub open spec fn orphan_lines(paths: Seq<String>) -> Seq<char>
    decreases paths.len(),
{
    if paths.len() == 0 {
        Seq::empty()
    } else {
        orphan_lines(paths.drop_last()) + "  "@ + paths.last()@ + "\n"@
    }
}

/// What `kiosk clean` prints of what it found (without `--json`): that
/// nothing was found, or the count and the paths, and in a dry run that
/// nothing was changed.
pub open spec fn clean_listing_spec(paths: Seq<String>, dry_run: bool) -> Seq<char> {
    if paths.len() == 0 {
        "No orphaned worktree directories found.\n"@
    } else {
        "Found "@ + decimal(paths.len()) + " orphaned worktree(s):\n"@ + orphan_lines(paths) + if dry_run {
            "\n(Dry run - no changes made. Run without --dry-run to remove them.)\n"@
        } else {
            Seq::empty()
        }
    }
}

/// What `kiosk clean` prints of what it found (see `clean_listing_spec`).
pub fn clean_listing(paths: &Vec<String>, dry_run: bool) -> (t: String)
    ensures
        t@ == clean_listing_spec(paths@, dry_run),
{
    if paths.len() == 0 {
        return owned("No orphaned worktree directories found.\n");
    }
    let mut t = owned("Found ");
    push_decimal(&mut t, paths.len());
    push_str(&mut t, " orphaned worktree(s):\n");
    let ghost head = t@;
    let mut i: usize = 0;
    while i < paths.len()
        invariant
            i <= paths.len(),
            t@ == head + orphan_lines(paths@.take(i as int)),
        decreases paths.len() - i,
    {
        assert(paths@.take(i + 1).drop_last() =~= paths@.take(i as int));
        assert(paths@.take(i + 1).last() == paths@[i as int]);
        push_str(&mut t, "  ");
        push_str(&mut t, paths[i].as_str());
        push_str(&mut t, "\n");
        i = i + 1;
    }
    assert(paths@.take(paths.len() as int) =~= paths@);
    if dry_run {
        push_str(&mut t, "\n(Dry run - no changes made. Run without --dry-run to remove them.)\n");
    }
    assert(t@ =~= clean_listing_spec(paths@, dry_run));
    t
}

/// Whether the answer to `Remove these orphaned worktrees? (y/N)` confirms:
/// `y` in either case, with blanks around it.
pub fn confirms_removal(answer: &str) -> (b: bool)
    ensures
        b == (lowercase(trim(answer@)) == "y"@),
{
    let t = trim_str(answer);
    let l = to_lowercase(t.as_str());
    let c = chars_of(l.as_str());
    let y = chars_of("y");
    chars_equal(&c, &y)
}

/// What the prune of stale worktree metadata prints instead of pruning: a
/// note that no repository was found (outside a dry run; nothing in one),
/// or, in a dry run, how many repositories it would prune; `None` when it
/// prunes.
pub open spec fn prune_notice_spec(repos: nat, dry_run: bool) -> Option<Seq<char>> {
    if repos == 0 {
        if dry_run {
            Some(Seq::empty())
        } else {
            Some("No repositories discovered for worktree metadata prune."@)
        }
    } else if dry_run {
        Some("Would prune stale worktree metadata in "@ + decimal(repos) + " repos."@)
    } else {
        None
    }
}

/// What the prune prints instead of pruning (see `prune_notice_spec`); an
/// empty text means it prints nothing.
pub fn prune_notice(repos: usize, dry_run: bool) -> (r: Option<String>)
    ensures
        r.deep_view() == prune_notice_spec(repos as nat, dry_run),
{
    if repos == 0 {
        if dry_run {
            Some(String::new())
        } else {
            Some(owned("No repositories discovered for worktree metadata prune."))
        }
    } else if dry_run {
        let mut t = owned("Would prune stale worktree metadata in ");
        push_decimal(&mut t, repos);
        push_str(&mut t, " repos.");
        Some(t)
    } else {
        None
    }
}


/// The lines of failed prunes: each repository and its error, indented.
pub open spec fn failure_lines(failures: Seq<(String, String)>) -> Seq<char>
    decreases failures.len(),
{
    if failures.len() == 0 {
        Seq::empty()
    } else {
        failure_lines(failures.drop_last()) + "  "@ + failures.last().0@ + ": "@ + failures.last().1@ + "\n"@
    }
}

/// What the prune reports after pruning: success, or the repositories whose
/// prune failed with their errors (printed on the error stream).
pub open spec fn prune_report_spec(failures: Seq<(String, String)>) -> Seq<char> {
    if failures.len() == 0 {
        "Pruned stale worktree metadata in discovered repositories.\n"@
    } else {
        "Failed to prune stale worktree metadata:\n"@ + failure_lines(failures)
    }
}

/// What the prune reports after pruning (see `prune_report_spec`).
pub fn prune_report(failures: &Vec<(String, String)>) -> (t: String)
    ensures
        t@ == prune_report_spec(failures@),
{
    if failures.len() == 0 {
        return owned("Pruned stale worktree metadata in discovered repositories.\n");
    }
    let mut t = owned("Failed to prune stale worktree metadata:\n");
    let ghost head = t@;
    let mut i: usize = 0;
    while i < failures.len()
        invariant
            i <= failures.len(),
            t@ == head + failure_lines(failures@.take(i as int)),
        decreases failures.len() - i,
    {
        assert(failures@.take(i + 1).drop_last() =~= failures@.take(i as int));
        assert(failures@.take(i + 1).last() == failures@[i as int]);
        push_str(&mut t, "  ");
        push_str(&mut t, failures[i].0.as_str());
        push_str(&mut t, ": ");
        push_str(&mut t, failures[i].1.as_str());
        push_str(&mut t, "\n");
        i = i + 1;
    }
    assert(failures@.take(failures.len() as int) =~= failures@);
    t
}

} // verus!
