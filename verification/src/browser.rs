//! The terminal interface's repository and branch browser as a state
//! machine: the state it keeps (its mode, the repositories and branches with
//! their filtered, searchable lists, the repository chosen, the new-branch
//! flow), how a user action and an event from a background task change it,
//! and what the caller is asked to do (open a session, load branches, create
//! a worktree). What git and tmux compute (sorting repositories, a
//! worktree's directory, a session's name) comes in as values.
use vstd::prelude::*;
use crate::matching::{is_ranking, scores_of, unranked};
use crate::search_filter::{
    apply_fuzzy_filter, first_selected, is_kiosk_ranking, preserved_selection,
    rebuild_filtered_preserving_search,
};
use crate::git::{paths_equal, same_path};
use crate::text::{chars_equal, chars_of, owned, push_str};
use crate::tmux::{session_name_for, session_name_spec};

verus! {

/// What the browser shows.
pub enum BrowserMode {
    /// The list of repositories.
    RepoSelect,
    /// The branches of the chosen repository.
    BranchSelect,
    /// The base of a new branch.
    SelectBaseBranch,
    /// A message while background work runs.
    Loading(String),
    /// The running sessions.
    Sessions,
    /// The confirmation of a worktree's deletion.
    ConfirmDelete,
    /// The help overlay or the first-run setup, whose own state this model
    /// does not hold.
    Other,
}

/// A repository: its name and path.
pub struct RepoEntry {
    pub name: String,
    pub path: String,
}

/// A branch: its name, its worktree if it has one, and whether it exists
/// only on a remote.
pub struct BranchItem {
    pub name: String,
    pub worktree_path: Option<String>,
    pub remote: bool,
}

/// A searchable list: the search typed, the shown rows (item index and
/// score), the selected row and the first row in view. The cursor stays at
/// the end of the search, as none of the actions modelled here moves it.
pub struct PickList {
    pub search: String,
    pub filtered: Vec<(usize, i64)>,
    pub selected: Option<usize>,
    pub scroll_offset: usize,
}

/// The flow that picks the base of a new branch.
pub struct BaseSelection {
    pub new_name: String,
    pub bases: Vec<String>,
    pub list: PickList,
}

/// The browser's state.
pub struct BrowserState {
    pub mode: BrowserMode,
    pub repos: Vec<RepoEntry>,
    pub repo_list: PickList,
    pub selected_repo_idx: Option<usize>,
    pub branches: Vec<BranchItem>,
    pub branch_list: PickList,
    pub base_selection: Option<BaseSelection>,
    pub split_command: Option<String>,
    pub error: Option<String>,
    pub loading_repos: bool,
    pub loading_branches: bool,
    /// The worktree deletions under way; the caller saves this list after
    /// an event that changes it.
    pub pending_deletes: Vec<PendingDelete>,
}

/// A worktree deletion under way: the repository, the branch and the
/// worktree.
pub struct PendingDelete {
    pub repo_path: String,
    pub branch_name: String,
    pub worktree_path: String,
}

/// A pending deletion as plain values.
pub type PendingView = (Seq<char>, Seq<char>, Seq<char>);

/// The pending deletions as plain values.
pub open spec fn pending_views(ps: Seq<PendingDelete>) -> Seq<PendingView> {
    ps.map_values(|d: PendingDelete| (d.repo_path@, d.branch_name@, d.worktree_path@))
}

/// Every shown row of the list names one of `n` items.
pub open spec fn list_wf(l: ListView, n: nat) -> bool {
    forall|k: int| 0 <= k < l.filtered.len() ==> (#[trigger] l.filtered[k]).0 < n
}

/// The item of the selected row, if a row is selected.
pub open spec fn picked(l: ListView) -> Option<int> {
    match l.selected {
        Some(s) => if s < l.filtered.len() {
            Some(l.filtered[s as int].0 as int)
        } else {
            None
        },
        None => None,
    }
}

/// The lists name only items that exist, and the chosen repository
/// exists.
pub open spec fn view_wf(v: BrowserView) -> bool {
    &&& list_wf(v.repo_list, v.repos.len())
    &&& list_wf(v.branch_list, v.branches.len())
    &&& (v.selected_repo_idx matches Some(r) ==> r < v.repos.len())
    &&& (v.base_selection matches Some(f) ==> list_wf(f.list, f.bases.len()))
}

impl BrowserState {
    /// The state's view is well formed (see `view_wf`).
    pub open spec fn wf(self) -> bool {
        view_wf(self@)
    }
}

/// Which row of a list is selected, in code.
fn picked_index(l: &PickList) -> (r: Option<usize>)
    ensures
        match picked(l@) {
            Some(i) => r == Some(i as usize),
            None => r is None,
        },
{
    match l.selected {
        Some(s) => if s < l.filtered.len() {
            Some(l.filtered[s].0)
        } else {
            None
        },
        None => None,
    }
}

/// What opening the selected branch asks for.
pub enum BranchOpenStep {
    /// Nothing to do.
    Nothing,
    /// Open a session in a worktree that exists.
    Open { path: String, split_command: Option<String> },
    /// Show `message` while a worktree is created for a branch (one that
    /// tracks the remote branch when `remote`).
    CreateWorktree { repo_path: String, branch: String, worktree_path: String, remote: bool, message: String },
    /// Show `message` while a new branch is created from `base` with its
    /// worktree.
    CreateBranch { repo_path: String, new_name: String, base: String, worktree_path: String, message: String },
    /// Show this error.
    Error(String),
}

/// A step as plain values.
pub enum BranchOpenView {
    Nothing,
    Open { path: Seq<char>, split_command: Option<Seq<char>> },
    CreateWorktree { repo_path: Seq<char>, branch: Seq<char>, worktree_path: Seq<char>, remote: bool, message: Seq<char> },
    CreateBranch { repo_path: Seq<char>, new_name: Seq<char>, base: Seq<char>, worktree_path: Seq<char>, message: Seq<char> },
    Error(Seq<char>),
}

impl View for BranchOpenStep {
    type V = BranchOpenView;

    open spec fn view(&self) -> BranchOpenView {
        match self {
            BranchOpenStep::Nothing => BranchOpenView::Nothing,
            BranchOpenStep::Open { path, split_command } => BranchOpenView::Open {
                path: path@,
                split_command: split_command.deep_view(),
            },
            BranchOpenStep::CreateWorktree { repo_path, branch, worktree_path, remote, message } =>
                BranchOpenView::CreateWorktree {
                repo_path: repo_path@,
                branch: branch@,
                worktree_path: worktree_path@,
                remote: *remote,
                message: message@,
            },
            BranchOpenStep::CreateBranch { repo_path, new_name, base, worktree_path, message } =>
                BranchOpenView::CreateBranch {
                repo_path: repo_path@,
                new_name: new_name@,
                base: base@,
                worktree_path: worktree_path@,
                message: message@,
            },
            BranchOpenStep::Error(m) => BranchOpenView::Error(m@),
        }
    }
}

/// A result of two texts, as plain values.
pub open spec fn text_result(r: Result<String, String>) -> Result<Seq<char>, Seq<char>> {
    match r {
        Ok(a) => Ok(a@),
        Err(e) => Err(e@),
    }
}

/// The error shown when the worktree's directory cannot be determined.
pub open spec fn worktree_dir_error(e: Seq<char>) -> Seq<char> {
    "Failed to determine worktree path: "@ + e
}

/// The branch whose worktree directory opening needs: the selected branch
/// when it has no worktree, or the new branch of the base selection.
pub open spec fn worktree_target_spec(st: BrowserView) -> Option<Seq<char>> {
    match st.mode {
        ModeView::BranchSelect => match picked(st.branch_list) {
            Some(i) => if st.selected_repo_idx is Some && st.branches[i].1 is None {
                Some(st.branches[i].0)
            } else {
                None
            },
            None => None,
        },
        ModeView::SelectBaseBranch => match st.base_selection {
            Some(f) => if picked(f.list) is Some && st.selected_repo_idx is Some {
                Some(f.new_name)
            } else {
                None
            },
            None => None,
        },
        _ => None,
    }
}

/// What opening the selected branch does, given the worktree directory
/// computed for the branch of `worktree_target_spec` (or why it could not
/// be): open the branch's worktree when it has one; else create one for it
/// (tracking the remote branch when it is remote-only); in the base
/// selection, create the new branch from the selected base; nothing without
/// a selection or a chosen repository, or in any other mode.
pub open spec fn open_branch_spec(st: BrowserView, worktree_dir: Result<Seq<char>, Seq<char>>) -> BranchOpenView {
    match st.mode {
        ModeView::BranchSelect => match (picked(st.branch_list), st.selected_repo_idx) {
            (Some(i), Some(r)) => {
                let b = st.branches[i];
                match b.1 {
                    Some(p) => BranchOpenView::Open { path: p, split_command: st.split_command },
                    None => match worktree_dir {
                        Ok(w) => BranchOpenView::CreateWorktree {
                            repo_path: st.repos[r as int].1,
                            branch: b.0,
                            worktree_path: w,
                            remote: b.2,
                            message: if b.2 {
                                "Checking out remote branch "@ + b.0 + "..."@
                            } else {
                                "Creating worktree for "@ + b.0 + "..."@
                            },
                        },
                        Err(e) => BranchOpenView::Error(worktree_dir_error(e)),
                    },
                }
            },
            _ => BranchOpenView::Nothing,
        },
        ModeView::SelectBaseBranch => match st.base_selection {
            Some(f) => match (picked(f.list), st.selected_repo_idx) {
                (Some(i), Some(r)) => match worktree_dir {
                    Ok(w) => BranchOpenView::CreateBranch {
                        repo_path: st.repos[r as int].1,
                        new_name: f.new_name,
                        base: f.bases[i],
                        worktree_path: w,
                        message: "Creating branch "@ + f.new_name + " from "@ + f.bases[i] + "..."@,
                    },
                    Err(e) => BranchOpenView::Error(worktree_dir_error(e)),
                },
                _ => BranchOpenView::Nothing,
            },
            None => BranchOpenView::Nothing,
        },
        _ => BranchOpenView::Nothing,
    }
}

impl BrowserState {
    /// The branch whose worktree directory the caller computes before
    /// opening (see `worktree_target_spec`).
    pub fn worktree_target(&self) -> (r: Option<String>)
        requires
            self.wf(),
        ensures
            r.deep_view() == worktree_target_spec(self@),
    {
        match self.mode {
            BrowserMode::BranchSelect => match picked_index(&self.branch_list) {
                Some(i) => {
                    assert(self.branch_list.filtered@[self.branch_list.selected->0 as int].0 < self.branches@.len());
                    if self.selected_repo_idx.is_some() && self.branches[i].worktree_path.is_none() {
                        Some(self.branches[i].name.clone())
                    } else {
                        None
                    }
                },
                None => None,
            },
            BrowserMode::SelectBaseBranch => match &self.base_selection {
                Some(f) => if picked_index(&f.list).is_some() && self.selected_repo_idx.is_some() {
                    Some(f.new_name.clone())
                } else {
                    None
                },
                None => None,
            },
            _ => None,
        }
    }

    /// What opening the selected branch asks for (see `open_branch_spec`).
    pub fn open_branch_step(&self, worktree_dir: Result<String, String>) -> (s: BranchOpenStep)
        requires
            self.wf(),
        ensures
            s@ == open_branch_spec(self@, text_result(worktree_dir)),
    {
        match self.mode {
            BrowserMode::BranchSelect => {
                let i = match picked_index(&self.branch_list) {
                    Some(i) => i,
                    None => return BranchOpenStep::Nothing,
                };
                let r = match self.selected_repo_idx {
                    Some(r) => r,
                    None => return BranchOpenStep::Nothing,
                };
                assert(self.branch_list.filtered@[self.branch_list.selected->0 as int].0 < self.branches@.len());
                let b = &self.branches[i];
                match &b.worktree_path {
                    Some(p) => BranchOpenStep::Open { path: p.clone(), split_command: self.split_command.clone() },
                    None => match worktree_dir {
                        Ok(w) => {
                            let mut message = if b.remote {
                                owned("Checking out remote branch ")
                            } else {
                                owned("Creating worktree for ")
                            };
                            push_str(&mut message, b.name.as_str());
                            push_str(&mut message, "...");
                            BranchOpenStep::CreateWorktree {
                                repo_path: self.repos[r].path.clone(),
                                branch: b.name.clone(),
                                worktree_path: w,
                                remote: b.remote,
                                message,
                            }
                        },
                        Err(e) => {
                            let mut message = owned("Failed to determine worktree path: ");
                            push_str(&mut message, e.as_str());
                            BranchOpenStep::Error(message)
                        },
                    },
                }
            },
            BrowserMode::SelectBaseBranch => {
                let f = match &self.base_selection {
                    Some(f) => f,
                    None => return BranchOpenStep::Nothing,
                };
                let i = match picked_index(&f.list) {
                    Some(i) => i,
                    None => return BranchOpenStep::Nothing,
                };
                let r = match self.selected_repo_idx {
                    Some(r) => r,
                    None => return BranchOpenStep::Nothing,
                };
                assert(f.list.filtered@[f.list.selected->0 as int].0 < f.bases@.len());
                match worktree_dir {
                    Ok(w) => {
                        let mut message = owned("Creating branch ");
                        push_str(&mut message, f.new_name.as_str());
                        push_str(&mut message, " from ");
                        push_str(&mut message, f.bases[i].as_str());
                        push_str(&mut message, "...");
                        BranchOpenStep::CreateBranch {
                            repo_path: self.repos[r].path.clone(),
                            new_name: f.new_name.clone(),
                            base: f.bases[i].clone(),
                            worktree_path: w,
                            message,
                        }
                    },
                    Err(e) => {
                        let mut message = owned("Failed to determine worktree path: ");
                        push_str(&mut message, e.as_str());
                        BranchOpenStep::Error(message)
                    },
                }
            },
            _ => BranchOpenStep::Nothing,
        }
    }
}


/// A searchable list as plain values.
#[verifier::ext_equal]
pub struct ListView {
    pub search: Seq<char>,
    pub filtered: Seq<(usize, i64)>,
    pub selected: Option<usize>,
    pub scroll_offset: usize,
}

/// The browser's mode as plain values.
pub enum ModeView {
    RepoSelect,
    BranchSelect,
    SelectBaseBranch,
    Loading(Seq<char>),
    Sessions,
    ConfirmDelete,
    Other,
}

/// The base selection as plain values.
#[verifier::ext_equal]
pub struct BaseView {
    pub new_name: Seq<char>,
    pub bases: Seq<Seq<char>>,
    pub list: ListView,
}

/// The browser's state as plain values: repositories as (name, path) and
/// branches as (name, worktree, remote-only).
#[verifier::ext_equal]
pub struct BrowserView {
    pub mode: ModeView,
    pub repos: Seq<(Seq<char>, Seq<char>)>,
    pub repo_list: ListView,
    pub selected_repo_idx: Option<usize>,
    pub branches: Seq<(Seq<char>, Option<Seq<char>>, bool)>,
    pub branch_list: ListView,
    pub base_selection: Option<BaseView>,
    pub split_command: Option<Seq<char>>,
    pub error: Option<Seq<char>>,
    pub loading_repos: bool,
    pub loading_branches: bool,
    pub pending_deletes: Seq<PendingView>,
}

impl View for PickList {
    type V = ListView;

    open spec fn view(&self) -> ListView {
        ListView {
            search: self.search@,
            filtered: self.filtered@,
            selected: self.selected,
            scroll_offset: self.scroll_offset,
        }
    }
}

impl View for BrowserMode {
    type V = ModeView;

    open spec fn view(&self) -> ModeView {
        match self {
            BrowserMode::RepoSelect => ModeView::RepoSelect,
            BrowserMode::BranchSelect => ModeView::BranchSelect,
            BrowserMode::SelectBaseBranch => ModeView::SelectBaseBranch,
            BrowserMode::Loading(m) => ModeView::Loading(m@),
            BrowserMode::Sessions => ModeView::Sessions,
            BrowserMode::ConfirmDelete => ModeView::ConfirmDelete,
            BrowserMode::Other => ModeView::Other,
        }
    }
}

/// The repositories as (name, path).
pub open spec fn repo_views(rs: Seq<RepoEntry>) -> Seq<(Seq<char>, Seq<char>)> {
    rs.map_values(|r: RepoEntry| (r.name@, r.path@))
}

/// The branches as (name, worktree, remote-only).
pub open spec fn branch_views(bs: Seq<BranchItem>) -> Seq<(Seq<char>, Option<Seq<char>>, bool)> {
    bs.map_values(|b: BranchItem| (b.name@, b.worktree_path.deep_view(), b.remote))
}

impl View for BrowserState {
    type V = BrowserView;

    open spec fn view(&self) -> BrowserView {
        BrowserView {
            mode: self.mode@,
            repos: repo_views(self.repos@),
            repo_list: self.repo_list@,
            selected_repo_idx: self.selected_repo_idx,
            branches: branch_views(self.branches@),
            branch_list: self.branch_list@,
            base_selection: match self.base_selection {
                Some(f) => Some(BaseView { new_name: f.new_name@, bases: f.bases.deep_view(), list: f.list@ }),
                None => None,
            },
            split_command: self.split_command.deep_view(),
            error: self.error.deep_view(),
            loading_repos: self.loading_repos,
            loading_branches: self.loading_branches,
            pending_deletes: pending_views(self.pending_deletes@),
        }
    }
}

/// What the browser asks of its caller.
pub enum Effect {
    /// Leave the program.
    Quit,
    /// Open the session `session_name` at `path`.
    Open { path: String, session_name: String, split_command: Option<String> },
    /// Load the branches of the repository at this path.
    LoadBranches { repo_path: String },
    /// Load the remote branches of the repository at this path.
    LoadRemoteBranches { repo_path: String },
    /// Create a worktree (see `BranchOpenStep::CreateWorktree`).
    CreateWorktree { repo_path: String, branch: String, worktree_path: String, remote: bool },
    /// Create a branch with its worktree (see `BranchOpenStep::CreateBranch`).
    CreateBranch { repo_path: String, new_name: String, base: String, worktree_path: String },
}

/// An effect as plain values.
pub enum EffectView {
    Quit,
    Open { path: Seq<char>, session_name: Seq<char>, split_command: Option<Seq<char>> },
    LoadBranches { repo_path: Seq<char> },
    LoadRemoteBranches { repo_path: Seq<char> },
    CreateWorktree { repo_path: Seq<char>, branch: Seq<char>, worktree_path: Seq<char>, remote: bool },
    CreateBranch { repo_path: Seq<char>, new_name: Seq<char>, base: Seq<char>, worktree_path: Seq<char> },
}

impl View for Effect {
    type V = EffectView;

    open spec fn view(&self) -> EffectView {
        match self {
            Effect::Quit => EffectView::Quit,
            Effect::Open { path, session_name, split_command } => EffectView::Open {
                path: path@,
                session_name: session_name@,
                split_command: split_command.deep_view(),
            },
            Effect::LoadBranches { repo_path } => EffectView::LoadBranches { repo_path: repo_path@ },
            Effect::LoadRemoteBranches { repo_path } => EffectView::LoadRemoteBranches { repo_path: repo_path@ },
            Effect::CreateWorktree { repo_path, branch, worktree_path, remote } => EffectView::CreateWorktree {
                repo_path: repo_path@,
                branch: branch@,
                worktree_path: worktree_path@,
                remote: *remote,
            },
            Effect::CreateBranch { repo_path, new_name, base, worktree_path } => EffectView::CreateBranch {
                repo_path: repo_path@,
                new_name: new_name@,
                base: base@,
                worktree_path: worktree_path@,
            },
        }
    }
}

/// The effects as plain values.
pub open spec fn effect_view(e: Option<Effect>) -> Option<EffectView> {
    match e {
        Some(x) => Some(x@),
        None => None,
    }
}


/// A user action that the browser handles.
pub enum ActionModel {
    Quit,
    /// Open a session in the selected repository's own checkout.
    OpenRepo,
    /// Show the selected repository's branches.
    EnterRepo,
    GoBack,
    /// Open the selected branch; carries the worktree directory the caller
    /// computed for `worktree_target`'s branch, or why it could not.
    OpenBranch { worktree_dir: Result<String, String> },
    /// Type a character into the search.
    SearchPush(char),
    /// Delete the last character of the search.
    SearchPop,
    /// Move the selection of the list shown by this many rows.
    MoveSelection(i32),
    /// Start creating a branch named by the branch search.
    StartNewBranchFlow,
}

/// An action as plain values.
pub enum ActionView {
    Quit,
    OpenRepo,
    EnterRepo,
    GoBack,
    OpenBranch { worktree_dir: Result<Seq<char>, Seq<char>> },
    SearchPush(char),
    SearchPop,
    MoveSelection(i32),
    StartNewBranchFlow,
}

impl View for ActionModel {
    type V = ActionView;

    open spec fn view(&self) -> ActionView {
        match self {
            ActionModel::Quit => ActionView::Quit,
            ActionModel::OpenRepo => ActionView::OpenRepo,
            ActionModel::EnterRepo => ActionView::EnterRepo,
            ActionModel::GoBack => ActionView::GoBack,
            ActionModel::OpenBranch { worktree_dir } => ActionView::OpenBranch {
                worktree_dir: text_result(*worktree_dir),
            },
            ActionModel::SearchPush(c) => ActionView::SearchPush(*c),
            ActionModel::SearchPop => ActionView::SearchPop,
            ActionModel::MoveSelection(d) => ActionView::MoveSelection(*d),
            ActionModel::StartNewBranchFlow => ActionView::StartNewBranchFlow,
        }
    }
}

/// The names of the repositories.
pub open spec fn repo_names(v: BrowserView) -> Seq<Seq<char>> {
    v.repos.map_values(|r: (Seq<char>, Seq<char>)| r.0)
}

/// The names of the branches.
pub open spec fn branch_names(v: BrowserView) -> Seq<Seq<char>> {
    v.branches.map_values(|b: (Seq<char>, Option<Seq<char>>, bool)| b.0)
}

/// `n` is the list refiltered for `search` over `names`: every item in
/// order for an empty search, else the matches ranked best first, the
/// first row selected and scrolled to the top.
pub open spec fn refiltered(n: ListView, search: Seq<char>, names: Seq<Seq<char>>) -> bool {
    &&& n.search == search
    &&& search.len() == 0 ==> n.filtered == unranked(names.len())
    &&& search.len() != 0 ==> is_kiosk_ranking(n.filtered, scores_of(names, search), names)
    &&& n.selected == first_selected(n.filtered.len())
    &&& n.scroll_offset == 0
}

/// The search after an edit.
pub open spec fn edited(search: Seq<char>, a: ActionView) -> Seq<char> {
    match a {
        ActionView::SearchPush(c) => search.push(c),
        _ => if search.len() == 0 {
            search
        } else {
            search.drop_last()
        },
    }
}

/// An edit of the search of the list that the mode shows, which is then
/// refiltered; a mode without such a list is left as it is.
pub open spec fn search_transition(o: BrowserView, a: ActionView, n: BrowserView) -> bool {
    match o.mode {
        ModeView::RepoSelect => refiltered(n.repo_list, edited(o.repo_list.search, a), repo_names(o))
            && n == BrowserView { repo_list: n.repo_list, ..o },
        ModeView::BranchSelect => refiltered(n.branch_list, edited(o.branch_list.search, a), branch_names(o))
            && n == BrowserView { branch_list: n.branch_list, ..o },
        ModeView::SelectBaseBranch => match o.base_selection {
            Some(f) => n.base_selection matches Some(g) && refiltered(g.list, edited(f.list.search, a), f.bases)
                && g.new_name == f.new_name && g.bases == f.bases && n == BrowserView { base_selection: n.base_selection, ..o },
            None => n == o,
        },
        _ => n == o,
    }
}

/// The selection moved by `delta` rows and clamped to the list; an empty
/// list or one without a selection keeps it.
pub open spec fn moved(selected: Option<usize>, len: nat, delta: int) -> Option<usize> {
    match selected {
        Some(s) => if len == 0 {
            selected
        } else {
            let t = s + delta;
            Some(
                (if t < 0 {
                    0
                } else if t > len - 1 {
                    len - 1
                } else {
                    t
                }) as usize,
            )
        },
        None => None,
    }
}

/// A move of the selection of the list that the mode shows; a mode without
/// such a list is left as it is.
pub open spec fn move_transition(o: BrowserView, delta: int, n: BrowserView) -> bool {
    match o.mode {
        ModeView::RepoSelect => n == BrowserView {
            repo_list: ListView { selected: moved(o.repo_list.selected, o.repo_list.filtered.len(), delta), ..o.repo_list },
            ..o
        },
        ModeView::BranchSelect => n == BrowserView {
            branch_list: ListView {
                selected: moved(o.branch_list.selected, o.branch_list.filtered.len(), delta),
                ..o.branch_list
            },
            ..o
        },
        ModeView::SelectBaseBranch => match o.base_selection {
            Some(f) => n == BrowserView {
                base_selection: Some(
                    BaseView {
                        list: ListView { selected: moved(f.list.selected, f.list.filtered.len(), delta), ..f.list },
                        ..f
                    },
                ),
                ..o
            },
            None => n == o,
        },
        _ => n == o,
    }
}

/// The names of the branches that are not remote-only, in order: the bases
/// a new branch can start from.
pub open spec fn local_branch_names(bs: Seq<(Seq<char>, Option<Seq<char>>, bool)>) -> Seq<Seq<char>> {
    bs.filter(|b: (Seq<char>, Option<Seq<char>>, bool)| !b.2).map_values(
        |b: (Seq<char>, Option<Seq<char>>, bool)| b.0,
    )
}

/// `names` are the names of the branches of `bs` that are not remote-only,
/// each once and in the order of `bs`: `idx` gives the branch of each name.
pub open spec fn names_local_branches_at(
    bs: Seq<(Seq<char>, Option<Seq<char>>, bool)>,
    names: Seq<Seq<char>>,
    idx: Seq<int>,
) -> bool {
    &&& idx.len() == names.len()
    &&& forall|k: int|
        0 <= k < idx.len() ==> 0 <= #[trigger] idx[k] < bs.len() && !bs[idx[k]].2 && bs[idx[k]].0 == names[k]
    &&& forall|k1: int, k2: int| 0 <= k1 < k2 < idx.len() ==> #[trigger] idx[k1] < #[trigger] idx[k2]
    &&& forall|i: int| 0 <= i < bs.len() && !(#[trigger] bs[i]).2 ==> exists|k: int| 0 <= k < idx.len() && #[trigger] idx[k] == i
}

/// The bases are the local branches, indexed in order.
proof fn lemma_local_branch_names_indexed(bs: Seq<(Seq<char>, Option<Seq<char>>, bool)>) -> (idx: Seq<int>)
    ensures
        names_local_branches_at(bs, local_branch_names(bs), idx),
    decreases bs.len(),
{
    let keep = |b: (Seq<char>, Option<Seq<char>>, bool)| !b.2;
    let name = |b: (Seq<char>, Option<Seq<char>>, bool)| b.0;
    if bs.len() == 0 {
        reveal(Seq::filter);
        assert(local_branch_names(bs) =~= Seq::<Seq<char>>::empty());
        Seq::empty()
    } else {
        let d = bs.drop_last();
        let idx0 = lemma_local_branch_names_indexed(d);
        d.lemma_filter_push(bs.last(), keep);
        assert(d.push(bs.last()) =~= bs);
        let n0 = local_branch_names(d);
        if !bs.last().2 {
            assert(bs.filter(keep) == d.filter(keep).push(bs.last()));
            assert(local_branch_names(bs) =~= n0.push(bs.last().0));
            let idx = idx0.push(bs.len() - 1);
            assert forall|i: int| 0 <= i < bs.len() && !(#[trigger] bs[i]).2 implies exists|k: int|
                0 <= k < idx.len() && #[trigger] idx[k] == i by {
                if i < bs.len() - 1 {
                    assert(d[i] == bs[i]);
                    let k = choose|k: int| 0 <= k < idx0.len() && #[trigger] idx0[k] == i;
                    assert(idx[k] == i);
                } else {
                    assert(idx[idx.len() - 1] == i);
                }
            }
            assert forall|k: int| 0 <= k < idx.len() implies 0 <= #[trigger] idx[k] < bs.len() && !bs[idx[k]].2
                && bs[idx[k]].0 == local_branch_names(bs)[k] by {
                if k < idx0.len() {
                    assert(idx[k] == idx0[k]);
                    assert(bs[idx0[k]] == d[idx0[k]]);
                }
            }
            assert forall|k1: int, k2: int| 0 <= k1 < k2 < idx.len() implies #[trigger] idx[k1] < #[trigger] idx[k2] by {
                assert(idx[k1] == idx0[k1]);
                if k2 < idx0.len() {
                    assert(idx[k2] == idx0[k2]);
                }
            }
            idx
        } else {
            assert(bs.filter(keep) == d.filter(keep));
            assert(local_branch_names(bs) == n0);
            assert forall|i: int| 0 <= i < bs.len() && !(#[trigger] bs[i]).2 implies exists|k: int|
                0 <= k < idx0.len() && #[trigger] idx0[k] == i by {
                assert(i < bs.len() - 1);
                assert(d[i] == bs[i]);
            }
            assert forall|k: int| 0 <= k < idx0.len() implies 0 <= #[trigger] idx0[k] < bs.len() && !bs[idx0[k]].2
                && bs[idx0[k]].0 == local_branch_names(bs)[k] by {
                assert(bs[idx0[k]] == d[idx0[k]]);
            }
            idx0
        }
    }
}

/// Law: when starting a new branch opens the base selection, the new branch
/// is named by the branch search, and the bases offered are the names of the
/// loaded branches that are not remote-only, every one of them, each once and
/// in the order loaded; when there is no such branch the flow is refused with
/// a message.
pub proof fn lemma_new_branch_offers_local_bases(o: BrowserView, n: BrowserView, e: Option<EffectView>)
    requires
        action_transition(o, ActionView::StartNewBranchFlow, n, e),
        o.branch_list.search.len() > 0,
        o.selected_repo_idx is Some,
    ensures
        (e is None),
        (forall|i: int| 0 <= i < o.branches.len() ==> (#[trigger] o.branches[i]).2) ==> (n == BrowserView {
            error: Some("No local branches to use as base"@),
            ..o
        }),
        (exists|i: int| 0 <= i < o.branches.len() && !(#[trigger] o.branches[i]).2) ==> ({
            &&& n.mode == ModeView::SelectBaseBranch
            &&& n.base_selection matches Some(bv) && bv.new_name == o.branch_list.search && (exists|idx: Seq<int>|
                names_local_branches_at(o.branches, bv.bases, idx))
        }),
{
    let idx = lemma_local_branch_names_indexed(o.branches);
    let bases = local_branch_names(o.branches);
    if exists|i: int| 0 <= i < o.branches.len() && !(#[trigger] o.branches[i]).2 {
        let i = choose|i: int| 0 <= i < o.branches.len() && !(#[trigger] o.branches[i]).2;
        let k = choose|k: int| 0 <= k < idx.len() && #[trigger] idx[k] == i;
        assert(bases.len() > 0);
        assert(new_branch_transition(o, n));
        let bv = n.base_selection->0;
        assert(bv.bases == bases);
        assert(names_local_branches_at(o.branches, bv.bases, idx));
    } else {
        if bases.len() > 0 {
            assert(!o.branches[idx[0]].2);
        }
    }
}

/// Starting a new branch: refused with a message while the branch search
/// is empty, ignored without a chosen repository, refused when no local
/// branch can be its base, else the base selection opens for a branch
/// named by the search, over the local branches, all shown, the first
/// selected.
pub open spec fn new_branch_transition(o: BrowserView, n: BrowserView) -> bool {
    if o.branch_list.search.len() == 0 {
        n == BrowserView { error: Some("Type a branch name first"@), ..o }
    } else if o.selected_repo_idx is None {
        n == o
    } else {
        let bases = local_branch_names(o.branches);
        if bases.len() == 0 {
            n == BrowserView { error: Some("No local branches to use as base"@), ..o }
        } else {
            n == BrowserView {
                mode: ModeView::SelectBaseBranch,
                base_selection: Some(
                    BaseView {
                        new_name: o.branch_list.search,
                        bases,
                        list: ListView {
                            search: Seq::empty(),
                            filtered: unranked(bases.len()),
                            selected: first_selected(bases.len()),
                            scroll_offset: 0,
                        },
                    },
                ),
                ..o
            }
        }
    }
}

/// How an action changes the browser and what it asks of the caller:
/// - quit asks to leave;
/// - opening the repository opens a session in the selected repository's
///   checkout, in the session named after that path (`session_name_spec`);
/// - entering the repository chooses it, shows its branches (none yet, the
///   list emptied but its search kept), marks them loading and asks to load
///   them;
/// - going back leaves the branches for the repositories (clearing the
///   branch search), the base selection for the branches (dropping the
///   flow), a confirmation for the branches, and the sessions for the
///   repositories; elsewhere it does nothing;
/// - opening the branch does what `open_branch_spec` says: an open asks to
///   open, a creation shows its message while it asks to create, an error
///   is shown;
/// - a move of the selection moves it in the list shown, clamped
///   (`move_transition`);
/// - starting a new branch opens the base selection (`new_branch_transition`);
/// - an edit of the search refilters the list shown (`search_transition`).
pub open spec fn action_transition(o: BrowserView, a: ActionView, n: BrowserView, e: Option<EffectView>) -> bool {
    match a {
        ActionView::Quit => n == o && e == Some(EffectView::Quit),
        ActionView::OpenRepo => n == o && e == match picked(o.repo_list) {
            Some(i) => Some(
                EffectView::Open {
                    path: o.repos[i].1,
                    session_name: session_name_spec(o.repos[i].1),
                    split_command: o.split_command,
                },
            ),
            None => None,
        },
        ActionView::EnterRepo => match picked(o.repo_list) {
            Some(i) => n == BrowserView {
                selected_repo_idx: Some(i as usize),
                mode: ModeView::BranchSelect,
                branches: Seq::empty(),
                branch_list: ListView {
                    search: o.branch_list.search,
                    filtered: Seq::empty(),
                    selected: None,
                    scroll_offset: 0,
                },
                loading_branches: true,
                ..o
            } && e == Some(EffectView::LoadBranches { repo_path: o.repos[i].1 }),
            None => n == o && e is None,
        },
        ActionView::GoBack => e is None && n == match o.mode {
            ModeView::BranchSelect => BrowserView {
                mode: ModeView::RepoSelect,
                branch_list: ListView { search: Seq::empty(), ..o.branch_list },
                ..o
            },
            ModeView::SelectBaseBranch => BrowserView { mode: ModeView::BranchSelect, base_selection: None, ..o },
            ModeView::ConfirmDelete => BrowserView { mode: ModeView::BranchSelect, ..o },
            ModeView::Sessions => BrowserView { mode: ModeView::RepoSelect, ..o },
            _ => o,
        },
        ActionView::OpenBranch { worktree_dir } => match open_branch_spec(o, worktree_dir) {
            BranchOpenView::Nothing => n == o && e is None,
            BranchOpenView::Open { path, split_command } => n == o && e == Some(
                EffectView::Open { path, session_name: session_name_spec(path), split_command },
            ),
            BranchOpenView::CreateWorktree { repo_path, branch, worktree_path, remote, message } =>
                n == BrowserView { mode: ModeView::Loading(message), ..o } && e == Some(
                EffectView::CreateWorktree { repo_path, branch, worktree_path, remote },
            ),
            BranchOpenView::CreateBranch { repo_path, new_name, base, worktree_path, message } =>
                n == BrowserView { mode: ModeView::Loading(message), ..o } && e == Some(
                EffectView::CreateBranch { repo_path, new_name, base, worktree_path },
            ),
            BranchOpenView::Error(m) => n == BrowserView { error: Some(m), ..o } && e is None,
        },
        ActionView::MoveSelection(d) => e is None && move_transition(o, d as int, n),
        ActionView::StartNewBranchFlow => e is None && new_branch_transition(o, n),
        _ => e is None && search_transition(o, a, n),
    }
}


/// The names of the repositories, in code.
fn repo_name_list(repos: &Vec<RepoEntry>) -> (r: Vec<String>)
    ensures
        r.deep_view() == repos@.map_values(|x: RepoEntry| x.name@),
{
    let mut r: Vec<String> = Vec::new();
    let mut i: usize = 0;
    while i < repos.len()
        invariant
            i <= repos.len(),
            r.deep_view() =~= repos@.take(i as int).map_values(|x: RepoEntry| x.name@),
        decreases repos.len() - i,
    {
        r.push(repos[i].name.clone());
        assert(repos@.take(i + 1).map_values(|x: RepoEntry| x.name@) =~= repos@.take(i as int).map_values(
            |x: RepoEntry| x.name@,
        ).push(repos@[i as int].name@));
        i = i + 1;
    }
    assert(repos@.take(repos.len() as int) =~= repos@);
    r
}

/// The names of the branches, in code.
fn branch_name_list(branches: &Vec<BranchItem>) -> (r: Vec<String>)
    ensures
        r.deep_view() == branches@.map_values(|x: BranchItem| x.name@),
{
    let mut r: Vec<String> = Vec::new();
    let mut i: usize = 0;
    while i < branches.len()
        invariant
            i <= branches.len(),
            r.deep_view() =~= branches@.take(i as int).map_values(|x: BranchItem| x.name@),
        decreases branches.len() - i,
    {
        r.push(branches[i].name.clone());
        assert(branches@.take(i + 1).map_values(|x: BranchItem| x.name@) =~= branches@.take(i as int).map_values(
            |x: BranchItem| x.name@,
        ).push(branches@[i as int].name@));
        i = i + 1;
    }
    assert(branches@.take(branches.len() as int) =~= branches@);
    r
}

/// Copies of the texts.
fn copy_texts(v: &Vec<String>) -> (r: Vec<String>)
    ensures
        r.deep_view() == v.deep_view(),
{
    let mut r: Vec<String> = Vec::new();
    let mut i: usize = 0;
    while i < v.len()
        invariant
            i <= v.len(),
            r.deep_view() =~= v.deep_view().take(i as int),
        decreases v.len() - i,
    {
        r.push(v[i].clone());
        assert(v.deep_view().take(i + 1) =~= v.deep_view().take(i as int).push(v@[i as int]@));
        i = i + 1;
    }
    assert(v.deep_view().take(v.len() as int) =~= v.deep_view());
    r
}

/// Edits the list's search and refilters it over `names`.
fn edit_and_refilter(list: &mut PickList, names: &Vec<String>, a: &ActionModel)
    requires
        a matches ActionModel::SearchPush(_) || a matches ActionModel::SearchPop,
    ensures
        refiltered(final(list)@, edited(old(list)@.search, a@), names.deep_view()),
        list_wf(final(list)@, names@.len()),
{
    match a {
        ActionModel::SearchPush(c) => list.search.push(*c),
        _ => {
            let _ = list.search.pop();
        },
    }
    let (filtered, selected) = apply_fuzzy_filter(names, list.search.as_str());
    list.filtered = filtered;
    list.selected = selected;
    list.scroll_offset = 0;
}

/// The selection moved by `delta` rows and clamped (see `moved`).
fn move_in(selected: Option<usize>, len: usize, delta: i32) -> (r: Option<usize>)
    ensures
        r == moved(selected, len as nat, delta as int),
{
    match selected {
        Some(s) => {
            if len == 0 {
                return selected;
            }
            let last = len - 1;
            if delta >= 0 {
                let d = delta as usize;
                if s >= last || d >= last - s {
                    Some(last)
                } else {
                    Some(s + d)
                }
            } else {
                let d = (0i64 - (delta as i64)) as usize;
                if d >= s {
                    Some(0)
                } else if s - d > last {
                    Some(last)
                } else {
                    Some(s - d)
                }
            }
        },
        None => None,
    }
}

/// The names of the branches that are not remote-only, in code.
fn local_branch_list(branches: &Vec<BranchItem>) -> (r: Vec<String>)
    ensures
        r.deep_view() == local_branch_names(branch_views(branches@)),
{
    let ghost all = branch_views(branches@);
    let ghost keep = |b: (Seq<char>, Option<Seq<char>>, bool)| !b.2;
    let ghost name = |b: (Seq<char>, Option<Seq<char>>, bool)| b.0;
    let mut r: Vec<String> = Vec::new();
    let mut i: usize = 0;
    while i < branches.len()
        invariant
            i <= branches.len(),
            all == branch_views(branches@),
            keep == (|b: (Seq<char>, Option<Seq<char>>, bool)| !b.2),
            name == (|b: (Seq<char>, Option<Seq<char>>, bool)| b.0),
            r.deep_view() == all.take(i as int).filter(keep).map_values(name),
        decreases branches.len() - i,
    {
        proof {
            assert(all.take(i + 1) =~= all.take(i as int).push(all[i as int]));
            all.take(i as int).lemma_filter_push(all[i as int], keep);
        }
        if !branches[i].remote {
            let ghost before = r.deep_view();
            r.push(branches[i].name.clone());
            assert(r.deep_view() =~= before.push(branches@[i as int].name@));
            assert(all.take(i + 1).filter(keep).map_values(name) =~= all.take(i as int).filter(keep).map_values(
                name,
            ).push(all[i as int].0));
        } else {
            assert(all.take(i + 1).filter(keep) == all.take(i as int).filter(keep));
        }
        i = i + 1;
    }
    assert(all.take(branches.len() as int) =~= all);
    r
}

impl BrowserState {
    fn apply_move(&mut self, delta: i32)
        requires
            old(self).wf(),
        ensures
            final(self).wf(),
            move_transition(old(self)@, delta as int, final(self)@),
    {
        let ghost o = self@;
        match self.mode {
            BrowserMode::RepoSelect => {
                self.repo_list.selected = move_in(self.repo_list.selected, self.repo_list.filtered.len(), delta);
                assert(self@.repo_list.filtered == o.repo_list.filtered);
            },
            BrowserMode::BranchSelect => {
                self.branch_list.selected = move_in(
                    self.branch_list.selected,
                    self.branch_list.filtered.len(),
                    delta,
                );
                assert(self@.branch_list.filtered == o.branch_list.filtered);
            },
            BrowserMode::SelectBaseBranch => {
                let taken = self.base_selection.take();
                match taken {
                    Some(mut f) => {
                        f.list.selected = move_in(f.list.selected, f.list.filtered.len(), delta);
                        self.base_selection = Some(f);
                        assert(self@.base_selection->0.list.filtered == o.base_selection->0.list.filtered);
                        assert(self@.base_selection->0.bases == o.base_selection->0.bases);
                    },
                    None => {},
                }
            },
            _ => {},
        }
    }

    fn start_new_branch(&mut self)
        requires
            old(self).wf(),
        ensures
            final(self).wf(),
            new_branch_transition(old(self)@, final(self)@),
    {
        if chars_of(self.branch_list.search.as_str()).len() == 0 {
            self.error = Some(owned("Type a branch name first"));
            return;
        }
        if self.selected_repo_idx.is_none() {
            return;
        }
        let bases = local_branch_list(&self.branches);
        if bases.len() == 0 {
            self.error = Some(owned("No local branches to use as base"));
            return;
        }
        let n = bases.len();
        let list = PickList { search: String::new(), filtered: all_rows(n), selected: Some(0), scroll_offset: 0 };
        self.base_selection = Some(BaseSelection { new_name: self.branch_list.search.clone(), bases, list });
        self.mode = BrowserMode::SelectBaseBranch;
    }

    fn apply_search(&mut self, a: &ActionModel)
        requires
            old(self).wf(),
            a matches ActionModel::SearchPush(_) || a matches ActionModel::SearchPop,
        ensures
            final(self).wf(),
            search_transition(old(self)@, a@, final(self)@),
    {
        match self.mode {
            BrowserMode::RepoSelect => {
                let names = repo_name_list(&self.repos);
                assert(names.deep_view() =~= repo_names(self@));
                edit_and_refilter(&mut self.repo_list, &names, a);
            },
            BrowserMode::BranchSelect => {
                let names = branch_name_list(&self.branches);
                assert(names.deep_view() =~= branch_names(self@));
                edit_and_refilter(&mut self.branch_list, &names, a);
            },
            BrowserMode::SelectBaseBranch => {
                let taken = self.base_selection.take();
                match taken {
                    Some(mut f) => {
                        let bases = copy_texts(&f.bases);
                        edit_and_refilter(&mut f.list, &bases, a);
                        self.base_selection = Some(f);
                    },
                    None => {},
                }
            },
            _ => {},
        }
    }
}

impl BrowserState {
    /// Applies a user action (see `action_transition`).
    pub fn apply_action(&mut self, a: ActionModel) -> (o: Option<Effect>)
        requires
            old(self).wf(),
        ensures
            final(self).wf(),
            action_transition(old(self)@, a@, final(self)@, effect_view(o)),
    {
        match a {
            ActionModel::Quit => Some(Effect::Quit),
            ActionModel::OpenRepo => match picked_index(&self.repo_list) {
                Some(i) => {
                    assert(self.repo_list.filtered@[self.repo_list.selected->0 as int].0 < self.repos@.len());
                    Some(Effect::Open {
                        path: self.repos[i].path.clone(),
                        session_name: session_name_for(self.repos[i].path.as_str()),
                        split_command: self.split_command.clone(),
                    })
                },
                None => None,
            },
            ActionModel::EnterRepo => match picked_index(&self.repo_list) {
                Some(i) => {
                    assert(self.repo_list.filtered@[self.repo_list.selected->0 as int].0 < self.repos@.len());
                    self.selected_repo_idx = Some(i);
                    self.mode = BrowserMode::BranchSelect;
                    self.branches = Vec::new();
                    self.branch_list.filtered = Vec::new();
                    self.branch_list.selected = None;
                    self.branch_list.scroll_offset = 0;
                    self.loading_branches = true;
                    assert(branch_views(self.branches@) =~= Seq::empty());
                    Some(Effect::LoadBranches { repo_path: self.repos[i].path.clone() })
                },
                None => None,
            },
            ActionModel::GoBack => {
                match self.mode {
                    BrowserMode::BranchSelect => {
                        self.mode = BrowserMode::RepoSelect;
                        self.branch_list.search = String::new();
                    },
                    BrowserMode::SelectBaseBranch => {
                        self.mode = BrowserMode::BranchSelect;
                        self.base_selection = None;
                    },
                    BrowserMode::ConfirmDelete => {
                        self.mode = BrowserMode::BranchSelect;
                    },
                    BrowserMode::Sessions => {
                        self.mode = BrowserMode::RepoSelect;
                    },
                    _ => {},
                }
                None
            },
            ActionModel::OpenBranch { worktree_dir } => {
                let step = self.open_branch_step(worktree_dir);
                match step {
                    BranchOpenStep::Nothing => None,
                    BranchOpenStep::Open { path, split_command } => {
                        let session_name = session_name_for(path.as_str());
                        Some(Effect::Open { path, session_name, split_command })
                    },
                    BranchOpenStep::CreateWorktree { repo_path, branch, worktree_path, remote, message } => {
                        self.mode = BrowserMode::Loading(message);
                        Some(Effect::CreateWorktree { repo_path, branch, worktree_path, remote })
                    },
                    BranchOpenStep::CreateBranch { repo_path, new_name, base, worktree_path, message } => {
                        self.mode = BrowserMode::Loading(message);
                        Some(Effect::CreateBranch { repo_path, new_name, base, worktree_path })
                    },
                    BranchOpenStep::Error(m) => {
                        self.error = Some(m);
                        None
                    },
                }
            },
            ActionModel::MoveSelection(d) => {
                self.apply_move(d);
                None
            },
            ActionModel::StartNewBranchFlow => {
                self.start_new_branch();
                None
            },
            _ => {
                self.apply_search(&a);
                None
            },
        }
    }
}


/// An event from a background task.
pub enum EventModel {
    /// The repositories were found, already in their display order.
    ReposDiscovered { repos: Vec<RepoEntry> },
    /// The repositories with their worktrees filled in, re-sorted by the
    /// caller.
    ReposEnriched { repos: Vec<RepoEntry> },
    /// A worktree was created and its session named.
    WorktreeCreated { path: String, session_name: String },
    /// The worktree at this path was removed.
    WorktreeRemoved { worktree_path: String },
    /// Removing the worktree of this branch, at this path, failed.
    WorktreeRemoveFailed { branch_name: String, worktree_path: String, error: String },
    /// The chosen repository's local branches were loaded.
    BranchesLoaded { branches: Vec<BranchItem> },
    /// Its remote-only branches were loaded.
    RemoteBranchesLoaded { branches: Vec<BranchItem> },
    /// A git command failed with this message.
    GitError(String),
}

/// An event as plain values.
pub enum EventView {
    ReposDiscovered { repos: Seq<(Seq<char>, Seq<char>)> },
    ReposEnriched { repos: Seq<(Seq<char>, Seq<char>)> },
    WorktreeCreated { path: Seq<char>, session_name: Seq<char> },
    WorktreeRemoved { worktree_path: Seq<char> },
    WorktreeRemoveFailed { branch_name: Seq<char>, worktree_path: Seq<char>, error: Seq<char> },
    BranchesLoaded { branches: Seq<(Seq<char>, Option<Seq<char>>, bool)> },
    RemoteBranchesLoaded { branches: Seq<(Seq<char>, Option<Seq<char>>, bool)> },
    GitError(Seq<char>),
}

impl View for EventModel {
    type V = EventView;

    open spec fn view(&self) -> EventView {
        match self {
            EventModel::ReposDiscovered { repos } => EventView::ReposDiscovered { repos: repo_views(repos@) },
            EventModel::ReposEnriched { repos } => EventView::ReposEnriched { repos: repo_views(repos@) },
            EventModel::WorktreeCreated { path, session_name } => EventView::WorktreeCreated {
                path: path@,
                session_name: session_name@,
            },
            EventModel::WorktreeRemoved { worktree_path } => EventView::WorktreeRemoved {
                worktree_path: worktree_path@,
            },
            EventModel::WorktreeRemoveFailed { branch_name, worktree_path, error } =>
                EventView::WorktreeRemoveFailed {
                branch_name: branch_name@,
                worktree_path: worktree_path@,
                error: error@,
            },
            EventModel::BranchesLoaded { branches } => EventView::BranchesLoaded { branches: branch_views(branches@) },
            EventModel::RemoteBranchesLoaded { branches } => EventView::RemoteBranchesLoaded {
                branches: branch_views(branches@),
            },
            EventModel::GitError(m) => EventView::GitError(m@),
        }
    }
}

/// The index of the first repository at `path` (compared as paths).
pub open spec fn position_of(repos: Seq<(Seq<char>, Seq<char>)>, path: Seq<char>) -> Option<int> {
    if exists|k: int| 0 <= k < repos.len() && same_path(#[trigger] repos[k].1, path) {
        Some(
            choose|k: int|
                0 <= k < repos.len() && same_path(#[trigger] repos[k].1, path) && (forall|j: int|
                    0 <= j < k ==> !same_path(#[trigger] repos[j].1, path)),
        )
    } else {
        None
    }
}

/// The first repository at a path is one of the repositories.
proof fn lemma_position_in_range(repos: Seq<(Seq<char>, Seq<char>)>, path: Seq<char>)
    ensures
        position_of(repos, path) matches Some(k) ==> 0 <= k < repos.len(),
{
    if exists|k: int| 0 <= k < repos.len() && same_path(#[trigger] repos[k].1, path) {
        lemma_first_position_exists(repos, path);
    }
}

/// Where some repository is at the path, a first one is.
proof fn lemma_first_position_exists(repos: Seq<(Seq<char>, Seq<char>)>, path: Seq<char>)
    requires
        exists|k: int| 0 <= k < repos.len() && same_path(#[trigger] repos[k].1, path),
    ensures
        exists|k: int|
            0 <= k < repos.len() && same_path(#[trigger] repos[k].1, path) && (forall|j: int|
                0 <= j < k ==> !same_path(#[trigger] repos[j].1, path)),
    decreases repos.len(),
{
    let last = repos.len() - 1;
    if exists|k: int| 0 <= k < last && same_path(#[trigger] repos.drop_last()[k].1, path) {
        lemma_first_position_exists(repos.drop_last(), path);
        let k = choose|k: int|
            0 <= k < repos.drop_last().len() && same_path(#[trigger] repos.drop_last()[k].1, path) && (forall|j: int|
                0 <= j < k ==> !same_path(#[trigger] repos.drop_last()[j].1, path));
        assert(repos[k] == repos.drop_last()[k]);
        assert forall|j: int| 0 <= j < k implies !same_path(#[trigger] repos[j].1, path) by {
            assert(repos[j] == repos.drop_last()[j]);
        }
    } else {
        let k = choose|k: int| 0 <= k < repos.len() && same_path(#[trigger] repos[k].1, path);
        if k < last {
            assert(repos.drop_last()[k] == repos[k]);
        }
        assert forall|j: int| 0 <= j < last implies !same_path(#[trigger] repos[j].1, path) by {
            assert(repos.drop_last()[j] == repos[j]);
        }
        assert(same_path(repos[last].1, path));
    }
}

/// `n` is the list refiltered for its search over new `names`, its
/// selection clamped (`rebuild_filtered_preserving_search`).
pub open spec fn rebuilt(o: ListView, n: ListView, names: Seq<Seq<char>>) -> bool {
    &&& n.search == o.search
    &&& o.search.len() == 0 ==> n.filtered == unranked(names.len())
    &&& o.search.len() != 0 ==> is_ranking(n.filtered, scores_of(names, o.search))
    &&& n.selected == preserved_selection(o.selected, n.filtered.len())
    &&& n.scroll_offset == o.scroll_offset
}

/// The pending deletions without those of the worktree at `path` (paths
/// compared as paths).
pub open spec fn without_worktree(ps: Seq<PendingView>, path: Seq<char>) -> Seq<PendingView> {
    ps.filter(|d: PendingView| !same_path(d.2, path))
}

/// The pending deletions without those of `branch` in the repository at
/// `repo_path`.
pub open spec fn without_branch(ps: Seq<PendingView>, repo_path: Seq<char>, branch: Seq<char>) -> Seq<PendingView> {
    ps.filter(|d: PendingView| !(same_path(d.0, repo_path) && d.1 == branch))
}

/// The index, among `repos`, of the repository chosen in `o`: the first at
/// its path, if any.
pub open spec fn followed_repo(o: BrowserView, repos: Seq<(Seq<char>, Seq<char>)>) -> Option<usize> {
    match o.selected_repo_idx {
        Some(r) => match position_of(repos, o.repos[r as int].1) {
            Some(k) => Some(k as usize),
            None => None,
        },
        None => None,
    }
}

/// The message shown when removing a worktree failed.
pub open spec fn remove_failed_message(branch: Seq<char>, error: Seq<char>) -> Seq<char> {
    "Failed to remove worktree for "@ + branch + ": "@ + error
}

/// How an event changes the browser and what it asks of the caller:
/// - found repositories replace the list, the chosen repository follows its
///   path, the list is refiltered keeping its search and clamping its
///   selection, loading ends, and a loading screen gives way to the
///   repositories;
/// - enriched repositories (their worktrees filled in and re-sorted by the
///   caller) replace the list in the same way, without touching loading or
///   the mode;
/// - a created worktree is opened in its named session;
/// - a removed worktree is no longer pending, and the chosen repository's
///   branches are reloaded (or the branches shown when none is chosen);
/// - a failed removal is no longer pending (the chosen repository's branch,
///   or else the worktree) and is shown as an error over the branches;
/// - loaded branches replace the list (all shown, the first selected, the
///   search kept), end the loading, show the branches and ask for the
///   remote ones;
/// - remote branches are added while the branches are shown, and the list
///   is refiltered keeping its search;
/// - a git error drops the base selection and is shown over the branches.
pub open spec fn event_transition(o: BrowserView, ev: EventView, n: BrowserView, e: Option<EffectView>) -> bool {
    match ev {
        EventView::ReposDiscovered { repos } => e is None && n == BrowserView {
            repos,
            repo_list: n.repo_list,
            selected_repo_idx: followed_repo(o, repos),
            loading_repos: false,
            loading_branches: false,
            mode: if o.mode is Loading {
                ModeView::RepoSelect
            } else {
                o.mode
            },
            ..o
        } && rebuilt(o.repo_list, n.repo_list, repos.map_values(|r: (Seq<char>, Seq<char>)| r.0)),
        EventView::ReposEnriched { repos } => e is None && n == BrowserView {
            repos,
            repo_list: n.repo_list,
            selected_repo_idx: followed_repo(o, repos),
            ..o
        } && rebuilt(o.repo_list, n.repo_list, repos.map_values(|r: (Seq<char>, Seq<char>)| r.0)),
        EventView::WorktreeCreated { path, session_name } => n == o && e == Some(
            EffectView::Open { path, session_name, split_command: o.split_command },
        ),
        EventView::WorktreeRemoved { worktree_path } => {
            let pending = without_worktree(o.pending_deletes, worktree_path);
            match o.selected_repo_idx {
                Some(r) => n == BrowserView { loading_branches: true, pending_deletes: pending, ..o } && e == Some(
                    EffectView::LoadBranches { repo_path: o.repos[r as int].1 },
                ),
                None => n == BrowserView { mode: ModeView::BranchSelect, pending_deletes: pending, ..o } && e is None,
            }
        },
        EventView::WorktreeRemoveFailed { branch_name, worktree_path, error } => e is None && n == BrowserView {
            error: Some(remove_failed_message(branch_name, error)),
            loading_branches: false,
            mode: ModeView::BranchSelect,
            pending_deletes: match o.selected_repo_idx {
                Some(r) => without_branch(o.pending_deletes, o.repos[r as int].1, branch_name),
                None => without_worktree(o.pending_deletes, worktree_path),
            },
            ..o
        },
        EventView::BranchesLoaded { branches } => n == BrowserView {
            branches,
            branch_list: ListView {
                search: o.branch_list.search,
                filtered: unranked(branches.len()),
                selected: first_selected(branches.len()),
                scroll_offset: 0,
            },
            loading_branches: false,
            mode: ModeView::BranchSelect,
            ..o
        } && e == match o.selected_repo_idx {
            Some(r) => Some(EffectView::LoadRemoteBranches { repo_path: o.repos[r as int].1 }),
            None => None,
        },
        EventView::RemoteBranchesLoaded { branches } => e is None && if o.mode is BranchSelect {
            n == BrowserView { branches: o.branches + branches, branch_list: n.branch_list, ..o } && rebuilt(
                o.branch_list,
                n.branch_list,
                (o.branches + branches).map_values(|b: (Seq<char>, Option<Seq<char>>, bool)| b.0),
            )
        } else {
            n == o
        },
        EventView::GitError(m) => e is None && n == BrowserView {
            base_selection: None,
            mode: ModeView::BranchSelect,
            loading_branches: false,
            error: Some(m),
            ..o
        },
    }
}


/// The index of the first repository at `path`, in code.
fn find_repo(repos: &Vec<RepoEntry>, path: &str) -> (r: Option<usize>)
    ensures
        match position_of(repo_views(repos@), path@) {
            Some(k) => r == Some(k as usize),
            None => r is None,
        },
{
    let ghost rv = repo_views(repos@);
    let mut i: usize = 0;
    while i < repos.len()
        invariant
            i <= repos.len(),
            rv == repo_views(repos@),
            forall|j: int| 0 <= j < i ==> !same_path(#[trigger] rv[j].1, path@),
        decreases repos.len() - i,
    {
        if paths_equal(repos[i].path.as_str(), path) {
            proof {
                assert(same_path(rv[i as int].1, path@));
                let k = choose|k: int|
                    0 <= k < rv.len() && same_path(#[trigger] rv[k].1, path@) && (forall|j: int|
                        0 <= j < k ==> !same_path(#[trigger] rv[j].1, path@));
                if k < i {
                } else if k > i {
                    assert(!same_path(rv[i as int].1, path@));
                }
            }
            return Some(i);
        }
        i = i + 1;
    }
    None
}

/// Refilters the list for its search over new `names`, clamping its
/// selection.
fn rebuild_list(list: &mut PickList, names: &Vec<String>)
    ensures
        rebuilt(old(list)@, final(list)@, names.deep_view()),
        list_wf(final(list)@, names@.len()),
{
    let (filtered, selected) = rebuild_filtered_preserving_search(list.search.as_str(), names, list.selected);
    list.filtered = filtered;
    list.selected = selected;
}

/// The rows `0..n` of an unfiltered list, in code.
fn all_rows(n: usize) -> (r: Vec<(usize, i64)>)
    ensures
        r@ == unranked(n as nat),
{
    let mut r: Vec<(usize, i64)> = Vec::new();
    let mut i: usize = 0;
    while i < n
        invariant
            i <= n,
            r@ =~= unranked(i as nat),
        decreases n - i,
    {
        r.push((i, 0));
        i = i + 1;
    }
    r
}

/// The pending deletions that are not of the worktree at `path`.
fn drop_worktree(ps: Vec<PendingDelete>, path: &str) -> (r: Vec<PendingDelete>)
    ensures
        pending_views(r@) == without_worktree(pending_views(ps@), path@),
{
    let ghost all = pending_views(ps@);
    let ghost keep = |d: PendingView| !same_path(d.2, path@);
    let mut r: Vec<PendingDelete> = Vec::new();
    let mut rest = ps;
    let mut i: usize = 0;
    assert(all.len() == rest.len());
    while rest.len() > 0
        invariant
            i + rest@.len() == all.len(),
            all.len() <= usize::MAX,
            pending_views(rest@) == all.skip(i as int),
            keep == (|d: PendingView| !same_path(d.2, path@)),
            pending_views(r@) == all.take(i as int).filter(keep),
        decreases rest@.len(),
    {
        let ghost before_rest = pending_views(rest@);
        let ghost old_rest = rest@;
        let d = rest.remove(0);
        assert(rest@ =~= old_rest.skip(1));
        assert(pending_views(rest@) =~= before_rest.skip(1));
        assert(all.skip(i + 1) =~= all.skip(i as int).skip(1));
        let ghost dv = (d.repo_path@, d.branch_name@, d.worktree_path@);
        proof {
            assert(before_rest[0] == dv);
            assert(all[i as int] == all.skip(i as int)[0]);
            assert(all.take(i + 1) =~= all.take(i as int).push(dv));
            all.take(i as int).lemma_filter_push(dv, keep);
            assert(pending_views(rest@) =~= all.skip(i + 1));
        }
        if !paths_equal(d.worktree_path.as_str(), path) {
            let ghost before = pending_views(r@);
            r.push(d);
            assert(pending_views(r@) =~= before.push(dv));
        }
        i = i + 1;
    }
    assert(all.take(i as int) =~= all);
    r
}

/// The pending deletions that are not of `branch` in the repository at
/// `repo_path`.
fn drop_branch(ps: Vec<PendingDelete>, repo_path: &str, branch: &str) -> (r: Vec<PendingDelete>)
    ensures
        pending_views(r@) == without_branch(pending_views(ps@), repo_path@, branch@),
{
    let ghost all = pending_views(ps@);
    let ghost keep = |d: PendingView| !(same_path(d.0, repo_path@) && d.1 == branch@);
    let name = chars_of(branch);
    let mut r: Vec<PendingDelete> = Vec::new();
    let mut rest = ps;
    let mut i: usize = 0;
    assert(all.len() == rest.len());
    while rest.len() > 0
        invariant
            i + rest@.len() == all.len(),
            all.len() <= usize::MAX,
            name@ == branch@,
            pending_views(rest@) == all.skip(i as int),
            keep == (|d: PendingView| !(same_path(d.0, repo_path@) && d.1 == branch@)),
            pending_views(r@) == all.take(i as int).filter(keep),
        decreases rest@.len(),
    {
        let ghost before_rest = pending_views(rest@);
        let ghost old_rest = rest@;
        let d = rest.remove(0);
        assert(rest@ =~= old_rest.skip(1));
        assert(pending_views(rest@) =~= before_rest.skip(1));
        assert(all.skip(i + 1) =~= all.skip(i as int).skip(1));
        let ghost dv = (d.repo_path@, d.branch_name@, d.worktree_path@);
        proof {
            assert(before_rest[0] == dv);
            assert(all[i as int] == all.skip(i as int)[0]);
            assert(all.take(i + 1) =~= all.take(i as int).push(dv));
            all.take(i as int).lemma_filter_push(dv, keep);
            assert(pending_views(rest@) =~= all.skip(i + 1));
        }
        let b = chars_of(d.branch_name.as_str());
        let matches_branch = paths_equal(d.repo_path.as_str(), repo_path) && chars_equal(&b, &name);
        if !matches_branch {
            let ghost before = pending_views(r@);
            r.push(d);
            assert(pending_views(r@) =~= before.push(dv));
        }
        i = i + 1;
    }
    assert(all.take(i as int) =~= all);
    r
}

impl BrowserState {
    fn replace_repos(&mut self, repos: Vec<RepoEntry>)
        requires
            old(self).wf(),
        ensures
            final(self).wf(),
            final(self)@ == (BrowserView {
                repos: repo_views(repos@),
                repo_list: final(self)@.repo_list,
                selected_repo_idx: followed_repo(old(self)@, repo_views(repos@)),
                ..old(self)@
            }),
            rebuilt(
                old(self)@.repo_list,
                final(self)@.repo_list,
                repo_views(repos@).map_values(|r: (Seq<char>, Seq<char>)| r.0),
            ),
    {
        let ghost o = self@;
        let ghost rv = repo_views(repos@);
        let new_idx = match self.selected_repo_idx {
            Some(r) => find_repo(&repos, self.repos[r].path.as_str()),
            None => None,
        };
        assert(new_idx == followed_repo(o, rv));
        proof {
            if let Some(r) = o.selected_repo_idx {
                lemma_position_in_range(rv, o.repos[r as int].1);
            }
        }
        assert(new_idx matches Some(k) ==> k < rv.len());
        let names = repo_name_list(&repos);
        assert(names.deep_view() =~= rv.map_values(|r: (Seq<char>, Seq<char>)| r.0));
        assert(names@.len() == rv.len());
        self.repos = repos;
        self.selected_repo_idx = new_idx;
        rebuild_list(&mut self.repo_list, &names);
        assert(self@.repos == rv);
    }

    fn on_repos_discovered(&mut self, repos: Vec<RepoEntry>) -> (o: Option<Effect>)
        requires
            old(self).wf(),
        ensures
            final(self).wf(),
            event_transition(
                old(self)@,
                EventView::ReposDiscovered { repos: repo_views(repos@) },
                final(self)@,
                effect_view(o),
            ),
    {
        self.replace_repos(repos);
        self.loading_repos = false;
        self.loading_branches = false;
        match self.mode {
            BrowserMode::Loading(_) => {
                self.mode = BrowserMode::RepoSelect;
            },
            _ => {},
        }
        None
    }

    fn on_branches_loaded(&mut self, branches: Vec<BranchItem>) -> (o: Option<Effect>)
        requires
            old(self).wf(),
        ensures
            final(self).wf(),
            event_transition(
                old(self)@,
                EventView::BranchesLoaded { branches: branch_views(branches@) },
                final(self)@,
                effect_view(o),
            ),
    {
        let n = branches.len();
        self.branches = branches;
        self.branch_list.filtered = all_rows(n);
        self.branch_list.selected = if n == 0 {
            None
        } else {
            Some(0)
        };
        self.branch_list.scroll_offset = 0;
        self.loading_branches = false;
        self.mode = BrowserMode::BranchSelect;
        match self.selected_repo_idx {
            Some(r) => Some(Effect::LoadRemoteBranches { repo_path: self.repos[r].path.clone() }),
            None => None,
        }
    }

    fn on_remote_branches(&mut self, branches: Vec<BranchItem>) -> (o: Option<Effect>)
        requires
            old(self).wf(),
        ensures
            final(self).wf(),
            event_transition(
                old(self)@,
                EventView::RemoteBranchesLoaded { branches: branch_views(branches@) },
                final(self)@,
                effect_view(o),
            ),
    {
        match self.mode {
            BrowserMode::BranchSelect => {
                let mut more = branches;
                let ghost before = self.branches@;
                let ghost extra = more@;
                self.branches.append(&mut more);
                assert(branch_views(self.branches@) =~= branch_views(before) + branch_views(extra));
                let names = branch_name_list(&self.branches);
                assert(names.deep_view() =~= branch_views(self.branches@).map_values(
                    |b: (Seq<char>, Option<Seq<char>>, bool)| b.0,
                ));
                rebuild_list(&mut self.branch_list, &names);
            },
            _ => {},
        }
        None
    }

    fn on_remove_failed(&mut self, branch_name: String, worktree_path: String, error: String) -> (o: Option<Effect>)
        requires
            old(self).wf(),
        ensures
            final(self).wf(),
            event_transition(
                old(self)@,
                EventView::WorktreeRemoveFailed {
                    branch_name: branch_name@,
                    worktree_path: worktree_path@,
                    error: error@,
                },
                final(self)@,
                effect_view(o),
            ),
    {
        let mut pending: Vec<PendingDelete> = Vec::new();
        std::mem::swap(&mut pending, &mut self.pending_deletes);
        self.pending_deletes = match self.selected_repo_idx {
            Some(r) => drop_branch(pending, self.repos[r].path.as_str(), branch_name.as_str()),
            None => drop_worktree(pending, worktree_path.as_str()),
        };
        let mut m = owned("Failed to remove worktree for ");
        push_str(&mut m, branch_name.as_str());
        push_str(&mut m, ": ");
        push_str(&mut m, error.as_str());
        self.error = Some(m);
        self.loading_branches = false;
        self.mode = BrowserMode::BranchSelect;
        None
    }

    fn on_removed(&mut self, worktree_path: String) -> (o: Option<Effect>)
        requires
            old(self).wf(),
        ensures
            final(self).wf(),
            event_transition(
                old(self)@,
                EventView::WorktreeRemoved { worktree_path: worktree_path@ },
                final(self)@,
                effect_view(o),
            ),
    {
        let mut pending: Vec<PendingDelete> = Vec::new();
        std::mem::swap(&mut pending, &mut self.pending_deletes);
        self.pending_deletes = drop_worktree(pending, worktree_path.as_str());
        match self.selected_repo_idx {
            Some(r) => {
                self.loading_branches = true;
                Some(Effect::LoadBranches { repo_path: self.repos[r].path.clone() })
            },
            None => {
                self.mode = BrowserMode::BranchSelect;
                None
            },
        }
    }

    /// Applies an event from a background task (see `event_transition`).
    pub fn apply_event(&mut self, ev: EventModel) -> (o: Option<Effect>)
        requires
            old(self).wf(),
        ensures
            final(self).wf(),
            event_transition(old(self)@, ev@, final(self)@, effect_view(o)),
    {
        match ev {
            EventModel::ReposDiscovered { repos } => self.on_repos_discovered(repos),
            EventModel::ReposEnriched { repos } => {
                self.replace_repos(repos);
                None
            },
            EventModel::WorktreeCreated { path, session_name } => Some(
                Effect::Open { path, session_name, split_command: self.split_command.clone() },
            ),
            EventModel::WorktreeRemoved { worktree_path } => self.on_removed(worktree_path),
            EventModel::WorktreeRemoveFailed { branch_name, worktree_path, error } => self.on_remove_failed(
                branch_name,
                worktree_path,
                error,
            ),
            EventModel::BranchesLoaded { branches } => self.on_branches_loaded(branches),
            EventModel::RemoteBranchesLoaded { branches } => self.on_remote_branches(branches),
            EventModel::GitError(m) => {
                self.base_selection = None;
                self.mode = BrowserMode::BranchSelect;
                self.loading_branches = false;
                self.error = Some(m);
                None
            },
        }
    }
}


/// The error shown when saving the pending deletions failed with `e`: after
/// a failed removal it is added to that error, otherwise it stands alone.
pub open spec fn save_failure_error(error: Option<Seq<char>>, after_failed_removal: bool, e: Seq<char>) -> Seq<char> {
    if after_failed_removal && error is Some {
        error->0 + " (also failed to persist pending deletes: "@ + e + ")"@
    } else {
        "Failed to persist pending deletes: "@ + e
    }
}

impl BrowserState {
    /// Shows that saving the pending deletions failed with `e`, after a
    /// failed removal or after another change of the list.
    pub fn note_save_failure(&mut self, after_failed_removal: bool, e: &str)
        requires
            old(self).wf(),
        ensures
            final(self).wf(),
            final(self)@ == (BrowserView {
                error: Some(save_failure_error(old(self)@.error, after_failed_removal, e@)),
                ..old(self)@
            }),
    {
        let taken = self.error.take();
        let m = match taken {
            Some(old_text) => if after_failed_removal {
                let mut m = old_text;
                push_str(&mut m, " (also failed to persist pending deletes: ");
                push_str(&mut m, e);
                push_str(&mut m, ")");
                m
            } else {
                let mut m = owned("Failed to persist pending deletes: ");
                push_str(&mut m, e);
                m
            },
            None => {
                let mut m = owned("Failed to persist pending deletes: ");
                push_str(&mut m, e);
                m
            },
        };
        self.error = Some(m);
    }
}

} // verus!
