//! The worktree browser: the list of worktree entries, fuzzy search over
//! them, and the picker that creates a new worktree for a branch. Key
//! presses are decisions of a state machine; the terminal loop, git and tmux
//! calls are performed by the caller, which reports their results back.
use vstd::prelude::*;
use crate::git::{Repo, Worktree, WorktreeView};
use crate::matching::{filter_and_rank, is_ranking, lemma_ranking_unique, scores_of, unranked};
use crate::paths::{file_name, join, parent, path_file_name, path_join, path_parent};
use crate::text::{chars_equal, chars_of, decimal, owned, push_decimal, push_str};
use crate::tmux::{session_name_for, session_name_spec};

verus! {

/// A worktree of a repository, flattened for display.
#[derive(Debug, Clone)]
pub struct Entry {
    pub repo_name: String,
    pub repo_path: String,
    pub worktree: Worktree,
    pub has_session: bool,
}

/// What an `Entry` holds, as plain values.
pub struct EntryView {
    pub repo_name: Seq<char>,
    pub repo_path: Seq<char>,
    pub worktree: WorktreeView,
    pub has_session: bool,
}

impl View for Entry {
    type V = EntryView;

    open spec fn view(&self) -> EntryView {
        EntryView {
            repo_name: self.repo_name@,
            repo_path: self.repo_path@,
            worktree: self.worktree@,
            has_session: self.has_session,
        }
    }
}

/// The branch shown for a worktree, or `default` when it is detached.
pub open spec fn branch_or(w: WorktreeView, default: Seq<char>) -> Seq<char> {
    match w.branch {
        Some(b) => b,
        None => default,
    }
}

/// `Entry::display_name`: `repo [branch]` for a main checkout,
/// `  repo → dir [branch]` for another worktree.
pub open spec fn display_name_spec(e: EntryView) -> Seq<char> {
    let branch = branch_or(e.worktree, "(detached)"@);
    if e.worktree.is_main {
        e.repo_name + " ["@ + branch + "]"@
    } else {
        let wt_name = match path_file_name(e.worktree.path) {
            Some(n) => n,
            None => Seq::empty(),
        };
        "  "@ + e.repo_name + " → "@ + wt_name + " ["@ + branch + "]"@
    }
}

/// `Entry::search_text`: the repository name and the branch (empty when detached).
pub open spec fn search_text_spec(e: EntryView) -> Seq<char> {
    e.repo_name + " "@ + branch_or(e.worktree, Seq::empty())
}

impl Entry {
    /// The label of this entry in the list.
    pub fn display_name(&self) -> (s: String)
        ensures
            s@ == display_name_spec(self@),
    {
        let branch = match &self.worktree.branch {
            Some(b) => b.clone(),
            None => owned("(detached)"),
        };
        let mut out = String::new();
        if self.worktree.is_main {
            push_str(&mut out, self.repo_name.as_str());
            push_str(&mut out, " [");
            push_str(&mut out, branch.as_str());
            push_str(&mut out, "]");
        } else {
            let wt_name = match file_name(self.worktree.path.as_str()) {
                Some(n) => n,
                None => String::new(),
            };
            push_str(&mut out, "  ");
            push_str(&mut out, self.repo_name.as_str());
            push_str(&mut out, " → ");
            push_str(&mut out, wt_name.as_str());
            push_str(&mut out, " [");
            push_str(&mut out, branch.as_str());
            push_str(&mut out, "]");
        }
        out
    }

    /// The text that the search matches against.
    pub fn search_text(&self) -> (s: String)
        ensures
            s@ == search_text_spec(self@),
    {
        let mut out = String::new();
        push_str(&mut out, self.repo_name.as_str());
        push_str(&mut out, " ");
        match &self.worktree.branch {
            Some(b) => push_str(&mut out, b.as_str()),
            None => {},
        }
        out
    }

    /// A copy of this entry.
    pub fn duplicate(&self) -> (r: Entry)
        ensures
            r@ == self@,
    {
        Entry {
            repo_name: self.repo_name.clone(),
            repo_path: self.repo_path.clone(),
            worktree: self.worktree.duplicate(),
            has_session: self.has_session,
        }
    }
}

/// What to do after the browser exits: open a session in `path`.
#[derive(Debug)]
pub enum OpenAction {
    Open { path: String, split_command: Option<String> },
}

/// Which list has the keyboard.
#[derive(Debug, Clone, Copy, PartialEq, Eq, Structural)]
pub enum Mode {
    Browse,
    NewWorktree,
}

/// A key press, as the browser distinguishes them.
#[derive(Debug, Clone, Copy, PartialEq, Eq, Structural)]
pub enum KeyInput {
    Esc,
    CtrlC,
    Enter,
    CtrlW,
    Up,
    Down,
    Char(char),
    Backspace,
    Other,
}

/// What the caller has to do after a key press.
#[derive(Debug)]
pub enum Step {
    /// Nothing; wait for the next key.
    Continue,
    /// Leave the browser without opening anything.
    Quit,
    /// Leave the browser and open a session.
    Open(OpenAction),
    /// List the local branches of the repository at `repo_path` and hand them
    /// to `App::begin_new_worktree`.
    ListBranches { repo_path: String },
    /// Add a worktree for `branch` of the repository at `repo_path` in
    /// `worktree_dir`; on success open it with `App::open_new_worktree`.
    AddWorktree { repo_path: String, branch: String, worktree_dir: String },
}

/// The plain values of a `Step`.
pub enum StepView {
    Continue,
    Quit,
    Open { path: Seq<char>, split_command: Option<Seq<char>> },
    ListBranches { repo_path: Seq<char> },
    AddWorktree { repo_path: Seq<char>, branch: Seq<char>, worktree_dir: Seq<char> },
}

impl View for Step {
    type V = StepView;

    open spec fn view(&self) -> StepView {
        match self {
            Step::Continue => StepView::Continue,
            Step::Quit => StepView::Quit,
            Step::Open(OpenAction::Open { path, split_command }) => StepView::Open {
                path: path@,
                split_command: split_command.deep_view(),
            },
            Step::ListBranches { repo_path } => StepView::ListBranches { repo_path: repo_path@ },
            Step::AddWorktree { repo_path, branch, worktree_dir } => StepView::AddWorktree {
                repo_path: repo_path@,
                branch: branch@,
                worktree_dir: worktree_dir@,
            },
        }
    }
}

/// The browser's state.
pub struct App {
    entries: Vec<Entry>,
    filtered: Vec<(usize, i64)>,
    selected: Option<usize>,
    search: String,
    split_command: Option<String>,
    mode: Mode,
    new_wt_repo_idx: Option<usize>,
    branches: Vec<String>,
    branch_filtered: Vec<(usize, i64)>,
    branch_search: String,
    branch_selected: Option<usize>,
}

/// The plain values of the browser's state.
pub struct AppView {
    pub entries: Seq<EntryView>,
    pub filtered: Seq<(usize, i64)>,
    pub selected: Option<usize>,
    pub search: Seq<char>,
    pub split_command: Option<Seq<char>>,
    pub mode: Mode,
    pub new_wt_repo_idx: Option<usize>,
    pub branches: Seq<Seq<char>>,
    pub branch_filtered: Seq<(usize, i64)>,
    pub branch_search: Seq<char>,
    pub branch_selected: Option<usize>,
}

impl View for App {
    type V = AppView;

    closed spec fn view(&self) -> AppView {
        AppView {
            entries: self.entries@.map_values(|e: Entry| e@),
            filtered: self.filtered@,
            selected: self.selected,
            search: self.search@,
            split_command: self.split_command.deep_view(),
            mode: self.mode,
            new_wt_repo_idx: self.new_wt_repo_idx,
            branches: self.branches.deep_view(),
            branch_filtered: self.branch_filtered@,
            branch_search: self.branch_search@,
            branch_selected: self.branch_selected,
        }
    }
}

/// A list selection that is present exactly when the list is non-empty, and
/// then inside it.
pub open spec fn selection_ok(sel: Option<usize>, len: nat) -> bool {
    &&& sel.is_some() == (len > 0)
    &&& sel matches Some(s) ==> s < len
}

/// Every filtered item refers to an item of a list of `n`.
pub open spec fn indices_ok(filtered: Seq<(usize, i64)>, n: nat) -> bool {
    forall|k: int| 0 <= k < filtered.len() ==> (#[trigger] filtered[k]).0 < n
}

/// The invariant of the browser state.
pub open spec fn app_wf(v: AppView) -> bool {
    &&& indices_ok(v.filtered, v.entries.len())
    &&& selection_ok(v.selected, v.filtered.len())
    &&& indices_ok(v.branch_filtered, v.branches.len())
    &&& selection_ok(v.branch_selected, v.branch_filtered.len())
    &&& v.new_wt_repo_idx matches Some(i) ==> i < v.entries.len()
}

/// `filtered` is what the filter gives for `texts` and `search`: everything
/// in order for an empty search, else the ranking of the matches.
pub open spec fn filter_ok(filtered: Seq<(usize, i64)>, texts: Seq<Seq<char>>, search: Seq<char>) -> bool {
    &&& search.len() == 0 ==> filtered == unranked(texts.len())
    &&& search.len() != 0 ==> is_ranking(filtered, scores_of(texts, search))
}

/// Both lists show what the filter gives for their current search.
pub open spec fn filters_consistent(v: AppView) -> bool {
    &&& filter_ok(v.filtered, entry_texts(v.entries), v.search)
    &&& filter_ok(v.branch_filtered, v.branches, v.branch_search)
}

/// The selection right after filtering: the first item, if any.
pub open spec fn first_or_none(len: nat) -> Option<usize> {
    if len == 0 {
        None
    } else {
        Some(0usize)
    }
}

/// The search texts of the entries.
pub open spec fn entry_texts(entries: Seq<EntryView>) -> Seq<Seq<char>> {
    entries.map_values(|e: EntryView| search_text_spec(e))
}

/// The selection after moving by `delta` rows, clamped to the list.
pub open spec fn moved(sel: Option<usize>, delta: int, len: nat) -> Option<usize> {
    if len == 0 {
        sel
    } else {
        let cur = match sel {
            Some(s) => s as int,
            None => 0,
        };
        let next = cur + delta;
        Some(
            (if next < 0 {
                0
            } else if next > len - 1 {
                len - 1
            } else {
                next
            }) as usize,
        )
    }
}

/// The entry under the selection, if any.
pub open spec fn selected_entry_spec(v: AppView) -> Option<EntryView> {
    match v.selected {
        Some(s) => if s < v.filtered.len() && v.filtered[s as int].0 < v.entries.len() {
            Some(v.entries[v.filtered[s as int].0 as int])
        } else {
            None
        },
        None => None,
    }
}

/// The branch under the selection of the branch picker, if any.
pub open spec fn selected_branch_spec(v: AppView) -> Option<Seq<char>> {
    match v.branch_selected {
        Some(s) => if s < v.branch_filtered.len() && v.branch_filtered[s as int].0 < v.branches.len() {
            Some(v.branches[v.branch_filtered[s as int].0 as int])
        } else {
            None
        },
        None => None,
    }
}

/// The directory for a new worktree of `branch`: `<repo>-<branch>` next to
/// the repository.
pub open spec fn new_worktree_dir(e: EntryView, branch: Seq<char>) -> Seq<char> {
    let base = match path_parent(e.repo_path) {
        Some(p) => p,
        None => e.repo_path,
    };
    path_join(base, e.repo_name + "-"@ + branch)
}

/// The entries of the repositories, one per worktree in repository order, each
/// marked with whether a session named after its worktree exists.
pub open spec fn entries_spec(repos: Seq<Repo>, sessions: Seq<Seq<char>>) -> Seq<EntryView>
    decreases repos.len(),
{
    if repos.len() == 0 {
        Seq::empty()
    } else {
        let r = repos.last();
        entries_spec(repos.drop_last(), sessions) + r.worktrees@.map_values(
            |w: Worktree|
                EntryView {
                    repo_name: r.name@,
                    repo_path: r.path@,
                    worktree: w@,
                    has_session: sessions.contains(session_name_spec(w.path@)),
                },
        )
    }
}

/// Whether `names` holds `name`.
fn contains_name(names: &Vec<String>, name: &String) -> (b: bool)
    ensures
        b == names.deep_view().contains(name@),
{
    let target = chars_of(name.as_str());
    let mut i: usize = 0;
    while i < names.len()
        invariant
            i <= names.len(),
            target@ == name@,
            forall|j: int| 0 <= j < i ==> names.deep_view()[j] != name@,
        decreases names.len() - i,
    {
        let cand = chars_of(names[i].as_str());
        if chars_equal(&cand, &target) {
            assert(names.deep_view()[i as int] == name@);
            return true;
        }
        i = i + 1;
    }
    false
}

/// The search text after Backspace: the last character removed, if any.
pub open spec fn popped(s: Seq<char>) -> Seq<char> {
    if s.len() == 0 {
        s
    } else {
        s.drop_last()
    }
}

/// The entry search changed to `search`, with the entries re-filtered.
pub open spec fn researched(pre: AppView, post: AppView, search: Seq<char>) -> bool {
    &&& post == (AppView { search, filtered: post.filtered, selected: post.selected, ..pre })
    &&& filter_ok(post.filtered, entry_texts(pre.entries), search)
    &&& post.selected == first_or_none(post.filtered.len())
}

/// The branch search changed to `search`, with the branches re-filtered.
pub open spec fn branch_researched(pre: AppView, post: AppView, search: Seq<char>) -> bool {
    &&& post == (AppView {
        branch_search: search,
        branch_filtered: post.branch_filtered,
        branch_selected: post.branch_selected,
        ..pre
    })
    &&& filter_ok(post.branch_filtered, pre.branches, search)
    &&& post.branch_selected == first_or_none(post.branch_filtered.len())
}

/// What a key press does in the list of worktrees.
pub open spec fn browse_key(pre: AppView, key: KeyInput, post: AppView, step: StepView) -> bool {
    match key {
        KeyInput::Esc | KeyInput::CtrlC => post == pre && step == StepView::Quit,
        KeyInput::Enter => post == pre && step == match selected_entry_spec(pre) {
            Some(e) => StepView::Open { path: e.worktree.path, split_command: pre.split_command },
            None => StepView::Continue,
        },
        KeyInput::CtrlW => post == pre && step == match selected_entry_spec(pre) {
            Some(e) => StepView::ListBranches { repo_path: e.repo_path },
            None => StepView::Continue,
        },
        KeyInput::Up => post == (AppView { selected: moved(pre.selected, -1, pre.filtered.len()), ..pre })
            && step == StepView::Continue,
        KeyInput::Down => post == (AppView { selected: moved(pre.selected, 1, pre.filtered.len()), ..pre })
            && step == StepView::Continue,
        KeyInput::Char(c) => researched(pre, post, pre.search.push(c)) && step == StepView::Continue,
        KeyInput::Backspace => researched(pre, post, popped(pre.search)) && step == StepView::Continue,
        KeyInput::Other => post == pre && step == StepView::Continue,
    }
}

/// What a key press does in the branch picker (Ctrl+W types a `w` here).
pub open spec fn new_worktree_key(pre: AppView, key: KeyInput, post: AppView, step: StepView) -> bool {
    match key {
        KeyInput::Esc | KeyInput::CtrlC => post == (AppView { mode: Mode::Browse, ..pre })
            && step == StepView::Continue,
        KeyInput::Enter => post == pre && step == match (pre.new_wt_repo_idx, selected_branch_spec(pre)) {
            (Some(i), Some(b)) => StepView::AddWorktree {
                repo_path: pre.entries[i as int].repo_path,
                branch: b,
                worktree_dir: new_worktree_dir(pre.entries[i as int], b),
            },
            _ => StepView::Continue,
        },
        KeyInput::Up => post == (AppView {
            branch_selected: moved(pre.branch_selected, -1, pre.branch_filtered.len()),
            ..pre
        }) && step == StepView::Continue,
        KeyInput::Down => post == (AppView {
            branch_selected: moved(pre.branch_selected, 1, pre.branch_filtered.len()),
            ..pre
        }) && step == StepView::Continue,
        KeyInput::Char(c) => branch_researched(pre, post, pre.branch_search.push(c)) && step
            == StepView::Continue,
        KeyInput::CtrlW => branch_researched(pre, post, pre.branch_search.push('w')) && step
            == StepView::Continue,
        KeyInput::Backspace => branch_researched(pre, post, popped(pre.branch_search)) && step
            == StepView::Continue,
        KeyInput::Other => post == pre && step == StepView::Continue,
    }
}

/// What a key press does in the current mode.
pub open spec fn key_transition(pre: AppView, key: KeyInput, post: AppView, step: StepView) -> bool {
    match pre.mode {
        Mode::Browse => browse_key(pre, key, post, step),
        Mode::NewWorktree => new_worktree_key(pre, key, post, step),
    }
}

impl App {
    /// The invariant of the browser state.
    pub closed spec fn wf(&self) -> bool {
        &&& app_wf(self@)
        &&& self.entries@.len() == self@.entries.len()
    }

    /// The browser over all worktrees of `repos`, none filtered out, the first
    /// selected; `sessions` names the tmux sessions that exist.
    pub fn new(repos: Vec<Repo>, split_command: Option<String>, sessions: Vec<String>) -> (app: App)
        ensures
            app.wf(),
            app@.entries == entries_spec(repos@, sessions.deep_view()),
            app@.filtered == unranked(app@.entries.len()),
            app@.selected == first_or_none(app@.entries.len()),
            app@.search.len() == 0,
            app@.split_command == split_command.deep_view(),
            app@.mode == Mode::Browse,
            app@.new_wt_repo_idx.is_none(),
            app@.branches.len() == 0,
            app@.branch_filtered.len() == 0,
            app@.branch_search.len() == 0,
            app@.branch_selected.is_none(),
            filters_consistent(app@),
    {
        let mut entries: Vec<Entry> = Vec::new();
        let mut r: usize = 0;
        while r < repos.len()
            invariant
                r <= repos.len(),
                entries@.map_values(|e: Entry| e@) == entries_spec(repos@.take(r as int), sessions.deep_view()),
            decreases repos.len() - r,
        {
            let repo = &repos[r];
            let ghost before = entries@.map_values(|e: Entry| e@);
            let ghost sess = sessions.deep_view();
            let ghost added = repo.worktrees@.map_values(
                |w: Worktree|
                    EntryView {
                        repo_name: repo.name@,
                        repo_path: repo.path@,
                        worktree: w@,
                        has_session: sess.contains(session_name_spec(w.path@)),
                    },
            );
            let mut w: usize = 0;
            while w < repo.worktrees.len()
                invariant
                    w <= repo.worktrees.len(),
                    repo == &repos@[r as int],
                    sess == sessions.deep_view(),
                    added == repo.worktrees@.map_values(
                        |w: Worktree|
                            EntryView {
                                repo_name: repo.name@,
                                repo_path: repo.path@,
                                worktree: w@,
                                has_session: sess.contains(session_name_spec(w.path@)),
                            },
                    ),
                    entries@.map_values(|e: Entry| e@) == before + added.take(w as int),
                decreases repo.worktrees.len() - w,
            {
                let wt = &repo.worktrees[w];
                let session_name = session_name_for(wt.path.as_str());
                let has_session = contains_name(&sessions, &session_name);
                let ghost old_entries = entries@;
                entries.push(Entry {
                    repo_name: repo.name.clone(),
                    repo_path: repo.path.clone(),
                    worktree: wt.duplicate(),
                    has_session,
                });
                assert(entries@.map_values(|e: Entry| e@) =~= old_entries.map_values(|e: Entry| e@).push(
                    added[w as int],
                ));
                assert(added.take(w + 1) =~= added.take(w as int).push(added[w as int]));
                w = w + 1;
            }
            assert(added.take(w as int) =~= added);
            assert(repos@.take(r + 1).drop_last() =~= repos@.take(r as int));
            r = r + 1;
        }
        assert(repos@.take(repos.len() as int) =~= repos@);
        let n = entries.len();
        let filtered = crate::matching::unranked_matches(n);
        let selected = if n == 0 {
            None
        } else {
            Some(0)
        };
        let app = App {
            entries,
            filtered,
            selected,
            search: String::new(),
            split_command,
            mode: Mode::Browse,
            new_wt_repo_idx: None,
            branches: Vec::new(),
            branch_filtered: Vec::new(),
            branch_search: String::new(),
            branch_selected: None,
        };
        assert(app@.branch_filtered =~= unranked(0));
        assert(app@.branches.len() == 0);
        app
    }

    /// Re-filters the entries against the search and selects the first match.
    fn update_filter(&mut self)
        requires
            old(self).wf(),
        ensures
            final(self).wf(),
            filter_ok(final(self)@.filtered, entry_texts(old(self)@.entries), old(self)@.search),
            final(self)@.selected == first_or_none(final(self)@.filtered.len()),
            final(self)@ == (AppView { filtered: final(self)@.filtered, selected: final(self)@.selected, ..old(self)@ }),
    {
        let mut texts: Vec<String> = Vec::new();
        let mut i: usize = 0;
        while i < self.entries.len()
            invariant
                i <= self.entries.len(),
                self.wf(),
                self@ == old(self)@,
                texts.deep_view() == entry_texts(self@.entries).take(i as int),
            decreases self.entries.len() - i,
        {
            let t = self.entries[i].search_text();
            assert(self@.entries[i as int] == self.entries@[i as int]@);
            let ghost old_texts = texts.deep_view();
            texts.push(t);
            assert(texts.deep_view() =~= old_texts.push(t@));
            assert(entry_texts(self@.entries)[i as int] == t@);
            assert(texts.deep_view() =~= entry_texts(self@.entries).take(i + 1));
            i = i + 1;
        }
        assert(texts.deep_view() =~= entry_texts(self@.entries));
        let filtered = filter_and_rank(&texts, self.search.as_str());
        proof {
            if self.search@.len() != 0 {
                assert(indices_ok(filtered@, self@.entries.len()));
            }
        }
        self.selected = if filtered.len() == 0 {
            None
        } else {
            Some(0)
        };
        self.filtered = filtered;
        assert(self@ =~= (AppView { filtered: self@.filtered, selected: self@.selected, ..old(self)@ }));
    }

    /// Re-filters the branches against the branch search and selects the first match.
    fn update_branch_filter(&mut self)
        requires
            old(self).wf(),
        ensures
            final(self).wf(),
            filter_ok(final(self)@.branch_filtered, old(self)@.branches, old(self)@.branch_search),
            final(self)@.branch_selected == first_or_none(final(self)@.branch_filtered.len()),
            final(self)@ == (AppView {
                branch_filtered: final(self)@.branch_filtered,
                branch_selected: final(self)@.branch_selected,
                ..old(self)@
            }),
    {
        let filtered = filter_and_rank(&self.branches, self.branch_search.as_str());
        self.branch_selected = if filtered.len() == 0 {
            None
        } else {
            Some(0)
        };
        self.branch_filtered = filtered;
        assert(self@ =~= (AppView {
            branch_filtered: self@.branch_filtered,
            branch_selected: self@.branch_selected,
            ..old(self)@
        }));
    }

    /// The selected entry, if any.
    fn selected_entry(&self) -> (r: Option<&Entry>)
        requires
            self.wf(),
        ensures
            match r {
                Some(e) => selected_entry_spec(self@) == Some(e@),
                None => selected_entry_spec(self@).is_none(),
            },
    {
        let sel = self.selected?;
        let (idx, _) = self.filtered[sel];
        Some(&self.entries[idx])
    }

    /// The selected branch, if any.
    fn selected_branch(&self) -> (r: Option<&String>)
        requires
            self.wf(),
        ensures
            match r {
                Some(b) => selected_branch_spec(self@) == Some(b@),
                None => selected_branch_spec(self@).is_none(),
            },
    {
        let sel = self.branch_selected?;
        let (idx, _) = self.branch_filtered[sel];
        Some(&self.branches[idx])
    }

    /// Handles one key press; the returned step says what the caller has to do.
    pub fn handle_key(&mut self, key: KeyInput) -> (step: Step)
        requires
            old(self).wf(),
            key == KeyInput::Up || key == KeyInput::Down ==> old(self)@.filtered.len() <= i32::MAX
                && old(self)@.branch_filtered.len() <= i32::MAX,
        ensures
            final(self).wf(),
            key_transition(old(self)@, key, final(self)@, step@),
            filters_consistent(old(self)@) ==> filters_consistent(final(self)@),
    {
        match self.mode {
            Mode::Browse => match key {
                KeyInput::Esc | KeyInput::CtrlC => Step::Quit,
                KeyInput::Enter => {
                    match self.selected_entry() {
                        Some(entry) => {
                            let split_command = match &self.split_command {
                                Some(c) => Some(c.clone()),
                                None => None,
                            };
                            Step::Open(OpenAction::Open { path: entry.worktree.path.clone(), split_command })
                        },
                        None => Step::Continue,
                    }
                },
                KeyInput::CtrlW => {
                    match self.selected_entry() {
                        Some(entry) => Step::ListBranches { repo_path: entry.repo_path.clone() },
                        None => Step::Continue,
                    }
                },
                KeyInput::Up => {
                    self.move_selection(-1);
                    Step::Continue
                },
                KeyInput::Down => {
                    self.move_selection(1);
                    Step::Continue
                },
                KeyInput::Char(c) => {
                    self.search.push(c);
                    self.update_filter();
                    Step::Continue
                },
                KeyInput::Backspace => {
                    self.search.pop();
                    self.update_filter();
                    Step::Continue
                },
                KeyInput::Other => Step::Continue,
            },
            Mode::NewWorktree => match key {
                KeyInput::Esc | KeyInput::CtrlC => {
                    self.mode = Mode::Browse;
                    Step::Continue
                },
                KeyInput::Enter => {
                    match (self.new_wt_repo_idx, self.selected_branch()) {
                        (Some(entry_idx), Some(branch)) => {
                            let entry = &self.entries[entry_idx];
                            assert(self@.entries[entry_idx as int] == entry@);
                            let base = match parent(entry.repo_path.as_str()) {
                                Some(p) => p,
                                None => entry.repo_path.clone(),
                            };
                            let mut name = entry.repo_name.clone();
                            push_str(&mut name, "-");
                            push_str(&mut name, branch.as_str());
                            let worktree_dir = join(base.as_str(), name.as_str());
                            Step::AddWorktree {
                                repo_path: entry.repo_path.clone(),
                                branch: branch.clone(),
                                worktree_dir,
                            }
                        },
                        _ => Step::Continue,
                    }
                },
                KeyInput::Up => {
                    self.move_branch_selection(-1);
                    Step::Continue
                },
                KeyInput::Down => {
                    self.move_branch_selection(1);
                    Step::Continue
                },
                KeyInput::Char(c) => {
                    self.branch_search.push(c);
                    self.update_branch_filter();
                    Step::Continue
                },
                KeyInput::CtrlW => {
                    self.branch_search.push('w');
                    self.update_branch_filter();
                    Step::Continue
                },
                KeyInput::Backspace => {
                    self.branch_search.pop();
                    self.update_branch_filter();
                    Step::Continue
                },
                KeyInput::Other => Step::Continue,
            },
        }
    }

    /// Opens the branch picker for the selected entry's repository with its
    /// local branches, all shown and the first selected.
    pub fn begin_new_worktree(&mut self, branches: Vec<String>)
        requires
            old(self).wf(),
        ensures
            final(self).wf(),
            final(self)@ == (AppView {
                branches: branches.deep_view(),
                branch_search: Seq::empty(),
                branch_filtered: unranked(branches@.len()),
                branch_selected: first_or_none(branches@.len()),
                new_wt_repo_idx: match old(self)@.selected {
                    Some(s) => Some(old(self)@.filtered[s as int].0),
                    None => None,
                },
                mode: Mode::NewWorktree,
                ..old(self)@
            }),
            filters_consistent(old(self)@) ==> filters_consistent(final(self)@),
    {
        self.branch_filtered = Vec::new();
        self.branch_selected = None;
        self.branches = branches;
        self.branch_search = String::new();
        self.update_branch_filter();
        self.new_wt_repo_idx = match self.selected {
            Some(s) => Some(self.filtered[s].0),
            None => None,
        };
        self.mode = Mode::NewWorktree;
    }

    /// The action that opens a worktree created in `worktree_dir`.
    pub fn open_new_worktree(&self, worktree_dir: String) -> (action: OpenAction)
        ensures
            action matches OpenAction::Open { path, split_command } && path@ == worktree_dir@
                && split_command.deep_view() == self@.split_command,
    {
        let split_command = match &self.split_command {
            Some(c) => Some(c.clone()),
            None => None,
        };
        OpenAction::Open { path: worktree_dir, split_command }
    }

    /// The search typed in the worktree list.
    pub fn search(&self) -> (s: &str)
        ensures
            s@ == self@.search,
    {
        self.search.as_str()
    }

    /// The search typed in the branch picker.
    pub fn branch_search(&self) -> (s: &str)
        ensures
            s@ == self@.branch_search,
    {
        self.branch_search.as_str()
    }

    /// Number of rows shown in the worktree list.
    pub fn row_count(&self) -> (n: usize)
        ensures
            n == self@.filtered.len(),
    {
        self.filtered.len()
    }

    /// The text of the `k`-th row shown and whether its worktree has a tmux
    /// session.
    pub fn row(&self, k: usize) -> (r: (String, bool))
        requires
            self.wf(),
            k < self@.filtered.len(),
        ensures
            r.0@ == display_name_spec(self@.entries[self@.filtered[k as int].0 as int]),
            r.1 == self@.entries[self@.filtered[k as int].0 as int].has_session,
    {
        let (idx, _) = self.filtered[k];
        let e = &self.entries[idx];
        assert(self@.entries[idx as int] == e@);
        (e.display_name(), e.has_session)
    }

    /// The selected row of the worktree list.
    pub fn selected(&self) -> (s: Option<usize>)
        ensures
            s == self@.selected,
    {
        self.selected
    }

    /// The title of the worktree list: the number of rows shown.
    pub fn list_title(&self) -> (t: String)
        ensures
            t@ == " "@ + decimal(self@.filtered.len()) + " entries "@,
    {
        let mut t = String::new();
        push_str(&mut t, " ");
        push_decimal(&mut t, self.filtered.len());
        push_str(&mut t, " entries ");
        t
    }

    /// Number of rows shown in the branch picker.
    pub fn branch_row_count(&self) -> (n: usize)
        ensures
            n == self@.branch_filtered.len(),
    {
        self.branch_filtered.len()
    }

    /// The branch on the `k`-th row of the branch picker.
    pub fn branch_row(&self, k: usize) -> (b: &str)
        requires
            self.wf(),
            k < self@.branch_filtered.len(),
        ensures
            b@ == self@.branches[self@.branch_filtered[k as int].0 as int],
    {
        let (idx, _) = self.branch_filtered[k];
        self.branches[idx].as_str()
    }

    /// The selected row of the branch picker.
    pub fn branch_selected(&self) -> (s: Option<usize>)
        ensures
            s == self@.branch_selected,
    {
        self.branch_selected
    }

    /// The current mode.
    pub fn mode(&self) -> (m: Mode)
        ensures
            m == self@.mode,
    {
        self.mode
    }

    /// Moves the entry selection by `delta` rows, clamped to the list.
    fn move_selection(&mut self, delta: i32)
        requires
            old(self).wf(),
            old(self).filtered@.len() <= i32::MAX,
        ensures
            final(self).wf(),
            final(self)@ == (AppView {
                selected: moved(old(self)@.selected, delta as int, old(self)@.filtered.len()),
                ..old(self)@
            }),
    {
        if self.filtered.len() == 0 {
            return;
        }
        let current: i64 = match self.selected {
            Some(s) => s as i64,
            None => 0,
        };
        let max: i64 = self.filtered.len() as i64 - 1;
        let next = current + delta as i64;
        let clamped: i64 = if next < 0 {
            0
        } else if next > max {
            max
        } else {
            next
        };
        self.selected = Some(clamped as usize);
    }

    /// Moves the branch selection by `delta` rows, clamped to the list.
    fn move_branch_selection(&mut self, delta: i32)
        requires
            old(self).wf(),
            old(self).branch_filtered@.len() <= i32::MAX,
        ensures
            final(self).wf(),
            final(self)@ == (AppView {
                branch_selected: moved(old(self)@.branch_selected, delta as int, old(self)@.branch_filtered.len()),
                ..old(self)@
            }),
    {
        if self.branch_filtered.len() == 0 {
            return;
        }
        let current: i64 = match self.branch_selected {
            Some(s) => s as i64,
            None => 0,
        };
        let max: i64 = self.branch_filtered.len() as i64 - 1;
        let next = current + delta as i64;
        let clamped: i64 = if next < 0 {
            0
        } else if next > max {
            max
        } else {
            next
        };
        self.branch_selected = Some(clamped as usize);
    }
}

/// Law: in the worktree list, typing a character and deleting it again
/// gives back the same search and the same filtered rows, with the first row
/// selected.
pub proof fn lemma_type_then_backspace(
    a: AppView,
    c: char,
    b: AppView,
    s1: StepView,
    d: AppView,
    s2: StepView,
)
    requires
        a.mode == Mode::Browse,
        filters_consistent(a),
        key_transition(a, KeyInput::Char(c), b, s1),
        key_transition(b, KeyInput::Backspace, d, s2),
    ensures
        d == (AppView { selected: first_or_none(a.filtered.len()), ..a }),
{
    assert(popped(a.search.push(c)) =~= a.search);
    let texts = entry_texts(a.entries);
    if a.search.len() == 0 {
        assert(d.filtered =~= a.filtered);
    } else {
        lemma_ranking_unique(d.filtered, a.filtered, scores_of(texts, a.search));
    }
}

/// Law: in the branch picker, typing a character and deleting it again gives
/// back the same search and the same filtered branches, with the first one
/// selected.
pub proof fn lemma_branch_type_then_backspace(
    a: AppView,
    c: char,
    b: AppView,
    s1: StepView,
    d: AppView,
    s2: StepView,
)
    requires
        a.mode == Mode::NewWorktree,
        filters_consistent(a),
        key_transition(a, KeyInput::Char(c), b, s1),
        key_transition(b, KeyInput::Backspace, d, s2),
    ensures
        d == (AppView { branch_selected: first_or_none(a.branch_filtered.len()), ..a }),
{
    assert(popped(a.branch_search.push(c)) =~= a.branch_search);
    if a.branch_search.len() == 0 {
        assert(d.branch_filtered =~= a.branch_filtered);
    } else {
        lemma_ranking_unique(d.branch_filtered, a.branch_filtered, scores_of(a.branches, a.branch_search));
    }
}

/// Law: leaving the branch picker with Esc returns to the worktree list with
/// everything else as it was.
pub proof fn lemma_escape_from_branch_picker(a: AppView, b: AppView, s: StepView)
    requires
        a.mode == Mode::NewWorktree,
        key_transition(a, KeyInput::Esc, b, s),
    ensures
        b == (AppView { mode: Mode::Browse, ..a }),
        s == StepView::Continue,
{
}

} // verus!
