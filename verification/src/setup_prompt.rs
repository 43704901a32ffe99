//! The directory prompt of the first-run setup: typing a path with
//! completion of directory names, picking a completion, and collecting the
//! search directories. Listing directories is left to the caller, which is
//! told which text to complete and hands back the completions.
use vstd::prelude::*;
use crate::path_input::{common_prefix, is_longest_common_prefix, texts};
use crate::text::{byte_len, char_count, chars_equal, chars_of, owned, trim, trim_str, utf8_len};

verus! {

/// The state of the directory prompt.
#[derive(Debug)]
pub struct SetupPrompt {
    /// The text typed.
    pub input: String,
    /// The cursor, as a byte offset into the text.
    pub cursor: usize,
    /// The directories that complete the text.
    pub completions: Vec<String>,
    /// The highlighted completion, if any.
    pub selected_completion: Option<usize>,
    /// The search directories added so far.
    pub dirs: Vec<String>,
}

/// The state of the prompt, as plain values.
#[verifier::ext_equal]
pub struct SetupView {
    pub input: Seq<char>,
    pub cursor: usize,
    pub completions: Seq<Seq<char>>,
    pub selected_completion: Option<usize>,
    pub dirs: Seq<Seq<char>>,
}

impl View for SetupPrompt {
    type V = SetupView;

    open spec fn view(&self) -> SetupView {
        SetupView {
            input: self.input@,
            cursor: self.cursor,
            completions: self.completions.deep_view(),
            selected_completion: self.selected_completion,
            dirs: self.dirs.deep_view(),
        }
    }
}

/// What the caller has to do after a key press in the prompt.
#[derive(Debug, PartialEq, Eq)]
pub enum PromptResult {
    /// Nothing.
    Done,
    /// List the directories that complete this text (`complete_from_listing`)
    /// and hand them to `set_completions`.
    Complete(String),
    /// Show this error.
    Error(String),
    /// The search directories are chosen: the setup is finished.
    Finished,
}

/// A result, as plain values.
pub enum PromptResultView {
    Done,
    Complete(Seq<char>),
    Error(Seq<char>),
    Finished,
}

impl View for PromptResult {
    type V = PromptResultView;

    open spec fn view(&self) -> PromptResultView {
        match self {
            PromptResult::Done => PromptResultView::Done,
            PromptResult::Complete(t) => PromptResultView::Complete(t@),
            PromptResult::Error(e) => PromptResultView::Error(e@),
            PromptResult::Finished => PromptResultView::Finished,
        }
    }
}

/// The longest common prefix of the non-empty `ss`.
pub open spec fn lcp_of(ss: Seq<Seq<char>>) -> Seq<char> {
    choose|p: Seq<char>| is_longest_common_prefix(p, ss)
}

/// Law: the longest common prefix is unique.
pub proof fn lemma_longest_common_prefix_unique(p: Seq<char>, q: Seq<char>, ss: Seq<Seq<char>>)
    requires
        ss.len() > 0,
        is_longest_common_prefix(p, ss),
        is_longest_common_prefix(q, ss),
    ensures
        p == q,
{
    assert(p.len() <= ss[0].len() && ss[0].take(p.len() as int) == p);
    assert(q.len() <= ss[0].len() && ss[0].take(q.len() as int) == q);
    if p.len() < q.len() {
        let i = choose|i: int|
            0 <= i < ss.len() && ((#[trigger] ss[i]).len() == p.len() || ss[i][p.len() as int] != ss[0][p.len() as int]);
        assert(q.len() <= ss[i].len() && ss[i].take(q.len() as int) == q);
        assert(ss[i][p.len() as int] == q[p.len() as int]);
        assert(ss[0][p.len() as int] == q[p.len() as int]);
    } else if q.len() < p.len() {
        let i = choose|i: int|
            0 <= i < ss.len() && ((#[trigger] ss[i]).len() == q.len() || ss[i][q.len() as int] != ss[0][q.len() as int]);
        assert(p.len() <= ss[i].len() && ss[i].take(p.len() as int) == p);
        assert(ss[i][q.len() as int] == p[q.len() as int]);
        assert(ss[0][q.len() as int] == p[q.len() as int]);
    } else {
        assert(p =~= q);
    }
}

/// The completion as entered: with a trailing `/` so that the next
/// completion lists its contents.
pub open spec fn with_slash(c: Seq<char>) -> Seq<char> {
    if c.len() > 0 && c.last() == '/' {
        c
    } else {
        c.push('/')
    }
}

/// Filling completion `index` into the prompt: the text becomes the
/// completion with a trailing `/`, the cursor goes to its end, and the
/// completions are to be listed anew; nothing happens for a completion
/// that does not exist.
pub open spec fn fill_spec(v: SetupView, index: usize) -> (SetupView, PromptResultView) {
    if index < v.completions.len() {
        let w = with_slash(v.completions[index as int]);
        (
            SetupView { input: w, cursor: utf8_len(w) as usize, completions: Seq::empty(), selected_completion: None, ..v },
            PromptResultView::Complete(w),
        )
    } else {
        (v, PromptResultView::Done)
    }
}

/// Tab: list completions when there are none; fill in the only one; else
/// extend the text to the completions' longest common prefix when that is
/// longer; else fill in the highlighted (or first) completion.
pub open spec fn tab_spec(v: SetupView) -> (SetupView, PromptResultView) {
    if v.completions.len() == 0 {
        (SetupView { selected_completion: None, ..v }, PromptResultView::Complete(v.input))
    } else if v.completions.len() == 1 {
        fill_spec(v, 0)
    } else {
        let common = lcp_of(v.completions);
        if common.len() > 0 && common != v.input {
            (
                SetupView {
                    input: common,
                    cursor: utf8_len(common) as usize,
                    completions: Seq::empty(),
                    selected_completion: None,
                    ..v
                },
                PromptResultView::Complete(common),
            )
        } else {
            fill_spec(
                v,
                match v.selected_completion {
                    Some(s) => s,
                    None => 0,
                },
            )
        }
    }
}

/// Enter: fill in the highlighted completion if there is one; else add the
/// trimmed text as a search directory (once), or finish on an empty text
/// when a directory was added, or ask for one.
pub open spec fn add_dir_spec(v: SetupView) -> (SetupView, PromptResultView) {
    match v.selected_completion {
        Some(s) => fill_spec(v, s),
        None => {
            let t = trim(v.input);
            if t.len() == 0 {
                if v.dirs.len() == 0 {
                    (v, PromptResultView::Error("Add at least one directory"@))
                } else {
                    (v, PromptResultView::Finished)
                }
            } else {
                (
                    SetupView {
                        input: Seq::empty(),
                        cursor: 0,
                        completions: Seq::empty(),
                        selected_completion: None,
                        dirs: if v.dirs.contains(t) {
                            v.dirs
                        } else {
                            v.dirs.push(t)
                        },
                    },
                    PromptResultView::Done,
                )
            }
        },
    }
}

/// The highlighted completion after moving by `delta`: moving past either
/// end goes back to the text (no highlight), and from the text down goes
/// to the first completion and up to the last.
pub open spec fn moved_selection(selected: Option<usize>, delta: int, len: nat) -> Option<usize> {
    let step = if delta < 0 {
        -delta
    } else {
        delta
    };
    match selected {
        None => if delta > 0 {
            Some(0usize)
        } else {
            Some((len - 1) as usize)
        },
        Some(c) => if delta > 0 {
            let next = if c + step > usize::MAX {
                usize::MAX as int
            } else {
                c + step
            };
            if next >= len {
                None
            } else {
                Some(next as usize)
            }
        } else if c == 0 {
            None
        } else {
            Some((if c > step {
                c - step
            } else {
                0
            }) as usize)
        },
    }
}

/// No directory occurs twice.
pub open spec fn no_duplicates(dirs: Seq<Seq<char>>) -> bool {
    forall|i: int, j: int| 0 <= i < j < dirs.len() ==> dirs[i] != dirs[j]
}

impl SetupPrompt {
    /// An empty prompt.
    pub fn new() -> (p: SetupPrompt)
        ensures
            p@.input.len() == 0,
            p@.cursor == 0,
            p@.completions.len() == 0,
            p@.selected_completion is None,
            p@.dirs.len() == 0,
    {
        SetupPrompt {
            input: String::new(),
            cursor: 0,
            completions: Vec::new(),
            selected_completion: None,
            dirs: Vec::new(),
        }
    }

    /// The completions listed for the text; none is highlighted.
    pub fn set_completions(&mut self, completions: Vec<String>)
        ensures
            final(self)@ == (SetupView {
                completions: completions.deep_view(),
                selected_completion: None,
                ..old(self)@
            }),
    {
        self.completions = completions;
        self.selected_completion = None;
    }

    /// Fills completion `index` into the text.
    pub fn fill_completion(&mut self, index: usize) -> (r: PromptResult)
        ensures
            (final(self)@, r@) == fill_spec(old(self)@, index),
    {
        if index >= self.completions.len() {
            return PromptResult::Done;
        }
        let c = chars_of(self.completions[index].as_str());
        let mut w = self.completions[index].clone();
        if !(c.len() > 0 && c[c.len() - 1] == '/') {
            w.push('/');
        }
        self.cursor = byte_len(w.as_str());
        self.input = w.clone();
        self.completions = Vec::new();
        self.selected_completion = None;
        assert(self.completions.deep_view() =~= Seq::<Seq<char>>::empty());
        PromptResult::Complete(w)
    }

    /// Handles Tab.
    pub fn tab_complete(&mut self) -> (r: PromptResult)
        ensures
            (final(self)@, r@) == tab_spec(old(self)@),
    {
        if self.completions.len() == 0 {
            self.selected_completion = None;
            return PromptResult::Complete(self.input.clone());
        }
        if self.completions.len() == 1 {
            return self.fill_completion(0);
        }
        let common = common_prefix(self.completions.as_slice());
        proof {
            assert(texts(self.completions@) == self.completions.deep_view());
            let ss = self.completions.deep_view();
            assert(is_longest_common_prefix(lcp_of(ss), ss));
            lemma_longest_common_prefix_unique(common@, lcp_of(ss), ss);
        }
        let cc = chars_of(common.as_str());
        let input_chars = chars_of(self.input.as_str());
        if cc.len() > 0 && !chars_equal(&cc, &input_chars) {
            self.cursor = byte_len(common.as_str());
            self.input = common.clone();
            self.completions = Vec::new();
            self.selected_completion = None;
            assert(self.completions.deep_view() =~= Seq::<Seq<char>>::empty());
            return PromptResult::Complete(common);
        }
        let sel = match self.selected_completion {
            Some(s) => s,
            None => 0,
        };
        self.fill_completion(sel)
    }

    /// Handles Enter.
    pub fn add_dir(&mut self) -> (r: PromptResult)
        ensures
            (final(self)@, r@) == add_dir_spec(old(self)@),
    {
        if let Some(sel) = self.selected_completion {
            return self.fill_completion(sel);
        }
        let t = trim_str(self.input.as_str());
        if char_count(t.as_str()) == 0 {
            if self.dirs.len() == 0 {
                return PromptResult::Error(owned("Add at least one directory"));
            }
            return PromptResult::Finished;
        }
        let tc = chars_of(t.as_str());
        let mut found = false;
        let mut i: usize = 0;
        while i < self.dirs.len()
            invariant
                i <= self.dirs.len(),
                tc@ == t@,
                found == (exists|j: int| 0 <= j < i && self.dirs.deep_view()[j] == t@),
            decreases self.dirs.len() - i,
        {
            let d = chars_of(self.dirs[i].as_str());
            if chars_equal(&d, &tc) {
                found = true;
            }
            assert(self.dirs.deep_view()[i as int] == d@);
            i = i + 1;
        }
        proof {
            if found {
                let j = choose|j: int| 0 <= j < self.dirs.len() && self.dirs.deep_view()[j] == t@;
                assert(self.dirs.deep_view().contains(t@));
            } else {
                assert(!self.dirs.deep_view().contains(t@));
            }
        }
        if !found {
            self.dirs.push(t);
        }
        self.input = String::new();
        self.cursor = 0;
        self.completions = Vec::new();
        self.selected_completion = None;
        assert(self.completions.deep_view() =~= Seq::<Seq<char>>::empty());
        assert(self@ =~= add_dir_spec(old(self)@).0);
        PromptResult::Done
    }

    /// Moves the highlight among the completions by `delta`.
    pub fn move_selection(&mut self, delta: i32)
        ensures
            old(self)@.completions.len() == 0 ==> final(self)@ == old(self)@,
            old(self)@.completions.len() > 0 ==> final(self)@ == (SetupView {
                selected_completion: moved_selection(
                    old(self)@.selected_completion,
                    delta as int,
                    old(self)@.completions.len(),
                ),
                ..old(self)@
            }),
    {
        if self.completions.len() == 0 {
            return;
        }
        let len = self.completions.len();
        let step: usize = if delta < 0 {
            (0 - (delta as i64)) as usize
        } else {
            delta as usize
        };
        self.selected_completion = match self.selected_completion {
            None => if delta > 0 {
                Some(0)
            } else {
                Some(len - 1)
            },
            Some(current) => if delta > 0 {
                let next = current.saturating_add(step);
                if next >= len {
                    None
                } else {
                    Some(next)
                }
            } else if current == 0 {
                None
            } else {
                Some(current.saturating_sub(step))
            },
        };
    }

    /// Handles Esc: clears the highlight if there is one (`false`), else
    /// the prompt is left (`true`).
    pub fn cancel(&mut self) -> (quit: bool)
        ensures
            quit == (old(self)@.selected_completion is None),
            final(self)@ == (SetupView { selected_completion: None, ..old(self)@ }),
    {
        if self.selected_completion.is_some() {
            self.selected_completion = None;
            false
        } else {
            true
        }
    }
}

/// Law: Enter never adds a directory twice, and after it adds one the
/// trimmed text is among the directories.
pub proof fn lemma_add_dir_keeps_dirs_unique(v: SetupView)
    requires
        no_duplicates(v.dirs),
    ensures
        no_duplicates(add_dir_spec(v).0.dirs),
        v.selected_completion is None && trim(v.input).len() > 0 ==> add_dir_spec(v).0.dirs.contains(trim(v.input)),
{
    if v.selected_completion is None {
        let t = trim(v.input);
        if t.len() > 0 && !v.dirs.contains(t) {
            let d = v.dirs.push(t);
            assert forall|i: int, j: int| 0 <= i < j < d.len() implies d[i] != d[j] by {
                if j == d.len() - 1 {
                    assert(d[i] == v.dirs[i]);
                    assert(v.dirs.contains(v.dirs[i]));
                }
            }
            assert(d[d.len() - 1] == t);
        }
    } else {
        let s = v.selected_completion->0;
        if s < v.completions.len() {
        }
    }
}

/// Law: moving the highlight down through all completions and once more
/// comes back to the text, and so does moving up.
pub proof fn lemma_move_selection_round_trip(len: nat)
    requires
        0 < len <= usize::MAX,
    ensures
        moved_selection(Some((len - 1) as usize), 1, len) is None,
        moved_selection(Some(0usize), -1, len) is None,
        moved_selection(None, 1, len) == Some(0usize),
        moved_selection(None, -1, len) == Some((len - 1) as usize),
{
}

} // verus!
