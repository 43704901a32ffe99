//! The rows of the branch picker as styled text: each branch with its
//! markers (remote, being deleted, with a session or a worktree, current),
//! the row shown while branches load or offering to create the branch
//! searched for, and the titles of the picker.
use vstd::prelude::*;
use crate::list_row::{span_views, SpanView, StyledSpan};
use crate::text::{chars_of, decimal, owned, push_decimal, push_str};

verus! {

/// The styles of the branch picker's rows (from the theme: muted, muted in
/// italics, accent, success, success in bold, warning).
pub struct RowStyles<S> {
    pub muted: S,
    pub muted_italic: S,
    pub accent: S,
    pub success: S,
    pub success_bold: S,
    pub warning: S,
}

/// The row of a branch: a remote-only branch muted, with its remote in
/// parentheses; a local branch plain, followed by the first that holds of
/// "being deleted" (accent), "has a session" (success) and "has a worktree"
/// (warning), and by ` *` (accent) when it is the current branch.
pub open spec fn branch_row_spec<S>(
    name: Seq<char>,
    remote: Option<Seq<char>>,
    deleting: bool,
    has_session: bool,
    has_worktree: bool,
    is_current: bool,
    st: RowStyles<S>,
) -> Seq<SpanView<S>> {
    match remote {
        Some(r) => seq![(name, Some(st.muted)), (" ("@ + r + ")"@, Some(st.muted_italic))],
        None => {
            let marker: Seq<SpanView<S>> = if deleting {
                seq![(" (deleting...)"@, Some(st.accent))]
            } else if has_session {
                seq![(" (session)"@, Some(st.success))]
            } else if has_worktree {
                seq![(" (worktree)"@, Some(st.warning))]
            } else {
                Seq::empty()
            };
            let current: Seq<SpanView<S>> = if is_current {
                seq![(" *"@, Some(st.accent))]
            } else {
                Seq::empty()
            };
            seq![(name, None::<S>)] + marker + current
        },
    }
}

/// A span with a style.
fn styled<S>(text: &str, style: S) -> (r: StyledSpan<S>)
    ensures
        r@ == (text@, Some(style)),
{
    StyledSpan { text: owned(text), style: Some(style) }
}

/// The styled row of a branch (see `branch_row_spec`).
pub fn branch_row_spans<S: Copy>(
    name: &str,
    remote: Option<&str>,
    deleting: bool,
    has_session: bool,
    has_worktree: bool,
    is_current: bool,
    styles: &RowStyles<S>,
) -> (r: Vec<StyledSpan<S>>)
    ensures
        span_views(r@) == branch_row_spec(
            name@,
            match remote {
                Some(x) => Some(x@),
                None => None,
            },
            deleting,
            has_session,
            has_worktree,
            is_current,
            *styles,
        ),
{
    let mut r: Vec<StyledSpan<S>> = Vec::new();
    match remote {
        Some(rem) => {
            r.push(styled(name, styles.muted));
            let mut t = owned(" (");
            push_str(&mut t, rem);
            push_str(&mut t, ")");
            r.push(StyledSpan { text: t, style: Some(styles.muted_italic) });
            assert(span_views(r@) =~= seq![(name@, Some(styles.muted)), (" ("@ + rem@ + ")"@, Some(styles.muted_italic))]);
        },
        None => {
            r.push(StyledSpan { text: owned(name), style: None });
            let ghost head = span_views(r@);
            assert(head =~= seq![(name@, None::<S>)]);
            if deleting {
                r.push(styled(" (deleting...)", styles.accent));
            } else if has_session {
                r.push(styled(" (session)", styles.success));
            } else if has_worktree {
                r.push(styled(" (worktree)", styles.warning));
            }
            let ghost marked = span_views(r@);
            if is_current {
                r.push(styled(" *", styles.accent));
            }
            let ghost marker: Seq<SpanView<S>> = if deleting {
                seq![(" (deleting...)"@, Some(styles.accent))]
            } else if has_session {
                seq![(" (session)"@, Some(styles.success))]
            } else if has_worktree {
                seq![(" (worktree)"@, Some(styles.warning))]
            } else {
                Seq::empty()
            };
            assert(marked =~= head + marker);
            let ghost current: Seq<SpanView<S>> = if is_current {
                seq![(" *"@, Some(styles.accent))]
            } else {
                Seq::empty()
            };
            assert(span_views(r@) =~= head + marker + current);
        },
    }
    r
}

/// The extra row of the branch picker: "Loading branches..." (muted) while
/// branches load and none is shown; else, when no branch matches a non-empty
/// search, the offer to create it: `+ Create branch ` (success), the search
/// quoted (success, bold) and ` (Enter to pick base)` (muted); else none.
pub open spec fn extra_row_spec<S>(loading: bool, shown: nat, search: Seq<char>, st: RowStyles<S>) -> Option<
    Seq<SpanView<S>>,
> {
    if loading && shown == 0 {
        Some(seq![("Loading branches..."@, Some(st.muted))])
    } else if shown == 0 && search.len() != 0 {
        Some(
            seq![
                ("+ Create branch "@, Some(st.success)),
                (seq!['"'] + search + seq!['"'], Some(st.success_bold)),
                (" (Enter to pick base)"@, Some(st.muted)),
            ],
        )
    } else {
        None
    }
}

/// The extra row of the branch picker (see `extra_row_spec`).
pub fn branch_extra_row<S: Copy>(loading: bool, shown: usize, search: &str, styles: &RowStyles<S>) -> (r: Option<
    Vec<StyledSpan<S>>,
>)
    ensures
        match extra_row_spec(loading, shown as nat, search@, *styles) {
            Some(v) => r matches Some(x) && span_views(x@) == v,
            None => r is None,
        },
{
    if loading && shown == 0 {
        let mut r: Vec<StyledSpan<S>> = Vec::new();
        r.push(styled("Loading branches...", styles.muted));
        assert(span_views(r@) =~= seq![("Loading branches..."@, Some(styles.muted))]);
        Some(r)
    } else if shown == 0 && chars_of(search).len() != 0 {
        let mut q = String::new();
        q.push('"');
        push_str(&mut q, search);
        q.push('"');
        assert(q@ =~= seq!['"'] + search@ + seq!['"']);
        let mut r: Vec<StyledSpan<S>> = Vec::new();
        r.push(styled("+ Create branch ", styles.success));
        r.push(StyledSpan { text: q, style: Some(styles.success_bold) });
        r.push(styled(" (Enter to pick base)", styles.muted));
        assert(span_views(r@) =~= seq![
            ("+ Create branch "@, Some(styles.success)),
            (seq!['"'] + search@ + seq!['"'], Some(styles.success_bold)),
            (" (Enter to pick base)"@, Some(styles.muted)),
        ]);
        Some(r)
    } else {
        None
    }
}

/// The title of the branch list: the number of branches shown, and whether
/// branches are loading or remotes being fetched.
pub open spec fn branch_title_spec(count: nat, loading: bool, fetching: bool) -> Seq<char> {
    " "@ + decimal(count) + " branches"@ + (if loading {
        " | loading..."@
    } else if fetching {
        " | fetching..."@
    } else {
        Seq::empty()
    }) + " "@
}

/// The title of the branch list (see `branch_title_spec`).
pub fn branch_list_title(count: usize, loading: bool, fetching: bool) -> (t: String)
    ensures
        t@ == branch_title_spec(count as nat, loading, fetching),
{
    let mut t = owned(" ");
    push_decimal(&mut t, count);
    push_str(&mut t, " branches");
    if loading {
        push_str(&mut t, " | loading...");
    } else if fetching {
        push_str(&mut t, " | fetching...");
    }
    push_str(&mut t, " ");
    assert(t@ =~= branch_title_spec(count as nat, loading, fetching));
    t
}

/// The title of the branch search: the chosen repository's name (`??`
/// without one) and `— select branch`.
pub fn branch_search_title(repo_name: Option<&str>) -> (t: String)
    ensures
        t@ == (match repo_name {
            Some(n) => n@,
            None => "??"@,
        }) + " — select branch"@,
{
    let mut t = match repo_name {
        Some(n) => owned(n),
        None => owned("??"),
    };
    push_str(&mut t, " — select branch");
    t
}

} // verus!
