//! Naming of tmux sessions and the tmux commands that create, enter and
//! look up a session.
use vstd::prelude::*;
use crate::paths::{file_name, path_file_name};
use crate::text::{chars_of, owned, push_str, replace_char};

verus! {

/// The session name for a directory: its final component (empty when it has
/// none), with every `.` replaced by `_`.
pub open spec fn session_name_spec(path: Seq<char>) -> Seq<char> {
    let name = match path_file_name(path) {
        Some(n) => n,
        None => Seq::empty(),
    };
    replace_char(name, '.', seq!['_'])
}

/// Derives a tmux session name from a path.
pub fn session_name_for(path: &str) -> (name: String)
    ensures
        name@ == session_name_spec(path@),
{
    let base = match file_name(path) {
        Some(n) => n,
        None => String::new(),
    };
    let v = chars_of(base.as_str());
    let mut out = String::new();
    let mut i: usize = 0;
    while i < v.len()
        invariant
            i <= v.len(),
            v@ == base@,
            out@ == replace_char(v@.take(i as int), '.', seq!['_']),
        decreases v.len() - i,
    {
        assert(v@.take(i + 1).drop_last() == v@.take(i as int));
        if v[i] == '.' {
            out.push('_');
            assert(out@ =~= replace_char(v@.take(i + 1), '.', seq!['_']));
        } else {
            out.push(v[i]);
            assert(out@ =~= replace_char(v@.take(i + 1), '.', seq!['_']));
        }
        i = i + 1;
    }
    assert(v@.take(v.len() as int) == v@);
    out
}

/// The text of an optional string slice.
pub open spec fn opt_text(o: Option<&str>) -> Option<Seq<char>> {
    match o {
        Some(c) => Some(c@),
        None => None,
    }
}

/// A vector of owned arguments made from string slices.
fn args_of(parts: &[&str]) -> (r: Vec<String>)
    ensures
        r.deep_view() == parts@.map_values(|p: &str| p@),
{
    let mut r: Vec<String> = Vec::new();
    let mut i: usize = 0;
    while i < parts.len()
        invariant
            i <= parts.len(),
            r.deep_view() =~= parts@.take(i as int).map_values(|p: &str| p@),
        decreases parts.len() - i,
    {
        assert(parts@.take(i + 1).map_values(|p: &str| p@) =~= parts@.take(i as int).map_values(
            |p: &str| p@,
        ).push(parts@[i as int]@));
        r.push(owned(parts[i]));
        i = i + 1;
    }
    r
}

/// The target of the right-hand pane of a session's first window.
pub open spec fn split_pane_target(name: Seq<char>) -> Seq<char> {
    name + ":0.1"@
}

/// The tmux commands that create a detached session `name` in `dir` and,
/// when a split command is given, split it and run the command in the new
/// pane.
pub open spec fn create_session_spec(name: Seq<char>, dir: Seq<char>, split_command: Option<Seq<char>>) -> Seq<
    Seq<Seq<char>>,
> {
    let create = seq!["new-session"@, "-ds"@, name, "-c"@, dir];
    match split_command {
        Some(cmd) => seq![
            create,
            seq!["split-window"@, "-h"@, "-t"@, name, "-c"@, dir],
            seq!["send-keys"@, "-t"@, split_pane_target(name), cmd, "Enter"@],
        ],
        None => seq![create],
    }
}

/// The argument lists of the tmux commands that create a session.
pub fn create_session_commands(name: &str, dir: &str, split_command: Option<&str>) -> (r: Vec<Vec<String>>)
    ensures
        r.deep_view() == create_session_spec(name@, dir@, opt_text(split_command)),
{
    let mut r: Vec<Vec<String>> = Vec::new();
    let create = args_of(&["new-session", "-ds", name, "-c", dir]);
    assert(create.deep_view() =~= seq!["new-session"@, "-ds"@, name@, "-c"@, dir@]);
    r.push(create);
    match split_command {
        Some(cmd) => {
            let split = args_of(&["split-window", "-h", "-t", name, "-c", dir]);
            let mut target = owned(name);
            push_str(&mut target, ":0.1");
            let send = args_of(&["send-keys", "-t", target.as_str(), cmd, "Enter"]);
            assert(split.deep_view() =~= seq!["split-window"@, "-h"@, "-t"@, name@, "-c"@, dir@]);
            assert(send.deep_view() =~= seq!["send-keys"@, "-t"@, split_pane_target(name@), cmd@, "Enter"@]);
            r.push(split);
            r.push(send);
        },
        None => {},
    }
    assert(r.deep_view() =~= create_session_spec(name@, dir@, opt_text(split_command)));
    r
}

/// The tmux command that enters session `name`: `switch-client` from inside
/// tmux, `attach-session` from outside.
pub open spec fn switch_command_spec(name: Seq<char>, inside_tmux: bool) -> Seq<Seq<char>> {
    if inside_tmux {
        seq!["switch-client"@, "-t"@, name]
    } else {
        seq!["attach-session"@, "-t"@, name]
    }
}

/// The arguments of the tmux command that enters session `name`.
pub fn switch_command(name: &str, inside_tmux: bool) -> (r: Vec<String>)
    ensures
        r.deep_view() == switch_command_spec(name@, inside_tmux),
{
    let r = if inside_tmux {
        args_of(&["switch-client", "-t", name])
    } else {
        args_of(&["attach-session", "-t", name])
    };
    assert(r.deep_view() =~= switch_command_spec(name@, inside_tmux));
    r
}

/// The arguments of the tmux command that tells whether session `name`
/// exists.
pub fn has_session_command(name: &str) -> (r: Vec<String>)
    ensures
        r.deep_view() == seq!["has-session"@, "-t"@, name@],
{
    let r = args_of(&["has-session", "-t", name]);
    assert(r.deep_view() =~= seq!["has-session"@, "-t"@, name@]);
    r
}

proof fn lemma_replace_dot_removes_dots(s: Seq<char>)
    ensures
        !replace_char(s, '.', seq!['_']).contains('.'),
    decreases s.len(),
{
    if s.len() > 0 {
        lemma_replace_dot_removes_dots(s.drop_last());
        let a = replace_char(s.drop_last(), '.', seq!['_']);
        let b = if s.last() == '.' {
            seq!['_']
        } else {
            seq![s.last()]
        };
        assert forall|i: int| 0 <= i < (a + b).len() implies (a + b)[i] != '.' by {
            if i < a.len() {
                assert((a + b)[i] == a[i]);
            } else {
                assert((a + b)[i] == b[i - a.len()]);
            }
        }
    }
}

/// Law: session names never contain a `.` (tmux treats `.` as a separator
/// in targets), whatever the path.
pub proof fn lemma_session_name_has_no_dot(path: Seq<char>)
    ensures
        !session_name_spec(path).contains('.'),
{
    let name = match path_file_name(path) {
        Some(n) => n,
        None => Seq::empty(),
    };
    lemma_replace_dot_removes_dots(name);
}


/// Replacing a character by a single one keeps the length and changes
/// exactly the positions that held it.
proof fn lemma_replace_by_one(s: Seq<char>, from: char, to: char)
    ensures
        replace_char(s, from, seq![to]).len() == s.len(),
        forall|i: int|
            0 <= i < s.len() ==> #[trigger] replace_char(s, from, seq![to])[i] == (if s[i] == from {
                to
            } else {
                s[i]
            }),
    decreases s.len(),
{
    if s.len() > 0 {
        lemma_replace_by_one(s.drop_last(), from, to);
        let a = replace_char(s.drop_last(), from, seq![to]);
        let b = if s.last() == from {
            seq![to]
        } else {
            seq![s.last()]
        };
        assert forall|i: int| 0 <= i < s.len() implies #[trigger] replace_char(s, from, seq![to])[i] == (if s[i]
            == from {
            to
        } else {
            s[i]
        }) by {
            if i < s.len() - 1 {
                assert((a + b)[i] == a[i]);
                assert(s.drop_last()[i] == s[i]);
            } else {
                assert((a + b)[i] == b[0]);
            }
        }
    }
}

/// Law: a session is named after the path's final component, character by
/// character, with each `.` turned into `_` and every other character (its
/// case included) kept; a path without a final component gives an empty
/// name.
pub proof fn lemma_session_name_is_final_component(path: Seq<char>)
    ensures
        path_file_name(path) matches Some(name) ==> {
            &&& session_name_spec(path).len() == name.len()
            &&& forall|i: int|
                0 <= i < name.len() ==> #[trigger] session_name_spec(path)[i] == (if name[i] == '.' {
                    '_'
                } else {
                    name[i]
                })
        },
        path_file_name(path) is None ==> session_name_spec(path).len() == 0,
{
    let name = match path_file_name(path) {
        Some(n) => n,
        None => Seq::empty(),
    };
    lemma_replace_by_one(name, '.', '_');
}

} // verus!
