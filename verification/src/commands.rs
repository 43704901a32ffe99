//! The subcommands of the `kiosk` program as values, and the decisions its
//! entry point makes from them and from its environment: whether errors are
//! printed as JSON, which exit status an error gives, whether the alternate
//! screen is turned off, and how a linked worktree leads back to its main
//! repository.
use vstd::prelude::*;
use crate::cli::CliError;
use crate::paths::{join, parent, path_join, path_parent};
use crate::text::{
    ascii_lower, ascii_lower_str, chars_equal, chars_of, chars_start_with, has_prefix, owned, split_lines,
    string_from_range, text_lines, trim, trim_str,
};

verus! {

/// The subcommands of `kiosk`, with their arguments.
#[derive(Debug, Clone)]
pub enum Commands {
    Clean { dry_run: bool, yes: bool, json: bool },
    List { json: bool },
    Branches { repo: String, json: bool },
    Open {
        repo: String,
        branch: Option<String>,
        new_branch: Option<String>,
        base: Option<String>,
        no_switch: bool,
        run: Option<String>,
        wait: bool,
        wait_timeout: Option<u64>,
        wait_pane: usize,
        log: bool,
        json: bool,
    },
    Status { repo: String, branch: Option<String>, json: bool, lines: usize, pane: usize },
    Sessions { json: bool },
    Delete { repo: String, branch: String, force: bool, json: bool },
    Send {
        repo: String,
        branch: Option<String>,
        command: Option<String>,
        keys: Option<String>,
        text: Option<String>,
        pane: usize,
        json: bool,
    },
    Panes { repo: String, branch: Option<String>, json: bool },
    Wait { repo: String, branch: Option<String>, timeout: Option<u64>, pane: usize, json: bool },
    Log { repo: String, branch: Option<String>, tail: usize, json: bool },
    Config { command: Option<ConfigCommands> },
}

/// The subcommands of `kiosk config`.
#[derive(Debug, Clone)]
pub enum ConfigCommands {
    Show { json: bool },
}

impl ConfigCommands {
    /// Whether the subcommand asked for JSON output.
    pub open spec fn json_requested(&self) -> bool {
        match self {
            ConfigCommands::Show { json } => *json,
        }
    }

    pub fn wants_json(&self) -> (b: bool)
        ensures
            b == self.json_requested(),
    {
        match self {
            ConfigCommands::Show { json } => *json,
        }
    }
}

impl Commands {
    /// Whether the subcommand asked for JSON output; `config` asks for it
    /// through its own subcommand.
    pub open spec fn json_requested(&self) -> bool {
        match self {
            Commands::Clean { json, .. } => *json,
            Commands::List { json } => *json,
            Commands::Branches { json, .. } => *json,
            Commands::Open { json, .. } => *json,
            Commands::Status { json, .. } => *json,
            Commands::Sessions { json } => *json,
            Commands::Delete { json, .. } => *json,
            Commands::Send { json, .. } => *json,
            Commands::Panes { json, .. } => *json,
            Commands::Wait { json, .. } => *json,
            Commands::Log { json, .. } => *json,
            Commands::Config { command } => match command {
                Some(c) => c.json_requested(),
                None => false,
            },
        }
    }

    pub fn wants_json(&self) -> (b: bool)
        ensures
            b == self.json_requested(),
    {
        match self {
            Commands::Clean { json, .. } => *json,
            Commands::List { json } => *json,
            Commands::Branches { json, .. } => *json,
            Commands::Open { json, .. } => *json,
            Commands::Status { json, .. } => *json,
            Commands::Sessions { json } => *json,
            Commands::Delete { json, .. } => *json,
            Commands::Send { json, .. } => *json,
            Commands::Panes { json, .. } => *json,
            Commands::Wait { json, .. } => *json,
            Commands::Log { json, .. } => *json,
            Commands::Config { command } => match command {
                Some(c) => c.wants_json(),
                None => false,
            },
        }
    }
}

/// Whether errors are reported as JSON: only when a subcommand asked for it.
pub fn command_wants_json(command: Option<&Commands>) -> (b: bool)
    ensures
        b == (match command {
            Some(c) => c.json_requested(),
            None => false,
        }),
{
    match command {
        Some(c) => c.wants_json(),
        None => false,
    }
}

/// The exit status for an error's code: 1 for user errors, 2 for all others.
pub fn exit_status_for(code: i32) -> (s: u8)
    ensures
        s == (if code == 1 {
            1u8
        } else {
            2u8
        }),
{
    if code == 1 {
        1
    } else {
        2
    }
}

/// Values of `KIOSK_NO_ALT_SCREEN` that leave the alternate screen on:
/// empty, `0`, `false`, `no` and `off`, after trimming and lowering ASCII.
pub open spec fn is_off_value(v: Seq<char>) -> bool {
    ||| v.len() == 0
    ||| v == "0"@
    ||| v == "false"@
    ||| v == "no"@
    ||| v == "off"@
}

/// Whether the alternate screen is turned off, for the value of
/// `KIOSK_NO_ALT_SCREEN` (none when the variable is unset or not text).
pub fn should_disable_alt_screen(value: Option<String>) -> (b: bool)
    ensures
        b == (match value {
            Some(v) => !is_off_value(ascii_lower(trim(v@))),
            None => false,
        }),
{
    match value {
        Some(v) => {
            let t = trim_str(v.as_str());
            let l = ascii_lower_str(t.as_str());
            let c = chars_of(l.as_str());
            let off = c.len() == 0 || chars_equal(&c, &chars_of("0")) || chars_equal(
                &c,
                &chars_of("false"),
            ) || chars_equal(&c, &chars_of("no")) || chars_equal(&c, &chars_of("off"));
            !off
        },
        None => false,
    }
}

/// `Path::parent` applied three times.
pub open spec fn third_parent(p: Seq<char>) -> Option<Seq<char>> {
    match path_parent(p) {
        Some(a) => match path_parent(a) {
            Some(b) => path_parent(b),
            None => None,
        },
        None => None,
    }
}

/// Extract the main repository path from the gitdir path
/// e.g. "/repo/.git/worktrees/branch" -> "/repo"
pub fn find_main_repo_path(gitdir: &str) -> (r: Option<String>)
    ensures
        r.deep_view() == third_parent(gitdir@),
{
    match parent(gitdir) {
        Some(a) => match parent(a.as_str()) {
            Some(b) => parent(b.as_str()),
            None => None,
        },
        None => None,
    }
}

/// The prefix of the line of a worktree's `.git` file that names its git
/// directory.
pub open spec fn gitdir_prefix() -> Seq<char> {
    "gitdir: "@
}

/// Index of the first line that starts with the gitdir prefix, if any.
pub open spec fn first_gitdir_line(lines: Seq<Seq<char>>) -> Option<int>
    decreases lines.len(),
{
    if lines.len() == 0 {
        None
    } else {
        match first_gitdir_line(lines.drop_last()) {
            Some(i) => Some(i),
            None => if has_prefix(lines.last(), gitdir_prefix()) {
                Some(lines.len() - 1)
            } else {
                None
            },
        }
    }
}

/// What follows `gitdir: ` on the first line of `content` that starts with it.
pub open spec fn gitdir_entry_spec(content: Seq<char>) -> Option<Seq<char>> {
    let ls = text_lines(content);
    match first_gitdir_line(ls) {
        Some(i) => Some(ls[i].skip(gitdir_prefix().len() as int)),
        None => None,
    }
}

proof fn lemma_first_gitdir_line(lines: Seq<Seq<char>>, k: int)
    requires
        0 <= k < lines.len(),
        first_gitdir_line(lines.take(k)) is None,
    ensures
        first_gitdir_line(lines.take(k + 1)) == (if has_prefix(lines[k], gitdir_prefix()) {
            Some(k)
        } else {
            None::<int>
        }),
{
    assert(lines.take(k + 1).drop_last() =~= lines.take(k));
}

proof fn lemma_first_gitdir_line_stays(lines: Seq<Seq<char>>, k: int)
    requires
        0 <= k <= lines.len(),
        first_gitdir_line(lines.take(k)) is Some,
    ensures
        first_gitdir_line(lines) == first_gitdir_line(lines.take(k)),
    decreases lines.len() - k,
{
    if k < lines.len() {
        assert(lines.take(k + 1).drop_last() =~= lines.take(k));
        lemma_first_gitdir_line_stays(lines, k + 1);
    } else {
        assert(lines.take(k) =~= lines);
    }
}

/// The git directory named by a worktree's `.git` file, as written there
/// (what follows `gitdir: ` on its first such line).
pub fn gitdir_entry(content: &str) -> (r: Option<String>)
    ensures
        r.deep_view() == gitdir_entry_spec(content@),
{
    let lines = split_lines(content);
    let ghost ls = lines.deep_view();
    let prefix = chars_of("gitdir: ");
    let mut i: usize = 0;
    while i < lines.len()
        invariant
            i <= lines.len(),
            ls == lines.deep_view(),
            ls == text_lines(content@),
            prefix@ == gitdir_prefix(),
            first_gitdir_line(ls.take(i as int)) is None,
        decreases lines.len() - i,
    {
        let line = chars_of(lines[i].as_str());
        proof {
            lemma_first_gitdir_line(ls, i as int);
        }
        if chars_start_with(&line, &prefix) {
            proof {
                lemma_first_gitdir_line_stays(ls, i + 1);
            }
            let rest = string_from_range(&line, prefix.len(), line.len());
            assert(rest@ =~= ls[i as int].skip(gitdir_prefix().len() as int));
            return Some(rest);
        }
        i = i + 1;
    }
    assert(ls.take(lines.len() as int) =~= ls);
    None
}

/// The main repository of a linked worktree whose `.git` file holds
/// `content`: the git directory it names (relative to the worktree root
/// unless absolute), three levels up.
pub open spec fn main_repo_root_spec(worktree_root: Seq<char>, content: Seq<char>) -> Option<Seq<char>> {
    match gitdir_entry_spec(content) {
        Some(e) => {
            let g = trim(e);
            let gitdir = if g.len() > 0 && g[0] == '/' {
                g
            } else {
                path_join(worktree_root, g)
            };
            third_parent(gitdir)
        },
        None => None,
    }
}

/// The main repository root for a linked worktree at `worktree_root` whose
/// `.git` file holds `content`.
pub fn main_repo_root_from_git_file(worktree_root: &str, content: &str) -> (r: Option<String>)
    ensures
        r.deep_view() == main_repo_root_spec(worktree_root@, content@),
{
    match gitdir_entry(content) {
        Some(e) => {
            let g = trim_str(e.as_str());
            let gc = chars_of(g.as_str());
            let gitdir = if gc.len() > 0 && gc[0] == '/' {
                g
            } else {
                join(worktree_root, g.as_str())
            };
            find_main_repo_path(gitdir.as_str())
        },
        None => None,
    }
}


/// The hint printed when `kiosk config` is given no subcommand.
pub open spec fn config_subcommand_hint() -> Seq<char> {
    "config subcommand required. Use --help for usage."@
}

/// `kiosk config` needs a subcommand: without one it is a mistake of the
/// user, reported as `config subcommand required` (the caller prints
/// `config_subcommand_hint` first), else the subcommand is handed on.
pub fn require_config_subcommand(command: Option<ConfigCommands>) -> (r: Result<ConfigCommands, CliError>)
    ensures
        command is None <==> r is Err,
        r matches Ok(c) ==> command == Some(c),
        r matches Err(e) ==> e.spec_message() == "config subcommand required"@ && e.spec_code() == 1,
{
    match command {
        Some(c) => Ok(c),
        None => Err(CliError::user("config subcommand required")),
    }
}

/// The hint printed when `kiosk config` is given no subcommand.
pub fn config_subcommand_hint_text() -> (t: String)
    ensures
        t@ == config_subcommand_hint(),
{
    owned("config subcommand required. Use --help for usage.")
}

} // verus!
