//! The configuration of the `wts` browser: where its file lives, what it
//! holds, and how its search directories are expanded.
use vstd::prelude::*;
use crate::paths::{join, path_join};
use crate::path_input::home_dir;
use crate::text::{char_byte_len, char_utf8_len, chars_of, owned, push_str, string_from_range};

verus! {

/// The program's name, which is also its configuration directory's.
pub const APP_NAME: &'static str = "wts";

/// Settings for new tmux sessions.
#[derive(Debug, Clone)]
pub struct SessionConfig {
    /// Command to run in a split pane when creating a new session (e.g. "hx")
    pub split_command: Option<String>,
}

impl Default for SessionConfig {
    fn default() -> (c: SessionConfig)
        ensures
            c.split_command is None,
    {
        SessionConfig { split_command: None }
    }
}

/// The contents of the configuration file.
#[derive(Debug, Clone)]
pub struct Config {
    /// Directories to scan for git repos (scanned 1 level deep)
    pub search_dirs: Vec<String>,
    /// Layout when creating a new tmux session
    pub session: SessionConfig,
}

/// The configuration file inside the user's configuration directory.
pub open spec fn config_file_spec(config_dir: Seq<char>) -> Seq<char> {
    path_join(path_join(config_dir, "wts"@), "config.toml"@)
}

/// The configuration file for a given configuration directory.
pub fn config_file_in(config_dir: &str) -> (r: String)
    ensures
        r@ == config_file_spec(config_dir@),
{
    let d = join(config_dir, APP_NAME);
    proof {
        assert(APP_NAME@ == "wts"@);
    }
    join(d.as_str(), "config.toml")
}

/// The user's configuration directory, as text (`dirs::config_dir`).
/// It depends on the environment, so nothing is claimed of it; a path that
/// is not valid UTF-8 is converted lossily.
#[verifier::external_body]
fn config_dir() -> (r: Option<String>) {
    match dirs::config_dir() {
        Some(p) => Some(p.to_string_lossy().into_owned()),
        None => None,
    }
}

/// Where the configuration file is looked for; `None` when the system has
/// no configuration directory.
pub fn config_file() -> (r: Option<String>)
    ensures
        r matches Some(f) ==> exists|d: Seq<char>| f@ == config_file_spec(d),
{
    match config_dir() {
        Some(d) => Some(config_file_in(d.as_str())),
        None => None,
    }
}

/// The message given when the configuration file is missing.
pub open spec fn missing_config_message_spec(config_file: Seq<char>) -> Seq<char> {
    "Config file not found at "@ + config_file
        + ". Create it with:\n\n[example]\nsearch_dirs = [\"~/Development\"]\n"@
}

/// The message given when the configuration file is missing.
pub fn missing_config_message(config_file: &str) -> (r: String)
    ensures
        r@ == missing_config_message_spec(config_file@),
{
    let mut r = String::new();
    push_str(&mut r, "Config file not found at ");
    push_str(&mut r, config_file);
    push_str(&mut r, ". Create it with:\n\n[example]\nsearch_dirs = [\"~/Development\"]\n");
    r
}

/// A search directory that starts with `~` can be expanded when it is `~`
/// alone or its second character is a one-byte one (the rest starts at
/// byte 2).
pub open spec fn expandable(d: Seq<char>) -> bool {
    d.len() > 1 && d[0] == '~' ==> char_utf8_len(d[1]) == 1
}

/// Whether a search directory can be expanded (see `expandable`).
pub fn expandable_text(d: &str) -> (b: bool)
    ensures
        b == expandable(d@),
{
    let v = chars_of(d);
    if v.len() > 1 && v[0] == '~' {
        char_byte_len(v[1]) == 1
    } else {
        true
    }
}

/// A search directory with a leading `~` replaced by the home directory:
/// `~` alone is the home directory, otherwise the two characters `~` and
/// the next one are dropped and the rest joined to it; left as written
/// without a home directory.
pub open spec fn expand_search_dir_spec(d: Seq<char>, home: Option<Seq<char>>) -> Seq<char> {
    if d.len() > 0 && d[0] == '~' && home is Some {
        if d.len() == 1 {
            home->0
        } else {
            path_join(home->0, d.skip(2))
        }
    } else {
        d
    }
}

/// A search directory as written in the configuration, expanded against
/// the home directory.
pub fn expand_search_dir(d: &str, home: &Option<String>) -> (r: String)
    requires
        home is Some ==> expandable(d@),
    ensures
        r@ == expand_search_dir_spec(d@, home.deep_view()),
{
    let v = chars_of(d);
    match home {
        Some(h) => {
            if v.len() == 1 && v[0] == '~' {
                h.clone()
            } else if v.len() > 0 && v[0] == '~' {
                let rest = string_from_range(&v, 2, v.len());
                assert(rest@ =~= d@.skip(2));
                join(h.as_str(), rest.as_str())
            } else {
                owned(d)
            }
        },
        None => owned(d),
    }
}

/// Whether `path` names a directory (`std::path::Path::is_dir`); it depends
/// on the disk, so nothing is claimed of it.
#[verifier::external_body]
fn is_dir(path: &str) -> (b: bool) {
    std::path::Path::new(path).is_dir()
}

/// The directories in `dirs` expanded against `home`, in order.
pub open spec fn expansions(dirs: Seq<Seq<char>>, home: Option<Seq<char>>) -> Seq<Seq<char>> {
    dirs.map_values(|d: Seq<char>| expand_search_dir_spec(d, home))
}

/// The texts of `xs` whose flag is set, in order.
pub open spec fn flagged(xs: Seq<Seq<char>>, flags: Seq<bool>) -> Seq<Seq<char>>
    decreases xs.len(),
{
    if xs.len() == 0 {
        Seq::empty()
    } else {
        let rest = flagged(xs.drop_last(), flags);
        if flags[xs.len() - 1] {
            rest.push(xs.last())
        } else {
            rest
        }
    }
}

/// Keeps the texts whose flag is set, in order.
pub fn keep_flagged(xs: &Vec<String>, flags: &Vec<bool>) -> (r: Vec<String>)
    requires
        flags.len() == xs.len(),
    ensures
        r.deep_view() == flagged(xs.deep_view(), flags@),
{
    let ghost all = xs.deep_view();
    let mut r: Vec<String> = Vec::new();
    let mut i: usize = 0;
    while i < xs.len()
        invariant
            i <= xs.len(),
            flags.len() == xs.len(),
            all == xs.deep_view(),
            r.deep_view() == flagged(all.take(i as int), flags@),
        decreases xs.len() - i,
    {
        assert(all.take(i + 1).drop_last() =~= all.take(i as int));
        assert(all.take(i + 1).last() == xs@[i as int]@);
        if flags[i] {
            let ghost before = r.deep_view();
            r.push(xs[i].clone());
            assert(r.deep_view() =~= before.push(xs@[i as int]@));
        }
        i = i + 1;
    }
    assert(all.take(xs.len() as int) =~= all);
    r
}

impl Config {
    /// The search directories expanded against `home`, in order.
    pub fn expanded_search_dirs(&self, home: &Option<String>) -> (r: Vec<String>)
        requires
            home is Some ==> forall|i: int|
                0 <= i < self.search_dirs@.len() ==> expandable(#[trigger] self.search_dirs@[i]@),
        ensures
            r@.len() == self.search_dirs@.len(),
            forall|i: int|
                0 <= i < r@.len() ==> (#[trigger] r@[i])@ == expand_search_dir_spec(
                    self.search_dirs@[i]@,
                    home.deep_view(),
                ),
    {
        let mut r: Vec<String> = Vec::new();
        let mut i: usize = 0;
        while i < self.search_dirs.len()
            invariant
                i <= self.search_dirs.len(),
                home is Some ==> forall|j: int|
                    0 <= j < self.search_dirs@.len() ==> expandable(#[trigger] self.search_dirs@[j]@),
                r@.len() == i,
                forall|j: int|
                    0 <= j < i ==> (#[trigger] r@[j])@ == expand_search_dir_spec(
                        self.search_dirs@[j]@,
                        home.deep_view(),
                    ),
            decreases self.search_dirs.len() - i,
        {
            let e = expand_search_dir(self.search_dirs[i].as_str(), home);
            r.push(e);
            i = i + 1;
        }
        r
    }

    /// The search directories, expanded against the home directory, that
    /// are directories on disk, in order: the expansions, all against the
    /// one home directory found, of which those the disk reports as
    /// directories are kept.
    pub fn resolved_search_dirs(&self) -> (r: Vec<String>)
        requires
            forall|i: int| 0 <= i < self.search_dirs@.len() ==> expandable(#[trigger] self.search_dirs@[i]@),
        ensures
            exists|home: Option<Seq<char>>, is_directory: Seq<bool>|
                is_directory.len() == self.search_dirs@.len() && r.deep_view() == flagged(
                    expansions(self.search_dirs.deep_view(), home),
                    is_directory,
                ),
    {
        let home = home_dir();
        let all = self.expanded_search_dirs(&home);
        let mut flags: Vec<bool> = Vec::new();
        let mut i: usize = 0;
        while i < all.len()
            invariant
                i <= all.len(),
                flags.len() == i,
            decreases all.len() - i,
        {
            flags.push(is_dir(all[i].as_str()));
            i = i + 1;
        }
        let r = keep_flagged(&all, &flags);
        assert(all.deep_view() =~= expansions(self.search_dirs.deep_view(), home.deep_view()));
        r
    }
}

} // verus!
