//! Where the `kiosk` program keeps its log file.
use vstd::prelude::*;
use crate::paths::{join, lemma_join_file_name, path_file_name, path_join};

verus! {

/// The level of messages logged when nothing else is asked for.
pub const DEFAULT_LOG_LEVEL: &'static str = "warn";

/// The program's directory inside a cache directory.
pub open spec fn cache_dir_spec(base: Seq<char>) -> Seq<char> {
    path_join(base, "kiosk"@)
}

/// The log file inside a cache directory.
pub open spec fn log_file_spec(base: Seq<char>) -> Seq<char> {
    path_join(cache_dir_spec(base), "kiosk.log"@)
}

/// The user's cache directory, as text (`dirs::cache_dir`). It depends on
/// the environment, so nothing is claimed of it; a path that is not valid
/// UTF-8 is converted lossily.
#[verifier::external_body]
fn system_cache_dir() -> (r: Option<String>) {
    match dirs::cache_dir() {
        Some(p) => Some(p.to_string_lossy().into_owned()),
        None => None,
    }
}

/// The directory under which the program keeps its files: the system's
/// cache directory when there is one, else `fallback`.
pub open spec fn cache_base(system: Option<Seq<char>>, fallback: Seq<char>) -> Seq<char> {
    match system {
        Some(d) => d,
        None => fallback,
    }
}

/// The program's cache directory for a given system cache directory:
/// `kiosk` inside it, or inside `fallback` when there is none.
pub fn cache_dir_in(system: Option<String>, fallback: &str) -> (r: String)
    ensures
        r@ == cache_dir_spec(cache_base(system.deep_view(), fallback@)),
{
    let base = match system {
        Some(d) => d,
        None => fallback.to_owned(),
    };
    let r = join(base.as_str(), "kiosk");
    assert(r@ == cache_dir_spec(base@));
    r
}

/// The log file for a given system cache directory: `kiosk.log` in the
/// program's cache directory.
pub fn log_file_in(system: Option<String>, fallback: &str) -> (r: String)
    ensures
        r@ == log_file_spec(cache_base(system.deep_view(), fallback@)),
        path_file_name(r@) == Some("kiosk.log"@),
{
    let dir = cache_dir_in(system, fallback);
    let r = join(dir.as_str(), "kiosk.log");
    proof {
        reveal_strlit("kiosk.log");
        lemma_join_file_name(dir@, "kiosk.log"@);
    }
    r
}

/// The program's cache directory: `kiosk` inside the system's cache
/// directory, or inside `fallback` when the system has none.
pub fn cache_dir(fallback: &str) -> (r: String)
    ensures
        exists|system: Option<Seq<char>>| r@ == cache_dir_spec(cache_base(system, fallback@)),
{
    let system = system_cache_dir();
    cache_dir_in(system, fallback)
}

/// The log file: `kiosk.log` in the program's cache directory.
pub fn default_log_file(fallback: &str) -> (r: String)
    ensures
        exists|system: Option<Seq<char>>| r@ == log_file_spec(cache_base(system, fallback@)),
        path_file_name(r@) == Some("kiosk.log"@),
{
    let system = system_cache_dir();
    log_file_in(system, fallback)
}

} // verus!
