//! Classification of reclaimable directory kinds, and the survey entry.

use vstd::prelude::*;
use crate::cloudaware::CloudAwareInfo;
use crate::paths::{file_name_of, joined, parent_of, path_file_name, path_join, path_parent};
use crate::size::SizeResult;
use crate::text::{contains, contains_text, text_eq};
use crate::timestamp::{Timestamp, age_in_days, days_between};

verus! {

/// The category of a reclaimable directory.
#[derive(Clone, Copy, Debug, PartialEq, Eq, Structural)]
pub enum EntryKind {
    /// Rust build artifact directory (`target/` beside a `Cargo.toml` or
    /// containing `.rustc_info.json` / `CARGO_OK`).
    RustTarget,
    /// Node.js dependency directory (`node_modules/`).
    NodeModules,
    /// Python virtual environment (`.venv/`).
    Venv,
    /// Python bytecode cache (`__pycache__/`).
    Pycache,
    /// Cargo registry or git checkout cache.
    CargoCache,
    /// Top-level child of `~/.cache` holding at least [`CACHE_CHILD_FLOOR`] bytes.
    CacheChild,
}

/// The size floor of a `CacheChild`: a top-level child of `~/.cache` is
/// reclaimable when it holds at least 100 MiB.
pub const CACHE_CHILD_FLOOR: u64 = 104_857_600;

/// A single reclaimable directory found during a survey.
#[derive(Clone, Debug)]
pub struct SurveyEntry {
    /// Path to the reclaimable directory.
    pub path: String,
    /// Classification of why this directory is reclaimable.
    pub kind: EntryKind,
    /// Total apparent size in bytes (sum of file sizes, not block count).
    pub bytes: u64,
    /// Number of filesystem entries (files and dirs) within the subtree.
    pub entries: u64,
    /// Modification time of the most recently modified file within the subtree.
    pub mtime: Timestamp,
    /// Age in whole days relative to the caller-supplied `now`.
    pub age_days: i64,
    /// Name of the owning crate or directory (the immediate parent's name).
    pub crate_name: String,
    /// Fossil classification; only `RustTarget` entries of a cloud-aware
    /// survey carry one.
    pub cloud_info: Option<CloudAwareInfo>,
}

/// What the walker read about one subdirectory of the directory it lists.
#[derive(Clone, Debug)]
pub struct DirFacts {
    /// The subdirectory's own name.
    pub name: String,
    /// Its full path.
    pub path: String,
    /// Its directory entry is a directory (symbolic links not followed).
    pub is_dir_entry: bool,
    /// Its path resolves to a directory (symbolic links followed).
    pub is_dir: bool,
    /// Its parent directory holds a `Cargo.toml`.
    pub parent_has_cargo_toml: bool,
    /// It holds a `.rustc_info.json`.
    pub has_rustc_info: bool,
    /// It holds a `CARGO_OK`.
    pub has_cargo_ok: bool,
    /// The directory being listed, its parent, is the user's `~/.cache`.
    pub parent_is_user_cache: bool,
}

/// A Rust build `target/`: the parent holds a `Cargo.toml`, or the directory
/// itself holds `.rustc_info.json` or `CARGO_OK`.
pub open spec fn rust_target_spec(d: DirFacts) -> bool {
    d.parent_has_cargo_toml || d.has_rustc_info || d.has_cargo_ok
}

/// A cargo registry cache or git checkouts directory.
pub open spec fn cargo_cache_spec(d: DirFacts) -> bool {
    (contains_text(d.path@, "/.cargo/registry/cache"@) || contains_text(d.path@, "/.cargo/git/checkouts"@))
        && d.is_dir
}

/// A top-level child of `~/.cache` is a `CacheChild` candidate; whether it
/// is reclaimable depends on its size (see [`admitted`]).
pub open spec fn cache_child_or_none(d: DirFacts) -> Option<EntryKind> {
    if d.parent_is_user_cache {
        Some(EntryKind::CacheChild)
    } else {
        None
    }
}

/// The kind a subdirectory is reclaimable as, or `None` when the walk should
/// descend into it instead. The name decides first; a `target` without Rust
/// markers is not a Rust target, and only other names are checked for being
/// a cargo cache; what is left is a `CacheChild` candidate when it sits
/// directly in `~/.cache`.
pub open spec fn kind_of(d: DirFacts) -> Option<EntryKind> {
    if d.name@ == "node_modules"@ {
        Some(EntryKind::NodeModules)
    } else if d.name@ == ".venv"@ {
        Some(EntryKind::Venv)
    } else if d.name@ == "__pycache__"@ {
        Some(EntryKind::Pycache)
    } else if d.name@ == "target"@ {
        if rust_target_spec(d) {
            Some(EntryKind::RustTarget)
        } else {
            cache_child_or_none(d)
        }
    } else if cargo_cache_spec(d) {
        Some(EntryKind::CargoCache)
    } else {
        cache_child_or_none(d)
    }
}

/// Whether `d` looks like a Rust build `target/` directory.
pub fn is_rust_target(d: &DirFacts) -> (r: bool)
    ensures
        r == rust_target_spec(*d),
{
    d.parent_has_cargo_toml || d.has_rustc_info || d.has_cargo_ok
}

/// Whether `d` is a cargo registry cache or git checkouts directory.
pub fn is_cargo_cache(d: &DirFacts) -> (r: bool)
    ensures
        r == cargo_cache_spec(*d),
{
    (contains(d.path.as_str(), "/.cargo/registry/cache") || contains(d.path.as_str(), "/.cargo/git/checkouts"))
        && d.is_dir
}

/// Classifies a subdirectory by its name and what the walker read about it:
/// the kind it is reclaimable as, or `None` when it should be descended into.
pub fn classify_dir_name(d: &DirFacts) -> (k: Option<EntryKind>)
    ensures
        k == kind_of(*d),
{
    let name = d.name.as_str();
    if text_eq(name, "node_modules") {
        Some(EntryKind::NodeModules)
    } else if text_eq(name, ".venv") {
        Some(EntryKind::Venv)
    } else if text_eq(name, "__pycache__") {
        Some(EntryKind::Pycache)
    } else if text_eq(name, "target") {
        if is_rust_target(d) {
            Some(EntryKind::RustTarget)
        } else if d.parent_is_user_cache {
            Some(EntryKind::CacheChild)
        } else {
            None
        }
    } else if is_cargo_cache(d) {
        Some(EntryKind::CargoCache)
    } else if d.parent_is_user_cache {
        Some(EntryKind::CacheChild)
    } else {
        None
    }
}

/// The user's cache directory: `.cache` joined onto the home directory.
pub open spec fn user_cache_spec(home: Seq<char>) -> Seq<char> {
    joined(home, ".cache"@)
}

/// Whether `dir` is the user's `~/.cache`, given the home directory, if known.
pub fn is_user_cache(dir: &str, home: &Option<String>) -> (r: bool)
    ensures
        r == (home matches Some(h) && dir@ == user_cache_spec(h@)),
{
    match home {
        Some(h) => {
            let cache = path_join(h.as_str(), ".cache");
            text_eq(dir, cache.as_str())
        },
        None => false,
    }
}

/// The name of a path's immediate parent directory, or `<root>` when it has
/// none.
pub open spec fn parent_name_spec(path: Seq<char>) -> Seq<char> {
    match parent_of(path) {
        Some(p) => match file_name_of(p) {
            Some(n) => n,
            None => "<root>"@,
        },
        None => "<root>"@,
    }
}

/// Returns the immediate parent directory's name as the owning crate or
/// directory name.
pub fn parent_name(path: &str) -> (name: String)
    ensures
        name@ == parent_name_spec(path@),
{
    match path_parent(path) {
        Some(p) => match path_file_name(p.as_str()) {
            Some(n) => n,
            None => "<root>".to_owned(),
        },
        None => "<root>".to_owned(),
    }
}

/// The directory of the crate that owns a `target/`: its parent, or the path
/// itself when it has none.
pub open spec fn crate_dir_spec(target_path: Seq<char>) -> Seq<char> {
    match parent_of(target_path) {
        Some(p) => p,
        None => target_path,
    }
}

/// The crate directory that owns the `target/` at `target_path`.
pub fn crate_dir_of(target_path: &str) -> (dir: String)
    ensures
        dir@ == crate_dir_spec(target_path@),
{
    match path_parent(target_path) {
        Some(p) => p,
        None => target_path.to_owned(),
    }
}

/// The entry for a reclaimable directory at `path` of kind `kind`, sized as
/// `size`, with its age taken relative to `now`.
pub open spec fn entry_spec(e: SurveyEntry, path: Seq<char>, kind: EntryKind, size: SizeResult, now: Timestamp) -> bool {
    &&& e.path@ == path
    &&& e.kind == kind
    &&& e.bytes == size.bytes
    &&& e.entries == size.entries
    &&& e.mtime == size.mtime
    &&& e.age_days == days_between(now, size.mtime)
    &&& e.crate_name@ == parent_name_spec(path)
    &&& e.cloud_info is None
}

/// Whether a measured directory of kind `kind` and size `size` is reported:
/// a `CacheChild` candidate only when it holds at least
/// [`CACHE_CHILD_FLOOR`] bytes, every other kind always.
pub open spec fn admitted(kind: EntryKind, size: SizeResult) -> bool {
    kind != EntryKind::CacheChild || size.bytes >= CACHE_CHILD_FLOOR
}

/// The entry for a measured directory, if it is reported: a `CacheChild`
/// candidate under the floor is not (the walk lists it instead, see
/// `WalkQueue::settle`).
pub fn measured_entry(path: String, kind: EntryKind, size: &SizeResult, now: &Timestamp) -> (r: Option<SurveyEntry>)
    ensures
        r is Some <==> admitted(kind, *size),
        r matches Some(e) ==> entry_spec(e, path@, kind, *size, *now),
{
    if kind == EntryKind::CacheChild && size.bytes < CACHE_CHILD_FLOOR {
        None
    } else {
        Some(new_entry(path, kind, size, now))
    }
}

/// Records a reclaimable directory found by the walk.
pub fn new_entry(path: String, kind: EntryKind, size: &SizeResult, now: &Timestamp) -> (e: SurveyEntry)
    ensures
        entry_spec(e, path@, kind, *size, *now),
{
    let crate_name = parent_name(path.as_str());
    let age_days = age_in_days(now, &size.mtime);
    SurveyEntry {
        path,
        kind,
        bytes: size.bytes,
        entries: size.entries,
        mtime: size.mtime,
        age_days,
        crate_name,
        cloud_info: None,
    }
}


/// The fixed names decide alone: a directory named `node_modules`, `.venv`
/// or `__pycache__` is of that kind whatever else is known of it (a
/// `Cargo.toml` beside it, Rust markers, where it sits), and a `target` with
/// a Rust marker is a Rust target wherever it sits.
pub proof fn names_decide_alone(d: DirFacts)
    ensures
        d.name@ == "node_modules"@ ==> kind_of(d) == Some(EntryKind::NodeModules),
        d.name@ == ".venv"@ ==> kind_of(d) == Some(EntryKind::Venv),
        d.name@ == "__pycache__"@ ==> kind_of(d) == Some(EntryKind::Pycache),
        d.name@ == "target"@ && (d.parent_has_cargo_toml || d.has_rustc_info || d.has_cargo_ok) ==> kind_of(d)
            == Some(EntryKind::RustTarget),
{
    reveal_strlit("node_modules");
    reveal_strlit(".venv");
    reveal_strlit("__pycache__");
    reveal_strlit("target");
    assert(".venv"@.len() == 5 && "node_modules"@.len() == 12 && "__pycache__"@.len() == 11 && "target"@.len() == 6);
}

} // verus!
