//! Root resolution: expanding `~` to the home directory.

use vstd::prelude::*;
use vstd::string::StrSliceExecFns;
use crate::paths::{joined, path_join};

verus! {

/// Why a root could not be resolved.
#[derive(Clone, Copy, Debug, PartialEq, Eq, Structural)]
pub enum RootError {
    /// The root at `index` begins with `~` but no home directory is known.
    NoHomeDir { index: usize },
}

/// `raw` begins with `~/`.
pub open spec fn home_relative(raw: Seq<char>) -> bool {
    raw.len() >= 2 && raw[0] == '~' && raw[1] == '/'
}

/// What a root expands to: `~/rest` to `rest` joined onto the home
/// directory, `~` to the home directory, anything else to itself; `None`
/// when it needs the home directory and none is known.
pub open spec fn expanded(raw: Seq<char>, home: Option<String>) -> Option<Seq<char>> {
    if home_relative(raw) {
        match home {
            Some(h) => Some(joined(h@, raw.skip(2))),
            None => None,
        }
    } else if raw == seq!['~'] {
        match home {
            Some(h) => Some(h@),
            None => None,
        }
    } else {
        Some(raw)
    }
}

/// Expands a single root path, resolving `~` against `home`.
pub fn expand_root(raw: &str, home: &Option<String>) -> (r: Option<String>)
    ensures
        match r {
            Some(p) => expanded(raw@, *home) == Some(p@),
            None => expanded(raw@, *home) is None,
        },
{
    let n = raw.unicode_len();
    if n >= 2 && raw.get_char(0) == '~' && raw.get_char(1) == '/' {
        match home {
            Some(h) => Some(path_join(h.as_str(), raw.substring_char(2, n))),
            None => None,
        }
    } else if n == 1 && raw.get_char(0) == '~' {
        assert(raw@ =~= seq!['~']);
        match home {
            Some(h) => Some(h.clone()),
            None => None,
        }
    } else {
        assert(raw@ != seq!['~']);
        Some(raw.to_owned())
    }
}

/// Expands a list of raw root strings; the first that needs an unknown home
/// directory is reported.
pub fn expand_roots(raws: &Vec<String>, home: &Option<String>) -> (r: Result<Vec<String>, RootError>)
    ensures
        match r {
            Ok(v) => v@.len() == raws@.len() && forall|i: int|
                0 <= i < raws@.len() ==> expanded(raws@[i]@, *home) == Some((#[trigger] v@[i])@),
            Err(RootError::NoHomeDir { index }) => index < raws@.len() && expanded(raws@[index as int]@, *home) is None
                && forall|j: int| 0 <= j < index ==> expanded((#[trigger] raws@[j])@, *home) is Some,
        },
{
    let mut out: Vec<String> = Vec::new();
    let mut i: usize = 0;
    while i < raws.len()
        invariant
            0 <= i <= raws@.len(),
            out@.len() == i,
            forall|j: int| 0 <= j < i ==> expanded(raws@[j]@, *home) == Some((#[trigger] out@[j])@),
        decreases raws@.len() - i,
    {
        match expand_root(raws[i].as_str(), home) {
            Some(p) => out.push(p),
            None => {
                assert forall|j: int| 0 <= j < i implies expanded((#[trigger] raws@[j])@, *home) is Some by {
                    assert(expanded(raws@[j]@, *home) == Some(out@[j]@));
                }
                return Err(RootError::NoHomeDir { index: i });
            },
        }
        i = i + 1;
    }
    Ok(out)
}


/// Only `~` and `~/...` depend on the home directory: any other root, a
/// relative one included, expands to itself, whatever home is known.
pub proof fn other_roots_stay_as_written(raw: Seq<char>, home: Option<String>)
    requires
        raw != seq!['~'],
        !(raw.len() >= 2 && raw[0] == '~' && raw[1] == '/'),
    ensures
        expanded(raw, home) == Some(raw),
{
}

} // verus!
