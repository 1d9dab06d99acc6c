//! Paths as strings, and the few `std::path` operations the survey needs.
//!
//! The survey works on UTF-8 path strings. Splitting a path into its parent
//! and final component is `std::path::Path`'s business; these wrappers call
//! it and name its results, so that the rules built on top can be stated.

use vstd::prelude::*;
use vstd::string::{StrSliceExecFns, StringExecFns};

verus! {

/// The final component of `path` as `std::path::Path::file_name` returns it.
pub uninterp spec fn file_name_of(path: Seq<char>) -> Option<Seq<char>>;

/// The parent of `path` as `std::path::Path::parent` returns it.
pub uninterp spec fn parent_of(path: Seq<char>) -> Option<Seq<char>>;

/// Calls `std::path::Path::file_name` on `path` and returns the component as
/// a `String`. Claimed: the result is [`file_name_of`] of the argument. A
/// component of a UTF-8 path is UTF-8, so the lossy conversion changes nothing.
#[verifier::external_body]
pub(crate) fn path_file_name(path: &str) -> (r: Option<String>)
    ensures
        match r {
            Some(n) => file_name_of(path@) == Some(n@),
            None => file_name_of(path@) is None,
        },
{
    std::path::Path::new(path).file_name().map(|n| n.to_string_lossy().into_owned())
}

/// Calls `std::path::Path::parent` on `path` and returns the parent as a
/// `String`. Claimed: the result is [`parent_of`] of the argument.
#[verifier::external_body]
pub(crate) fn path_parent(path: &str) -> (r: Option<String>)
    ensures
        match r {
            Some(p) => parent_of(path@) == Some(p@),
            None => parent_of(path@) is None,
        },
{
    std::path::Path::new(path).parent().map(|p| p.to_string_lossy().into_owned())
}

/// `tail` joined onto `base` as `std::path::Path::join` does it on Unix: an
/// absolute `tail` replaces `base`; otherwise a `/` separates the two unless
/// `base` is empty or already ends in one.
pub open spec fn joined(base: Seq<char>, tail: Seq<char>) -> Seq<char> {
    if tail.len() > 0 && tail[0] == '/' {
        tail
    } else if base.len() == 0 || base.last() == '/' {
        base + tail
    } else {
        base + seq!['/'] + tail
    }
}

/// Joins `tail` onto `base` as [`joined`] states.
pub fn path_join(base: &str, tail: &str) -> (r: String)
    ensures
        r@ == joined(base@, tail@),
{
    let tn = tail.unicode_len();
    if tn > 0 && tail.get_char(0) == '/' {
        return tail.to_owned();
    }
    let bn = base.unicode_len();
    let mut r = base.to_owned();
    if bn > 0 && base.get_char(bn - 1) != '/' {
        proof {
            reveal_strlit("/");
        }
        r.append("/");
    }
    r.append(tail);
    r
}

} // verus!
