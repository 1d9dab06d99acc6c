//! Directory size computation.
//!
//! A subtree's size is the sum of the apparent sizes of its files (not block
//! counts), its entry count is the number of filesystem entries (files and
//! directories) read from it, and its mtime is the modification time of the
//! most recently modified file within it; directories' own times do not
//! count. The caller walks the subtree and reports each entry it
//! could read to a [`SizeTally`].

use vstd::prelude::*;
use crate::timestamp::{Timestamp, later_than};

verus! {

/// Result of sizing a single directory subtree.
#[derive(Clone, Copy, Debug)]
pub struct SizeResult {
    /// Total apparent size in bytes.
    pub bytes: u64,
    /// Total number of filesystem entries (files and directories).
    pub entries: u64,
    /// Modification time of the most recently modified file in the subtree,
    /// or the epoch when no file reported one.
    pub mtime: Timestamp,
}

/// The later of a running newest time and a new one; the new one when there
/// was none yet.
pub open spec fn newest_of(prev: Option<Timestamp>, t: Timestamp) -> Timestamp {
    match prev {
        Some(p) => if later_than(t, p) { t } else { p },
        None => t,
    }
}

/// Running totals of a subtree walk.
#[derive(Clone, Copy, Debug)]
pub struct SizeTally {
    /// Apparent bytes of the files seen so far.
    pub bytes: u64,
    /// Entries seen so far.
    pub entries: u64,
    /// Newest file modification time seen so far.
    pub newest: Option<Timestamp>,
}

impl SizeTally {
    /// Nothing seen yet.
    pub fn new() -> (t: SizeTally)
        ensures
            t.bytes == 0,
            t.entries == 0,
            t.newest is None,
    {
        SizeTally { bytes: 0, entries: 0, newest: None }
    }

    /// Whether one more entry of `len` bytes (counted only for a file) can be
    /// added without overflowing the totals.
    pub fn can_add(&self, is_file: bool, len: u64) -> (r: bool)
        ensures
            r == (self.entries < u64::MAX && (is_file ==> self.bytes + len <= u64::MAX)),
    {
        self.entries < u64::MAX && (!is_file || len <= u64::MAX - self.bytes)
    }

    /// Counts one readable entry: every entry adds one to the count, and a
    /// file adds its apparent length and, when known, its modification time
    /// may become the newest. A directory's own time is ignored.
    pub fn add(&mut self, is_file: bool, len: u64, modified: Option<Timestamp>)
        requires
            old(self).entries < u64::MAX,
            is_file ==> old(self).bytes + len <= u64::MAX,
        ensures
            final(self).entries == old(self).entries + 1,
            final(self).bytes == old(self).bytes + (if is_file { len } else { 0 }),
            final(self).newest == match modified {
                Some(t) => if is_file {
                    Some(newest_of(old(self).newest, t))
                } else {
                    old(self).newest
                },
                None => old(self).newest,
            },
    {
        self.entries = self.entries + 1;
        if is_file {
            self.bytes = self.bytes + len;
            match modified {
                Some(t) => {
                    let next = match self.newest {
                        Some(p) => if t.is_later_than(&p) { t } else { p },
                        None => t,
                    };
                    self.newest = Some(next);
                },
                None => {},
            }
        }
    }

    /// The subtree's size: the totals, with the epoch as mtime when no file
    /// reported one.
    pub fn finish(&self) -> (r: SizeResult)
        ensures
            r.bytes == self.bytes,
            r.entries == self.entries,
            r.mtime == match self.newest {
                Some(t) => t,
                None => Timestamp { secs: 0, nanos: 0 },
            },
    {
        let mtime = match self.newest {
            Some(t) => t,
            None => Timestamp::epoch(),
        };
        SizeResult { bytes: self.bytes, entries: self.entries, mtime }
    }
}

} // verus!
