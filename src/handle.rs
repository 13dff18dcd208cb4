use vstd::prelude::*;

use crate::entry::Entry;
use crate::metadata::Stat;

verus! {

/// One caller's open session on an entry, optionally bound to one of its
/// streams.
pub struct EntryHandle {
    pub index: u64,
    /// Arena index of the target entry.
    pub entry: usize,
    /// Arena index of the bound stream, if the open targeted one.
    pub alt_stream: Option<usize>,
    pub delete_on_close: bool,
    /// Timestamps gathered during the session and committed at close.
    pub mtime_delayed: Option<u64>,
    pub atime_delayed: Option<u64>,
    pub ctime_enabled: bool,
    pub mtime_enabled: bool,
    pub atime_enabled: bool,
}

impl EntryHandle {
    pub open spec fn new_spec(index: u64, entry: usize, alt_stream: Option<usize>, delete_on_close: bool) -> Self {
        EntryHandle {
            index,
            entry,
            alt_stream,
            delete_on_close,
            mtime_delayed: None,
            atime_delayed: None,
            ctime_enabled: true,
            mtime_enabled: true,
            atime_enabled: true,
        }
    }

    /// Whether the session sees a directory: a stream-bound session never
    /// does. `entry` is the handle's target.
    pub fn is_dir(&self, entry: &Entry) -> (r: bool)
        ensures
            r == (self.alt_stream is None && entry is Directory),
    {
        if self.alt_stream.is_some() {
            false
        } else {
            entry.is_dir()
        }
    }

    pub fn update_atime(&self, stat: &mut Stat, atime: u64)
        ensures
            *final(stat) == (if self.atime_enabled { Stat { atime, ..*old(stat) } } else { *old(stat) }),
    {
        if self.atime_enabled {
            stat.atime = atime;
        }
    }

    pub fn update_mtime(&self, stat: &mut Stat, mtime: u64)
        ensures
            final(stat).atime == (if self.atime_enabled { mtime } else { old(stat).atime }),
            final(stat).mtime == (if self.mtime_enabled { mtime } else { old(stat).mtime }),
            *final(stat) == (Stat { atime: final(stat).atime, mtime: final(stat).mtime, ..*old(stat) }),
    {
        self.update_atime(stat, mtime);
        if self.mtime_enabled {
            stat.mtime = mtime;
        }
    }
}

} // verus!
