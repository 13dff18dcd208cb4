use vstd::prelude::*;

use crate::entry::Entry;
use crate::fs::{entry_in_bounds, MemFsHandler, ROOT};
use crate::handle::EntryHandle;
use crate::metadata::{Attributes, FILE_ATTRIBUTE_READONLY, SUPPORTED_ATTRS};
use crate::status::FsError;

verus! {

/// What a SetTimes call does to one timestamp.
#[derive(Clone, Copy, PartialEq, Eq, Structural, Debug)]
pub enum FileTimeOperation {
    SetTime(u64),
    DisableUpdate,
    ResumeUpdate,
    DontChange,
}

/// The new value of a timestamp, and of its auto-update flag.
pub open spec fn time_after(op: FileTimeOperation, t: u64, enabled: bool) -> (u64, bool) {
    match op {
        FileTimeOperation::SetTime(v) => (if enabled { v } else { t }, enabled),
        FileTimeOperation::DisableUpdate => (t, false),
        FileTimeOperation::ResumeUpdate => (t, true),
        FileTimeOperation::DontChange => (t, enabled),
    }
}

fn apply_time(op: FileTimeOperation, t: u64, enabled: bool) -> (r: (u64, bool))
    ensures
        r == time_after(op, t, enabled),
{
    match op {
        FileTimeOperation::SetTime(v) => (if enabled { v } else { t }, enabled),
        FileTimeOperation::DisableUpdate => (t, false),
        FileTimeOperation::ResumeUpdate => (t, true),
        FileTimeOperation::DontChange => (t, enabled),
    }
}

impl MemFsHandler {
    /// Response headers arrived for the fetch into stream `stream`: a known
    /// length becomes the stream's announced size. Returns whether the body
    /// is to be streamed, which only a data open asks for.
    pub fn on_response(&mut self, stream: usize, content_length: Option<u64>, full_download: bool, now: u64) -> (r: bool)
        requires
            old(self).wf(),
            stream < old(self).streams@.len(),
        ensures
            final(self).wf(),
            r == full_download,
            final(self).entries == old(self).entries,
            final(self).existing_readonly == old(self).existing_readonly,
            final(self).streams@ == match content_length {
                Some(n) => old(self).streams@.update(stream as int, crate::metadata::AltStream {
                    content_length: n,
                    ctime: now,
                    ..old(self).streams@[stream as int]
                }),
                None => old(self).streams@,
            },
    {
        match content_length {
            Some(n) => {
                self.streams[stream].content_length = n;
                self.streams[stream].ctime = now;
                proof {
                    crate::fs::lemma_wf_more_streams(old(self), self);
                }
            },
            None => {},
        }
        full_download
    }

    /// A chunk of the body arrived: it is appended to the stream's bytes.
    pub fn on_chunk(&mut self, stream: usize, chunk: &[u8])
        requires
            old(self).wf(),
            stream < old(self).streams@.len(),
        ensures
            final(self).wf(),
            final(self).entries == old(self).entries,
            final(self).existing_readonly == old(self).existing_readonly,
            final(self).streams@.len() == old(self).streams@.len(),
            final(self).streams@[stream as int].data@ == old(self).streams@[stream as int].data@ + chunk@,
            final(self).streams@[stream as int] == (crate::metadata::AltStream {
                data: final(self).streams@[stream as int].data,
                ..old(self).streams@[stream as int]
            }),
            forall|i: int| 0 <= i < old(self).streams@.len() && i != stream
                ==> #[trigger] final(self).streams@[i] == old(self).streams@[i],
    {
        let mut i: usize = 0;
        let ghost d0 = old(self).streams@[stream as int].data@;
        while i < chunk.len()
            invariant
                self.wf(),
                self.entries == old(self).entries,
                self.existing_readonly == old(self).existing_readonly,
                i <= chunk@.len(),
                stream < old(self).streams@.len(),
                self.streams@.len() == old(self).streams@.len(),
                self.streams@[stream as int].data@ == d0 + chunk@.subrange(0, i as int),
                self.streams@[stream as int] == (crate::metadata::AltStream {
                    data: self.streams@[stream as int].data,
                    ..old(self).streams@[stream as int]
                }),
                forall|j: int| 0 <= j < old(self).streams@.len() && j != stream
                    ==> #[trigger] self.streams@[j] == old(self).streams@[j],
            decreases chunk@.len() - i,
        {
            let ghost mid = *self;
            self.streams[stream].data.push(chunk[i]);
            proof {
                crate::fs::lemma_wf_more_streams(&mid, self);
                assert(d0 + chunk@.subrange(0, i + 1) =~= (d0 + chunk@.subrange(0, i as int)).push(chunk@[i as int]));
            }
            i += 1;
        }
        assert(chunk@.subrange(0, chunk@.len() as int) =~= chunk@);
    }

    /// The fetch for HttpFile `entry` ended: its pending flag clears.
    pub fn on_download_done(&mut self, entry: usize)
        requires
            old(self).wf(),
            entry < old(self).entries@.len(),
        ensures
            final(self).wf(),
            final(self).streams == old(self).streams,
            final(self).existing_readonly == old(self).existing_readonly,
            final(self).entries@.len() == old(self).entries@.len(),
            forall|i: int| 0 <= i < old(self).entries@.len() && i != entry ==> #[trigger] final(self).entry(i) == old(self).entry(i),
            match old(self).entry(entry as int) {
                Entry::HttpFile(h) => final(self).entry(entry as int) == Entry::HttpFile(
                    crate::entry::HttpFileEntry { download_pending: false, ..h },
                ),
                e => final(self).entry(entry as int) == e,
            },
    {
        match &mut self.entries[entry] {
            Entry::HttpFile(h) => {
                h.download_pending = false;
            },
            _ => {},
        }
        proof {
            assert(entry_in_bounds(old(self).entries@[entry as int], old(self).entries@.len(), old(self).streams@.len()));
            assert(entry_in_bounds(self.entries@[entry as int], old(self).entries@.len(), old(self).streams@.len()));
            crate::fs::lemma_wf_replace(old(self), self, entry as int);
        }
    }

    /// SetAttributes: the entry's mask becomes `attrs`, kept to the
    /// supported bits.
    pub fn set_file_attributes(&mut self, h: &EntryHandle, attrs: u32)
        requires
            old(self).wf(),
            h.entry < old(self).entries@.len(),
        ensures
            final(self).wf(),
            final(self).entries@ == old(self).entries@.update(h.entry as int, final(self).entry(h.entry as int)),
            final(self).entry(h.entry as int) == old(self).entry(h.entry as int).with_stat(crate::metadata::Stat {
                attrs: Attributes { value: attrs & SUPPORTED_ATTRS },
                ..old(self).stat_of(h.entry as int)
            }),
            final(self).streams == old(self).streams,
            final(self).existing_readonly == old(self).existing_readonly,
    {
        {
            let st = self.entries[h.entry].stat_mut();
            st.attrs = Attributes::new(attrs);
        }
        proof {
            assert(entry_in_bounds(old(self).entries@[h.entry as int], old(self).entries@.len(), old(self).streams@.len()));
            crate::fs::lemma_wf_replace(old(self), self, h.entry as int);
        }
    }

    /// SetTimes: each timestamp is set, frozen, resumed or left, as its
    /// operation says; a set only lands while the handle's flag for that
    /// timestamp allows updates.
    pub fn set_file_time(
        &mut self,
        h: &mut EntryHandle,
        creation_time: FileTimeOperation,
        last_access_time: FileTimeOperation,
        last_write_time: FileTimeOperation,
    )
        requires
            old(self).wf(),
            old(h).entry < old(self).entries@.len(),
        ensures
            final(self).wf(),
            final(self).streams == old(self).streams,
            final(self).existing_readonly == old(self).existing_readonly,
            final(self).entries@ == old(self).entries@.update(old(h).entry as int, final(self).entry(old(h).entry as int)),
            ({
                let st = old(self).stat_of(old(h).entry as int);
                let c = time_after(creation_time, st.ctime, old(h).ctime_enabled);
                let a = time_after(last_access_time, st.atime, old(h).atime_enabled);
                let m = time_after(last_write_time, st.mtime, old(h).mtime_enabled);
                &&& final(self).entry(old(h).entry as int) == old(self).entry(old(h).entry as int).with_stat(
                    crate::metadata::Stat { ctime: c.0, atime: a.0, mtime: m.0, ..st },
                )
                &&& *final(h) == (EntryHandle { ctime_enabled: c.1, atime_enabled: a.1, mtime_enabled: m.1, ..*old(h) })
            }),
    {
        let e = h.entry;
        let (c, ce) = apply_time(creation_time, self.entries[e].stat().ctime, h.ctime_enabled);
        let (a, ae) = apply_time(last_access_time, self.entries[e].stat().atime, h.atime_enabled);
        let (m, me) = apply_time(last_write_time, self.entries[e].stat().mtime, h.mtime_enabled);
        {
            let st = self.entries[e].stat_mut();
            st.ctime = c;
            st.atime = a;
            st.mtime = m;
        }
        h.ctime_enabled = ce;
        h.atime_enabled = ae;
        h.mtime_enabled = me;
        proof {
            assert(entry_in_bounds(old(self).entries@[e as int], old(self).entries@.len(), old(self).streams@.len()));
            crate::fs::lemma_wf_replace(old(self), self, e as int);
        }
    }

    /// Delete(File): refused for a readonly entry; otherwise the bound
    /// stream, or else the entry, is marked for removal at last close.
    pub fn delete_file(&mut self, h: &EntryHandle) -> (r: Result<(), FsError>)
        requires
            old(self).wf(),
            old(self).handle_ok(h),
        ensures
            final(self).wf(),
            final(self).existing_readonly == old(self).existing_readonly,
            final(self).entries@.len() == old(self).entries@.len(),
            final(self).streams@.len() == old(self).streams@.len(),
            old(self).stat_of(h.entry as int).attrs.value & FILE_ATTRIBUTE_READONLY != 0
                <==> r == Err::<(), FsError>(FsError::CannotDelete),
            old(self).stat_of(h.entry as int).attrs.value & FILE_ATTRIBUTE_READONLY == 0 ==> r is Ok,
            r is Err ==> *final(self) == *old(self),
            r is Ok ==> match h.alt_stream {
                Some(s) => final(self).entries == old(self).entries && final(self).streams@ == old(self).streams@.update(
                    s as int,
                    crate::metadata::AltStream { delete_pending: true, ..old(self).streams@[s as int] },
                ),
                None => final(self).streams == old(self).streams
                    && final(self).entries@ == old(self).entries@.update(h.entry as int, final(self).entry(h.entry as int))
                    && final(self).entry(h.entry as int) == old(self).entry(h.entry as int).with_stat(
                        crate::metadata::Stat { delete_pending: true, ..old(self).stat_of(h.entry as int) },
                    ),
            },
    {
        if self.entries[h.entry].stat().attrs.value & FILE_ATTRIBUTE_READONLY != 0 {
            return Err(FsError::CannotDelete);
        }
        match h.alt_stream {
            Some(s) => {
                self.streams[s].delete_pending = true;
                proof {
                    crate::fs::lemma_wf_more_streams(old(self), self);
                }
            },
            None => {
                {
                    let st = self.entries[h.entry].stat_mut();
                    st.delete_pending = true;
                }
                proof {
                    assert(entry_in_bounds(old(self).entries@[h.entry as int], old(self).entries@.len(), old(self).streams@.len()));
                    crate::fs::lemma_wf_replace(old(self), self, h.entry as int);
                }
            },
        }
        Ok(())
    }

    /// Delete(Directory): refused for the root and, when requested as
    /// delete-on-close, for a directory that still has children; otherwise
    /// the directory is marked for removal at last close.
    pub fn delete_directory(&mut self, h: &EntryHandle, delete_on_close: bool) -> (r: Result<(), FsError>)
        requires
            old(self).wf(),
            old(self).handle_ok(h),
        ensures
            final(self).wf(),
            final(self).existing_readonly == old(self).existing_readonly,
            final(self).streams == old(self).streams,
            final(self).entries@.len() == old(self).entries@.len(),
            old(self).stat_of(h.entry as int).parent is None ==> r == Err::<(), FsError>(FsError::AccessDenied),
            old(self).stat_of(h.entry as int).parent is Some && delete_on_close && old(self).children_of(h.entry as int).len() > 0
                ==> r == Err::<(), FsError>(FsError::DirectoryNotEmpty),
            r is Err ==> *final(self) == *old(self),
            old(self).stat_of(h.entry as int).parent is Some
                && !(delete_on_close && old(self).children_of(h.entry as int).len() > 0) ==> {
                &&& r is Ok
                &&& final(self).entries@ == old(self).entries@.update(h.entry as int, final(self).entry(h.entry as int))
                &&& final(self).entry(h.entry as int) == old(self).entry(h.entry as int).with_stat(
                    crate::metadata::Stat { delete_pending: true, ..old(self).stat_of(h.entry as int) },
                )
                &&& forall|i: int| 0 <= i < old(self).entries@.len() ==> #[trigger] final(self).children_of(i) == old(self).children_of(i)
            },
    {
        let e = h.entry;
        if self.entries[e].stat().parent.is_none() {
            return Err(FsError::AccessDenied);
        }
        let has_children = match &self.entries[e] {
            Entry::Directory(d) => d.children.len() > 0,
            _ => false,
        };
        if delete_on_close && has_children {
            return Err(FsError::DirectoryNotEmpty);
        }
        {
            let st = self.entries[e].stat_mut();
            st.delete_pending = true;
        }
        proof {
            assert(entry_in_bounds(old(self).entries@[e as int], old(self).entries@.len(), old(self).streams@.len()));
            crate::fs::lemma_wf_replace(old(self), self, e as int);
            assert forall|i: int| 0 <= i < old(self).entries@.len() implies #[trigger] self.children_of(i) == old(self).children_of(i) by {
                if i != e as int {
                    assert(self.entry(i) == old(self).entry(i));
                }
            }
        }
        Ok(())
    }
}

} // verus!
