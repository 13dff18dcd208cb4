use vstd::prelude::*;

use crate::entry::Entry;
use crate::fs::{entry_in_bounds, MemFsHandler};
use crate::handle::EntryHandle;
use crate::metadata::output_attrs;
use crate::status::FsError;

verus! {

/// One directory listing record.
pub struct FindData {
    pub attributes: u32,
    pub creation_time: u64,
    pub last_access_time: u64,
    pub last_write_time: u64,
    pub file_size: u64,
    pub file_name: Vec<u16>,
}

/// One stream listing record.
pub struct FindStreamData {
    pub size: i64,
    pub name: Vec<u16>,
}

/// `::$DATA`, the name of a file's default stream in listings.
pub open spec fn default_stream_label() -> Seq<u16> {
    seq![58u16, 58, 36, 68, 65, 84, 65]
}

/// `:name:$DATA`
pub open spec fn stream_label(name: Seq<u16>) -> Seq<u16> {
    seq![58u16] + name + seq![58u16, 36, 68, 65, 84, 65]
}

impl MemFsHandler {
    /// The size a listing shows for entry `c`: resident bytes only.
    pub open spec fn listed_size(&self, c: int) -> u64 {
        match self.entry(c) {
            Entry::File(f) => f.data@.len() as u64,
            Entry::HttpFile(hf) => match hf.cache() {
                Some(d) => d.len() as u64,
                None => 0,
            },
            Entry::Directory(_) => 0,
        }
    }

    fn listed_size_of(&self, c: usize) -> (r: u64)
        requires
            c < self.entries@.len(),
        ensures
            r == self.listed_size(c as int),
    {
        match &self.entries[c] {
            Entry::File(f) => f.data.len() as u64,
            Entry::HttpFile(hf) => hf.data_len() as u64,
            Entry::Directory(_) => 0,
        }
    }

    /// FindChildren: one record per child of the handle's directory, in
    /// the directory's order.
    pub fn find_files(&self, h: &EntryHandle) -> (r: Result<Vec<FindData>, FsError>)
        requires
            self.wf(),
            self.handle_ok(h),
        ensures
            h.alt_stream is Some || !(self.entry(h.entry as int) is Directory)
                ==> r == Err::<Vec<FindData>, FsError>(FsError::InvalidDeviceRequest),
            h.alt_stream is None && self.entry(h.entry as int) is Directory ==> r is Ok && {
                let v = r.unwrap();
                let ch = self.children_of(h.entry as int);
                &&& v@.len() == ch.len()
                &&& forall|i: int| 0 <= i < ch.len() ==> {
                    let c = ch[i].1 as int;
                    let st = self.stat_of(c);
                    &&& (#[trigger] v@[i]).file_name@ == ch[i].0@
                    &&& v@[i].attributes == output_attrs(st.attrs.value, self.entry(c) is Directory)
                    &&& v@[i].creation_time == st.ctime
                    &&& v@[i].last_access_time == st.atime
                    &&& v@[i].last_write_time == st.mtime
                    &&& v@[i].file_size == self.listed_size(c)
                }
            },
    {
        if h.alt_stream.is_some() {
            return Err(FsError::InvalidDeviceRequest);
        }
        let children = match &self.entries[h.entry] {
            Entry::Directory(d) => &d.children,
            _ => {
                return Err(FsError::InvalidDeviceRequest);
            },
        };
        assert(entry_in_bounds(self.entries@[h.entry as int], self.entries@.len(), self.streams@.len()));
        let mut out: Vec<FindData> = Vec::new();
        let mut i: usize = 0;
        while i < children.len()
            invariant
                self.wf(),
                children@ == self.children_of(h.entry as int),
                forall|k: int| 0 <= k < children@.len() ==> (#[trigger] children@[k]).1 < self.entries@.len(),
                i <= children@.len(),
                out@.len() == i,
                forall|k: int| 0 <= k < i ==> {
                    let c = children@[k].1 as int;
                    let st = self.stat_of(c);
                    &&& (#[trigger] out@[k]).file_name@ == children@[k].0@
                    &&& out@[k].attributes == output_attrs(st.attrs.value, self.entry(c) is Directory)
                    &&& out@[k].creation_time == st.ctime
                    &&& out@[k].last_access_time == st.atime
                    &&& out@[k].last_write_time == st.mtime
                    &&& out@[k].file_size == self.listed_size(c)
                },
            decreases children@.len() - i,
        {
            let c = children[i].1;
            let child = &self.entries[c];
            let st = child.stat();
            let name = crate::path::slice_units(children[i].0.as_slice(), 0, children[i].0.len());
            assert(name@ =~= children@[i as int].0@);
            out.push(FindData {
                attributes: st.attrs.get_output_attrs(child.is_dir()),
                creation_time: st.ctime,
                last_access_time: st.atime,
                last_write_time: st.mtime,
                file_size: self.listed_size_of(c),
                file_name: name,
            });
            i += 1;
        }
        Ok(out)
    }

    /// FindStreams: a File's default stream first, then each named stream
    /// of the entry with its buffered size.
    pub fn find_streams(&self, h: &EntryHandle) -> (r: Vec<FindStreamData>)
        requires
            self.wf(),
            self.handle_ok(h),
        ensures
            ({
                let first: int = if self.entry(h.entry as int) is File { 1 } else { 0 };
                let ss = self.stat_of(h.entry as int).alt_streams@;
                &&& r@.len() == first + ss.len()
                &&& first == 1 ==> r@[0].name@ == default_stream_label()
                    && r@[0].size == self.listed_size(h.entry as int) as i64
                &&& forall|i: int| 0 <= i < ss.len() ==> {
                    &&& (#[trigger] r@[first + i]).name@ == stream_label(ss[i].0@)
                    &&& r@[first + i].size == self.streams@[ss[i].1 as int].data@.len() as i64
                }
            }),
    {
        let e = h.entry;
        let mut out: Vec<FindStreamData> = Vec::new();
        let is_file = match &self.entries[e] {
            Entry::File(_) => true,
            _ => false,
        };
        if is_file {
            let label: Vec<u16> = vec![58, 58, 36, 68, 65, 84, 65];
            assert(label@ =~= default_stream_label());
            out.push(FindStreamData { size: self.listed_size_of(e) as i64, name: label });
        }
        let ghost first: int = if is_file { 1 } else { 0 };
        let ss = &self.entries[e].stat().alt_streams;
        assert(entry_in_bounds(self.entries@[e as int], self.entries@.len(), self.streams@.len()));
        let mut i: usize = 0;
        while i < ss.len()
            invariant
                self.wf(),
                e == h.entry,
                e < self.entries@.len(),
                ss@ == self.stat_of(e as int).alt_streams@,
                forall|k: int| 0 <= k < ss@.len() ==> (#[trigger] ss@[k]).1 < self.streams@.len(),
                first == (if self.entry(e as int) is File { 1int } else { 0int }),
                i <= ss@.len(),
                out@.len() == first + i,
                first == 1 ==> out@[0].name@ == default_stream_label()
                    && out@[0].size == self.listed_size(e as int) as i64,
                forall|k: int| 0 <= k < i ==> {
                    &&& (#[trigger] out@[first + k]).name@ == stream_label(ss@[k].0@)
                    &&& out@[first + k].size == self.streams@[ss@[k].1 as int].data@.len() as i64
                },
            decreases ss@.len() - i,
        {
            let mut label: Vec<u16> = vec![58];
            let n = &ss[i].0;
            let mut j: usize = 0;
            while j < n.len()
                invariant
                    j <= n@.len(),
                    label@ == seq![58u16] + n@.subrange(0, j as int),
                decreases n@.len() - j,
            {
                label.push(n[j]);
                j += 1;
            }
            label.push(58);
            label.push(36);
            label.push(68);
            label.push(65);
            label.push(84);
            label.push(65);
            assert(label@ =~= stream_label(n@));
            let size = self.streams[ss[i].1].data.len() as i64;
            out.push(FindStreamData { size, name: label });
            i += 1;
        }
        out
    }
}

} // verus!
