use vstd::prelude::*;

use crate::entry::Entry;
use crate::handle::EntryHandle;
use crate::fs::{MemFsHandler, ROOT};
use crate::metadata::{
    SUPPORTED_ATTRS, Attributes, FILE_ATTRIBUTE_ARCHIVE, FILE_ATTRIBUTE_HIDDEN, FILE_ATTRIBUTE_READONLY, FILE_ATTRIBUTE_SYSTEM,
};
use crate::ops::{join_url, remote_path_of, CreateFileInfo};
use crate::path::{components, default_stream, dirs_of, leaf_of, parse_name, split_components, split_path, FullName, StreamInfo, MAX_COMPONENT_LENGTH};
use crate::status::FsError;

verus! {

pub const FILE_SUPERSEDE: u32 = 0;
pub const FILE_OPEN: u32 = 1;
pub const FILE_CREATE: u32 = 2;
pub const FILE_OPEN_IF: u32 = 3;
pub const FILE_OVERWRITE: u32 = 4;
pub const FILE_OVERWRITE_IF: u32 = 5;
pub const FILE_MAXIMUM_DISPOSITION: u32 = 5;

pub const FILE_DIRECTORY_FILE: u32 = 0x1;
pub const FILE_NON_DIRECTORY_FILE: u32 = 0x40;
pub const FILE_DELETE_ON_CLOSE: u32 = 0x1000;

pub const FILE_READ_DATA: u32 = 0x1;
pub const FILE_WRITE_DATA: u32 = 0x2;
pub const FILE_APPEND_DATA: u32 = 0x4;
pub const FILE_READ_ATTRIBUTES: u32 = 0x80;

/// Whether an open asks for data access rather than attributes alone.
pub open spec fn wants_body(desired_access: u32) -> bool {
    desired_access != FILE_READ_ATTRIBUTES
}

/// The open is a fetch-through miss on a path whose leaf, and every
/// directory above it that is missing, is created by the open.
pub open spec fn fetch_through_miss(
    fs: &MemFsHandler,
    path: Seq<u16>,
    file_attributes: u32,
    create_disposition: u32,
    create_options: u32,
) -> bool {
    let comps = components(path);
    let leaf = leaf_of(path);
    &&& comps.len() >= 1
    &&& forall|k: int| 0 <= k < comps.len() ==> (#[trigger] comps[k]).len() <= MAX_COMPONENT_LENGTH
    &&& parse_name(leaf) == Ok::<_, FsError>((leaf, None::<(Seq<u16>, crate::path::StreamType)>))
    &&& create_disposition == FILE_OPEN || create_disposition == FILE_OVERWRITE
    &&& create_options & FILE_DIRECTORY_FILE == 0
    &&& !(file_attributes & FILE_ATTRIBUTE_READONLY != 0 && create_options & FILE_DELETE_ON_CLOSE != 0)
    &&& comps.len() == 1 ==> fs.child(ROOT as int, leaf) is None && !fs.stat_of(ROOT as int).delete_pending
    &&& comps.len() > 1 ==> fs.all_missing(ROOT as int, dirs_of(path))
}

/// The open created the last of `n` entries and started its fetch when the
/// origin's URL joins with the path (`joins`), and failed with an invalid
/// name when it does not.
pub open spec fn fetch_started(r: &Result<CreateFileInfo, FsError>, n: nat, joins: bool) -> bool {
    match r {
        Ok(info) => joins && info.download is Some && info.new_file_created && info.context.entry == n - 1,
        Err(e) => !joins && *e == FsError::ObjectNameInvalid,
    }
}

/// The entry that `path` names in `fs` when its directories and its leaf
/// already exist, with whether the leaf names the default stream.
pub open spec fn existing_leaf(fs: &MemFsHandler, path: Seq<u16>) -> Option<(int, bool)> {
    let leaf = leaf_of(path);
    if components(path).len() > 0 && leaf.len() <= MAX_COMPONENT_LENGTH && parse_name(leaf) is Ok
        && fs.walk(ROOT as int, dirs_of(path)) is Ok {
        let parts = parse_name(leaf).unwrap();
        match fs.child(fs.walk(ROOT as int, dirs_of(path)).unwrap(), parts.0) {
            Some(c) => Some((c, parts.1 is None)),
            None => None,
        }
    } else {
        None
    }
}

/// How an open of existing entry `c` comes out: the access, pending and
/// delete checks in that order, then, for an open of the default stream,
/// the rules of the entry's kind; a success counts one more handle on `c`.
pub open spec fn existing_open(
    fs: &MemFsHandler,
    after: &MemFsHandler,
    c: int,
    plain: bool,
    desired_access: u32,
    file_attributes: u32,
    create_disposition: u32,
    create_options: u32,
    delete_on_close: bool,
    url: Option<Seq<char>>,
    r: &Result<CreateFileInfo, FsError>,
) -> bool {
    let joins = url is Some;
    let attrs = fs.stat_of(c).attrs.value;
    let hidden_system = attrs & FILE_ATTRIBUTE_HIDDEN != 0 && attrs & FILE_ATTRIBUTE_SYSTEM != 0
        && !(file_attributes & FILE_ATTRIBUTE_HIDDEN != 0 && file_attributes & FILE_ATTRIBUTE_SYSTEM != 0);
    let overwrites = create_disposition == FILE_SUPERSEDE || create_disposition == FILE_OVERWRITE
        || create_disposition == FILE_OVERWRITE_IF;
    let ro = fs.readonly_at_open(c);
    let writes = desired_access & FILE_WRITE_DATA != 0 || desired_access & FILE_APPEND_DATA != 0;
    let pending = fs.stat_of(c).delete_pending;
    let passes = !(ro && writes) && !pending && !(ro && delete_on_close) && plain && fs.stat_of(c).handle_count < u32::MAX;
    let opens = create_disposition == FILE_OPEN || create_disposition == FILE_OPEN_IF;
    &&& ro && writes ==> *r == Err::<CreateFileInfo, FsError>(FsError::AccessDenied)
    &&& !(ro && writes) && pending ==> *r == Err::<CreateFileInfo, FsError>(FsError::DeletePending)
    &&& !(ro && writes) && !pending && ro && delete_on_close ==> *r == Err::<CreateFileInfo, FsError>(FsError::CannotDelete)
    &&& passes && fs.entry(c) is Directory && create_options & FILE_NON_DIRECTORY_FILE == 0 && opens
        ==> r is Ok && r.unwrap().is_dir
    &&& passes && fs.entry(c) is Directory && create_options & FILE_NON_DIRECTORY_FILE != 0
        ==> *r == Err::<CreateFileInfo, FsError>(FsError::FileIsADirectory)
    &&& passes && !(fs.entry(c) is Directory) && create_disposition == FILE_CREATE && create_options & FILE_DIRECTORY_FILE == 0
        ==> *r == Err::<CreateFileInfo, FsError>(FsError::ObjectNameCollision)
    &&& passes && fs.entry(c) is File && create_options & FILE_DIRECTORY_FILE == 0 && opens
        ==> r is Ok && !r.unwrap().new_file_created && r.unwrap().download is None
    &&& passes && fs.entry(c) is File && create_options & FILE_DIRECTORY_FILE != 0
        ==> *r == Err::<CreateFileInfo, FsError>(FsError::NotADirectory)
    &&& passes && fs.entry(c) is HttpFile && create_options & FILE_DIRECTORY_FILE == 0 && opens
        ==> (r is Ok <==> joins) && (r is Ok ==> r.unwrap().download is Some)
    &&& passes && fs.entry(c) is HttpFile && create_options & FILE_DIRECTORY_FILE == 0 && opens && joins ==> {
        &&& r is Ok
        &&& !r.unwrap().new_file_created
        &&& r.unwrap().context.alt_stream == Some(fs.streams@.len() as usize)
        &&& after.streams@.len() == fs.streams@.len() + 1
        &&& r.unwrap().download matches Some(t) && Some(t.url@) == url && t.stream == fs.streams@.len()
        &&& after.entry(c) matches Entry::HttpFile(h) && h.download_pending
    }
    &&& passes && fs.entry(c) is File && create_options & FILE_DIRECTORY_FILE == 0 && overwrites
        && ((create_disposition != FILE_SUPERSEDE && ro) || hidden_system)
        ==> *r == Err::<CreateFileInfo, FsError>(FsError::AccessDenied)
    &&& passes && fs.entry(c) is File && create_options & FILE_DIRECTORY_FILE == 0 && overwrites
        && !((create_disposition != FILE_SUPERSEDE && ro) || hidden_system) ==> {
        &&& r is Ok && !r.unwrap().new_file_created && r.unwrap().download is None
        &&& after.entry(c) matches Entry::File(f) && f.data@.len() == 0
        &&& after.stat_of(c).attrs.value == (file_attributes | FILE_ATTRIBUTE_ARCHIVE) & SUPPORTED_ATTRS
    }
    &&& passes && fs.entry(c) is HttpFile && create_options & FILE_DIRECTORY_FILE == 0 && !opens
        && create_disposition != FILE_CREATE ==> *r == Err::<CreateFileInfo, FsError>(FsError::InvalidParameter)
    &&& passes && fs.entry(c) is Directory && create_options & FILE_NON_DIRECTORY_FILE == 0 && create_disposition == FILE_CREATE
        ==> *r == Err::<CreateFileInfo, FsError>(FsError::ObjectNameCollision)
    &&& passes && fs.entry(c) is Directory && create_options & FILE_NON_DIRECTORY_FILE == 0 && !opens
        && create_disposition != FILE_CREATE ==> *r == Err::<CreateFileInfo, FsError>(FsError::InvalidParameter)
    &&& r matches Ok(info) ==> info.context.entry == c
}

/// The directory holding the leaf of `path`, and the leaf's stream part,
/// when the directories exist in `fs` and the leaf does not.
pub open spec fn missing_leaf(fs: &MemFsHandler, path: Seq<u16>) -> Option<(int, Option<(Seq<u16>, crate::path::StreamType)>)> {
    let leaf = leaf_of(path);
    if components(path).len() > 0 && leaf.len() <= MAX_COMPONENT_LENGTH && parse_name(leaf) is Ok
        && fs.walk(ROOT as int, dirs_of(path)) is Ok {
        let parts = parse_name(leaf).unwrap();
        let d = fs.walk(ROOT as int, dirs_of(path)).unwrap();
        if fs.child(d, parts.0) is None { Some((d, parts.1)) } else { None }
    } else {
        None
    }
}

/// Whether a stream part names the default stream of a new entry.
pub open spec fn stream_part_ok(part: Option<(Seq<u16>, crate::path::StreamType)>, is_dir: bool) -> bool {
    match part {
        Some((n, t)) => default_stream(n, t, is_dir) is Ok,
        None => true,
    }
}

/// How an open of a leaf missing from directory `parent` comes out: a
/// pending parent refuses it; a directory open creates on Create/OpenIf
/// only; a file open on Open/Overwrite fetches through, otherwise it
/// creates an empty local File.
pub open spec fn missing_open(
    fs: &MemFsHandler,
    after: &MemFsHandler,
    parent: int,
    leaf: Seq<u16>,
    part: Option<(Seq<u16>, crate::path::StreamType)>,
    file_attributes: u32,
    create_disposition: u32,
    create_options: u32,
    delete_on_close: bool,
    url: Option<Seq<char>>,
    r: &Result<CreateFileInfo, FsError>,
) -> bool {
    let joins = url is Some;
    let pending = fs.stat_of(parent).delete_pending;
    let dir = create_options & FILE_DIRECTORY_FILE != 0;
    let keeps = !(file_attributes & FILE_ATTRIBUTE_READONLY != 0 && delete_on_close);
    let fetches = create_disposition == FILE_OPEN || create_disposition == FILE_OVERWRITE;
    &&& pending ==> *r == Err::<CreateFileInfo, FsError>(FsError::DeletePending)
    &&& !pending && dir && create_disposition == FILE_OPEN ==> *r == Err::<CreateFileInfo, FsError>(FsError::ObjectNameNotFound)
    &&& !pending && dir && create_disposition != FILE_OPEN && create_disposition != FILE_CREATE
        && create_disposition != FILE_OPEN_IF ==> *r == Err::<CreateFileInfo, FsError>(FsError::InvalidParameter)
    &&& !pending && dir && (create_disposition == FILE_CREATE || create_disposition == FILE_OPEN_IF) && keeps
        && stream_part_ok(part, true) ==> r is Ok && after.entry(r.unwrap().context.entry as int) is Directory
    &&& !pending && !dir && !fetches && keeps && stream_part_ok(part, false)
        ==> r is Ok && after.entry(r.unwrap().context.entry as int) is File && r.unwrap().download is None
    &&& !pending && !dir && fetches && keeps && part is None ==> fetch_started(r, after.entries@.len(), joins)
    &&& r is Ok && part is None ==> after.child(parent, leaf) == Some(r.unwrap().context.entry as int)
    &&& r is Ok && after.entry(r.unwrap().context.entry as int) is File ==> {
        let e = r.unwrap().context.entry as int;
        &&& after.entry(e) matches Entry::File(f) && f.data@.len() == 0
        &&& after.stat_of(e).attrs.value == (file_attributes | FILE_ATTRIBUTE_ARCHIVE) & SUPPORTED_ATTRS
    }
    &&& r is Ok && after.entry(r.unwrap().context.entry as int) is Directory ==> {
        let e = r.unwrap().context.entry as int;
        &&& after.children_of(e).len() == 0
        &&& after.stat_of(e).attrs.value == file_attributes & SUPPORTED_ATTRS
    }
    &&& r is Err ==> after.entries == fs.entries && after.streams == fs.streams
    &&& r is Ok ==> {
        let info = r.unwrap();
        let e = info.context.entry as int;
        &&& info.new_file_created
        &&& e == fs.entries@.len()
        &&& after.entries@.len() == e + 1
        &&& after.stat_of(e).handle_count == 1
        &&& after.stat_of(e).parent == Some(parent as usize)
        &&& after.children_of(parent).drop_last() == fs.children_of(parent)
        &&& info.context.alt_stream matches Some(sid) ==> after.stat_of(e).alt_streams@.len() == 1
            && after.stat_of(e).alt_streams@[0].1 == sid
        &&& info.download matches Some(t) ==> Some(t.url@) == url
    }
}

impl MemFsHandler {
    /// Whether existing entry `c` counts as readonly at open time.
    pub open spec fn readonly_at_open(&self, c: int) -> bool {
        self.existing_readonly || self.stat_of(c).attrs.value & FILE_ATTRIBUTE_READONLY != 0
    }

    /// Opens the session on the root directory.
    fn open_root(&mut self, index: u64, create_disposition: u32, create_options: u32, delete_on_close: bool) -> (r: Result<
        CreateFileInfo,
        FsError,
    >)
        requires
            old(self).wf(),
        ensures
            final(self).wf(),
            final(self).existing_readonly == old(self).existing_readonly,
            final(self).entries@.len() == old(self).entries@.len(),
            r is Err ==> *final(self) == *old(self),
            create_disposition != FILE_OPEN && create_disposition != FILE_OPEN_IF ==> r == Err::<CreateFileInfo, FsError>(FsError::InvalidParameter),
            (create_disposition == FILE_OPEN || create_disposition == FILE_OPEN_IF) && create_options & FILE_NON_DIRECTORY_FILE != 0
                ==> r == Err::<CreateFileInfo, FsError>(FsError::FileIsADirectory),
            (create_disposition == FILE_OPEN || create_disposition == FILE_OPEN_IF) && create_options & FILE_NON_DIRECTORY_FILE == 0
                && old(self).stat_of(ROOT as int).handle_count < u32::MAX ==> r is Ok,
            r matches Ok(info) ==> info.context.entry == ROOT && info.is_dir && info.context.index == index && info.context.alt_stream is None
                && info.download is None
                && info.context.delete_on_close == delete_on_close
                && final(self).stat_of(ROOT as int).handle_count == old(self).stat_of(ROOT as int).handle_count + 1,
    {
        if create_disposition == FILE_OPEN || create_disposition == FILE_OPEN_IF {
            if create_options & FILE_NON_DIRECTORY_FILE != 0 {
                Err(FsError::FileIsADirectory)
            } else if self.entries[ROOT].stat().handle_count == u32::MAX {
                Err(FsError::InsufficientResources)
            } else {
                let context = EntryHandle::new(self, index, ROOT, None, delete_on_close);
                Ok(CreateFileInfo { context, is_dir: true, new_file_created: false, download: None })
            }
        } else {
            Err(FsError::InvalidParameter)
        }
    }

    /// Opens (or creates) the named stream `si` of existing entry `c`.
    fn open_named_stream(
        &mut self,
        index: u64,
        c: usize,
        si: &StreamInfo,
        create_disposition: u32,
        readonly: bool,
        delete_on_close: bool,
        now: u64,
    ) -> (r: Result<CreateFileInfo, FsError>)
        requires
            old(self).wf(),
            c < old(self).entries@.len(),
        ensures
            final(self).wf(),
            final(self).existing_readonly == old(self).existing_readonly,
            final(self).entries@.len() == old(self).entries@.len(),
            r is Err ==> *final(self) == *old(self),
            r matches Ok(info) ==> {
                &&& info.context.entry == c
                &&& info.context.index == index
                &&& info.context.alt_stream matches Some(sid) && sid < final(self).streams@.len()
                &&& !info.is_dir
                &&& info.download is None
                &&& info.context.delete_on_close == delete_on_close
                &&& final(self).stat_of(c as int).handle_count == old(self).stat_of(c as int).handle_count + 1
                &&& final(self).entry(c as int) is Directory == old(self).entry(c as int) is Directory
                &&& final(self).entry(c as int) is File == old(self).entry(c as int) is File
            },
    {
        let found = crate::fs::find_pair(&self.entries[c].stat().alt_streams, si.name.as_slice());
        match found {
            Some(k) => {
                assert(crate::fs::entry_in_bounds(self.entries@[c as int], self.entries@.len(), self.streams@.len()));
                let sid = self.entries[c].stat().alt_streams[k].1;
                assert(sid < self.streams@.len());
                if self.streams[sid].delete_pending {
                    return Err(FsError::DeletePending);
                }
                if create_disposition == FILE_CREATE {
                    return Err(FsError::ObjectNameCollision);
                }
                if self.entries[c].stat().handle_count == u32::MAX || self.streams[sid].handle_count == u32::MAX {
                    return Err(FsError::InsufficientResources);
                }
                if create_disposition == FILE_SUPERSEDE || create_disposition == FILE_OVERWRITE
                    || create_disposition == FILE_OVERWRITE_IF {
                    if create_disposition != FILE_SUPERSEDE && readonly {
                        return Err(FsError::AccessDenied);
                    }
                    let ghost mid = *self;
                    {
                        let st = self.entries[c].stat_mut();
                        st.attrs.value = st.attrs.value | FILE_ATTRIBUTE_ARCHIVE;
                        st.update_mtime(now);
                    }
                    proof {
                        assert(crate::fs::entry_in_bounds(mid.entries@[c as int], mid.entries@.len(), mid.streams@.len()));
                        crate::fs::lemma_wf_replace(&mid, self, c as int);
                    }
                    let ghost mid2 = *self;
                    self.streams[sid].data.clear();
                    self.streams[sid].content_length = 0;
                    proof {
                        crate::fs::lemma_wf_more_streams(&mid2, self);
                    }
                }
                let context = EntryHandle::new(self, index, c, Some(sid), delete_on_close);
                Ok(CreateFileInfo { context, is_dir: false, new_file_created: false, download: None })
            },
            None => {
                if create_disposition == FILE_OPEN || create_disposition == FILE_OVERWRITE {
                    return Err(FsError::ObjectNameNotFound);
                }
                if readonly {
                    return Err(FsError::AccessDenied);
                }
                if self.entries[c].stat().handle_count == u32::MAX {
                    return Err(FsError::InsufficientResources);
                }
                let sid = self.push_stream(now);
                let ghost mid = *self;
                {
                    let st = self.entries[c].stat_mut();
                    st.update_atime(now);
                }
                proof {
                    assert(crate::fs::entry_in_bounds(mid.entries@[c as int], mid.entries@.len(), mid.streams@.len()));
                    crate::fs::lemma_wf_replace(&mid, self, c as int);
                }
                let sname = crate::path::slice_units(si.name.as_slice(), 0, si.name.len());
                self.add_alt_stream(c, sname, sid);
                let context = EntryHandle::new(self, index, c, Some(sid), delete_on_close);
                Ok(CreateFileInfo { context, is_dir: false, new_file_created: true, download: None })
            },
        }
    }

    /// Opens existing entry `c`, found under the leaf name of `name`.
    #[verifier::rlimit(100)]
    fn open_existing(
        &mut self,
        index: u64,
        c: usize,
        name: &FullName,
        path: &[u16],
        desired_access: u32,
        file_attributes: u32,
        create_disposition: u32,
        create_options: u32,
        delete_on_close: bool,
        now: u64,
    ) -> (r: Result<CreateFileInfo, FsError>)
        requires
            old(self).wf(),
            c < old(self).entries@.len(),
        ensures
            final(self).wf(),
            final(self).existing_readonly == old(self).existing_readonly,
            final(self).entries@.len() == old(self).entries@.len(),
            r is Err ==> *final(self) == *old(self),
            existing_open(
                old(self),
                final(self),
                c as int,
                name.stream_info is None,
                desired_access,
                file_attributes,
                create_disposition,
                create_options,
                delete_on_close,
                crate::ops::joined(old(self).url@, crate::ops::remote_path(path@)),
                &r,
            ),
            r matches Ok(info) ==> {
                &&& info.context.entry == c
                &&& info.context.index == index
                &&& info.context.delete_on_close == delete_on_close
                &&& final(self).stat_of(c as int).handle_count == old(self).stat_of(c as int).handle_count + 1
                &&& (info.context.alt_stream matches Some(sid) ==> sid < final(self).streams@.len())
                &&& (info.download is Some ==> old(self).entry(c as int) is HttpFile && info.context.alt_stream == Some(old(self).streams@.len() as usize))
                &&& (info.download is Some ==> final(self).entry(c as int) is HttpFile && !info.new_file_created)
                &&& (old(self).entry(c as int) is HttpFile && name.stream_info is None ==> info.download is Some)
                &&& (info.download matches Some(t) ==> Some(t.url@) == crate::ops::joined(old(self).url@, crate::ops::remote_path(path@)))
                &&& info.download matches Some(t) ==> {
                    &&& t.entry == c && t.stream == old(self).streams@.len()
                    &&& t.full_download == crate::create::wants_body(desired_access)
                    &&& create_disposition == FILE_OPEN || create_disposition == FILE_OPEN_IF
                    &&& final(self).entry(c as int) matches Entry::HttpFile(h) && h.download_pending
                }
                &&& old(self).entry(c as int) is Directory && info.context.alt_stream is None
                    ==> info.is_dir && (create_disposition == FILE_OPEN || create_disposition == FILE_OPEN_IF)
            },
    {
        let attrs = self.entries[c].stat().attrs.value;
        let readonly = self.existing_readonly || attrs & FILE_ATTRIBUTE_READONLY != 0;
        let hidden_system = attrs & FILE_ATTRIBUTE_HIDDEN != 0 && attrs & FILE_ATTRIBUTE_SYSTEM != 0
            && !(file_attributes & FILE_ATTRIBUTE_HIDDEN != 0 && file_attributes & FILE_ATTRIBUTE_SYSTEM != 0);
        if readonly && (desired_access & FILE_WRITE_DATA != 0 || desired_access & FILE_APPEND_DATA != 0) {
            return Err(FsError::AccessDenied);
        }
        if self.entries[c].stat().delete_pending {
            return Err(FsError::DeletePending);
        }
        if readonly && delete_on_close {
            return Err(FsError::CannotDelete);
        }
        let is_dir = self.entries[c].is_dir();
        match &name.stream_info {
            Some(si) => match si.check_default(is_dir) {
                Err(e) => {
                    return Err(e);
                },
                Ok(false) => {
                    return self.open_named_stream(index, c, si, create_disposition, readonly, delete_on_close, now);
                },
                Ok(true) => {},
            },
            None => {},
        }
        if self.entries[c].stat().handle_count == u32::MAX {
            return Err(FsError::InsufficientResources);
        }
        match &self.entries[c] {
            Entry::File(_) => {
                if create_options & FILE_DIRECTORY_FILE != 0 {
                    return Err(FsError::NotADirectory);
                }
                if create_disposition == FILE_CREATE {
                    return Err(FsError::ObjectNameCollision);
                }
                if create_disposition == FILE_SUPERSEDE || create_disposition == FILE_OVERWRITE
                    || create_disposition == FILE_OVERWRITE_IF {
                    if create_disposition != FILE_SUPERSEDE && readonly || hidden_system {
                        return Err(FsError::AccessDenied);
                    }
                    let ghost mid = *self;
                    match &mut self.entries[c] {
                        Entry::File(f) => {
                            f.data.clear();
                            f.stat.attrs = Attributes::new(file_attributes | FILE_ATTRIBUTE_ARCHIVE);
                            f.stat.update_mtime(now);
                        },
                        _ => {},
                    }
                    proof {
                        assert(crate::fs::entry_in_bounds(mid.entries@[c as int], mid.entries@.len(), mid.streams@.len()));
                        assert(crate::fs::entry_in_bounds(self.entries@[c as int], mid.entries@.len(), mid.streams@.len()));
                        crate::fs::lemma_wf_replace(&mid, self, c as int);
                    }
                }
                let context = EntryHandle::new(self, index, c, None, delete_on_close);
                Ok(CreateFileInfo { context, is_dir: false, new_file_created: false, download: None })
            },
            Entry::HttpFile(_) => {
                if create_options & FILE_DIRECTORY_FILE != 0 {
                    return Err(FsError::FileIsADirectory);
                }
                if create_disposition == FILE_CREATE {
                    return Err(FsError::ObjectNameCollision);
                }
                if create_disposition != FILE_OPEN && create_disposition != FILE_OPEN_IF {
                    return Err(FsError::InvalidParameter);
                }
                let target = remote_path_of(path);
                let url = match join_url(self.url.as_str(), target.as_slice()) {
                    Some(u) => u,
                    None => {
                        return Err(FsError::ObjectNameInvalid);
                    },
                };
                let ghost mid = *self;
                match &mut self.entries[c] {
                    Entry::HttpFile(h) => {
                        h.download_pending = true;
                    },
                    _ => {},
                }
                proof {
                    assert(crate::fs::entry_in_bounds(mid.entries@[c as int], mid.entries@.len(), mid.streams@.len()));
                    assert(crate::fs::entry_in_bounds(self.entries@[c as int], mid.entries@.len(), mid.streams@.len()));
                    crate::fs::lemma_wf_replace(&mid, self, c as int);
                }
                let task = self.create_new_http_stream(index, url, c, desired_access != FILE_READ_ATTRIBUTES, now);
                let context = EntryHandle::new(self, index, c, Some(task.stream), delete_on_close);
                Ok(CreateFileInfo { context, is_dir: false, new_file_created: false, download: Some(task) })
            },
            Entry::Directory(_) => {
                if create_options & FILE_NON_DIRECTORY_FILE != 0 {
                    return Err(FsError::FileIsADirectory);
                }
                if create_disposition == FILE_CREATE {
                    return Err(FsError::ObjectNameCollision);
                }
                if create_disposition != FILE_OPEN && create_disposition != FILE_OPEN_IF {
                    return Err(FsError::InvalidParameter);
                }
                let context = EntryHandle::new(self, index, c, None, delete_on_close);
                Ok(CreateFileInfo { context, is_dir: true, new_file_created: false, download: None })
            },
        }
    }

    /// Creates the entry for a leaf that `parent` does not hold.
    fn create_missing(
        &mut self,
        index: u64,
        parent: usize,
        name: &FullName,
        path: &[u16],
        desired_access: u32,
        file_attributes: u32,
        create_disposition: u32,
        create_options: u32,
        delete_on_close: bool,
        now: u64,
    ) -> (r: Result<CreateFileInfo, FsError>)
        requires
            old(self).wf(),
            parent < old(self).entries@.len(),
            old(self).entry(parent as int) is Directory,
            components(path@).len() > 0,
            name.view_parts() == parse_name(leaf_of(path@)).unwrap(),
            parse_name(leaf_of(path@)) is Ok,
            old(self).child(parent as int, name.file_name@) is None,
        ensures
            final(self).wf(),
            final(self).existing_readonly == old(self).existing_readonly,
            r is Err ==> *final(self) == *old(self),
            old(self).stat_of(parent as int).delete_pending ==> r == Err::<CreateFileInfo, FsError>(FsError::DeletePending),
            r matches Ok(info) ==> {
                let e = info.context.entry as int;
                &&& e == old(self).entries@.len()
                &&& final(self).entries@.len() == e + 1
                &&& info.new_file_created
                &&& info.context.index == index
                &&& info.context.delete_on_close == delete_on_close
                &&& final(self).stat_of(e).handle_count == 1
                &&& final(self).stat_of(e).parent == Some(parent)
                &&& (info.download is Some <==> final(self).entry(e) is HttpFile)
                &&& final(self).children_of(parent as int).last().1 == e
                &&& final(self).children_of(parent as int).drop_last() == old(self).children_of(parent as int)
                &&& (info.context.alt_stream matches Some(sid) ==> final(self).stat_of(e).alt_streams@.len() == 1
                    && final(self).stat_of(e).alt_streams@[0].1 == sid)
                &&& (info.download matches Some(t) ==> Some(t.url@) == crate::ops::joined(old(self).url@, crate::ops::remote_path(path@)))
                &&& (info.context.alt_stream matches Some(sid) ==> sid < final(self).streams@.len())
                &&& info.download matches Some(t) ==> t.entry == e && Some(t.stream) == info.context.alt_stream
                    && t.full_download == wants_body(desired_access)
                    && (create_disposition == FILE_OPEN || create_disposition == FILE_OVERWRITE)
                    && create_options & FILE_DIRECTORY_FILE == 0
            },
            missing_open(
                old(self),
                final(self),
                parent as int,
                name.file_name@,
                name.view_parts().1,
                file_attributes,
                create_disposition,
                create_options,
                delete_on_close,
                crate::ops::joined(old(self).url@, crate::ops::remote_path(path@)),
                &r,
            ),
    {
        if self.entries[parent].stat().delete_pending {
            return Err(FsError::DeletePending);
        }
        assert((file_attributes | FILE_ATTRIBUTE_ARCHIVE) & FILE_ATTRIBUTE_READONLY
            == file_attributes & FILE_ATTRIBUTE_READONLY) by (bit_vector);
        let ghost before = *self;
        let r = if create_options & FILE_DIRECTORY_FILE != 0 {
            if create_disposition == FILE_CREATE || create_disposition == FILE_OPEN_IF {
                self.create_new(index, name, file_attributes, delete_on_close, parent, true, now)
            } else if create_disposition == FILE_OPEN {
                Err(FsError::ObjectNameNotFound)
            } else {
                Err(FsError::InvalidParameter)
            }
        } else if create_disposition == FILE_OPEN || create_disposition == FILE_OVERWRITE {
            let comps = split_components(path);
            let leaf = &comps[comps.len() - 1];
            assert(crate::path::unit_views(comps@).last() == leaf@);
            if self.lookup_child(parent, leaf.as_slice()).is_some() {
                return Err(FsError::ObjectNameCollision);
            }
            let r = self.create_new_http(
                index,
                path,
                leaf.as_slice(),
                file_attributes | FILE_ATTRIBUTE_ARCHIVE,
                delete_on_close,
                parent,
                desired_access != FILE_READ_ATTRIBUTES,
                now,
            );
            proof {
                if r is Ok && name.stream_info is None {
                    assert(leaf@ == leaf_of(path@));
                    assert(name.file_name@ == leaf@);
                }
            }
            r
        } else {
            self.create_new(index, name, file_attributes | FILE_ATTRIBUTE_ARCHIVE, delete_on_close, parent, false, now)
        };
        proof {
            if r is Ok && name.stream_info is None {
                crate::fs::lemma_appended_first(
                    before.children_of(parent as int),
                    self.children_of(parent as int),
                    name.file_name@,
                );
            }
        }
        r
    }

    /// Create/Open: resolves `path`, then opens the existing leaf or creates
    /// it according to the disposition and options. An open that a
    /// configured ignore rule matches (`ignored`) is refused.
    pub fn create_file(
        &mut self,
        path: &[u16],
        desired_access: u32,
        file_attributes: u32,
        create_disposition: u32,
        create_options: u32,
        ignored: bool,
        now: u64,
    ) -> (r: Result<CreateFileInfo, FsError>)
        requires
            old(self).wf(),
        ensures
            final(self).wf(),
            final(self).existing_readonly == old(self).existing_readonly,
            ignored ==> r == Err::<CreateFileInfo, FsError>(FsError::AccessDenied),
            ignored || create_disposition > FILE_MAXIMUM_DISPOSITION
                ==> final(self).entries == old(self).entries && final(self).streams == old(self).streams,
            !ignored && create_disposition <= FILE_MAXIMUM_DISPOSITION && components(path@).len() == 0 ==> {
                let opens = create_disposition == FILE_OPEN || create_disposition == FILE_OPEN_IF;
                &&& !opens ==> r == Err::<CreateFileInfo, FsError>(FsError::InvalidParameter)
                &&& opens && create_options & FILE_NON_DIRECTORY_FILE != 0
                    ==> r == Err::<CreateFileInfo, FsError>(FsError::FileIsADirectory)
                &&& opens && create_options & FILE_NON_DIRECTORY_FILE == 0 && old(self).stat_of(ROOT as int).handle_count < u32::MAX
                    ==> r is Ok && r.unwrap().is_dir && r.unwrap().context.entry == ROOT
                &&& r is Err ==> final(self).entries == old(self).entries && final(self).streams == old(self).streams
            },
            !ignored && create_disposition <= FILE_MAXIMUM_DISPOSITION && existing_leaf(old(self), path@) is Some && r is Err
                ==> final(self).entries == old(self).entries && final(self).streams == old(self).streams,
            !ignored && create_disposition > FILE_MAXIMUM_DISPOSITION ==> r == Err::<CreateFileInfo, FsError>(FsError::InvalidParameter),
            r != Err::<CreateFileInfo, FsError>(FsError::ObjectPathNotFound) ==> final(self).entries@.len() >= old(self).entries@.len(),
            r matches Ok(info) ==> {
                let e = info.context.entry as int;
                &&& e < final(self).entries@.len()
                &&& info.context.index == old(self).id_counter
                &&& info.context.delete_on_close == (create_options & FILE_DELETE_ON_CLOSE != 0)
                &&& final(self).stat_of(e).handle_count == if e < old(self).entries@.len() {
                    old(self).stat_of(e).handle_count + 1
                } else {
                    1
                }
                &&& e < old(self).entries@.len() ==> crate::lifecycle::handle_step(
                    old(self).stat_of(e).handle_count,
                    final(self).stat_of(e).handle_count,
                    true,
                )
                &&& (info.context.alt_stream matches Some(sid) ==> sid < final(self).streams@.len())
                &&& (info.download is Some ==> final(self).entry(e) is HttpFile)
                &&& info.download matches Some(t) ==> t.entry == e && Some(t.stream) == info.context.alt_stream
                    && t.full_download == wants_body(desired_access)
                &&& (info.download is Some && info.new_file_created
                    ==> create_disposition == FILE_OPEN || create_disposition == FILE_OVERWRITE)
                &&& (info.download matches Some(t) ==> Some(t.url@) == crate::ops::joined(old(self).url@, crate::ops::remote_path(path@)))
            },
            !ignored && create_disposition <= FILE_MAXIMUM_DISPOSITION ==> match existing_leaf(old(self), path@) {
                Some((c, plain)) => existing_open(
                    old(self),
                    final(self),
                    c,
                    plain,
                    desired_access,
                    file_attributes,
                    create_disposition,
                    create_options,
                    create_options & FILE_DELETE_ON_CLOSE != 0,
                    crate::ops::joined(old(self).url@, crate::ops::remote_path(path@)),
                    &r,
                ),
                None => true,
            },
            !ignored && create_disposition <= FILE_MAXIMUM_DISPOSITION ==> match missing_leaf(old(self), path@) {
                Some((d, part)) => missing_open(
                    old(self),
                    final(self),
                    d,
                    parse_name(leaf_of(path@)).unwrap().0,
                    part,
                    file_attributes,
                    create_disposition,
                    create_options,
                    create_options & FILE_DELETE_ON_CLOSE != 0,
                    crate::ops::joined(old(self).url@, crate::ops::remote_path(path@)),
                    &r,
                ),
                None => true,
            },
            !ignored && fetch_through_miss(old(self), path@, file_attributes, create_disposition, create_options)
                ==> fetch_started(&r, final(self).entries@.len(), crate::ops::joined(old(self).url@, crate::ops::remote_path(path@)) is Some),
    {
        let index = self.next_id();
        if ignored {
            return Err(FsError::AccessDenied);
        }
        if create_disposition > FILE_MAXIMUM_DISPOSITION {
            return Err(FsError::InvalidParameter);
        }
        let delete_on_close = create_options & FILE_DELETE_ON_CLOSE != 0;
        let ghost before = *self;
        let ghost fetch = fetch_through_miss(old(self), path@, file_attributes, create_disposition, create_options);
        proof {
            crate::fs::lemma_walk_same_entries(old(self), self, ROOT as int, dirs_of(path@));
        }
        match split_path(self, path, now) {
            Err(e) => {
                proof {
                    if existing_leaf(old(self), path@) is Some || missing_leaf(old(self), path@) is Some {
                        assert(*self == before);
                        crate::fs::lemma_walk_same_entries(old(self), self, ROOT as int, dirs_of(path@));
                    }
                }
                Err(e)
            },
            Ok(None) => self.open_root(index, create_disposition, create_options, delete_on_close),
            Ok(Some((name, parent))) => {
                proof {
                    assert(before.entries == old(self).entries);
                    if existing_leaf(old(self), path@) is Some || missing_leaf(old(self), path@) is Some {
                        assert(*self == before);
                        crate::fs::lemma_walk_same_entries(old(self), self, ROOT as int, dirs_of(path@));
                        assert(parent as int == old(self).walk(ROOT as int, dirs_of(path@)).unwrap());
                        assert(name.view_parts() == parse_name(leaf_of(path@)).unwrap());
                    }
                    if fetch {
                        let comps = components(path@);
                        if comps.len() == 1 {
                            assert(dirs_of(path@).len() == 0);
                            assert(parent == ROOT);
                            assert(*self == before);
                        }
                        assert(comps[comps.len() - 1] == leaf_of(path@));
                        assert(name.file_name@ == leaf_of(path@));
                        assert(name.stream_info is None);
                        if comps.len() > 1 {
                            assert(self.children_of(parent as int).len() == 0);
                            assert(crate::fs::find_name(self.children_of(parent as int), name.file_name@) is None);
                        }
                        assert((file_attributes | FILE_ATTRIBUTE_ARCHIVE) & FILE_ATTRIBUTE_READONLY
                            == file_attributes & FILE_ATTRIBUTE_READONLY) by (bit_vector);
                    }
                }
                match self.lookup_child(parent, name.file_name.as_slice()) {
                    Some(c) => {
                        self.open_existing(
                            index,
                            c,
                            &name,
                            path,
                            desired_access,
                            file_attributes,
                            create_disposition,
                            create_options,
                            delete_on_close,
                            now,
                        )
                    },
                    None => self.create_missing(
                        index,
                        parent,
                        &name,
                        path,
                        desired_access,
                        file_attributes,
                        create_disposition,
                        create_options,
                        delete_on_close,
                        now,
                    ),
                }
            },
        }
    }
}

} // verus!
