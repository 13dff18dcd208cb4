use vstd::prelude::*;

use crate::entry::{DirEntry, Entry, FileEntry, HttpFileEntry};
use crate::fs::{entry_in_bounds, MemFsHandler};
use crate::handle::EntryHandle;
use crate::metadata::{Stat, FILE_ATTRIBUTE_READONLY, SUPPORTED_ATTRS};
use crate::path::{default_stream, FullName};
use crate::status::FsError;

verus! {

/// The text of the URL that `rel` resolves to against the base URL `base`,
/// if both parse.
pub uninterp spec fn joined(base: Seq<char>, rel: Seq<u16>) -> Option<Seq<char>>;

/// Relies on url::Url::parse and url::Url::join: parses `base`, resolves
/// `rel` (decoded from UTF-16, unpaired surrogates replaced) against it,
/// and gives the serialised result; `None` where either step fails. The
/// result depends on the two arguments alone.
#[verifier::external_body]
pub(crate) fn join_url(base: &str, rel: &[u16]) -> (r: Option<String>)
    ensures
        match r {
            Some(u) => joined(base@, rel@) == Some(u@),
            None => joined(base@, rel@) is None,
        },
{
    match url::Url::parse(base) {
        Ok(b) => match b.join(&String::from_utf16_lossy(rel)) {
            Ok(u) => Some(u.to_string()),
            Err(_) => None,
        },
        Err(_) => None,
    }
}

/// A fetch for the host layer to run: GET `url` and feed the response into
/// stream `stream` of entry `entry`.
pub struct DownloadTask {
    pub index: u64,
    pub url: String,
    pub entry: usize,
    pub stream: usize,
    /// Whether the body is wanted, or only the size from the headers.
    pub full_download: bool,
}

/// What a successful create/open hands back.
pub struct CreateFileInfo {
    pub context: EntryHandle,
    pub is_dir: bool,
    pub new_file_created: bool,
    /// The fetch this open started, if any.
    pub download: Option<DownloadTask>,
}

/// `index.html`
pub open spec fn index_page() -> Seq<u16> {
    seq![105u16, 110, 100, 101, 120, 46, 104, 116, 109, 108]
}

/// The path that is resolved against the base URL: an empty path stands for
/// the index page.
pub open spec fn remote_path(p: Seq<u16>) -> Seq<u16> {
    if p.len() == 0 { index_page() } else { p }
}

pub fn remote_path_of(p: &[u16]) -> (r: Vec<u16>)
    ensures
        r@ == remote_path(p@),
{
    if p.len() == 0 {
        let r: Vec<u16> = vec![105, 110, 100, 101, 120, 46, 104, 116, 109, 108];
        assert(r@ =~= index_page());
        r
    } else {
        crate::path::slice_units(p, 0, p.len())
    }
}

/// Whether the stream part of `name` is the entry's default one (no stream
/// part counts as default).
pub open spec fn stream_check(name: &FullName, is_dir: bool) -> Result<bool, FsError> {
    match name.stream_info {
        Some(si) => default_stream(si.name@, si.type_, is_dir),
        None => Ok(true),
    }
}

impl MemFsHandler {
    /// Creates a new local File (or Directory when `is_dir`) named
    /// `name.file_name` under `parent`, with a new stream when the name
    /// designates a non-default one, and opens a session on it.
    pub fn create_new(
        &mut self,
        index: u64,
        name: &FullName,
        attrs: u32,
        delete_on_close: bool,
        parent: usize,
        is_dir: bool,
        now: u64,
    ) -> (r: Result<CreateFileInfo, FsError>)
        requires
            old(self).wf(),
            parent < old(self).entries@.len(),
            old(self).entry(parent as int) is Directory,
            crate::fs::find_name(old(self).children_of(parent as int), name.file_name@) is None,
        ensures
            final(self).wf(),
            final(self).existing_readonly == old(self).existing_readonly,
            attrs & FILE_ATTRIBUTE_READONLY != 0 && delete_on_close ==> r == Err::<CreateFileInfo, FsError>(FsError::CannotDelete),
            !(attrs & FILE_ATTRIBUTE_READONLY != 0 && delete_on_close) ==> match stream_check(name, is_dir) {
                Err(e) => r == Err::<CreateFileInfo, FsError>(e),
                Ok(_) => r is Ok,
            },
            r is Err ==> *final(self) == *old(self),
            r matches Ok(info) ==> {
                let e = info.context.entry as int;
                &&& e == old(self).entries@.len()
                &&& final(self).entries@.len() == e + 1
                &&& info.new_file_created
                &&& info.context.index == index
                &&& info.download is None
                &&& (final(self).entry(e) is Directory) == is_dir
                &&& (final(self).entry(e) is File) == !is_dir
                &&& final(self).stat_of(e).id == index
                &&& final(self).stat_of(e).attrs.value == attrs & SUPPORTED_ATTRS
                &&& final(self).stat_of(e).parent == Some(parent)
                &&& final(self).stat_of(e).handle_count == 1
                &&& final(self).children_of(parent as int).drop_last() == old(self).children_of(parent as int)
                &&& final(self).children_of(parent as int).len() == old(self).children_of(parent as int).len() + 1
                &&& final(self).children_of(parent as int).last().0@ == name.file_name@
                &&& final(self).children_of(parent as int).last().1 == e
                &&& final(self).stat_of(parent as int).mtime == now
                &&& info.context.delete_on_close == delete_on_close
                &&& final(self).children_of(e).len() == 0
                &&& (final(self).entry(e) matches Entry::File(f) ==> f.data@.len() == 0)
                &&& match info.context.alt_stream {
                    Some(sid) => {
                        &&& stream_check(name, is_dir) == Ok::<bool, FsError>(false)
                        &&& sid == old(self).streams@.len()
                        &&& final(self).streams@[sid as int].handle_count == 1
                        &&& final(self).streams@[sid as int].data@.len() == 0
                        &&& final(self).stat_of(e).alt_streams@.len() == 1
                        &&& final(self).stat_of(e).alt_streams@[0].0@ == name.stream_info.unwrap().name@
                        &&& final(self).stat_of(e).alt_streams@[0].1 == sid
                    },
                    None => stream_check(name, is_dir) == Ok::<bool, FsError>(true)
                        && final(self).stat_of(e).alt_streams@.len() == 0,
                }
            },
    {
        if attrs & FILE_ATTRIBUTE_READONLY != 0 && delete_on_close {
            return Err(FsError::CannotDelete);
        }
        let want_stream = match &name.stream_info {
            Some(si) => match si.check_default(is_dir) {
                Ok(d) => !d,
                Err(e) => {
                    return Err(e);
                },
            },
            None => false,
        };
        let stat = Stat::new(index, attrs, Some(parent), now);
        let entry = if is_dir {
            Entry::Directory(DirEntry::new(stat))
        } else {
            Entry::File(FileEntry::new(stat))
        };
        assert(entry_in_bounds(entry, self.entries@.len(), self.streams@.len()));
        let e = self.push_entry(entry);
        let stream = if want_stream {
            let sid = self.push_stream(now);
            match &name.stream_info {
                Some(si) => {
                    let sname = crate::path::slice_units(si.name.as_slice(), 0, si.name.len());
                    assert(sname@ =~= si.name@);
                    self.add_alt_stream(e, sname, sid);

                },
                None => {},
            }
            Some(sid)
        } else {
            None
        };
        let fname = crate::path::slice_units(name.file_name.as_slice(), 0, name.file_name.len());
        assert(fname@ =~= name.file_name@);
        self.add_child(parent, fname, e);
        assert(self.children_of(parent as int).drop_last() =~= old(self).children_of(parent as int));
        let ghost mid = *self;
        {
            let st = self.entries[parent].stat_mut();
            st.update_mtime(now);
        }
        proof {
            assert(crate::fs::entry_in_bounds(mid.entries@[parent as int], mid.entries@.len(), mid.streams@.len()));
            crate::fs::lemma_wf_replace(&mid, self, parent as int);
        }
        let context = EntryHandle::new(self, index, e, stream, delete_on_close);
        let is_dir = is_dir && stream.is_some();
        Ok(CreateFileInfo { context, is_dir, new_file_created: true, download: None })
    }

    /// Starts a fetch of `url` into a fresh stream for entry `entry`; the
    /// host layer runs the returned task.
    pub fn create_new_http_stream(
        &mut self,
        index: u64,
        url: String,
        entry: usize,
        full_download: bool,
        now: u64,
    ) -> (r: DownloadTask)
        requires
            old(self).wf(),
        ensures
            final(self).wf(),
            r.index == index,
            r.url == url,
            r.entry == entry,
            r.full_download == full_download,
            r.stream == old(self).streams@.len(),
            final(self).streams@.len() == old(self).streams@.len() + 1,
            final(self).streams@.drop_last() == old(self).streams@,
            final(self).streams@[r.stream as int].handle_count == 0,
            !final(self).streams@[r.stream as int].delete_pending,
            final(self).streams@[r.stream as int].data@.len() == 0,
            final(self).streams@[r.stream as int].content_length == 0,
            final(self).entries == old(self).entries,
            final(self).id_counter == old(self).id_counter,
            final(self).existing_readonly == old(self).existing_readonly,
    {
        let stream = self.push_stream(now);
        assert(self.streams@.drop_last() =~= old(self).streams@);
        DownloadTask { index, url, entry, stream, full_download }
    }

    /// Fetch-through: creates an HttpFile named `leaf` under `parent` for the
    /// never-seen `path`, binds a fresh stream to it and starts its fetch.
    pub fn create_new_http(
        &mut self,
        index: u64,
        path: &[u16],
        leaf: &[u16],
        attrs: u32,
        delete_on_close: bool,
        parent: usize,
        full_download: bool,
        now: u64,
    ) -> (r: Result<CreateFileInfo, FsError>)
        requires
            old(self).wf(),
            parent < old(self).entries@.len(),
            old(self).entry(parent as int) is Directory,
            crate::fs::find_name(old(self).children_of(parent as int), leaf@) is None,
        ensures
            final(self).wf(),
            final(self).existing_readonly == old(self).existing_readonly,
            attrs & FILE_ATTRIBUTE_READONLY != 0 && delete_on_close ==> r == Err::<CreateFileInfo, FsError>(FsError::CannotDelete),
            r is Err ==> *final(self) == *old(self),
            !(attrs & FILE_ATTRIBUTE_READONLY != 0 && delete_on_close) && r is Err
                ==> r == Err::<CreateFileInfo, FsError>(FsError::ObjectNameInvalid),
            !(attrs & FILE_ATTRIBUTE_READONLY != 0 && delete_on_close)
                ==> (r is Ok <==> joined(old(self).url@, remote_path(path@)) is Some),
            r matches Ok(info) ==> info.download matches Some(t)
                && Some(t.url@) == joined(old(self).url@, remote_path(path@)),
            r matches Ok(info) ==> {
                let e = info.context.entry as int;
                &&& e == old(self).entries@.len()
                &&& final(self).entries@.len() == e + 1
                &&& info.new_file_created
                &&& info.context.index == index
                &&& !info.is_dir
                &&& final(self).entry(e) matches Entry::HttpFile(h) && h.download_pending
                &&& final(self).stat_of(e).id == index
                &&& final(self).stat_of(e).attrs.value == attrs & SUPPORTED_ATTRS
                &&& final(self).stat_of(e).parent == Some(parent)
                &&& final(self).stat_of(e).handle_count == 1
                &&& final(self).children_of(parent as int).drop_last() == old(self).children_of(parent as int)
                &&& final(self).children_of(parent as int).len() == old(self).children_of(parent as int).len() + 1
                &&& final(self).children_of(parent as int).last().0@ == leaf@
                &&& final(self).children_of(parent as int).last().1 == e
                &&& final(self).stat_of(parent as int).mtime == now
                &&& info.context.delete_on_close == delete_on_close
                &&& info.context.alt_stream == Some(old(self).streams@.len() as usize)
                &&& final(self).streams@.len() == old(self).streams@.len() + 1
                &&& final(self).streams@[old(self).streams@.len() as int].handle_count == 1
                &&& final(self).streams@[old(self).streams@.len() as int].data@.len() == 0
                &&& final(self).streams@[old(self).streams@.len() as int].content_length == 0
                &&& final(self).stat_of(e).alt_streams@.len() == 1
                &&& final(self).stat_of(e).alt_streams@[0].0@ == path@
                &&& final(self).stat_of(e).alt_streams@[0].1 == old(self).streams@.len()
                &&& info.download matches Some(t) && t.entry == e && t.stream == old(self).streams@.len()
                    && t.full_download == full_download && t.index == index
            },
    {
        if attrs & FILE_ATTRIBUTE_READONLY != 0 && delete_on_close {
            return Err(FsError::CannotDelete);
        }
        let target = remote_path_of(path);
        let url = match join_url(self.url.as_str(), target.as_slice()) {
            Some(u) => u,
            None => {
                return Err(FsError::ObjectNameInvalid);
            },
        };
        let stat = Stat::new(index, attrs, Some(parent), now);
        let entry = Entry::HttpFile(HttpFileEntry::new(stat));
        assert(entry_in_bounds(entry, self.entries@.len(), self.streams@.len()));
        let e = self.push_entry(entry);
        let task = self.create_new_http_stream(index, url, e, full_download, now);
        let sid = task.stream;
        let key = crate::path::slice_units(path, 0, path.len());
        self.add_alt_stream(e, key, sid);
        let leaf_name = crate::path::slice_units(leaf, 0, leaf.len());
        assert(leaf_name@ =~= leaf@);
        assert(key@ =~= path@);
        self.add_child(parent, leaf_name, e);
        assert(self.children_of(parent as int).drop_last() =~= old(self).children_of(parent as int));
        let ghost mid = *self;
        {
            let st = self.entries[parent].stat_mut();
            st.update_mtime(now);
        }
        proof {
            assert(entry_in_bounds(mid.entries@[parent as int], mid.entries@.len(), mid.streams@.len()));
            crate::fs::lemma_wf_replace(&mid, self, parent as int);
        }
        let context = EntryHandle::new(self, index, e, Some(sid), delete_on_close);
        Ok(CreateFileInfo { context, is_dir: false, new_file_created: true, download: Some(task) })
    }
}

} // verus!
