use vstd::prelude::*;

use crate::entry::Entry;
use crate::fs::{entry_in_bounds, MemFsHandler};
use crate::handle::EntryHandle;
use crate::metadata::FILE_ATTRIBUTE_ARCHIVE;
use crate::status::FsError;

verus! {

/// Poll budget, in milliseconds, of a read that waits for streamed data.
pub const READ_WAIT_BUDGET_MS: i64 = 5000;
pub const READ_WAIT_DELAY_MS: u64 = 50;
/// Poll budget, in milliseconds, of a size query that waits for headers.
pub const INFO_WAIT_BUDGET_MS: i64 = 5000;
pub const INFO_WAIT_DELAY_MS: u64 = 10;

/// One decision of the bounded poll loop.
#[derive(Clone, Copy, PartialEq, Eq, Structural, Debug)]
pub enum WaitStep {
    /// The condition holds; the budget left is given.
    Ready(i64),
    /// Sleep for the delay, then check again with the budget given.
    Sleep(i64),
    /// The budget is spent.
    TimedOut,
}

/// The poll loop's decision: with `timeout` milliseconds left and the
/// condition still unmet, sleep one `delay_ms` step; with the budget spent,
/// time out; otherwise the wait is over.
pub fn wait_with_timeout(still_waiting: bool, timeout: i64, delay_ms: u64) -> (r: WaitStep)
    ensures
        timeout > 0 && still_waiting ==> r == WaitStep::Sleep(
            (timeout - if delay_ms > i64::MAX { i64::MAX as int } else { delay_ms as int }) as i64,
        ),
        timeout <= 0 ==> r == WaitStep::TimedOut,
        timeout > 0 && !still_waiting ==> r == WaitStep::Ready(timeout),
{
    if timeout > 0 && still_waiting {
        let d: i64 = if delay_ms > i64::MAX as u64 { i64::MAX } else { delay_ms as i64 };
        WaitStep::Sleep(timeout - d)
    } else if timeout <= 0 {
        WaitStep::TimedOut
    } else {
        WaitStep::Ready(timeout)
    }
}

/// The bytes of `d` in `[off, off + len)` that exist.
pub open spec fn read_range(d: Seq<u8>, off: int, len: int) -> Seq<u8> {
    if off >= d.len() {
        seq![]
    } else if off + len <= d.len() {
        d.subrange(off, off + len)
    } else {
        d.subrange(off, d.len() as int)
    }
}

/// Buffered stream data is ready for a read of `[off, off + len)` once it
/// covers the whole range.
pub open spec fn stream_ready(data_len: int, off: int, len: int) -> bool {
    data_len >= off + len
}

/// The outcome of a read.
pub enum ReadOutcome {
    Data(Vec<u8>),
    /// The data has not arrived yet.
    Pending,
}

/// A copy of the bytes of `d` in `[off, off + len)` that exist.
pub fn copy_range(d: &Vec<u8>, off: usize, len: usize) -> (r: Vec<u8>)
    ensures
        r@ == read_range(d@, off as int, len as int),
{
    let mut r: Vec<u8> = Vec::new();
    if off >= d.len() {
        return r;
    }
    let end: usize = if len <= d.len() - off { off + len } else { d.len() };
    let mut i: usize = off;
    while i < end
        invariant
            off <= i <= end <= d@.len(),
            r@ == d@.subrange(off as int, i as int),
        decreases end - i,
    {
        r.push(d[i]);
        i += 1;
    }
    r
}

/// The result of a write of `d` at `pos` into `old`: a gap before `pos` is
/// zero-filled and the buffer grows to hold the written bytes.
pub open spec fn write_at(old: Seq<u8>, pos: int, d: Seq<u8>) -> Seq<u8> {
    let n = if old.len() > pos + d.len() { old.len() as int } else { pos + d.len() };
    Seq::new(
        n as nat,
        |i: int|
            if pos <= i < pos + d.len() {
                d[i - pos]
            } else if i < old.len() {
                old[i]
            } else {
                0u8
            },
    )
}

/// `old` cut or zero-extended to `n` bytes.
pub open spec fn resized(old: Seq<u8>, n: int) -> Seq<u8> {
    Seq::new(n as nat, |i: int| if i < old.len() { old[i] } else { 0u8 })
}

pub fn write_bytes(buf: &mut Vec<u8>, pos: usize, d: &[u8])
    requires
        pos + d@.len() <= usize::MAX,
    ensures
        final(buf)@ == write_at(old(buf)@, pos as int, d@),
{
    let ghost o = old(buf)@;
    while buf.len() < pos
        invariant
            o.len() <= buf@.len() <= pos || buf@.len() == o.len(),
            buf@.subrange(0, o.len() as int) == o,
            forall|i: int| o.len() <= i < buf@.len() ==> buf@[i] == 0u8,
        decreases pos - buf@.len(),
    {
        buf.push(0);
    }
    assert(buf@.len() == (if o.len() > pos { o.len() as int } else { pos as int }));
    assert forall|k: int| 0 <= k < buf@.len() implies buf@[k] == (if k < o.len() { o[k] } else { 0u8 }) by {
        if k < o.len() {
            assert(buf@.subrange(0, o.len() as int)[k] == buf@[k]);
        }
    }
    let mut i: usize = 0;
    while i < d.len()
        invariant
            pos + d@.len() <= usize::MAX,
            i <= d@.len(),
            buf@.len() >= pos + i,
            buf@.len() == (if o.len() > pos + i { o.len() as int } else { pos + i as int }),
            forall|k: int| 0 <= k < buf@.len() ==> buf@[k] == (if pos <= k < pos + i {
                d@[k - pos]
            } else if k < o.len() {
                o[k]
            } else {
                0u8
            }),
        decreases d@.len() - i,
    {
        if pos + i < buf.len() {
            buf.set(pos + i, d[i]);
        } else {
            buf.push(d[i]);
        }
        i += 1;
    }
    assert(buf@ =~= write_at(o, pos as int, d@));
}

pub fn resize_bytes(buf: &mut Vec<u8>, n: usize)
    ensures
        final(buf)@ == resized(old(buf)@, n as int),
{
    let ghost o = old(buf)@;
    if n <= buf.len() {
        buf.truncate(n);
    } else {
        while buf.len() < n
            invariant
                o.len() <= buf@.len() <= n,
                buf@.subrange(0, o.len() as int) == o,
                forall|i: int| o.len() <= i < buf@.len() ==> buf@[i] == 0u8,
            decreases n - buf@.len(),
        {
            buf.push(0);
        }
    }
    assert(buf@ =~= resized(o, n as int));
}

/// One step of a read that may wait for streamed data.
pub enum ReadStep {
    Done(Vec<u8>),
    /// Not ready: sleep one delay and retry with the budget given.
    Sleep(i64),
    Failed(FsError),
}

/// What a size and metadata query reports.
#[derive(Clone, Copy, PartialEq, Eq, Structural, Debug)]
pub struct FileInfo {
    pub attributes: u32,
    pub creation_time: u64,
    pub last_access_time: u64,
    pub last_write_time: u64,
    pub file_size: u64,
    pub number_of_links: u32,
    pub file_index: u64,
}

/// One step of a metadata query that may wait for a size.
#[derive(Clone, Copy, PartialEq, Eq, Structural, Debug)]
pub enum InfoStep {
    Done(FileInfo),
    Sleep(i64),
    Failed(FsError),
}

/// The read produced exactly the bytes `d`.
pub open spec fn read_gave(r: &Result<ReadOutcome, FsError>, d: Seq<u8>) -> bool {
    match r {
        Ok(ReadOutcome::Data(v)) => v@ == d,
        _ => false,
    }
}

/// The read step finished with exactly the bytes `d`.
pub open spec fn step_gave(r: &ReadStep, d: Seq<u8>) -> bool {
    match r {
        ReadStep::Done(v) => v@ == d,
        _ => false,
    }
}

impl MemFsHandler {
    pub open spec fn handle_ok(&self, h: &EntryHandle) -> bool {
        &&& h.entry < self.entries@.len()
        &&& h.alt_stream matches Some(s) ==> s < self.streams@.len()
    }

    /// Read of `[offset, offset + len)`. A stream-bound read is `Pending`
    /// until the buffered bytes are ready; a local file is read at once;
    /// anything else is not readable this way.
    pub fn read_file(&self, h: &EntryHandle, offset: i64, len: usize) -> (r: Result<ReadOutcome, FsError>)
        requires
            self.wf(),
            self.handle_ok(h),
        ensures
            offset < 0 ==> r matches Err(FsError::InvalidParameter),
            offset >= 0 ==> match h.alt_stream {
                Some(s) => {
                    let st = self.streams@[s as int];
                    if stream_ready(st.data@.len() as int, offset as int, len as int) {
                        read_gave(&r, st.data@.subrange(offset as int, offset + len))
                    } else {
                        (r matches Ok(ReadOutcome::Pending))
                    }
                },
                None => match self.entry(h.entry as int) {
                    Entry::File(f) => read_gave(&r, read_range(f.data@, offset as int, len as int)),
                    _ => r matches Err(FsError::InvalidDeviceRequest),
                },
            },
    {
        if offset < 0 {
            return Err(FsError::InvalidParameter);
        }
        let off: u64 = offset as u64;
        match h.alt_stream {
            Some(s) => {
                let st = &self.streams[s];
                let dl = st.data.len();
                let ready = (dl as u64) >= off && (dl as u64) - off >= len as u64;
                if !ready {
                    return Ok(ReadOutcome::Pending);
                }
                let v = copy_range(&st.data, off as usize, len);
                assert(v@ =~= st.data@.subrange(offset as int, offset + len));
                Ok(ReadOutcome::Data(v))
            },
            None => match &self.entries[h.entry] {
                Entry::File(f) => {
                    if off >= f.data.len() as u64 {
                        return Ok(ReadOutcome::Data(Vec::new()));
                    }
                    Ok(ReadOutcome::Data(copy_range(&f.data, off as usize, len)))
                },
                _ => Err(FsError::InvalidDeviceRequest),
            },
        }
    }

    /// A read under the wait protocol, given `timeout` milliseconds of
    /// budget left: data that is not ready never yields a short read; the
    /// caller sleeps and retries until the budget is spent, which fails with
    /// an I/O timeout.
    pub fn read_step(&self, h: &EntryHandle, offset: i64, len: usize, timeout: i64) -> (r: ReadStep)
        requires
            self.wf(),
            self.handle_ok(h),
        ensures
            offset < 0 ==> r matches ReadStep::Failed(FsError::InvalidParameter),
            offset >= 0 && h.alt_stream is None ==> match self.entry(h.entry as int) {
                Entry::File(f) => step_gave(&r, read_range(f.data@, offset as int, len as int)),
                _ => r matches ReadStep::Failed(FsError::InvalidDeviceRequest),
            },
            offset >= 0 && h.alt_stream is Some ==> {
                let st = self.streams@[h.alt_stream.unwrap() as int];
                let ready = stream_ready(st.data@.len() as int, offset as int, len as int);
                &&& timeout <= 0 ==> (r matches ReadStep::Failed(FsError::IoTimeout))
                &&& timeout > 0 && ready ==> step_gave(&r, st.data@.subrange(offset as int, offset + len))
                &&& timeout > 0 && !ready ==> r == ReadStep::Sleep(
                    (timeout - READ_WAIT_DELAY_MS) as i64,
                )
            },
    {
        match self.read_file(h, offset, len) {
            Err(e) => ReadStep::Failed(e),
            Ok(ReadOutcome::Data(v)) => {
                if h.alt_stream.is_none() {
                    return ReadStep::Done(v);
                }
                match wait_with_timeout(false, timeout, READ_WAIT_DELAY_MS) {
                    WaitStep::Ready(_) => ReadStep::Done(v),
                    WaitStep::Sleep(t) => ReadStep::Sleep(t),
                    WaitStep::TimedOut => ReadStep::Failed(FsError::IoTimeout),
                }
            },
            Ok(ReadOutcome::Pending) => match wait_with_timeout(true, timeout, READ_WAIT_DELAY_MS) {
                WaitStep::Sleep(t) => ReadStep::Sleep(t),
                _ => ReadStep::Failed(FsError::IoTimeout),
            },
        }
    }

    /// Size of a handle's target without waiting: the announced length of a
    /// bound stream, else the resident bytes.
    pub open spec fn size_of(&self, h: &EntryHandle) -> int {
        match h.alt_stream {
            Some(s) => self.streams@[s as int].content_length as int,
            None => match self.entry(h.entry as int) {
                Entry::File(f) => f.data@.len() as int,
                Entry::HttpFile(hf) => match hf.cache() {
                    Some(d) => d.len() as int,
                    None => 0,
                },
                Entry::Directory(_) => 0,
            },
        }
    }

    pub open spec fn info_of(&self, h: &EntryHandle) -> FileInfo {
        let st = self.stat_of(h.entry as int);
        FileInfo {
            attributes: crate::metadata::output_attrs(
                st.attrs.value,
                h.alt_stream is None && self.entry(h.entry as int) is Directory,
            ),
            creation_time: st.ctime,
            last_access_time: st.atime,
            last_write_time: st.mtime,
            file_size: self.size_of(h) as u64,
            number_of_links: 1,
            file_index: st.id,
        }
    }

    /// GetInfo under the wait protocol: a stream-bound query waits until the
    /// stream's length is known.
    pub fn get_file_information(&self, h: &EntryHandle, timeout: i64) -> (r: InfoStep)
        requires
            self.wf(),
            self.handle_ok(h),
        ensures
            h.alt_stream is None ==> r == InfoStep::Done(self.info_of(h)),
            h.alt_stream matches Some(s) ==> {
                let known = self.streams@[s as int].content_length != 0;
                &&& timeout <= 0 ==> r == InfoStep::Failed(FsError::IoTimeout)
                &&& timeout > 0 && known ==> r == InfoStep::Done(self.info_of(h))
                &&& timeout > 0 && !known ==> r == InfoStep::Sleep((timeout - INFO_WAIT_DELAY_MS) as i64)
            },
    {
        let entry = &self.entries[h.entry];
        let st = entry.stat();
        let size: u64 = match h.alt_stream {
            Some(s) => {
                let len = self.streams[s].content_length;
                match wait_with_timeout(len == 0, timeout, INFO_WAIT_DELAY_MS) {
                    WaitStep::Ready(_) => len,
                    WaitStep::Sleep(t) => {
                        return InfoStep::Sleep(t);
                    },
                    WaitStep::TimedOut => {
                        return InfoStep::Failed(FsError::IoTimeout);
                    },
                }
            },
            None => match entry {
                Entry::File(f) => f.data.len() as u64,
                Entry::HttpFile(hf) => hf.data_len() as u64,
                Entry::Directory(_) => 0,
            },
        };
        InfoStep::Done(FileInfo {
            attributes: st.attrs.get_output_attrs(h.is_dir(entry)),
            creation_time: st.ctime,
            last_access_time: st.atime,
            last_write_time: st.mtime,
            file_size: size,
            number_of_links: 1,
            file_index: st.id,
        })
    }

    /// The buffer a handle writes to: its bound stream, else a local
    /// file's content.
    pub open spec fn content_of(&self, h: &EntryHandle) -> Seq<u8> {
        match h.alt_stream {
            Some(s) => self.streams@[s as int].data@,
            None => match self.entry(h.entry as int) {
                Entry::File(f) => f.data@,
                _ => seq![],
            },
        }
    }

    /// Whether a handle's target takes writes: remote-origin content never
    /// does, a directory only through a stream.
    pub open spec fn writable(&self, h: &EntryHandle) -> bool {
        match self.entry(h.entry as int) {
            Entry::HttpFile(_) => false,
            Entry::Directory(_) => h.alt_stream is Some,
            Entry::File(_) => true,
        }
    }

    /// The failure of a write or resize on a target that takes none.
    pub open spec fn not_writable_error(&self, h: &EntryHandle) -> FsError {
        match self.entry(h.entry as int) {
            Entry::HttpFile(_) => FsError::AccessDenied,
            _ => FsError::InvalidDeviceRequest,
        }
    }

    /// Replaces the buffer `h` writes to by `d`; a bound stream's announced
    /// length follows it.
    fn store_content(&mut self, h: &EntryHandle, d: Vec<u8>)
        requires
            old(self).wf(),
            old(self).handle_ok(h),
            old(self).writable(h),
        ensures
            final(self).wf(),
            final(self).content_of(h) == d@,
            final(self).entries@.len() == old(self).entries@.len(),
            final(self).streams@.len() == old(self).streams@.len(),
            final(self).stat_of(h.entry as int) == old(self).stat_of(h.entry as int),
            final(self).entry(h.entry as int) is File == old(self).entry(h.entry as int) is File,
            h.alt_stream matches Some(s) ==> final(self).streams@[s as int].content_length == d@.len()
                && final(self).streams@[s as int].handle_count == old(self).streams@[s as int].handle_count
                && final(self).streams@[s as int].delete_pending == old(self).streams@[s as int].delete_pending,
            final(self).existing_readonly == old(self).existing_readonly,
            final(self).id_counter == old(self).id_counter,
    {
        match h.alt_stream {
            Some(s) => {
                let n = d.len();
                self.streams[s].data = d;
                self.streams[s].content_length = n as u64;
                proof {
                    crate::fs::lemma_wf_more_streams(old(self), self);
                }
            },
            None => {
                match &mut self.entries[h.entry] {
                    Entry::File(f) => {
                        f.data = d;
                    },
                    _ => {},
                }
                proof {
                    assert(entry_in_bounds(old(self).entries@[h.entry as int], old(self).entries@.len(), old(self).streams@.len()));
                    assert(entry_in_bounds(self.entries@[h.entry as int], old(self).entries@.len(), old(self).streams@.len()));
                    crate::fs::lemma_wf_replace(old(self), self, h.entry as int);
                }
            },
        }
    }

    /// A copy of the buffer `h` writes to.
    fn load_content(&self, h: &EntryHandle) -> (r: Vec<u8>)
        requires
            self.wf(),
            self.handle_ok(h),
        ensures
            r@ == self.content_of(h),
    {
        match h.alt_stream {
            Some(s) => crate::entry::copy_bytes(&self.streams[s].data),
            None => match &self.entries[h.entry] {
                Entry::File(f) => crate::entry::copy_bytes(&f.data),
                _ => Vec::new(),
            },
        }
    }

    /// Write of `data` at `offset`, or at the current end when
    /// `write_to_eof`. The entry gains the archive bit and the session's
    /// delayed modify/access times become `now`, as its flags allow.
    pub fn write_file(
        &mut self,
        h: &mut EntryHandle,
        offset: i64,
        data: &[u8],
        write_to_eof: bool,
        now: u64,
    ) -> (r: Result<u32, FsError>)
        requires
            old(self).wf(),
            old(self).handle_ok(old(h)),
        ensures
            final(self).wf(),
            final(self).entries@.len() == old(self).entries@.len(),
            final(self).streams@.len() == old(self).streams@.len(),
            final(self).existing_readonly == old(self).existing_readonly,
            final(h).entry == old(h).entry && final(h).alt_stream == old(h).alt_stream,
            final(h).delete_on_close == old(h).delete_on_close,
            final(self).entry(old(h).entry as int) is File == old(self).entry(old(h).entry as int) is File,
            !old(self).writable(old(h)) ==> r == Err::<u32, FsError>(old(self).not_writable_error(old(h))),
            old(self).writable(old(h)) && !write_to_eof && offset < 0 ==> r == Err::<u32, FsError>(FsError::InvalidParameter),
            r is Err ==> *final(self) == *old(self) && *final(h) == *old(h),
            r matches Ok(n) ==> {
                let pos = if write_to_eof { old(self).content_of(old(h)).len() as int } else { offset as int };
                &&& n == data@.len()
                &&& final(self).content_of(final(h)) == write_at(old(self).content_of(old(h)), pos, data@)
                &&& final(self).stat_of(old(h).entry as int).attrs.value
                    == old(self).stat_of(old(h).entry as int).attrs.value | FILE_ATTRIBUTE_ARCHIVE
                &&& final(self).stat_of(old(h).entry as int).handle_count == old(self).stat_of(old(h).entry as int).handle_count
                &&& final(h).mtime_delayed == if old(h).mtime_enabled { Some(now) } else { old(h).mtime_delayed }
                &&& final(h).atime_delayed == if old(h).atime_enabled { Some(now) } else { old(h).atime_delayed }
            },
            old(self).writable(old(h)) && (write_to_eof || offset >= 0) && data@.len() <= u32::MAX
                && (if write_to_eof { old(self).content_of(old(h)).len() as int } else { offset as int }) + data@.len() <= usize::MAX
                ==> r is Ok,
    {
        let writable = match &self.entries[h.entry] {
            Entry::HttpFile(_) => false,
            Entry::Directory(_) => h.alt_stream.is_some(),
            Entry::File(_) => true,
        };
        if !writable {
            return match &self.entries[h.entry] {
                Entry::HttpFile(_) => Err(FsError::AccessDenied),
                _ => Err(FsError::InvalidDeviceRequest),
            };
        }
        if !write_to_eof && offset < 0 {
            return Err(FsError::InvalidParameter);
        }
        if data.len() > u32::MAX as usize {
            return Err(FsError::InvalidParameter);
        }
        let mut buf = self.load_content(h);
        let pos: usize = if write_to_eof {
            buf.len()
        } else {
            if offset as u64 > usize::MAX as u64 {
                return Err(FsError::InvalidParameter);
            }
            offset as u64 as usize
        };
        if pos > usize::MAX - data.len() {
            return Err(FsError::InvalidParameter);
        }
        write_bytes(&mut buf, pos, data);
        self.store_content(h, buf);
        let ghost mid = *self;
        {
            let st = self.entries[h.entry].stat_mut();
            st.attrs.value = st.attrs.value | FILE_ATTRIBUTE_ARCHIVE;
        }
        proof {
            assert(entry_in_bounds(mid.entries@[h.entry as int], mid.entries@.len(), mid.streams@.len()));
            crate::fs::lemma_wf_replace(&mid, self, h.entry as int);
        }
        if h.mtime_enabled {
            h.mtime_delayed = Some(now);
        }
        if h.atime_enabled {
            h.atime_delayed = Some(now);
        }
        Ok(data.len() as u32)
    }

    /// SetEndOfFile: the buffer `h` writes to is cut or zero-extended to
    /// `offset` bytes, and the modify time is updated.
    pub fn set_end_of_file(&mut self, h: &EntryHandle, offset: i64, now: u64) -> (r: Result<(), FsError>)
        requires
            old(self).wf(),
            old(self).handle_ok(h),
        ensures
            final(self).wf(),
            final(self).entries@.len() == old(self).entries@.len(),
            final(self).streams@.len() == old(self).streams@.len(),
            final(self).existing_readonly == old(self).existing_readonly,
            final(self).entry(h.entry as int) is File == old(self).entry(h.entry as int) is File,
            !old(self).writable(h) ==> r == Err::<(), FsError>(old(self).not_writable_error(h)),
            old(self).writable(h) && offset < 0 ==> r == Err::<(), FsError>(FsError::InvalidParameter),
            r is Err ==> *final(self) == *old(self),
            r is Ok ==> {
                &&& final(self).content_of(h) == resized(old(self).content_of(h), offset as int)
                &&& final(self).stat_of(h.entry as int).mtime == if h.mtime_enabled { now } else { old(self).stat_of(h.entry as int).mtime }
            },
            old(self).writable(h) && 0 <= offset <= usize::MAX ==> r is Ok,
    {
        self.resize_content(h, offset, now, true)
    }

    /// SetAllocationSize: a request below the current size cuts the buffer
    /// to it; a larger one leaves the content as it is. The modify time is
    /// updated either way.
    pub fn set_allocation_size(&mut self, h: &EntryHandle, alloc_size: i64, now: u64) -> (r: Result<(), FsError>)
        requires
            old(self).wf(),
            old(self).handle_ok(h),
        ensures
            final(self).wf(),
            final(self).entries@.len() == old(self).entries@.len(),
            final(self).streams@.len() == old(self).streams@.len(),
            final(self).existing_readonly == old(self).existing_readonly,
            final(self).entry(h.entry as int) is File == old(self).entry(h.entry as int) is File,
            !old(self).writable(h) ==> r == Err::<(), FsError>(old(self).not_writable_error(h)),
            old(self).writable(h) && alloc_size < 0 ==> r == Err::<(), FsError>(FsError::InvalidParameter),
            r is Err ==> *final(self) == *old(self),
            r is Ok ==> {
                &&& final(self).content_of(h) == if alloc_size < old(self).content_of(h).len() {
                    old(self).content_of(h).subrange(0, alloc_size as int)
                } else {
                    old(self).content_of(h)
                }
                &&& final(self).stat_of(h.entry as int).mtime == if h.mtime_enabled { now } else { old(self).stat_of(h.entry as int).mtime }
            },
            old(self).writable(h) && 0 <= alloc_size <= usize::MAX ==> r is Ok,
    {
        let r = self.resize_content(h, alloc_size, now, false);
        proof {
            if r is Ok && alloc_size < old(self).content_of(h).len() {
                assert(resized(old(self).content_of(h), alloc_size as int) =~= old(self).content_of(h).subrange(0, alloc_size as int));
            }
        }
        r
    }

    fn resize_content(&mut self, h: &EntryHandle, size: i64, now: u64, grow: bool) -> (r: Result<(), FsError>)
        requires
            old(self).wf(),
            old(self).handle_ok(h),
        ensures
            final(self).wf(),
            final(self).entries@.len() == old(self).entries@.len(),
            final(self).streams@.len() == old(self).streams@.len(),
            final(self).existing_readonly == old(self).existing_readonly,
            final(self).entry(h.entry as int) is File == old(self).entry(h.entry as int) is File,
            !old(self).writable(h) ==> r == Err::<(), FsError>(old(self).not_writable_error(h)),
            old(self).writable(h) && size < 0 ==> r == Err::<(), FsError>(FsError::InvalidParameter),
            r is Err ==> *final(self) == *old(self),
            r is Ok ==> {
                &&& final(self).content_of(h) == if grow || size < old(self).content_of(h).len() {
                    resized(old(self).content_of(h), size as int)
                } else {
                    old(self).content_of(h)
                }
                &&& final(self).stat_of(h.entry as int).mtime == if h.mtime_enabled { now } else { old(self).stat_of(h.entry as int).mtime }
            },
            old(self).writable(h) && 0 <= size <= usize::MAX ==> r is Ok,
    {
        let writable = match &self.entries[h.entry] {
            Entry::HttpFile(_) => false,
            Entry::Directory(_) => h.alt_stream.is_some(),
            Entry::File(_) => true,
        };
        if !writable {
            return match &self.entries[h.entry] {
                Entry::HttpFile(_) => Err(FsError::AccessDenied),
                _ => Err(FsError::InvalidDeviceRequest),
            };
        }
        if size < 0 || size as u64 > usize::MAX as u64 {
            return Err(FsError::InvalidParameter);
        }
        let n = size as u64 as usize;
        let mut buf = self.load_content(h);
        if grow || n < buf.len() {
            resize_bytes(&mut buf, n);
        }
        self.store_content(h, buf);
        let ghost mid = *self;
        {
            let st = self.entries[h.entry].stat_mut();
            h.update_mtime(st, now);
        }
        proof {
            assert(entry_in_bounds(mid.entries@[h.entry as int], mid.entries@.len(), mid.streams@.len()));
            crate::fs::lemma_wf_replace(&mid, self, h.entry as int);
        }
        Ok(())
    }
}

/// Reading back the range just written yields exactly the written bytes.
pub proof fn lemma_write_read_round_trip(old: Seq<u8>, pos: int, d: Seq<u8>)
    requires
        0 <= pos,
    ensures
        read_range(write_at(old, pos, d), pos, d.len() as int) == d,
{
    let w = write_at(old, pos, d);
    if d.len() > 0 {
        assert(w.subrange(pos, pos + d.len()) =~= d);
    } else {
        if pos >= w.len() {
        } else {
            assert(w.subrange(pos, pos) =~= d);
        }
    }
}

/// After the end is set to `k`, a read from the start asking for more than
/// `k` bytes returns the first `k` bytes only.
pub proof fn lemma_read_past_end(old: Seq<u8>, k: int, len: int)
    requires
        0 <= k < len,
    ensures
        read_range(resized(old, k), 0, len) == resized(old, k),
        read_range(resized(old, k), 0, len).len() == k,
{
    assert(resized(old, k).subrange(0, k) =~= resized(old, k));
    if k == 0 {
        assert(resized(old, k) =~= Seq::<u8>::empty());
    }
}

} // verus!
