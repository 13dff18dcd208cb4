use httpfs::admin::FileTimeOperation;
use httpfs::create::{
    FILE_APPEND_DATA, FILE_CREATE, FILE_DELETE_ON_CLOSE, FILE_DIRECTORY_FILE, FILE_NON_DIRECTORY_FILE, FILE_OPEN,
    FILE_OPEN_IF, FILE_OVERWRITE, FILE_OVERWRITE_IF, FILE_READ_ATTRIBUTES, FILE_READ_DATA, FILE_SUPERSEDE,
    FILE_WRITE_DATA,
};
use httpfs::entry::Entry;
use httpfs::fs::{MemFsHandler, ROOT};
use httpfs::handle::EntryHandle;
use httpfs::io::{InfoStep, ReadOutcome, ReadStep};
use httpfs::metadata::{FILE_ATTRIBUTE_ARCHIVE, FILE_ATTRIBUTE_READONLY};
use httpfs::ops::CreateFileInfo;
use httpfs::path::split_path;
use httpfs::status::FsError;

fn detached_handle(index: u64, entry: usize, alt_stream: Option<usize>, delete_on_close: bool) -> EntryHandle {
    EntryHandle {
        index,
        entry,
        alt_stream,
        delete_on_close,
        mtime_delayed: None,
        atime_delayed: None,
        ctime_enabled: true,
        mtime_enabled: true,
        atime_enabled: true,
    }
}

fn w(s: &str) -> Vec<u16> {
    s.encode_utf16().collect()
}

fn fs(existing_readonly: bool) -> MemFsHandler {
    MemFsHandler::new("http://example.com/".to_string(), existing_readonly)
}

fn open(fs: &mut MemFsHandler, path: &str, access: u32, disposition: u32, options: u32) -> Result<CreateFileInfo, FsError> {
    fs.create_file(&w(path), access, 0, disposition, options, false, 7)
}

fn child(fs: &MemFsHandler, dir: usize, name: &str) -> Option<usize> {
    fs.lookup_child(dir, &w(name))
}

fn read_all(fs: &MemFsHandler, h: &EntryHandle, off: i64, len: usize) -> Vec<u8> {
    match fs.read_file(h, off, len) {
        Ok(ReadOutcome::Data(v)) => v,
        _ => panic!("read did not return data"),
    }
}

#[test]
fn open_close_balances_handle_count() {
    let mut fs = fs(false);
    let a = open(&mut fs, "\\f.txt", FILE_WRITE_DATA, FILE_CREATE, 0).unwrap();
    let e = a.context.entry;
    let b = open(&mut fs, "\\f.txt", FILE_READ_DATA, FILE_OPEN, 0).unwrap();
    let c = open(&mut fs, "\\f.txt", FILE_READ_DATA, FILE_OPEN_IF, 0).unwrap();
    assert_eq!(b.context.entry, e);
    assert_eq!(fs.entries[e].stat().handle_count, 3);
    fs.close_file(&a.context);
    fs.dispose_handle(a.context, 8);
    fs.dispose_handle(b.context, 9);
    fs.dispose_handle(c.context, 10);
    assert_eq!(fs.entries[e].stat().handle_count, 0);
    assert_eq!(child(&fs, ROOT, "f.txt"), Some(e));
}

#[test]
fn delete_on_close_on_last_handle_removes_entry() {
    let mut fs = fs(false);
    let a = open(&mut fs, "\\g.txt", FILE_WRITE_DATA, FILE_CREATE, 0).unwrap();
    let e = a.context.entry;
    let b = open(&mut fs, "\\g.txt", FILE_READ_DATA, FILE_OPEN, FILE_DELETE_ON_CLOSE).unwrap();
    fs.dispose_handle(a.context, 8);
    assert_eq!(child(&fs, ROOT, "g.txt"), Some(e));
    fs.dispose_handle(b.context, 9);
    assert_eq!(fs.entries[e].stat().handle_count, 0);
    assert_eq!(child(&fs, ROOT, "g.txt"), None);
    assert_eq!(fs.entries[ROOT].stat().mtime, 9);
}

#[test]
fn delete_on_close_on_earlier_handle_is_dropped() {
    let mut fs = fs(false);
    let a = open(&mut fs, "\\h.txt", FILE_WRITE_DATA, FILE_CREATE, FILE_DELETE_ON_CLOSE).unwrap();
    let e = a.context.entry;
    let b = open(&mut fs, "\\h.txt", FILE_READ_DATA, FILE_OPEN, 0).unwrap();
    fs.dispose_handle(a.context, 8);
    fs.dispose_handle(b.context, 9);
    assert_eq!(child(&fs, ROOT, "h.txt"), Some(e));
}

#[test]
fn root_delete_on_close_only_clears_pending() {
    let mut fs = fs(false);
    let r = open(&mut fs, "\\", FILE_READ_DATA, FILE_OPEN, FILE_DELETE_ON_CLOSE).unwrap();
    assert!(r.is_dir);
    assert_eq!(r.context.entry, ROOT);
    fs.dispose_handle(r.context, 3);
    assert!(!fs.entries[ROOT].stat().delete_pending);
    assert_eq!(fs.entries[ROOT].stat().handle_count, 0);
}

#[test]
fn delete_non_empty_directory() {
    let mut fs = fs(false);
    let d = open(&mut fs, "\\d", FILE_READ_DATA, FILE_CREATE, FILE_DIRECTORY_FILE).unwrap();
    let f = open(&mut fs, "\\d\\x", FILE_WRITE_DATA, FILE_CREATE, 0).unwrap();
    fs.dispose_handle(f.context, 5);
    assert_eq!(fs.delete_directory(&d.context, true), Err(FsError::DirectoryNotEmpty));
    assert!(!fs.entries[d.context.entry].stat().delete_pending);
    assert_eq!(fs.delete_directory(&d.context, false), Ok(()));
    assert!(fs.entries[d.context.entry].stat().delete_pending);
    assert!(child(&fs, ROOT, "d").is_some());
}

#[test]
fn delete_root_directory_is_denied() {
    let mut fs = fs(false);
    let r = open(&mut fs, "\\", FILE_READ_DATA, FILE_OPEN, 0).unwrap();
    assert_eq!(fs.delete_directory(&r.context, false), Err(FsError::AccessDenied));
}

#[test]
fn resolution_creates_missing_directories() {
    let mut fs = fs(true);
    let (name, parent) = split_path(&mut fs, &w("\\a\\b\\c"), 1).unwrap().unwrap();
    assert_eq!(name.file_name, w("c"));
    assert!(name.stream_info.is_none());
    let a = child(&fs, ROOT, "a").unwrap();
    let b = child(&fs, a, "b").unwrap();
    assert_eq!(parent, b);
    assert!(fs.entries[a].is_dir());
    assert!(fs.entries[b].is_dir());
    assert_eq!(fs.entries[b].stat().parent, Some(a));
    assert_eq!(child(&fs, b, "c"), None);
    assert_eq!(fs.entries.len(), 3);
}

#[test]
fn resolution_through_a_file_is_path_not_found() {
    let mut fs = fs(false);
    let f = open(&mut fs, "\\file", FILE_WRITE_DATA, FILE_CREATE, 0).unwrap();
    fs.dispose_handle(f.context, 2);
    assert_eq!(open(&mut fs, "\\file\\x", FILE_READ_DATA, FILE_OPEN, 0).err(), Some(FsError::ObjectPathNotFound));
}

#[test]
fn long_component_is_invalid_name() {
    let mut fs = fs(false);
    let long = "x".repeat(256);
    let path = format!("\\{}\\y", long);
    assert_eq!(open(&mut fs, &path, FILE_READ_DATA, FILE_OPEN, 0).err(), Some(FsError::ObjectNameInvalid));
    let leaf = format!("\\{}", long);
    assert_eq!(open(&mut fs, &leaf, FILE_READ_DATA, FILE_OPEN, 0).err(), Some(FsError::ObjectNameInvalid));
}

#[test]
fn fetch_through_open_creates_http_file() {
    let mut fs = fs(true);
    let info = open(&mut fs, "\\dir\\app.js", FILE_READ_DATA, FILE_OPEN, 0).unwrap();
    assert!(info.new_file_created);
    let task = info.download.unwrap();
    assert_eq!(task.url.as_str(), "http://example.com/dir/app.js");
    assert!(task.full_download);
    let e = info.context.entry;
    assert!(matches!(fs.entries[e], Entry::HttpFile(_)));
    assert_eq!(info.context.alt_stream, Some(task.stream));
    let dir = child(&fs, ROOT, "dir").unwrap();
    assert_eq!(child(&fs, dir, "app.js"), Some(e));
    match fs.get_file_information(&info.context, 5000) {
        InfoStep::Sleep(t) => assert_eq!(t, 4990),
        _ => panic!("size should not be known yet"),
    }
    assert!(fs.on_response(task.stream, Some(1234), task.full_download, 9));
    match fs.get_file_information(&info.context, 4990) {
        InfoStep::Done(fi) => {
            assert_eq!(fi.file_size, 1234);
            assert_eq!(fi.number_of_links, 1);
        },
        _ => panic!("size should be known"),
    }
}

#[test]
fn attribute_only_open_skips_body() {
    let mut fs = fs(true);
    let info = open(&mut fs, "\\x.bin", FILE_READ_ATTRIBUTES, FILE_OPEN, 0).unwrap();
    let task = info.download.unwrap();
    assert!(!task.full_download);
    assert!(!fs.on_response(task.stream, Some(10), task.full_download, 1));
}

#[test]
fn download_events_fill_stream() {
    let mut fs = fs(true);
    let info = open(&mut fs, "\\y.txt", FILE_READ_DATA, FILE_OPEN, 0).unwrap();
    let task = info.download.unwrap();
    fs.on_response(task.stream, Some(5), true, 1);
    fs.on_chunk(task.stream, b"he");
    match fs.read_step(&info.context, 0, 5, 5000) {
        ReadStep::Sleep(t) => assert_eq!(t, 4950),
        _ => panic!("range not covered yet"),
    }
    fs.on_chunk(task.stream, b"llo");
    match fs.read_step(&info.context, 0, 5, 4950) {
        ReadStep::Done(v) => assert_eq!(v, b"hello".to_vec()),
        _ => panic!("range covered"),
    }
    match fs.read_step(&info.context, 3, 100, 4950) {
        ReadStep::Sleep(t) => assert_eq!(t, 4900),
        _ => panic!("a range past the buffered bytes waits"),
    }
    assert!(matches!(fs.read_step(&info.context, 3, 100, 0), ReadStep::Failed(FsError::IoTimeout)));
    fs.on_download_done(task.entry);
    match &fs.entries[task.entry] {
        Entry::HttpFile(h) => assert!(!h.download_pending),
        _ => panic!("not an http file"),
    }
}

#[test]
fn reopening_http_file_starts_fresh_fetch() {
    let mut fs = fs(true);
    let first = open(&mut fs, "\\z.css", FILE_READ_DATA, FILE_OPEN, 0).unwrap();
    let t1 = first.download.unwrap();
    fs.on_download_done(t1.entry);
    let again = open(&mut fs, "\\z.css", FILE_READ_DATA, FILE_OPEN_IF, 0).unwrap();
    assert!(!again.new_file_created);
    let t2 = again.download.unwrap();
    assert_eq!(t2.entry, t1.entry);
    assert_ne!(t2.stream, t1.stream);
    assert_eq!(t2.url.as_str(), "http://example.com/z.css");
    match &fs.entries[t1.entry] {
        Entry::HttpFile(h) => assert!(h.download_pending),
        _ => panic!("not an http file"),
    }
    assert_eq!(open(&mut fs, "\\z.css", FILE_READ_DATA, FILE_CREATE, 0).err(), Some(FsError::ObjectNameCollision));
    assert_eq!(open(&mut fs, "\\z.css", FILE_READ_DATA, FILE_SUPERSEDE, 0).err(), Some(FsError::InvalidParameter));
}

#[test]
fn read_waits_then_times_out() {
    let mut fs = fs(true);
    let info = open(&mut fs, "\\slow", FILE_READ_DATA, FILE_OPEN, 0).unwrap();
    let task = info.download.unwrap();
    fs.on_response(task.stream, Some(100), true, 1);
    fs.on_chunk(task.stream, &[1, 2, 3]);
    assert!(matches!(fs.read_file(&info.context, 0, 50), Ok(ReadOutcome::Pending)));
    match fs.read_step(&info.context, 0, 50, 30) {
        ReadStep::Sleep(t) => assert_eq!(t, -20),
        _ => panic!("must wait"),
    }
    assert!(matches!(fs.read_step(&info.context, 0, 50, -20), ReadStep::Failed(FsError::IoTimeout)));
    assert!(matches!(fs.read_step(&info.context, 0, 3, 0), ReadStep::Failed(FsError::IoTimeout)));
}

#[test]
fn write_then_read_round_trip() {
    let mut fs = fs(true);
    let mut info = open(&mut fs, "\\local.bin", FILE_WRITE_DATA, FILE_CREATE, 0).unwrap();
    assert!(info.download.is_none());
    let data: Vec<u8> = (0u8..200).collect();
    assert_eq!(fs.write_file(&mut info.context, 0, &data, false, 11), Ok(200));
    assert_eq!(read_all(&fs, &info.context, 0, 200), data);
    assert_eq!(info.context.mtime_delayed, Some(11));
    let e = info.context.entry;
    assert_ne!(fs.entries[e].stat().attrs.value & FILE_ATTRIBUTE_ARCHIVE, 0);
    fs.set_end_of_file(&info.context, 50, 12).unwrap();
    let back = read_all(&fs, &info.context, 0, 200);
    assert_eq!(back.len(), 50);
    assert_eq!(back, data[..50].to_vec());
    assert_eq!(fs.entries[e].stat().mtime, 12);
}

#[test]
fn write_past_end_zero_fills_and_appends() {
    let mut fs = fs(true);
    let mut info = open(&mut fs, "\\gap", FILE_WRITE_DATA, FILE_OPEN_IF, 0).unwrap();
    fs.write_file(&mut info.context, 3, b"ab", false, 1).unwrap();
    assert_eq!(read_all(&fs, &info.context, 0, 10), vec![0, 0, 0, b'a', b'b']);
    fs.write_file(&mut info.context, 0, b"Z", true, 2).unwrap();
    assert_eq!(read_all(&fs, &info.context, 0, 10), vec![0, 0, 0, b'a', b'b', b'Z']);
    fs.write_file(&mut info.context, 1, b"q", false, 3).unwrap();
    assert_eq!(read_all(&fs, &info.context, 0, 10), vec![0, b'q', 0, b'a', b'b', b'Z']);
    assert_eq!(read_all(&fs, &info.context, 9, 10), Vec::<u8>::new());
    assert_eq!(fs.write_file(&mut info.context, -1, b"q", false, 3), Err(FsError::InvalidParameter));
}

#[test]
fn allocation_size_truncates_only() {
    let mut fs = fs(true);
    let mut info = open(&mut fs, "\\alloc", FILE_WRITE_DATA, FILE_CREATE, 0).unwrap();
    fs.write_file(&mut info.context, 0, b"abcdef", false, 1).unwrap();
    fs.set_allocation_size(&info.context, 100, 2).unwrap();
    assert_eq!(read_all(&fs, &info.context, 0, 100), b"abcdef".to_vec());
    fs.set_allocation_size(&info.context, 2, 3).unwrap();
    assert_eq!(read_all(&fs, &info.context, 0, 100), b"ab".to_vec());
    fs.set_end_of_file(&info.context, 4, 4).unwrap();
    assert_eq!(read_all(&fs, &info.context, 0, 100), vec![b'a', b'b', 0, 0]);
}

#[test]
fn remote_content_is_read_only() {
    let mut fs = fs(true);
    let mut info = open(&mut fs, "\\r.txt", FILE_READ_DATA, FILE_OPEN, 0).unwrap();
    assert_eq!(fs.write_file(&mut info.context, 0, b"x", false, 1), Err(FsError::AccessDenied));
    assert_eq!(fs.set_end_of_file(&info.context, 0, 1), Err(FsError::AccessDenied));
    let direct = detached_handle(99, info.context.entry, None, false);
    assert!(matches!(fs.read_file(&direct, 0, 1), Err(FsError::InvalidDeviceRequest)));
}

#[test]
fn move_default_content_to_stream_and_back() {
    let mut fs = fs(false);
    let mut info = open(&mut fs, "\\file", FILE_WRITE_DATA, FILE_CREATE, 0).unwrap();
    fs.write_file(&mut info.context, 0, b"abc", false, 1).unwrap();
    let e = info.context.entry;
    let count = fs.entries[e].stat().handle_count;
    let mut h = info.context;
    fs.move_file(&mut h, &w(":stream1"), false, 2).unwrap();
    let sid = h.alt_stream.unwrap();
    assert_eq!(fs.streams[sid].data, b"abc".to_vec());
    match &fs.entries[e] {
        Entry::File(f) => assert!(f.data.is_empty()),
        _ => panic!("not a file"),
    }
    assert_eq!(fs.entries[e].stat().alt_streams.len(), 1);
    assert_eq!(fs.entries[e].stat().alt_streams[0].0, w("stream1"));
    fs.move_file(&mut h, &w("::$DATA"), false, 3).unwrap();
    assert!(h.alt_stream.is_none());
    match &fs.entries[e] {
        Entry::File(f) => assert_eq!(f.data, b"abc".to_vec()),
        _ => panic!("not a file"),
    }
    assert!(fs.entries[e].stat().alt_streams.is_empty());
    assert_eq!(fs.entries[e].stat().handle_count, count);
    assert!(!fs.entries[e].stat().delete_pending);
}

#[test]
fn move_stream_on_directory_is_refused() {
    let mut fs = fs(false);
    let mut d = open(&mut fs, "\\dd", FILE_READ_DATA, FILE_CREATE, FILE_DIRECTORY_FILE).unwrap();
    assert_eq!(fs.move_file(&mut d.context, &w(":s"), false, 1), Err(FsError::InvalidParameter));
}

#[test]
fn shared_stream_cannot_become_default() {
    let mut fs = fs(false);
    let a = open(&mut fs, "\\s.txt:alt", FILE_WRITE_DATA, FILE_CREATE, 0).unwrap();
    let _b = open(&mut fs, "\\s.txt:alt", FILE_READ_DATA, FILE_OPEN, 0).unwrap();
    let mut h = a.context;
    assert_eq!(fs.move_file(&mut h, &w("::$DATA"), false, 2), Err(FsError::SharingViolation));
}

#[test]
fn move_to_other_directory() {
    let mut fs = fs(false);
    let mut f = open(&mut fs, "\\src\\one.txt", FILE_WRITE_DATA, FILE_CREATE, 0).unwrap();
    let e = f.context.entry;
    fs.move_file(&mut f.context, &w("\\dst\\two.txt"), false, 5).unwrap();
    let src = child(&fs, ROOT, "src").unwrap();
    let dst = child(&fs, ROOT, "dst").unwrap();
    assert_eq!(child(&fs, src, "one.txt"), None);
    assert_eq!(child(&fs, dst, "two.txt"), Some(e));
    assert_eq!(fs.entries[e].stat().parent, Some(dst));
    assert_eq!(fs.entries[src].stat().mtime, 5);
    assert_eq!(fs.entries[dst].stat().mtime, 5);
}

#[test]
fn move_onto_existing_needs_replace() {
    let mut fs = fs(false);
    let mut a = open(&mut fs, "\\a1", FILE_WRITE_DATA, FILE_CREATE, 0).unwrap();
    let b = open(&mut fs, "\\b1", FILE_WRITE_DATA, FILE_CREATE, 0).unwrap();
    let bid = b.context.entry;
    assert_eq!(fs.move_file(&mut a.context, &w("\\b1"), false, 1), Err(FsError::ObjectNameCollision));
    assert_eq!(fs.move_file(&mut a.context, &w("\\b1"), true, 1), Err(FsError::AccessDenied));
    fs.dispose_handle(b.context, 2);
    fs.move_file(&mut a.context, &w("\\b1"), true, 3).unwrap();
    assert_eq!(child(&fs, ROOT, "b1"), Some(a.context.entry));
    assert_eq!(child(&fs, ROOT, "a1"), None);
    assert_ne!(child(&fs, ROOT, "b1"), Some(bid));
}

#[test]
fn create_file_errors() {
    let mut fs = fs(true);
    assert_eq!(fs.create_file(&w("\\i"), 0, 0, FILE_OPEN, 0, true, 1).err(), Some(FsError::AccessDenied));
    assert_eq!(open(&mut fs, "\\i", 0, 6, 0).err(), Some(FsError::InvalidParameter));
    assert_eq!(open(&mut fs, "\\", 0, FILE_CREATE, 0).err(), Some(FsError::InvalidParameter));
    assert_eq!(open(&mut fs, "\\", 0, FILE_OPEN, FILE_NON_DIRECTORY_FILE).err(), Some(FsError::FileIsADirectory));
    assert_eq!(open(&mut fs, "\\nodir", 0, FILE_OPEN, FILE_DIRECTORY_FILE).err(), Some(FsError::ObjectNameNotFound));
    assert_eq!(open(&mut fs, "\\nodir", 0, FILE_OVERWRITE, FILE_DIRECTORY_FILE).err(), Some(FsError::InvalidParameter));
    assert_eq!(open(&mut fs, "\\bad:s:$WHAT", 0, FILE_CREATE, 0).err(), Some(FsError::ObjectNameInvalid));
    let f = open(&mut fs, "\\f", FILE_WRITE_DATA, FILE_CREATE, 0).unwrap();
    assert_eq!(open(&mut fs, "\\f", FILE_READ_DATA, FILE_CREATE, 0).err(), Some(FsError::ObjectNameCollision));
    assert_eq!(open(&mut fs, "\\f", FILE_WRITE_DATA, FILE_OPEN, 0).err(), Some(FsError::AccessDenied));
    assert_eq!(open(&mut fs, "\\f", FILE_APPEND_DATA, FILE_OPEN, 0).err(), Some(FsError::AccessDenied));
    assert_eq!(open(&mut fs, "\\f", FILE_READ_DATA, FILE_OPEN, FILE_DELETE_ON_CLOSE).err(), Some(FsError::CannotDelete));
    assert_eq!(open(&mut fs, "\\f", FILE_READ_DATA, FILE_OPEN, FILE_DIRECTORY_FILE).err(), Some(FsError::NotADirectory));
    let d = open(&mut fs, "\\dir", FILE_READ_DATA, FILE_CREATE, FILE_DIRECTORY_FILE).unwrap();
    assert!(!d.is_dir);
    assert_eq!(open(&mut fs, "\\dir", FILE_READ_DATA, FILE_OPEN, FILE_NON_DIRECTORY_FILE).err(), Some(FsError::FileIsADirectory));
    assert_eq!(open(&mut fs, "\\dir", FILE_READ_DATA, FILE_OVERWRITE_IF, 0).err(), Some(FsError::InvalidParameter));
    assert!(open(&mut fs, "\\dir", FILE_READ_DATA, FILE_OPEN, 0).unwrap().is_dir);
    fs.dispose_handle(f.context, 2);
}

#[test]
fn delete_pending_blocks_open_and_create() {
    let mut fs = fs(false);
    let d = open(&mut fs, "\\p", FILE_READ_DATA, FILE_CREATE, FILE_DIRECTORY_FILE).unwrap();
    fs.delete_directory(&d.context, false).unwrap();
    assert_eq!(open(&mut fs, "\\p", FILE_READ_DATA, FILE_OPEN, 0).err(), Some(FsError::DeletePending));
    assert_eq!(open(&mut fs, "\\p\\new", FILE_READ_DATA, FILE_CREATE, 0).err(), Some(FsError::DeletePending));
}

#[test]
fn overwrite_clears_local_file() {
    let mut fs = fs(false);
    let mut f = open(&mut fs, "\\o", FILE_WRITE_DATA, FILE_CREATE, 0).unwrap();
    fs.write_file(&mut f.context, 0, b"data", false, 1).unwrap();
    let g = open(&mut fs, "\\o", FILE_WRITE_DATA, FILE_OVERWRITE, 0).unwrap();
    assert!(!g.new_file_created);
    assert!(read_all(&fs, &g.context, 0, 10).is_empty());
}

#[test]
fn readonly_file_cannot_be_deleted() {
    let mut fs = fs(false);
    let f = fs.create_file(&w("\\ro"), FILE_READ_DATA, FILE_ATTRIBUTE_READONLY, FILE_CREATE, 0, false, 1).unwrap();
    assert_eq!(fs.delete_file(&f.context), Err(FsError::CannotDelete));
    let g = open(&mut fs, "\\rw", FILE_WRITE_DATA, FILE_CREATE, 0).unwrap();
    assert_eq!(fs.delete_file(&g.context), Ok(()));
    assert!(fs.entries[g.context.entry].stat().delete_pending);
    assert_eq!(
        fs.create_file(&w("\\ro2"), 0, FILE_ATTRIBUTE_READONLY, FILE_CREATE, FILE_DELETE_ON_CLOSE, false, 1).err(),
        Some(FsError::CannotDelete)
    );
}

#[test]
fn named_streams_open_create_and_list() {
    let mut fs = fs(false);
    let mut f = open(&mut fs, "\\n.txt", FILE_WRITE_DATA, FILE_CREATE, 0).unwrap();
    fs.write_file(&mut f.context, 0, b"main", false, 1).unwrap();
    let mut s = open(&mut fs, "\\n.txt:meta", FILE_WRITE_DATA, FILE_CREATE, 0).unwrap();
    assert!(s.new_file_created);
    fs.write_file(&mut s.context, 0, b"xy", false, 2).unwrap();
    assert_eq!(open(&mut fs, "\\n.txt:meta", 0, FILE_CREATE, 0).err(), Some(FsError::ObjectNameCollision));
    assert_eq!(open(&mut fs, "\\n.txt:none", 0, FILE_OPEN, 0).err(), Some(FsError::ObjectNameNotFound));
    let listed = fs.find_streams(&f.context);
    assert_eq!(listed.len(), 2);
    assert_eq!(listed[0].name, w("::$DATA"));
    assert_eq!(listed[0].size, 4);
    assert_eq!(listed[1].name, w(":meta:$DATA"));
    assert_eq!(listed[1].size, 2);
    match fs.get_file_information(&s.context, 100) {
        InfoStep::Done(fi) => assert_eq!(fi.file_size, 2),
        _ => panic!("local stream size is known"),
    }
    fs.delete_file(&s.context).unwrap();
    fs.dispose_handle(s.context, 3);
    assert_eq!(fs.find_streams(&f.context).len(), 1);
}

#[test]
fn find_files_lists_children() {
    let mut fs = fs(false);
    let mut f = open(&mut fs, "\\top\\a.txt", FILE_WRITE_DATA, FILE_CREATE, 0).unwrap();
    fs.write_file(&mut f.context, 0, b"12345", false, 1).unwrap();
    open(&mut fs, "\\top\\sub", FILE_READ_DATA, FILE_CREATE, FILE_DIRECTORY_FILE).unwrap();
    let top = open(&mut fs, "\\top", FILE_READ_DATA, FILE_OPEN, 0).unwrap();
    let list = fs.find_files(&top.context).unwrap();
    assert_eq!(list.len(), 2);
    assert_eq!(list[0].file_name, w("a.txt"));
    assert_eq!(list[0].file_size, 5);
    assert_eq!(list[0].attributes, FILE_ATTRIBUTE_ARCHIVE);
    assert_eq!(list[1].file_name, w("sub"));
    assert_eq!(list[1].attributes, 0x10);
    assert!(matches!(fs.find_files(&f.context), Err(FsError::InvalidDeviceRequest)));
}

#[test]
fn set_times_and_attributes() {
    let mut fs = fs(false);
    let mut f = open(&mut fs, "\\t", FILE_WRITE_DATA, FILE_CREATE, 0).unwrap();
    let e = f.context.entry;
    fs.set_file_time(
        &mut f.context,
        FileTimeOperation::SetTime(100),
        FileTimeOperation::DisableUpdate,
        FileTimeOperation::SetTime(300),
    );
    assert_eq!(fs.entries[e].stat().ctime, 100);
    assert_eq!(fs.entries[e].stat().mtime, 300);
    assert!(!f.context.atime_enabled);
    fs.set_file_time(
        &mut f.context,
        FileTimeOperation::DontChange,
        FileTimeOperation::SetTime(5),
        FileTimeOperation::DontChange,
    );
    assert_eq!(fs.entries[e].stat().atime, 7);
    fs.write_file(&mut f.context, 0, b"x", false, 900).unwrap();
    assert_eq!(f.context.atime_delayed, None);
    assert_eq!(f.context.mtime_delayed, Some(900));
    fs.close_file(&f.context);
    assert_eq!(fs.entries[e].stat().mtime, 900);
    fs.set_file_attributes(&f.context, 0xffff_ffff);
    assert_eq!(fs.entries[e].stat().attrs.value, 0x31a7);
}

#[test]
fn handle_count_at_limit_refuses_open() {
    let mut fs = fs(false);
    if let Entry::Directory(d) = &mut fs.entries[ROOT] {
        d.stat.handle_count = u32::MAX;
    }
    assert_eq!(open(&mut fs, "\\", FILE_READ_DATA, FILE_OPEN, 0).err(), Some(FsError::InsufficientResources));
}

#[test]
fn longest_component_is_accepted() {
    let mut fs = fs(false);
    let name = "n".repeat(255);
    let path = format!("\\{}\\{}", name, name);
    let info = open(&mut fs, &path, FILE_WRITE_DATA, FILE_CREATE, 0).unwrap();
    assert!(info.new_file_created);
    assert!(info.download.is_none());
}

#[test]
fn empty_path_remote_name_is_index_page() {
    assert_eq!(httpfs::ops::remote_path_of(&[]), w("index.html"));
    assert_eq!(httpfs::ops::remote_path_of(&w("\\a")), w("\\a"));
}

#[test]
fn rename_named_stream() {
    let mut fs = fs(false);
    let mut s = open(&mut fs, "\\r.txt:old", FILE_WRITE_DATA, FILE_CREATE, 0).unwrap();
    fs.write_file(&mut s.context, 0, b"v", false, 1).unwrap();
    let sid = s.context.alt_stream.unwrap();
    let e = s.context.entry;
    fs.move_file(&mut s.context, &w(":new:$DATA"), false, 2).unwrap();
    assert_eq!(s.context.alt_stream, Some(sid));
    assert_eq!(fs.entries[e].stat().alt_streams.len(), 1);
    assert_eq!(fs.entries[e].stat().alt_streams[0].0, w("new"));
    assert_eq!(read_all(&fs, &s.context, 0, 1), b"v".to_vec());
    let mut plain = open(&mut fs, "\\r.txt", FILE_READ_DATA, FILE_OPEN, 0).unwrap();
    assert_eq!(fs.move_file(&mut plain.context, &w("::$DATA"), false, 3), Ok(()));
}

#[test]
fn fetch_through_needs_a_joinable_origin() {
    let mut fs = MemFsHandler::new("not a url".to_string(), true);
    assert_eq!(open(&mut fs, "\\a.js", FILE_READ_DATA, FILE_OPEN, 0).err(), Some(FsError::ObjectNameInvalid));
    assert_eq!(fs.entries.len(), 1);
    let info = open(&mut fs, "\\b.js", FILE_WRITE_DATA, FILE_CREATE, 0).unwrap();
    assert!(info.download.is_none());
}

#[test]
fn directory_cannot_move_below_itself() {
    let mut fs = fs(false);
    let mut d = open(&mut fs, "\\top", FILE_READ_DATA, FILE_CREATE, FILE_DIRECTORY_FILE).unwrap();
    open(&mut fs, "\\top\\inner", FILE_READ_DATA, FILE_CREATE, FILE_DIRECTORY_FILE).unwrap();
    assert_eq!(fs.move_file(&mut d.context, &w("\\top\\inner\\x"), false, 1), Err(FsError::InvalidParameter));
    assert_eq!(fs.move_file(&mut d.context, &w("\\top\\y"), false, 1), Err(FsError::InvalidParameter));
    assert_eq!(fs.move_file(&mut d.context, &w("\\moved"), false, 1), Ok(()));
    assert_eq!(child(&fs, ROOT, "top"), None);
    assert_eq!(child(&fs, ROOT, "moved"), Some(d.context.entry));
}

#[test]
fn overwrite_resets_attributes() {
    let mut fs = fs(false);
    let mut f = open(&mut fs, "\\ow", FILE_WRITE_DATA, FILE_CREATE, 0).unwrap();
    fs.write_file(&mut f.context, 0, b"xyz", false, 1).unwrap();
    let g = fs.create_file(&w("\\ow"), FILE_WRITE_DATA, 0x2, FILE_SUPERSEDE, 0, false, 2).unwrap();
    assert_eq!(fs.entries[g.context.entry].stat().attrs.value, 0x22);
    assert!(read_all(&fs, &g.context, 0, 0).is_empty());
}
