use httpfs::access::access_flags_to_string;
use httpfs::dir_tree::{seed_name, DirTree};
use httpfs::entry::{DirEntry, Entry, FileEntry, HttpFileEntry};
use httpfs::fs::{MemFsHandler, ROOT};
use httpfs::handle::EntryHandle;
use httpfs::io::{wait_with_timeout, WaitStep};
use httpfs::metadata::{AltStream, Attributes, Stat};
use httpfs::path::{split_components, FullName, StreamInfo, StreamType};
use httpfs::pool::working_num;
use httpfs::status::FsError;

fn bare_handle(index: u64, entry: usize, alt_stream: Option<usize>, delete_on_close: bool) -> EntryHandle {
    EntryHandle {
        index,
        entry,
        alt_stream,
        delete_on_close,
        mtime_delayed: None,
        atime_delayed: None,
        ctime_enabled: true,
        mtime_enabled: true,
        atime_enabled: true,
    }
}

fn w(s: &str) -> Vec<u16> {
    s.encode_utf16().collect()
}

#[test]
fn attributes_are_masked_and_reported() {
    assert_eq!(Attributes::new(0xffff_ffff).value, 0x31a7);
    assert_eq!(Attributes::new(0x10).value, 0);
    assert_eq!(Attributes::new(0).get_output_attrs(false), 0x80);
    assert_eq!(Attributes::new(0).get_output_attrs(true), 0x10);
    assert_eq!(Attributes::new(0x21).get_output_attrs(true), 0x31);
    assert_eq!(Attributes::new(0x2).get_output_attrs(false), 0x2);
}

#[test]
fn stat_times_update() {
    let mut st = Stat::new(4, 0x1, Some(2), 10);
    assert_eq!((st.id, st.attrs.value, st.ctime, st.mtime, st.atime), (4, 1, 10, 10, 10));
    assert_eq!(st.parent, Some(2));
    st.update_atime(20);
    assert_eq!((st.mtime, st.atime), (10, 20));
    st.update_mtime(30);
    assert_eq!((st.mtime, st.atime), (30, 30));
    let s = AltStream::new();
    assert_eq!((s.handle_count, s.delete_pending, s.data.len(), s.content_length), (0, false, 0, 0));
}

#[test]
fn entries_report_kind_and_stat() {
    let f = Entry::File(FileEntry::new(Stat::new(1, 0, None, 0)));
    let d = Entry::Directory(DirEntry::new(Stat::new(2, 0, None, 0)));
    let h = HttpFileEntry::new(Stat::new(3, 0, None, 0));
    assert!(h.download_pending);
    assert_eq!(h.data_len(), 0);
    assert!(h.get_data().is_none());
    let mut h2 = HttpFileEntry::new(Stat::new(5, 0, None, 0));
    h2.data_cache = Some(vec![1, 2, 3]);
    assert_eq!(h2.data_len(), 3);
    assert_eq!(h2.get_data(), Some(vec![1, 2, 3]));
    let h = Entry::HttpFile(h);
    assert!(!f.is_dir() && !h.is_dir() && d.is_dir());
    assert_eq!(f.stat().id, 1);
    assert_eq!(h.stat().id, 3);
}

#[test]
fn handle_flags_gate_time_updates() {
    let mut h = bare_handle(9, 1, None, true);
    assert_eq!(h.index, 9);
    assert!(h.delete_on_close);
    let d = Entry::Directory(DirEntry::new(Stat::new(2, 0, None, 0)));
    assert!(h.is_dir(&d));
    let mut st = Stat::new(1, 0, None, 5);
    h.update_mtime(&mut st, 50);
    assert_eq!((st.mtime, st.atime), (50, 50));
    h.atime_enabled = false;
    h.update_mtime(&mut st, 60);
    assert_eq!((st.mtime, st.atime), (60, 50));
    h.mtime_enabled = false;
    h.update_atime(&mut st, 70);
    assert_eq!((st.mtime, st.atime), (60, 50));
    let s = bare_handle(9, 1, Some(0), false);
    assert!(!s.is_dir(&d));
}

#[test]
fn names_parse_into_base_and_stream() {
    let n = FullName::new(&w("a.txt")).unwrap();
    assert_eq!(n.file_name, w("a.txt"));
    assert!(n.stream_info.is_none());
    let n = FullName::new(&w("a.txt:meta")).unwrap();
    assert_eq!(n.file_name, w("a.txt"));
    let si = n.stream_info.unwrap();
    assert_eq!(si.name, w("meta"));
    assert_eq!(si.type_, StreamType::Data);
    let n = FullName::new(&w("dir::$INDEX_ALLOCATION")).unwrap();
    let si = n.stream_info.unwrap();
    assert!(si.name.is_empty());
    assert_eq!(si.type_, StreamType::IndexAllocation);
    let n = FullName::new(&w("x:s:$BITMAP")).unwrap();
    assert_eq!(n.stream_info.unwrap().type_, StreamType::Bitmap);
    assert!(matches!(FullName::new(&w("x:s:$OTHER")), Err(FsError::ObjectNameInvalid)));
}

#[test]
fn default_stream_rules() {
    let si = |n: &str, t: StreamType| StreamInfo { name: w(n), type_: t };
    assert_eq!(si("", StreamType::IndexAllocation).check_default(true), Ok(true));
    assert_eq!(si("$I30", StreamType::IndexAllocation).check_default(true), Ok(true));
    assert_eq!(si("", StreamType::Data).check_default(true), Err(FsError::ObjectNameInvalid));
    assert_eq!(si("s", StreamType::Data).check_default(true), Ok(false));
    assert_eq!(si("s", StreamType::Bitmap).check_default(true), Err(FsError::ObjectNameInvalid));
    assert_eq!(si("", StreamType::Data).check_default(false), Ok(true));
    assert_eq!(si("s", StreamType::Data).check_default(false), Ok(false));
    assert_eq!(si("", StreamType::IndexAllocation).check_default(false), Err(FsError::ObjectNameInvalid));
}

#[test]
fn paths_split_on_backslashes() {
    assert_eq!(split_components(&w("\\a\\\\b\\c\\")), vec![w("a"), w("b"), w("c")]);
    assert!(split_components(&w("\\\\")).is_empty());
    assert_eq!(split_components(&w("x")), vec![w("x")]);
}

#[test]
fn access_mask_text() {
    assert_eq!(access_flags_to_string(0), "NO_ACCESS");
    assert_eq!(access_flags_to_string(0x8000_0000), "GENERIC_READ");
    assert_eq!(
        access_flags_to_string(0x0012_0089),
        "READ_CONTROL | SYNCHRONIZE | FILE_READ_DATA | FILE_READ_EA | FILE_READ_ATTRIBUTES"
    );
    assert_eq!(access_flags_to_string(0x0000_0200), "");
}

#[test]
fn poll_decisions() {
    assert_eq!(wait_with_timeout(true, 100, 10), WaitStep::Sleep(90));
    assert_eq!(wait_with_timeout(true, 5, 10), WaitStep::Sleep(-5));
    assert_eq!(wait_with_timeout(true, 0, 10), WaitStep::TimedOut);
    assert_eq!(wait_with_timeout(false, -5, 10), WaitStep::TimedOut);
    assert_eq!(wait_with_timeout(false, 40, 10), WaitStep::Ready(40));
}

#[test]
fn pool_busy_count() {
    assert_eq!(working_num(&vec![]), 0);
    assert_eq!(working_num(&vec![true, false, true, true]), 3);
    assert_eq!(working_num(&vec![false; 20]), 0);
}

#[test]
fn seed_names_in_utf16() {
    assert!(DirTree { name: "d/".to_string(), children: vec![] }.is_folder());
    assert!(!DirTree { name: "f.txt".to_string(), children: vec![] }.is_folder());
    assert!(!DirTree { name: String::new(), children: vec![] }.is_folder());
    assert_eq!(seed_name("ab/"), w("ab"));
    assert_eq!(seed_name("é\u{1F600}"), w("é\u{1F600}"));
}

#[test]
fn seed_tree_builds_directories_and_files() {
    let mut fs = MemFsHandler::new("http://example.com/".to_string(), true);
    let tree = DirTree {
        name: "/".to_string(),
        children: vec![
            DirTree { name: "docs/".to_string(), children: vec![DirTree { name: "a.md".to_string(), children: vec![] }] },
            DirTree { name: "top.txt".to_string(), children: vec![] },
        ],
    };
    fs.build_tree(&tree, 3);
    let docs = fs.lookup_child(ROOT, &w("docs")).unwrap();
    assert!(fs.entries[docs].is_dir());
    let a = fs.lookup_child(docs, &w("a.md")).unwrap();
    assert!(matches!(fs.entries[a], Entry::File(_)));
    let top = fs.lookup_child(ROOT, &w("top.txt")).unwrap();
    assert!(matches!(fs.entries[top], Entry::File(_)));
    assert_eq!(fs.entries[a].stat().parent, Some(docs));
    assert_eq!(fs.entries.len(), 4);
    assert_eq!(fs.next_id(), 4);
}

#[test]
fn new_handle_counts_on_entry_and_stream() {
    let mut fs = MemFsHandler::new("http://example.com/".to_string(), false);
    let sid = fs.push_stream(1);
    let h = EntryHandle::new(&mut fs, 5, ROOT, Some(sid), true);
    assert_eq!((h.index, h.entry, h.alt_stream, h.delete_on_close), (5, ROOT, Some(sid), true));
    assert!(h.ctime_enabled && h.mtime_enabled && h.atime_enabled);
    assert_eq!(h.mtime_delayed, None);
    assert_eq!(fs.entries[ROOT].stat().handle_count, 1);
    assert_eq!(fs.streams[sid].handle_count, 1);
}
