use vstd::prelude::*;

use crate::entry::Entry;
use crate::fs::{entry_in_bounds, find_name, MemFsHandler};
use crate::handle::EntryHandle;
use crate::lifecycle::without_id;
use crate::metadata::AltStream;
use crate::path::{default_stream, parse_name, FullName, COLON};
use crate::status::FsError;

verus! {

/// The default content of File `e` (empty for other entries).
pub open spec fn file_data(fs: &MemFsHandler, e: int) -> Seq<u8> {
    match fs.entry(e) {
        Entry::File(f) => f.data@,
        _ => seq![],
    }
}

/// `s1`/`h1` follow from `s0`/`h0` by moving the File's default content
/// into the new stream `n`, which takes over the entry's pending mark and
/// the session.
pub open spec fn to_named_stream(s0: &MemFsHandler, h0: &EntryHandle, s1: &MemFsHandler, h1: &EntryHandle, n: Seq<u16>) -> bool {
    let e = h0.entry as int;
    &&& h1.entry == h0.entry
    &&& h0.alt_stream is None
    &&& h1.alt_stream is Some
    &&& s1.entry(e) is File
    &&& s1.streams@[h1.alt_stream.unwrap() as int].data@ == file_data(s0, e)
    &&& s1.streams@[h1.alt_stream.unwrap() as int].delete_pending == s0.stat_of(e).delete_pending
    &&& s1.streams@[h1.alt_stream.unwrap() as int].handle_count == 1
    &&& !s1.stat_of(e).delete_pending
    &&& file_data(s1, e).len() == 0
    &&& s1.stat_of(e).handle_count == s0.stat_of(e).handle_count
    &&& s1.stream_named(e, n) == h1.alt_stream
    &&& s1.streams@.len() == s0.streams@.len() + 1
    &&& forall|i: int| 0 <= i < s0.streams@.len() ==> #[trigger] s1.streams@[i] == s0.streams@[i]
}

/// `s2`/`h2` follow from `s1`/`h1` by moving the session's stream back into
/// the File's default content, with the stream's pending mark.
pub open spec fn to_default_stream(s1: &MemFsHandler, h1: &EntryHandle, s2: &MemFsHandler, h2: &EntryHandle) -> bool {
    let e = h1.entry as int;
    &&& h2.entry == h1.entry
    &&& h1.alt_stream is Some
    &&& h2.alt_stream is None
    &&& s2.entry(e) is File
    &&& file_data(s2, e) == s1.streams@[h1.alt_stream.unwrap() as int].data@
    &&& s2.stat_of(e).delete_pending == s1.streams@[h1.alt_stream.unwrap() as int].delete_pending
    &&& s2.stat_of(e).handle_count == s1.stat_of(e).handle_count
    &&& without_id(s1.stat_of(e).alt_streams@, s2.stat_of(e).alt_streams@, h1.alt_stream.unwrap())
    &&& s2.streams@.len() == s1.streams@.len()
    &&& forall|i: int| 0 <= i < s1.streams@.len() && i != h1.alt_stream.unwrap() ==> #[trigger] s2.streams@[i] == s1.streams@[i]
}

/// Moving a File's default content to a named stream and back restores
/// the content, the delete-pending mark and the handle count, and leaves
/// the session unbound again; the move back is always allowed, since the
/// moved stream has a single handle and the default content is empty.
pub proof fn lemma_stream_move_round_trip(
    s0: &MemFsHandler,
    h0: &EntryHandle,
    s1: &MemFsHandler,
    h1: &EntryHandle,
    s2: &MemFsHandler,
    h2: &EntryHandle,
    n: Seq<u16>,
)
    requires
        to_named_stream(s0, h0, s1, h1, n),
        to_default_stream(s1, h1, s2, h2),
    ensures
        s1.streams@[h1.alt_stream.unwrap() as int].handle_count <= 1,
        file_data(s1, h1.entry as int).len() == 0,
        file_data(s2, h0.entry as int) == file_data(s0, h0.entry as int),
        s2.stat_of(h0.entry as int).delete_pending == s0.stat_of(h0.entry as int).delete_pending,
        s2.stat_of(h0.entry as int).handle_count == s0.stat_of(h0.entry as int).handle_count,
        h2.entry == h0.entry && h2.alt_stream == h0.alt_stream,
{
}

pub proof fn lemma_without_id_subset(v: Seq<(Vec<u16>, usize)>, w: Seq<(Vec<u16>, usize)>, id: usize)
    requires
        without_id(v, w, id),
    ensures
        forall|j: int| 0 <= j < w.len() ==> exists|q: int| 0 <= q < v.len() && #[trigger] w[j] == v[q],
{
    assert forall|j: int| 0 <= j < w.len() implies exists|q: int| 0 <= q < v.len() && #[trigger] w[j] == v[q] by {
        if exists|k: int| crate::lifecycle::is_first_id(v, id, k) {
            let c = choose|k: int| crate::lifecycle::is_first_id(v, id, k);
            if j < c {
                assert(w[j] == v[j]);
            } else {
                assert(w[j] == v[j + 1]);
            }
        } else {
            assert(w[j] == v[j]);
        }
    }
}

/// Where a path target lands when its directories exist in `fs` and its
/// leaf names no stream: the directory, the leaf name, and the entry that
/// already holds that name, if any.
pub open spec fn path_target(fs: &MemFsHandler, p: Seq<u16>) -> Option<(int, Seq<u16>, Option<int>)> {
    let leaf = crate::path::leaf_of(p);
    if crate::path::components(p).len() > 0 && leaf.len() <= crate::path::MAX_COMPONENT_LENGTH
        && parse_name(leaf) is Ok && parse_name(leaf).unwrap().1 is None
        && fs.walk(crate::fs::ROOT as int, crate::path::dirs_of(p)) is Ok {
        let d = fs.walk(crate::fs::ROOT as int, crate::path::dirs_of(p)).unwrap();
        let n = parse_name(leaf).unwrap().0;
        Some((d, n, fs.child(d, n)))
    } else {
        None
    }
}

/// What a move to the stream target `name` does, by transition: default to
/// named, default to default (nothing), named to named (a rename), named to
/// default.
pub open spec fn stream_move(
    s0: &MemFsHandler,
    h0: &EntryHandle,
    s1: &MemFsHandler,
    h1: &EntryHandle,
    name: Seq<u16>,
    replace: bool,
    r: &Result<(), FsError>,
) -> bool {
    let e = h0.entry as int;
    match (h0.alt_stream, parse_name(name)) {
        (None, Ok((_, Some((n, t))))) => {
            &&& s0.entry(e) is File && default_stream(n, t, false) == Ok::<bool, FsError>(false)
                && s0.stream_named(e, n) is None
                ==> *r is Ok && to_named_stream(s0, h0, s1, h1, n)
            &&& s0.entry(e) is File && default_stream(n, t, false) == Ok::<bool, FsError>(true)
                ==> *r is Ok && *s1 == *s0 && *h1 == *h0
        },
        (Some(s), Ok((_, Some((n, t))))) => {
            &&& s0.entry(e) is File && default_stream(n, t, false) == Ok::<bool, FsError>(false)
                && s0.stream_named(e, n) is None
                ==> *r is Ok && h1.alt_stream == Some(s) && s1.stream_named(e, n) == Some(s)
            &&& s0.entry(e) is File && default_stream(n, t, false) == Ok::<bool, FsError>(true)
                && s0.streams@[s as int].handle_count <= 1
                && (file_data(s0, e).len() == 0 || replace)
                ==> *r is Ok && to_default_stream(s0, h0, s1, h1)
        },
        _ => true,
    }
}

/// What a move of `h`'s entry to the path target `name` does.
pub open spec fn path_move(
    s0: &MemFsHandler,
    h: &EntryHandle,
    s1: &MemFsHandler,
    name: Seq<u16>,
    replace: bool,
    now: u64,
    r: &Result<(), FsError>,
) -> bool {
    &&& h.alt_stream is None && s0.stat_of(h.entry as int).parent is Some ==> match path_target(s0, name) {
            Some((d, n, occupant)) => {
                let e = h.entry as int;
                let p = s0.stat_of(e).parent.unwrap() as int;
                let other = occupant is Some && occupant.unwrap() != e;
                let o = occupant.unwrap();
                let dirs = s0.entry(e) is Directory || s0.entry(o) is Directory;
                let busy = s0.stat_of(o).handle_count > 0
                    || s0.stat_of(o).attrs.value & crate::metadata::FILE_ATTRIBUTE_READONLY != 0;
                let allowed = !other || (replace && !dirs && !busy);
                let cycle = reaches(s0, d, e, s0.entries@.len());
                &&& other && !replace ==> *r == Err::<(), FsError>(FsError::ObjectNameCollision)
                &&& other && replace && dirs ==> *r == Err::<(), FsError>(FsError::AccessDenied)
                &&& other && replace && !dirs && busy ==> *r == Err::<(), FsError>(FsError::AccessDenied)
                &&& allowed && cycle ==> *r == Err::<(), FsError>(FsError::InvalidParameter)
                &&& allowed && !cycle ==> {
                    &&& *r is Ok
                    &&& s1.stat_of(e).parent == Some(d as usize)
                    &&& s1.stat_of(p).mtime == now
                    &&& p != d && p != e ==> forall|k: int| 0 <= k < s1.children_of(p).len()
                        ==> (#[trigger] s1.children_of(p)[k]).1 != e
                    &&& forall|i: int| 0 <= i < s0.entries@.len() && i != p && i != d && i != e
                        ==> #[trigger] s1.entry(i) == s0.entry(i)
                }
            },
            None => true,
        }
    &&& *r is Ok ==> {
            let d = s1.stat_of(h.entry as int).parent.unwrap() as int;
            &&& s1.stat_of(h.entry as int).parent is Some
            &&& s1.entry(d) is Directory
            &&& s1.children_of(d).len() > 0
            &&& s1.children_of(d).last().1 == h.entry
            &&& crate::path::components(name).len() > 0
            &&& s1.children_of(d).last().0@ == parse_name(crate::path::leaf_of(name))->Ok_0.0
            &&& s1.stat_of(d).mtime == now
            &&& s1.stat_of(h.entry as int).handle_count == s0.stat_of(h.entry as int).handle_count
        }
}

/// Following parent links up from `d`, at most `fuel` entries are visited
/// and `e` is among them.
pub open spec fn reaches(fs: &MemFsHandler, d: int, e: int, fuel: nat) -> bool
    decreases fuel,
{
    fuel > 0 && (d == e || match fs.stat_of(d).parent {
        Some(p) => reaches(fs, p as int, e, (fuel - 1) as nat),
        None => false,
    })
}

impl MemFsHandler {
    /// Whether `e` is `d` or one of its ancestors.
    pub fn is_below(&self, d: usize, e: usize) -> (r: bool)
        requires
            self.wf(),
            d < self.entries@.len(),
        ensures
            r == reaches(self, d as int, e as int, self.entries@.len()),
    {
        let mut cur = d;
        let mut fuel = self.entries.len();
        while fuel > 0
            invariant
                self.wf(),
                cur < self.entries@.len(),
                fuel <= self.entries@.len(),
                reaches(self, d as int, e as int, self.entries@.len()) == reaches(self, cur as int, e as int, fuel as nat),
            decreases fuel,
        {
            if cur == e {
                return true;
            }
            assert(crate::fs::entry_in_bounds(self.entries@[cur as int], self.entries@.len(), self.streams@.len()));
            match self.entries[cur].stat().parent {
                Some(p) => {
                    cur = p;
                    fuel = fuel - 1;
                },
                None => {
                    return false;
                },
            }
        }
        false
    }

    /// The index of stream `name` of entry `e`, if it has one.
    pub open spec fn stream_named(&self, e: int, name: Seq<u16>) -> Option<usize> {
        match find_name(self.stat_of(e).alt_streams@, name) {
            Some(k) => Some(self.stat_of(e).alt_streams@[k].1),
            None => None,
        }
    }

    fn lookup_stream(&self, e: usize, name: &[u16]) -> (r: Option<usize>)
        requires
            self.wf(),
            e < self.entries@.len(),
        ensures
            r == self.stream_named(e as int, name@),
            r matches Some(s) ==> s < self.streams@.len(),
    {
        let st = self.entries[e].stat();
        match crate::fs::find_pair(&st.alt_streams, name) {
            Some(k) => {
                assert(entry_in_bounds(self.entries@[e as int], self.entries@.len(), self.streams@.len()));
                Some(st.alt_streams[k].1)
            },
            None => None,
        }
    }

    /// Move with a stream-name target (`:name[:type]`): converts between a
    /// File's default content and a named stream, or renames a stream.
    pub fn move_stream(&mut self, h: &mut EntryHandle, new_name: &[u16], replace_if_existing: bool, now: u64) -> (r: Result<(), FsError>)
        requires
            old(self).wf(),
            old(self).handle_ok(old(h)),
        ensures
            final(self).wf(),
            final(self).handle_ok(final(h)),
            final(self).existing_readonly == old(self).existing_readonly,
            final(self).entries@.len() == old(self).entries@.len(),
            final(h).entry == old(h).entry,
            final(self).stat_of(old(h).entry as int).handle_count == old(self).stat_of(old(h).entry as int).handle_count,
            r is Err ==> *final(self) == *old(self) && *final(h) == *old(h),
            !(old(self).entry(old(h).entry as int) is File) ==> r is Err,
            stream_move(old(self), old(h), final(self), final(h), new_name@, replace_if_existing, &r),
    {
        let e = h.entry;
        let is_file = match &self.entries[e] {
            Entry::File(_) => true,
            _ => false,
        };
        if !is_file {
            return Err(FsError::InvalidParameter);
        }
        let parsed = match FullName::new(new_name) {
            Ok(f) => f,
            Err(err) => {
                return Err(err);
            },
        };
        let si = match &parsed.stream_info {
            Some(si) => si,
            None => {
                return Err(FsError::InvalidParameter);
            },
        };
        let to_default = match si.check_default(false) {
            Ok(d) => d,
            Err(err) => {
                return Err(err);
            },
        };
        match h.alt_stream {
            None => {
                if to_default {
                    return Ok(());
                }
                // default -> named
                let existing = self.lookup_stream(e, si.name.as_slice());
                match existing {
                    Some(d) => {
                        if !replace_if_existing {
                            return Err(FsError::ObjectNameCollision);
                        }
                        if self.streams[d].handle_count > 0 {
                            return Err(FsError::AccessDenied);
                        }
                    },
                    None => {},
                }
                let ghost s0 = *self;
                match existing {
                    Some(d) => {
                        self.remove_stream_id(e, d);
                    },
                    None => {},
                }
                let sid = self.push_stream(now);
                let ghost s1 = *self;
                let mut taken: Vec<u8> = Vec::new();
                let pending = self.entries[e].stat().delete_pending;
                match &mut self.entries[e] {
                    Entry::File(f) => {
                        std::mem::swap(&mut f.data, &mut taken);
                        f.stat.delete_pending = false;
                    },
                    _ => {},
                }
                proof {
                    assert(entry_in_bounds(s1.entries@[e as int], s1.entries@.len(), s1.streams@.len()));
                    assert(entry_in_bounds(self.entries@[e as int], s1.entries@.len(), s1.streams@.len()));
                    crate::fs::lemma_wf_replace(&s1, self, e as int);
                }
                let ghost s2 = *self;
                self.streams[sid].data = taken;
                self.streams[sid].handle_count = 1;
                self.streams[sid].delete_pending = pending;
                proof {
                    crate::fs::lemma_wf_more_streams(&s2, self);
                }
                let sname = crate::path::slice_units(si.name.as_slice(), 0, si.name.len());
                assert(sname@ =~= si.name@);
                self.add_alt_stream(e, sname, sid);
                proof {
                    let v = self.stat_of(e as int).alt_streams@;
                    let k = (v.len() - 1) as int;
                    if existing is None {
                        assert(find_name(s0.stat_of(e as int).alt_streams@, si.name@) is None);
                        assert(v.drop_last() == s0.stat_of(e as int).alt_streams@);
                        assert forall|j: int| 0 <= j < k implies v[j].0@ != si.name@ by {
                            assert(v[j] == s0.stat_of(e as int).alt_streams@[j]);
                            if v[j].0@ == si.name@ {
                                crate::fs::lemma_some_first(s0.stat_of(e as int).alt_streams@, si.name@, j);
                            }
                        }
                        assert(crate::fs::is_first_name(v, si.name@, k));
                        crate::fs::lemma_first_name_unique(v, si.name@, k);
                    }
                }
                h.alt_stream = Some(sid);
                Ok(())
            },
            Some(s) => {
                if to_default {
                    // named -> default
                    if self.streams[s].handle_count > 1 {
                        return Err(FsError::SharingViolation);
                    }
                    let nonempty = match &self.entries[e] {
                        Entry::File(f) => f.data.len() > 0,
                        _ => false,
                    };
                    if nonempty && !replace_if_existing {
                        return Err(FsError::ObjectNameCollision);
                    }
                    let mut taken: Vec<u8> = Vec::new();
                    std::mem::swap(&mut self.streams[s].data, &mut taken);
                    let pending = self.streams[s].delete_pending;
                    self.streams[s].handle_count = 0;
                    self.streams[s].content_length = 0;
                    proof {
                        crate::fs::lemma_wf_more_streams(old(self), self);
                    }
                    let ghost s1 = *self;
                    match &mut self.entries[e] {
                        Entry::File(f) => {
                            f.data = taken;
                            f.stat.delete_pending = pending;
                        },
                        _ => {},
                    }
                    proof {
                        assert(entry_in_bounds(s1.entries@[e as int], s1.entries@.len(), s1.streams@.len()));
                        assert(entry_in_bounds(self.entries@[e as int], s1.entries@.len(), s1.streams@.len()));
                        crate::fs::lemma_wf_replace(&s1, self, e as int);
                    }
                    self.remove_stream_id(e, s);
                    h.alt_stream = None;
                    Ok(())
                } else {
                    // named -> named
                    let existing = self.lookup_stream(e, si.name.as_slice());
                    match existing {
                        Some(d) => {
                            if d == s {
                                return Ok(());
                            }
                            if !replace_if_existing {
                                return Err(FsError::ObjectNameCollision);
                            }
                            if self.streams[d].handle_count > 0 {
                                return Err(FsError::AccessDenied);
                            }
                            self.remove_stream_id(e, d);
                        },
                        None => {},
                    }
                    let ghost s0 = *self;
                    self.remove_stream_id(e, s);
                    let ghost s1 = *self;
                    let sname = crate::path::slice_units(si.name.as_slice(), 0, si.name.len());
                    assert(sname@ =~= si.name@);
                    self.add_alt_stream(e, sname, s);
                    proof {
                        if existing is None {
                            let v0 = s0.stat_of(e as int).alt_streams@;
                            let v1 = s1.stat_of(e as int).alt_streams@;
                            let v = self.stat_of(e as int).alt_streams@;
                            let k = (v.len() - 1) as int;
                            lemma_without_id_subset(v0, v1, s);
                            assert(find_name(v0, si.name@) is None);
                            assert forall|j: int| 0 <= j < k implies v[j].0@ != si.name@ by {
                                assert(v[j] == v1[j]);
                                let q = choose|q: int| 0 <= q < v0.len() && v1[j] == v0[q];
                                if v[j].0@ == si.name@ {
                                    crate::fs::lemma_some_first(v0, si.name@, q);
                                }
                            }
                            assert(crate::fs::is_first_name(v, si.name@, k));
                            crate::fs::lemma_first_name_unique(v, si.name@, k);
                        }
                    }
                    Ok(())
                }
            },
        }
    }

    /// Move with a path target: the entry leaves its parent and is listed
    /// under the target's leaf name in the target's directory, which may
    /// first lose an entry it replaces.
    #[verifier::rlimit(100)]
    pub fn move_path(&mut self, h: &EntryHandle, new_name: &[u16], replace_if_existing: bool, now: u64) -> (r: Result<(), FsError>)
        requires
            old(self).wf(),
            old(self).handle_ok(h),
        ensures
            final(self).wf(),
            final(self).handle_ok(h),
            final(self).existing_readonly == old(self).existing_readonly,
            final(self).entries@.len() >= old(self).entries@.len(),
            h.alt_stream is Some ==> r == Err::<(), FsError>(FsError::InvalidParameter) && *final(self) == *old(self),
            h.alt_stream is None && old(self).stat_of(h.entry as int).parent is None
                ==> r == Err::<(), FsError>(FsError::AccessDenied) && *final(self) == *old(self),
            h.alt_stream is None && old(self).stat_of(h.entry as int).parent is Some ==> match path_target(old(self), new_name@) {
                Some((d, n, occupant)) => {
                    let e = h.entry as int;
                    let p = old(self).stat_of(e).parent.unwrap() as int;
                    let other = occupant is Some && occupant.unwrap() != e;
                    let o = occupant.unwrap();
                    let dirs = old(self).entry(e) is Directory || old(self).entry(o) is Directory;
                    let busy = old(self).stat_of(o).handle_count > 0
                        || old(self).stat_of(o).attrs.value & crate::metadata::FILE_ATTRIBUTE_READONLY != 0;
                    let allowed = !other || (replace_if_existing && !dirs && !busy);
                    let cycle = reaches(old(self), d, e, old(self).entries@.len());
                    &&& other && !replace_if_existing ==> r == Err::<(), FsError>(FsError::ObjectNameCollision)
                    &&& other && replace_if_existing && dirs ==> r == Err::<(), FsError>(FsError::AccessDenied)
                    &&& other && replace_if_existing && !dirs && busy ==> r == Err::<(), FsError>(FsError::AccessDenied)
                    &&& allowed && cycle ==> r == Err::<(), FsError>(FsError::InvalidParameter)
                    &&& allowed && !cycle ==> {
                        &&& r is Ok
                        &&& final(self).stat_of(e).parent == Some(d as usize)
                        &&& final(self).stat_of(p).mtime == now
                        &&& p != d && p != e ==> forall|k: int| 0 <= k < final(self).children_of(p).len()
                            ==> (#[trigger] final(self).children_of(p)[k]).1 != e
                        &&& forall|i: int| 0 <= i < old(self).entries@.len() && i != p && i != d && i != e
                            ==> #[trigger] final(self).entry(i) == old(self).entry(i)
                    }
                },
                None => true,
            },
            r is Ok ==> {
                let d = final(self).stat_of(h.entry as int).parent.unwrap() as int;
                &&& final(self).stat_of(h.entry as int).parent is Some
                &&& final(self).entry(d) is Directory
                &&& final(self).children_of(d).len() > 0
                &&& final(self).children_of(d).last().1 == h.entry
                &&& crate::path::components(new_name@).len() > 0
                &&& final(self).children_of(d).last().0@ == parse_name(crate::path::leaf_of(new_name@))->Ok_0.0
                &&& final(self).stat_of(d).mtime == now
                &&& final(self).stat_of(h.entry as int).handle_count == old(self).stat_of(h.entry as int).handle_count
            },
    {
        let e = h.entry;
        if h.alt_stream.is_some() {
            return Err(FsError::InvalidParameter);
        }
        let src = match self.entries[e].stat().parent {
            Some(p) => p,
            None => {
                return Err(FsError::AccessDenied);
            },
        };
        assert(entry_in_bounds(self.entries@[e as int], self.entries@.len(), self.streams@.len()));
        let (name, dst) = match crate::path::split_path(self, new_name, now) {
            Ok(Some(x)) => x,
            Ok(None) => {
                return Err(FsError::InvalidParameter);
            },
            Err(err) => {
                return Err(err);
            },
        };
        proof {
            if path_target(old(self), new_name@) is Some {
                crate::fs::lemma_walk_same_entries(old(self), self, crate::fs::ROOT as int, crate::path::dirs_of(new_name@));
                assert(name.view_parts() == parse_name(crate::path::leaf_of(new_name@)).unwrap());
            }
        }
        if name.stream_info.is_some() {
            return Err(FsError::InvalidParameter);
        }
        let ghost hc = old(self).stat_of(e as int).handle_count;
        assert(self.stat_of(e as int).handle_count == hc);
        let mut replaced: Option<usize> = None;
        match self.lookup_child(dst, name.file_name.as_slice()) {
            Some(d) => {
                if d != e {
                    if !replace_if_existing {
                        return Err(FsError::ObjectNameCollision);
                    }
                    if self.entries[e].is_dir() || self.entries[d].is_dir() {
                        return Err(FsError::AccessDenied);
                    }
                    let dst_stat = self.entries[d].stat();
                    if dst_stat.handle_count > 0 || dst_stat.attrs.value & crate::metadata::FILE_ATTRIBUTE_READONLY != 0 {
                        return Err(FsError::AccessDenied);
                    }
                    replaced = Some(d);
                }
            },
            None => {},
        }
        if self.is_below(dst, e) {
            return Err(FsError::InvalidParameter);
        }
        if !self.entries[dst].is_dir() {
            return Err(FsError::InvalidParameter);
        }
        let ghost s0 = *self;
        let ghost pre = s0.children_of(dst as int);
        let ghost n = name.file_name@;
        match replaced {
            Some(d) => {
                self.unlist(dst, d);
            },
            None => {},
        }
        proof {
            let v = self.children_of(dst as int);
            assert(crate::fs::names_distinct(pre));
            assert forall|k: int| 0 <= k < v.len() && (#[trigger] v[k]).0@ == n implies v[k].1 == e by {
                match replaced {
                    Some(o) => {
                        assert(crate::lifecycle::pair_in(pre, v[k]));
                        let q = choose|q: int| 0 <= q < pre.len() && #[trigger] pre[q] == v[k];
                        let f = crate::fs::find_name(pre, n).unwrap();
                        assert(crate::fs::is_first_name(pre, n, f));
                        if q != f {
                            if q < f {
                                assert(pre[q].0@ != pre[f].0@);
                            } else {
                                assert(pre[f].0@ != pre[q].0@);
                            }
                        }
                        assert(v[k].1 != o);
                    },
                    None => {
                        assert(v == pre);
                        if s0.child(dst as int, n) is Some {
                            let f = crate::fs::find_name(pre, n).unwrap();
                            assert(crate::fs::is_first_name(pre, n, f));
                            if k != f {
                                if k < f {
                                    assert(pre[k].0@ != pre[f].0@);
                                } else {
                                    assert(pre[f].0@ != pre[k].0@);
                                }
                            }
                        } else {
                            crate::fs::lemma_some_first(pre, n, k);
                        }
                    },
                }
            }
        }
        assert(self.stat_of(e as int) == s0.stat_of(e as int)) by {
            assert(self.entry(e as int) == s0.entry(e as int));
        }
        assert(self.entry(dst as int) is Directory);
        let ghost s1 = *self;
        let fname = crate::path::slice_units(name.file_name.as_slice(), 0, name.file_name.len());
        assert(fname@ =~= name.file_name@);
        assert(e != crate::fs::ROOT);
        self.relocate(e, src, dst, fname, now);
        proof {
            if path_target(old(self), new_name@) is Some {
                assert(s0.entries == old(self).entries);
                assert forall|i: int| 0 <= i < old(self).entries@.len() && i != src && i != dst && i != e
                    implies #[trigger] self.entry(i) == old(self).entry(i) by {
                    assert(self.entry(i) == s1.entry(i));
                    assert(s1.entry(i) == s0.entry(i));
                }
            }
        }
        Ok(())
    }

    /// Lists entry `e`, now under directory `src`, as `name` under
    /// directory `dst` instead, linking it back to `dst`; both directories'
    /// modify times become `now`.
    fn relocate(&mut self, e: usize, src: usize, dst: usize, name: Vec<u16>, now: u64)
        requires
            old(self).wf(),
            e < old(self).entries@.len(),
            e != crate::fs::ROOT,
            src < old(self).entries@.len(),
            dst < old(self).entries@.len(),
            old(self).stat_of(e as int).parent == Some(src),
            old(self).entry(dst as int) is Directory,
            dst != e,
            forall|k: int| 0 <= k < old(self).children_of(dst as int).len()
                && (#[trigger] old(self).children_of(dst as int)[k]).0@ == name@
                ==> old(self).children_of(dst as int)[k].1 == e,
        ensures
            final(self).wf(),
            final(self).entries@.len() == old(self).entries@.len(),
            final(self).stat_of(e as int).parent == Some(dst),
            final(self).stat_of(e as int).handle_count == old(self).stat_of(e as int).handle_count,
            final(self).entry(dst as int) is Directory,
            final(self).children_of(dst as int).len() > 0,
            final(self).children_of(dst as int).last().1 == e,
            final(self).children_of(dst as int).last().0@ == name@,
            final(self).stat_of(dst as int).mtime == now,
            final(self).stat_of(src as int).mtime == now,
            src != dst && src != e ==> forall|k: int| 0 <= k < final(self).children_of(src as int).len()
                ==> (#[trigger] final(self).children_of(src as int)[k]).1 != e,
            forall|i: int| 0 <= i < old(self).entries@.len() && i != src && i != dst && i != e
                ==> #[trigger] final(self).entry(i) == old(self).entry(i),
            e != src && e != dst ==> final(self).children_of(e as int) == old(self).children_of(e as int),
            final(self).streams == old(self).streams,
            final(self).existing_readonly == old(self).existing_readonly,
    {
        self.unlist(src, e);
        let ghost s1 = *self;
        proof {
            assert(s1.stat_of(e as int) == old(self).stat_of(e as int)) by {
                if e != src {
                    assert(s1.entry(e as int) == old(self).entry(e as int));
                }
            }
            assert(s1.entry(dst as int) is Directory) by {
                if dst != src {
                    assert(s1.entry(dst as int) == old(self).entry(dst as int));
                }
            }
            assert forall|d: int, k: int| 0 <= d < s1.entries@.len() && 0 <= k < s1.children_of(d).len()
                implies (#[trigger] s1.children_of(d)[k]).1 != e by {
                if s1.children_of(d)[k].1 == e {
                    assert(s1.links_ok());
                    let pair = s1.children_of(d)[k];
                    assert(s1.stat_of(pair.1 as int).parent == Some(d as usize));
                    assert(s1.entries.len() == s1.entries@.len());
                    assert(d == src as int);
                    assert(false);
                }
            }
        }
        {
            let st = self.entries[e].stat_mut();
            st.parent = Some(dst);
        }
        proof {
            crate::fs::lemma_wf_relink(&s1, self, e as int, dst);
        }
        let ghost s2 = *self;
        assert(self.entry(dst as int) is Directory) by {
            if dst != e {
                assert(self.entry(dst as int) == s1.entry(dst as int));
            }
        }
        proof {
            let v = self.children_of(dst as int);
            assert(v == s1.children_of(dst as int)) by {
                assert(self.entry(dst as int) == s1.entry(dst as int));
            }
            assert forall|j: int| 0 <= j < v.len() implies (#[trigger] v[j]).0@ != name@ by {
                if src == dst {
                    assert(crate::lifecycle::pair_in(old(self).children_of(dst as int), v[j]));
                    let q = choose|q: int| 0 <= q < old(self).children_of(dst as int).len()
                        && #[trigger] old(self).children_of(dst as int)[q] == v[j];
                    assert(v[j].1 != e);
                } else {
                    assert(s1.entry(dst as int) == old(self).entry(dst as int));
                    if v[j].0@ == name@ {
                        assert(old(self).children_of(dst as int)[j].1 == e);
                        assert(old(self).links_ok());
                        assert(old(self).stat_of(old(self).children_of(dst as int)[j].1 as int).parent == Some(dst));
                    }
                }
            }
            crate::fs::lemma_absent_name(v, name@);
        }
        self.add_child(dst, name, e);
        let ghost s3 = *self;
        {
            let st = self.entries[src].stat_mut();
            st.update_mtime(now);
        }
        proof {
            assert(entry_in_bounds(s3.entries@[src as int], s3.entries@.len(), s3.streams@.len()));
            crate::fs::lemma_wf_replace(&s3, self, src as int);
        }
        let ghost s4 = *self;
        {
            let st = self.entries[dst].stat_mut();
            st.update_mtime(now);
        }
        proof {
            assert(entry_in_bounds(s4.entries@[dst as int], s4.entries@.len(), s4.streams@.len()));
            crate::fs::lemma_wf_replace(&s4, self, dst as int);
            assert forall|i: int| 0 <= i < old(self).entries@.len() && i != src && i != dst && i != e
                implies #[trigger] self.entry(i) == old(self).entry(i) by {
                assert(self.entry(i) == s4.entry(i));
                assert(s4.entry(i) == s3.entry(i));
                assert(s3.entry(i) == s2.entry(i));
                assert(s2.entry(i) == s1.entry(i));
                assert(s1.entry(i) == old(self).entry(i));
            }
        }
    }

    /// Move: a target starting with `:` names a stream of the same entry;
    /// any other target is a path.
    pub fn move_file(&mut self, h: &mut EntryHandle, new_name: &[u16], replace_if_existing: bool, now: u64) -> (r: Result<(), FsError>)
        requires
            old(self).wf(),
            old(self).handle_ok(old(h)),
        ensures
            final(self).wf(),
            final(self).handle_ok(final(h)),
            final(self).existing_readonly == old(self).existing_readonly,
            final(h).entry == old(h).entry,
            new_name@.len() > 0 && new_name@[0] == COLON ==> {
                &&& final(self).entries@.len() == old(self).entries@.len()
                &&& !(old(self).entry(old(h).entry as int) is File) ==> r is Err
            },
            !(new_name@.len() > 0 && new_name@[0] == COLON) ==> *final(h) == *old(h)
                && path_move(old(self), old(h), final(self), new_name@, replace_if_existing, now, &r),
            new_name@.len() > 0 && new_name@[0] == COLON
                ==> stream_move(old(self), old(h), final(self), final(h), new_name@, replace_if_existing, &r),
    {
        if new_name.len() > 0 && new_name[0] == COLON {
            self.move_stream(h, new_name, replace_if_existing, now)
        } else {
            self.move_path(h, new_name, replace_if_existing, now)
        }
    }
}

} // verus!
