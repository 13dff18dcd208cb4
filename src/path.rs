use vstd::prelude::*;

use crate::fs::{MemFsHandler, ROOT};
use crate::status::FsError;

verus! {

/// Longest name of one path component, as on NTFS.
pub const MAX_COMPONENT_LENGTH: u32 = 255;

pub const COLON: u16 = 58;
pub const BACKSLASH: u16 = 92;

#[derive(Clone, Copy, PartialEq, Eq, Structural, Debug)]
pub enum StreamType {
    Data,
    IndexAllocation,
    Bitmap,
}

/// `$DATA`
pub open spec fn data_token() -> Seq<u16> {
    seq![36u16, 68, 65, 84, 65]
}

/// `$INDEX_ALLOCATION`
pub open spec fn index_allocation_token() -> Seq<u16> {
    seq![36u16, 73, 78, 68, 69, 88, 95, 65, 76, 76, 79, 67, 65, 84, 73, 79, 78]
}

/// `$BITMAP`
pub open spec fn bitmap_token() -> Seq<u16> {
    seq![36u16, 66, 73, 84, 77, 65, 80]
}

/// `$I30`, the pseudo-name of a directory's index.
pub open spec fn index_name() -> Seq<u16> {
    seq![36u16, 73, 51, 48]
}

pub open spec fn stream_type_of(t: Seq<u16>) -> Option<StreamType> {
    if t == data_token() {
        Some(StreamType::Data)
    } else if t == index_allocation_token() {
        Some(StreamType::IndexAllocation)
    } else if t == bitmap_token() {
        Some(StreamType::Bitmap)
    } else {
        None
    }
}

/// `i` is the first position of `c` in `s`.
pub open spec fn is_first(s: Seq<u16>, c: u16, i: int) -> bool {
    0 <= i < s.len() && s[i] == c && forall|j: int| 0 <= j < i ==> s[j] != c
}

/// The first position of `c` in `s`, if any.
pub open spec fn first_index(s: Seq<u16>, c: u16) -> Option<int> {
    if exists|i: int| is_first(s, c, i) {
        Some(choose|i: int| is_first(s, c, i))
    } else {
        None
    }
}

proof fn lemma_first_unique(s: Seq<u16>, c: u16, i: int)
    requires
        is_first(s, c, i),
    ensures
        first_index(s, c) == Some(i),
{
    let k = choose|k: int| is_first(s, c, k);
    assert(is_first(s, c, k));
    if k < i {
        assert(s[k] != c);
    } else if i < k {
        assert(s[i] != c);
    }
}

/// The position of the first `c` in `s`.
pub fn position(s: &[u16], c: u16) -> (r: Option<usize>)
    ensures
        match r {
            Some(i) => first_index(s@, c) == Some(i as int) && is_first(s@, c, i as int),
            None => first_index(s@, c) is None,
        },
{
    let mut i: usize = 0;
    while i < s.len()
        invariant
            i <= s@.len(),
            forall|j: int| 0 <= j < i ==> s@[j] != c,
        decreases s@.len() - i,
    {
        if s[i] == c {
            proof {
                lemma_first_unique(s@, c, i as int);
            }
            return Some(i);
        }
        i += 1;
    }
    assert(!exists|k: int| is_first(s@, c, k));
    None
}

pub fn same_units(a: &[u16], b: &[u16]) -> (r: bool)
    ensures
        r == (a@ == b@),
{
    if a.len() != b.len() {
        return false;
    }
    let mut i: usize = 0;
    while i < a.len()
        invariant
            a@.len() == b@.len(),
            i <= a@.len(),
            forall|j: int| 0 <= j < i ==> a@[j] == b@[j],
        decreases a@.len() - i,
    {
        if a[i] != b[i] {
            return false;
        }
        i += 1;
    }
    assert(a@ =~= b@);
    true
}

/// A copy of `s[from..to]`.
pub fn slice_units(s: &[u16], from: usize, to: usize) -> (r: Vec<u16>)
    requires
        from <= to <= s@.len(),
    ensures
        r@ == s@.subrange(from as int, to as int),
{
    let mut r: Vec<u16> = Vec::new();
    let mut i: usize = from;
    while i < to
        invariant
            from <= i <= to <= s@.len(),
            r@ == s@.subrange(from as int, i as int),
        decreases to - i,
    {
        r.push(s[i]);
        i += 1;
    }
    r
}

pub fn parse_stream_type(t: &[u16]) -> (r: Option<StreamType>)
    ensures
        r == stream_type_of(t@),
{
    let data: Vec<u16> = vec![36, 68, 65, 84, 65];
    let index: Vec<u16> = vec![36, 73, 78, 68, 69, 88, 95, 65, 76, 76, 79, 67, 65, 84, 73, 79, 78];
    let bitmap: Vec<u16> = vec![36, 66, 73, 84, 77, 65, 80];
    assert(data@ =~= data_token());
    assert(index@ =~= index_allocation_token());
    assert(bitmap@ =~= bitmap_token());
    if same_units(t, data.as_slice()) {
        Some(StreamType::Data)
    } else if same_units(t, index.as_slice()) {
        Some(StreamType::IndexAllocation)
    } else if same_units(t, bitmap.as_slice()) {
        Some(StreamType::Bitmap)
    } else {
        None
    }
}

/// The stream part of a name: `name:type`.
pub struct StreamInfo {
    pub name: Vec<u16>,
    pub type_: StreamType,
}

/// What `check_default` answers for a stream name and type on an entry.
pub open spec fn default_stream(name: Seq<u16>, t: StreamType, is_dir: bool) -> Result<bool, FsError> {
    if is_dir {
        if name.len() == 0 || name == index_name() {
            if t == StreamType::IndexAllocation {
                Ok(true)
            } else {
                Err(FsError::ObjectNameInvalid)
            }
        } else if t == StreamType::Data {
            Ok(false)
        } else {
            Err(FsError::ObjectNameInvalid)
        }
    } else if t == StreamType::Data {
        Ok(name.len() == 0)
    } else {
        Err(FsError::ObjectNameInvalid)
    }
}

impl StreamInfo {
    /// Whether the stream is the entry's implicit default one, which needs
    /// no stream object.
    pub fn check_default(&self, is_dir: bool) -> (r: Result<bool, FsError>)
        ensures
            r == default_stream(self.name@, self.type_, is_dir),
    {
        let i30: Vec<u16> = vec![36, 73, 51, 48];
        assert(i30@ =~= index_name());
        if is_dir {
            if self.name.len() == 0 || same_units(self.name.as_slice(), i30.as_slice()) {
                if self.type_ == StreamType::IndexAllocation {
                    Ok(true)
                } else {
                    Err(FsError::ObjectNameInvalid)
                }
            } else if self.type_ == StreamType::Data {
                Ok(false)
            } else {
                Err(FsError::ObjectNameInvalid)
            }
        } else if self.type_ == StreamType::Data {
            Ok(self.name.len() == 0)
        } else {
            Err(FsError::ObjectNameInvalid)
        }
    }
}

/// A leaf name split into its base name and optional stream part.
pub struct FullName {
    pub file_name: Vec<u16>,
    pub stream_info: Option<StreamInfo>,
}

impl FullName {
    pub open spec fn view_parts(&self) -> (Seq<u16>, Option<(Seq<u16>, StreamType)>) {
        (
            self.file_name@,
            match self.stream_info {
                Some(si) => Some((si.name@, si.type_)),
                None => None,
            },
        )
    }
}

/// How a leaf name splits: `base`, `base:stream` or `base:stream:type`.
pub open spec fn parse_name(s: Seq<u16>) -> Result<(Seq<u16>, Option<(Seq<u16>, StreamType)>), FsError> {
    match first_index(s, COLON) {
        None => Ok((s, None)),
        Some(i) => {
            let rest = s.subrange(i + 1, s.len() as int);
            match first_index(rest, COLON) {
                None => Ok((s.subrange(0, i), Some((rest, StreamType::Data)))),
                Some(j) => match stream_type_of(rest.subrange(j + 1, rest.len() as int)) {
                    Some(t) => Ok((s.subrange(0, i), Some((rest.subrange(0, j), t)))),
                    None => Err(FsError::ObjectNameInvalid),
                },
            }
        },
    }
}

impl FullName {
    pub fn new(name: &[u16]) -> (r: Result<FullName, FsError>)
        ensures
            match r {
                Ok(f) => parse_name(name@) == Ok::<_, FsError>(f.view_parts()),
                Err(e) => parse_name(name@) == Err::<(Seq<u16>, Option<(Seq<u16>, StreamType)>), FsError>(e),
            },
    {
        let n = name.len();
        match position(name, COLON) {
            None => {
                let file_name = slice_units(name, 0, name.len());
                assert(file_name@ =~= name@);
                Ok(FullName { file_name, stream_info: None })
            },
            Some(offset1) => {
                let file_name = slice_units(name, 0, offset1);
                let rest = slice_units(name, offset1 + 1, n);
                match position(rest.as_slice(), COLON) {
                    None => Ok(FullName {
                        file_name,
                        stream_info: Some(StreamInfo { name: rest, type_: StreamType::Data }),
                    }),
                    Some(offset2) => {
                        let token = slice_units(rest.as_slice(), offset2 + 1, rest.len());
                        match parse_stream_type(token.as_slice()) {
                            Some(t) => {
                                let stream_name = slice_units(rest.as_slice(), 0, offset2);
                                Ok(FullName {
                                    file_name,
                                    stream_info: Some(StreamInfo { name: stream_name, type_: t }),
                                })
                            },
                            None => Err(FsError::ObjectNameInvalid),
                        }
                    },
                }
            },
        }
    }
}

/// Scanning `s` from the left: the pieces closed so far and the open one.
pub open spec fn split_state(s: Seq<u16>) -> (Seq<Seq<u16>>, Seq<u16>)
    decreases s.len(),
{
    if s.len() == 0 {
        (seq![], seq![])
    } else {
        let (done, cur) = split_state(s.drop_last());
        let c = s.last();
        if c == BACKSLASH {
            if cur.len() == 0 { (done, seq![]) } else { (done.push(cur), seq![]) }
        } else {
            (done, cur.push(c))
        }
    }
}

/// The non-empty pieces of `s` between backslashes, in order.
pub open spec fn components(s: Seq<u16>) -> Seq<Seq<u16>> {
    let (done, cur) = split_state(s);
    if cur.len() == 0 { done } else { done.push(cur) }
}

pub open spec fn unit_views(v: Seq<Vec<u16>>) -> Seq<Seq<u16>> {
    v.map_values(|x: Vec<u16>| x@)
}

/// Splits a path at its backslashes, dropping empty pieces.
pub fn split_components(s: &[u16]) -> (r: Vec<Vec<u16>>)
    ensures
        unit_views(r@) == components(s@),
{
    let mut done: Vec<Vec<u16>> = Vec::new();
    let mut cur: Vec<u16> = Vec::new();
    let mut i: usize = 0;
    while i < s.len()
        invariant
            i <= s@.len(),
            (unit_views(done@), cur@) == split_state(s@.subrange(0, i as int)),
        decreases s@.len() - i,
    {
        let ghost pre = s@.subrange(0, i as int);
        assert(s@.subrange(0, i + 1).drop_last() =~= pre);
        let c = s[i];
        if c == BACKSLASH {
            if cur.len() > 0 {
                let piece = cur;
                done.push(piece);
                cur = Vec::new();
                assert(unit_views(done@) =~= split_state(pre).0.push(piece@));
            }
        } else {
            cur.push(c);
        }
        i += 1;
    }
    assert(s@.subrange(0, s@.len() as int) =~= s@);
    if cur.len() > 0 {
        let piece = cur;
        done.push(piece);
        assert(unit_views(done@) =~= split_state(s@).0.push(piece@));
    }
    done
}

/// The last component of `s` and the components before it.
pub open spec fn leaf_of(s: Seq<u16>) -> Seq<u16> {
    components(s).last()
}

pub open spec fn dirs_of(s: Seq<u16>) -> Seq<Seq<u16>> {
    components(s).drop_last()
}

/// Splits `path` into its parsed leaf name and the directory holding it,
/// creating missing directories on the way. `None` stands for the root.
pub fn split_path(handler: &mut MemFsHandler, path: &[u16], now: u64) -> (r: Result<Option<(FullName, usize)>, FsError>)
    requires
        old(handler).wf(),
    ensures
        final(handler).wf(),
        final(handler).grows_from(old(handler)),
        final(handler).streams == old(handler).streams,
        forall|i: int| 0 <= i < old(handler).entries@.len() ==> #[trigger] final(handler).stat_of(i) == old(handler).stat_of(i),
        forall|i: int| old(handler).entries@.len() <= i < final(handler).entries@.len()
            ==> (#[trigger] final(handler).stat_of(i)).handle_count == 0,
        forall|i: int| old(handler).entries@.len() <= i < final(handler).entries@.len()
            ==> #[trigger] final(handler).entry(i) is Directory,
        forall|i: int| old(handler).entries@.len() <= i < final(handler).entries@.len()
            ==> #[trigger] final(handler).listed_by_parent(i),
        components(path@).len() > 0 ==> final(handler).entries@.len() <= old(handler).entries@.len() + dirs_of(path@).len(),
        final(handler).entries@.len() == old(handler).entries@.len() ==> final(handler).entries == old(handler).entries,
        final(handler).entries@.len() > old(handler).entries@.len() ==> {
            &&& exists|a: int| #[trigger] final(handler).added_under(old(handler), a)
            &&& final(handler).children_of(final(handler).entries@.len() - 1).len() == 0
        },
        forall|j: int| old(handler).entries@.len() <= j < final(handler).entries@.len() - 1
            ==> (#[trigger] final(handler).children_of(j)).len() == 1,
        final(handler).existing_readonly == old(handler).existing_readonly,
        final(handler).url == old(handler).url,
        components(path@).len() == 0 ==> (r matches Ok(None)) && *final(handler) == *old(handler),
        components(path@).len() > 0 ==> {
            let leaf = leaf_of(path@);
            if leaf.len() > MAX_COMPONENT_LENGTH {
                r == Err::<Option<(FullName, usize)>, FsError>(FsError::ObjectNameInvalid) && *final(handler) == *old(handler)
            } else {
                match parse_name(leaf) {
                    Err(e) => r == Err::<Option<(FullName, usize)>, FsError>(e) && *final(handler) == *old(handler),
                    Ok(parts) => match r {
                        Ok(Some((f, d))) => f.view_parts() == parts
                            && final(handler).walk(ROOT as int, dirs_of(path@)) == Ok::<int, FsError>(d as int)
                            && d < final(handler).entries@.len() && final(handler).entry(d as int) is Directory,
                        Ok(None) => false,
                        Err(e) => final(handler).walk(ROOT as int, dirs_of(path@)) == Err::<int, FsError>(e)
                            && e != FsError::ObjectNameNotFound,
                    },
                }
            }
        },
        components(path@).len() == 1 ==> r is Ok ==> *final(handler) == *old(handler),
        components(path@).len() > 0 && old(handler).walk(ROOT as int, dirs_of(path@)) is Ok
            ==> *final(handler) == *old(handler),
        components(path@).len() > 0 && leaf_of(path@).len() <= MAX_COMPONENT_LENGTH && parse_name(leaf_of(path@)) is Ok
            && (components(path@).len() == 1 || old(handler).all_missing(ROOT as int, dirs_of(path@))
                || old(handler).resolvable(ROOT as int, dirs_of(path@)))
            ==> r matches Ok(Some(_)),
        components(path@).len() > 1 && old(handler).all_missing(ROOT as int, dirs_of(path@)) ==> r is Ok ==> {
            let d = r.unwrap().unwrap().1;
            &&& final(handler).entries@.len() == old(handler).entries@.len() + components(path@).len() - 1
            &&& d == final(handler).entries@.len() - 1
            &&& final(handler).children_of(d as int).len() == 0
            &&& !final(handler).stat_of(d as int).delete_pending
        },
{
    proof {
        crate::fs::lemma_grows_refl(handler);
    }
    let comps = split_components(path);
    let n = comps.len();
    if n == 0 {
        return Ok(None);
    }
    let leaf = &comps[n - 1];
    assert(unit_views(comps@).last() == leaf@);
    if leaf.len() > 255 {
        return Err(FsError::ObjectNameInvalid);
    }
    let name = match FullName::new(leaf.as_slice()) {
        Ok(f) => f,
        Err(e) => {
            return Err(e);
        },
    };
    let mut dirs: Vec<Vec<u16>> = Vec::new();
    let mut i: usize = 0;
    while i < n - 1
        invariant
            n == comps@.len(),
            i <= n - 1,
            unit_views(dirs@) == unit_views(comps@).subrange(0, i as int),
        decreases n - 1 - i,
    {
        let c = slice_units(comps[i].as_slice(), 0, comps[i].len());
        assert(c@ =~= unit_views(comps@)[i as int]);
        let ghost prev = dirs@;
        dirs.push(c);
        assert(dirs@ == prev.push(c));
        assert(unit_views(prev.push(c)) =~= unit_views(prev).push(c@));
        assert(unit_views(dirs@) =~= unit_views(comps@).subrange(0, i + 1));
        i += 1;
    }
    assert(unit_views(dirs@) =~= dirs_of(path@));
    if n == 1 {
        assert(dirs@.len() == 0);
    }
    let parent = handler.find_dir_entry(ROOT, &dirs, now);
    match parent {
        Ok(d) => Ok(Some((name, d))),
        Err(e) => Err(e),
    }
}

} // verus!
