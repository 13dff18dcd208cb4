use vstd::prelude::*;

use crate::entry::{DirEntry, Entry};
use crate::handle::EntryHandle;
use crate::metadata::{AltStream, Stat};
use crate::path::{unit_views, MAX_COMPONENT_LENGTH};
use crate::status::FsError;

verus! {

pub open spec fn widen(r: Result<usize, FsError>) -> Result<int, FsError> {
    match r {
        Ok(i) => Ok(i as int),
        Err(e) => Err(e),
    }
}

/// Arena index of the root directory.
pub const ROOT: usize = 0;

/// `k` is the first position in `v` whose name is `name`.
pub open spec fn is_first_name(v: Seq<(Vec<u16>, usize)>, name: Seq<u16>, k: int) -> bool {
    0 <= k < v.len() && v[k].0@ == name && forall|j: int| 0 <= j < k ==> v[j].0@ != name
}

/// The position of the first pair named `name`, if any.
pub open spec fn find_name(v: Seq<(Vec<u16>, usize)>, name: Seq<u16>) -> Option<int> {
    if exists|k: int| is_first_name(v, name, k) {
        Some(choose|k: int| is_first_name(v, name, k))
    } else {
        None
    }
}

pub proof fn lemma_first_name_unique(v: Seq<(Vec<u16>, usize)>, name: Seq<u16>, k: int)
    requires
        is_first_name(v, name, k),
    ensures
        find_name(v, name) == Some(k),
{
    let c = choose|c: int| is_first_name(v, name, c);
    assert(is_first_name(v, name, c));
    if c < k {
        assert(v[c].0@ != name);
    } else if k < c {
        assert(v[k].0@ != name);
    }
}

/// The position of the first pair of `v` named `name`.
pub fn find_pair(v: &Vec<(Vec<u16>, usize)>, name: &[u16]) -> (r: Option<usize>)
    ensures
        match r {
            Some(k) => find_name(v@, name@) == Some(k as int) && is_first_name(v@, name@, k as int),
            None => find_name(v@, name@) is None,
        },
{
    let mut k: usize = 0;
    while k < v.len()
        invariant
            k <= v@.len(),
            forall|j: int| 0 <= j < k ==> v@[j].0@ != name@,
        decreases v@.len() - k,
    {
        if crate::path::same_units(v[k].0.as_slice(), name) {
            proof {
                lemma_first_name_unique(v@, name@, k as int);
            }
            return Some(k);
        }
        k += 1;
    }
    assert(!exists|c: int| is_first_name(v@, name@, c));
    None
}

/// No two pairs of `v` carry the same name.
pub open spec fn names_distinct(v: Seq<(Vec<u16>, usize)>) -> bool {
    forall|k1: int, k2: int| 0 <= k1 < k2 < v.len() ==> (#[trigger] v[k1]).0@ != (#[trigger] v[k2]).0@
}

pub proof fn lemma_absent_name(v: Seq<(Vec<u16>, usize)>, name: Seq<u16>)
    requires
        forall|j: int| 0 <= j < v.len() ==> (#[trigger] v[j]).0@ != name,
    ensures
        find_name(v, name) is None,
{
    if find_name(v, name) is Some {
        let k = choose|k: int| is_first_name(v, name, k);
        assert(is_first_name(v, name, k));
    }
}

pub proof fn lemma_distinct_push(v: Seq<(Vec<u16>, usize)>, p: (Vec<u16>, usize))
    requires
        names_distinct(v),
        find_name(v, p.0@) is None,
    ensures
        names_distinct(v.push(p)),
{
    let w = v.push(p);
    assert forall|k1: int, k2: int| 0 <= k1 < k2 < w.len() implies (#[trigger] w[k1]).0@ != (#[trigger] w[k2]).0@ by {
        assert(w[k1] == v[k1]);
        if k2 == v.len() {
            if v[k1].0@ == p.0@ {
                lemma_some_first(v, p.0@, k1);
            }
        } else {
            assert(w[k2] == v[k2]);
        }
    }
}

/// Every index that `e` holds lies inside arenas of `n` entries and `m`
/// streams.
pub open spec fn entry_in_bounds(e: Entry, n: nat, m: nat) -> bool {
    &&& match e.spec_stat().parent {
        Some(p) => p < n,
        None => true,
    }
    &&& forall|k: int|
        0 <= k < e.spec_stat().alt_streams@.len() ==> (#[trigger] e.spec_stat().alt_streams@[k]).1 < m
    &&& match e {
        Entry::Directory(d) => forall|k: int| 0 <= k < d.children@.len() ==> (#[trigger] d.children@[k]).1 < n,
        _ => true,
    }
}

/// The filesystem: an arena of entries rooted at index `ROOT`, an arena of
/// alternate streams, the origin's base URL and the id counter.
pub struct MemFsHandler {
    /// The origin's base URL, as text.
    pub url: String,
    pub id_counter: u64,
    pub entries: Vec<Entry>,
    pub streams: Vec<AltStream>,
    /// Policy for existing entries: when set, every existing entry counts as
    /// readonly for write access and delete-on-close at open time; when
    /// clear, the entry's own readonly bit decides.
    pub existing_readonly: bool,
}

impl MemFsHandler {
    pub open spec fn wf(&self) -> bool {
        &&& self.entries@.len() > 0
        &&& self.entries@[ROOT as int] is Directory
        &&& self.entries@[ROOT as int].spec_stat().parent is None
        &&& forall|i: int|
            0 <= i < self.entries@.len() ==> entry_in_bounds(
                #[trigger] self.entries@[i],
                self.entries@.len(),
                self.streams@.len(),
            )
        &&& self.links_ok()
        &&& forall|d: int| 0 <= d < self.entries@.len() ==> names_distinct(#[trigger] self.children_of(d))
    }

    /// Every entry that a directory lists links back to that directory as
    /// its parent.
    pub open spec fn links_ok(&self) -> bool {
        forall|d: int, k: int|
            0 <= d < self.entries@.len() && 0 <= k < self.children_of(d).len()
                ==> self.stat_of((#[trigger] self.children_of(d)[k]).1 as int).parent == Some(d as usize)
    }

    pub open spec fn entry(&self, i: int) -> Entry {
        self.entries@[i]
    }

    pub open spec fn stat_of(&self, i: int) -> Stat {
        self.entries@[i].spec_stat()
    }

    /// The children of directory `d` (empty for any other entry).
    pub open spec fn children_of(&self, d: int) -> Seq<(Vec<u16>, usize)> {
        match self.entries@[d] {
            Entry::Directory(dir) => dir.children@,
            _ => seq![],
        }
    }

    /// The child of directory `d` named `name`, if any.
    pub open spec fn child(&self, d: int, name: Seq<u16>) -> Option<int> {
        match find_name(self.children_of(d), name) {
            Some(k) => Some(self.children_of(d)[k].1 as int),
            None => None,
        }
    }

    pub fn new(url: String, existing_readonly: bool) -> (r: Self)
        ensures
            r.wf(),
            r.entries@.len() == 1,
            r.entry(ROOT as int) is Directory,
            r.children_of(ROOT as int).len() == 0,
            r.stat_of(ROOT as int).id == 0,
            r.streams@.len() == 0,
            r.id_counter == 1,
            r.existing_readonly == existing_readonly,
            r.url == url,
    {
        let root = DirEntry::new(Stat::new(0, 0, None, 0));
        let mut entries: Vec<Entry> = Vec::new();
        entries.push(Entry::Directory(root));
        MemFsHandler { url, id_counter: 1, entries, streams: Vec::new(), existing_readonly }
    }

    /// Hands out the next id; ids wrap as an atomic counter does.
    pub fn next_id(&mut self) -> (r: u64)
        ensures
            r == old(self).id_counter,
            *final(self) == (MemFsHandler { id_counter: old(self).id_counter.wrapping_add(1), ..*old(self) }),
            old(self).wf() ==> final(self).wf(),
    {
        let r = self.id_counter;
        self.id_counter = self.id_counter.wrapping_add(1);
        proof {
            if old(self).wf() {
                lemma_wf_more_streams(old(self), self);
            }
        }
        r
    }

    /// Adds an empty directory named `name` under directory `parent` and
    /// returns its index.
    pub fn create_dir_entry(&mut self, index: u64, parent: usize, name: Vec<u16>, now: u64) -> (r: usize)
        requires
            old(self).wf(),
            parent < old(self).entries@.len(),
            old(self).entry(parent as int) is Directory,
            find_name(old(self).children_of(parent as int), name@) is None,
        ensures
            final(self).wf(),
            r == old(self).entries@.len(),
            final(self).entries@.len() == r + 1,
            final(self).entry(r as int) is Directory,
            final(self).children_of(r as int).len() == 0,
            final(self).stat_of(r as int) == (Stat { parent: Some(parent), ..final(self).stat_of(r as int) }),
            final(self).stat_of(r as int).id == index,
            final(self).stat_of(r as int).handle_count == 0,
            !final(self).stat_of(r as int).delete_pending,
            final(self).stat_of(r as int).alt_streams@.len() == 0,
            final(self).entry(parent as int) is Directory,
            final(self).stat_of(parent as int) == old(self).stat_of(parent as int),
            final(self).children_of(parent as int) == old(self).children_of(parent as int).push((name, r)),
            forall|i: int| 0 <= i < old(self).entries@.len() && i != parent ==> final(self).entry(i) == old(self).entry(i),
            final(self).streams == old(self).streams,
            final(self).id_counter == old(self).id_counter,
            final(self).existing_readonly == old(self).existing_readonly,
            final(self).url == old(self).url,
    {
        let r = self.entries.len();
        let dir = DirEntry::new(Stat::new(index, 0, Some(parent), now));
        self.entries.push(Entry::Directory(dir));
        assert(self.entries@[parent as int] == old(self).entries@[parent as int]);
        match &mut self.entries[parent] {
            Entry::Directory(d) => {
                d.children.push((name, r));
            },
            _ => {},
        }
        proof {
            let n = self.entries@.len();
            let m = self.streams@.len();
            assert forall|i: int| 0 <= i < n implies entry_in_bounds(#[trigger] self.entries@[i], n, m) by {
                if i == parent as int {
                    let d = self.entries@[i];
                    assert(forall|k: int| 0 <= k < old(self).children_of(parent as int).len() ==>
                        #[trigger] old(self).children_of(parent as int)[k].1 < n - 1);
                    assert(self.children_of(i) == old(self).children_of(parent as int).push((name, r)));
                } else if i < r {
                    assert(self.entries@[i] == old(self).entries@[i]);
                    assert(entry_in_bounds(old(self).entries@[i], (n - 1) as nat, m));
                }
            }
            assert forall|d: int, k: int|
                0 <= d < n && 0 <= k < self.children_of(d).len() implies self.stat_of(
                    (#[trigger] self.children_of(d)[k]).1 as int,
                ).parent == Some(d as usize) by {
                if d < r {
                    if d == parent as int {
                        assert(self.children_of(d) == old(self).children_of(d).push((name, r)));
                    } else {
                        assert(self.entries@[d] == old(self).entries@[d]);
                    }
                    if k < old(self).children_of(d).len() {
                        assert(old(self).children_of(d)[k] == self.children_of(d)[k]);
                        assert(entry_in_bounds(old(self).entries@[d], old(self).entries@.len(), old(self).streams@.len()));
                        let c = self.children_of(d)[k].1 as int;
                        if c != parent as int {
                            assert(self.entries@[c] == old(self).entries@[c]);
                        }
                    }
                }
            }
            assert forall|d: int| 0 <= d < n implies names_distinct(#[trigger] self.children_of(d)) by {
                if d < r {
                    if d == parent as int {
                        assert(self.children_of(d) == old(self).children_of(d).push((name, r)));
                        lemma_distinct_push(old(self).children_of(d), (name, r));
                    } else {
                        assert(self.entries@[d] == old(self).entries@[d]);
                        assert(names_distinct(old(self).children_of(d)));
                    }
                }
            }
        }
        r
    }

    /// The child of directory `d` named `name`.
    pub fn lookup_child(&self, d: usize, name: &[u16]) -> (r: Option<usize>)
        requires
            self.wf(),
            d < self.entries@.len(),
        ensures
            match r {
                Some(c) => self.child(d as int, name@) == Some(c as int) && c < self.entries@.len(),
                None => self.child(d as int, name@) is None,
            },
    {
        match &self.entries[d] {
            Entry::Directory(dir) => {
                match find_pair(&dir.children, name) {
                    Some(k) => {
                        assert(entry_in_bounds(self.entries@[d as int], self.entries@.len(), self.streams@.len()));
                        assert(dir.children@[k as int].1 < self.entries@.len());
                        Some(dir.children[k].1)
                    },
                    None => None,
                }
            },
            _ => {
                assert(find_name(seq![], name@) is None);
                None
            },
        }
    }

    /// Follows `path` down from directory `d`: each component must be at
    /// most `MAX_COMPONENT_LENGTH` units long, name an existing child, and
    /// that child must be a directory.
    pub open spec fn walk(&self, d: int, path: Seq<Seq<u16>>) -> Result<int, FsError>
        decreases path.len(),
    {
        if path.len() == 0 {
            Ok(d)
        } else if path[0].len() > MAX_COMPONENT_LENGTH {
            Err(FsError::ObjectNameInvalid)
        } else {
            match self.child(d, path[0]) {
                None => Err(FsError::ObjectNameNotFound),
                Some(c) => if self.entry(c) is Directory {
                    self.walk(c, path.drop_first())
                } else {
                    Err(FsError::ObjectPathNotFound)
                },
            }
        }
    }

    /// Resolution of `path` from `d` can succeed: every component fits, and
    /// each one that exists on the way is a directory.
    pub open spec fn resolvable(&self, d: int, path: Seq<Seq<u16>>) -> bool
        decreases path.len(),
    {
        if path.len() == 0 {
            true
        } else if path[0].len() > MAX_COMPONENT_LENGTH {
            false
        } else {
            match self.child(d, path[0]) {
                None => forall|k: int| 0 <= k < path.len() ==> (#[trigger] path[k]).len() <= MAX_COMPONENT_LENGTH,
                Some(c) => self.entry(c) is Directory && self.resolvable(c, path.drop_first()),
            }
        }
    }

    /// Among the directories of `old`, `self` differs only in directory
    /// `a`, which gained one child: the first entry made after `old`.
    pub open spec fn added_under(&self, old: &Self, a: int) -> bool {
        &&& 0 <= a < old.entries@.len()
        &&& self.children_of(a).drop_last() == old.children_of(a)
        &&& self.children_of(a).len() == old.children_of(a).len() + 1
        &&& self.children_of(a).last().1 == old.entries@.len()
        &&& forall|d: int| 0 <= d < old.entries@.len() && d != a ==> #[trigger] self.children_of(d) == old.children_of(d)
    }

    /// Entry `j` has a parent link, and the directory it names lists `j`.
    pub open spec fn listed_by_parent(&self, j: int) -> bool {
        &&& self.stat_of(j).parent is Some
        &&& (self.stat_of(j).parent.unwrap() as int) < self.entries@.len()
        &&& exists|k: int|
            0 <= k < self.children_of(self.stat_of(j).parent.unwrap() as int).len()
                && #[trigger] self.children_of(self.stat_of(j).parent.unwrap() as int)[k].1 == j
    }

    /// The path is non-empty, its first component is absent from `start`,
    /// and no component is too long.
    pub open spec fn all_missing(&self, start: int, names: Seq<Seq<u16>>) -> bool {
        &&& names.len() > 0
        &&& self.child(start, names[0]) is None
        &&& forall|k: int| 0 <= k < names.len() ==> (#[trigger] names[k]).len() <= MAX_COMPONENT_LENGTH
    }

    /// `self` is `old` with entries appended and children appended to
    /// directories, every entry keeping its kind.
    pub open spec fn grows_from(&self, old: &Self) -> bool {
        &&& old.entries@.len() <= self.entries@.len()
        &&& forall|i: int| 0 <= i < old.entries@.len() ==> {
            &&& (#[trigger] self.entry(i) is Directory) == old.entry(i) is Directory
            &&& self.entry(i) is File == old.entry(i) is File
            &&& old.children_of(i).len() <= self.children_of(i).len()
            &&& self.children_of(i).subrange(0, old.children_of(i).len() as int) == old.children_of(i)
        }
    }
}

proof fn lemma_find_name_prefix(a: Seq<(Vec<u16>, usize)>, b: Seq<(Vec<u16>, usize)>, name: Seq<u16>)
    requires
        a.len() <= b.len(),
        b.subrange(0, a.len() as int) == a,
        find_name(a, name) is Some,
    ensures
        find_name(b, name) == find_name(a, name),
{
    let k = find_name(a, name).unwrap();
    assert(is_first_name(a, name, k));
    assert forall|j: int| 0 <= j <= k implies b[j] == a[j] by {
        assert(b.subrange(0, a.len() as int)[j] == b[j]);
    }
    assert(is_first_name(b, name, k));
    lemma_first_name_unique(b, name, k);
}

proof fn lemma_walk_grows(old: &MemFsHandler, new: &MemFsHandler, d: int, path: Seq<Seq<u16>>)
    requires
        new.grows_from(old),
        0 <= d < old.entries@.len(),
        old.wf(),
        old.walk(d, path) is Ok,
    ensures
        new.walk(d, path) == old.walk(d, path),
    decreases path.len(),
{
    if path.len() > 0 {
        let n = path[0];
        let c = old.child(d, n).unwrap();
        assert(old.entry(d) is Directory) by {
            if !(old.entry(d) is Directory) {
                assert(find_name(seq![], n) is None);
            }
        }
        assert(new.entry(d) is Directory);
        lemma_find_name_prefix(old.children_of(d), new.children_of(d), n);
        let k = find_name(old.children_of(d), n).unwrap();
        assert(is_first_name(old.children_of(d), n, k));
        assert(new.children_of(d)[k] == new.children_of(d).subrange(0, old.children_of(d).len() as int)[k]);
        assert(new.child(d, n) == Some(c));
        assert(entry_in_bounds(old.entries@[d], old.entries@.len(), old.streams@.len()));
        assert(old.children_of(d)[k].1 < old.entries@.len());
        lemma_walk_grows(old, new, c, path.drop_first());
    }
}

/// A name absent from `old` and appended as the last pair of `new` is found
/// there.
pub proof fn lemma_appended_first(old: Seq<(Vec<u16>, usize)>, new: Seq<(Vec<u16>, usize)>, name: Seq<u16>)
    requires
        new.len() == old.len() + 1,
        new.drop_last() == old,
        find_name(old, name) is None,
        new.last().0@ == name,
    ensures
        find_name(new, name) == Some(old.len() as int),
{
    let k = old.len() as int;
    assert forall|j: int| 0 <= j < k implies new[j].0@ != name by {
        assert(new[j] == old[j]);
        if new[j].0@ == name {
            lemma_some_first(old, name, j);
        }
    }
    assert(is_first_name(new, name, k));
    lemma_first_name_unique(new, name, k);
}

/// Resolution reads the entry arena alone.
pub proof fn lemma_walk_same_entries(a: &MemFsHandler, b: &MemFsHandler, d: int, path: Seq<Seq<u16>>)
    requires
        a.entries == b.entries,
    ensures
        a.walk(d, path) == b.walk(d, path),
    decreases path.len(),
{
    if path.len() > 0 {
        assert(a.child(d, path[0]) == b.child(d, path[0]));
        if let Some(c) = a.child(d, path[0]) {
            lemma_walk_same_entries(a, b, c, path.drop_first());
        }
    }
}

proof fn lemma_walk_push(fs: &MemFsHandler, d: int, path: Seq<Seq<u16>>, n: Seq<u16>)
    requires
        fs.walk(d, path) is Ok,
    ensures
        fs.walk(d, path.push(n)) == fs.walk(fs.walk(d, path).unwrap(), seq![n]),
    decreases path.len(),
{
    if path.len() == 0 {
        assert(path.push(n) =~= seq![n]);
    } else {
        assert(path.push(n).drop_first() =~= path.drop_first().push(n));
        assert(path.push(n)[0] == path[0]);
        let c = fs.child(d, path[0]).unwrap();
        lemma_walk_push(fs, c, path.drop_first(), n);
    }
}

pub proof fn lemma_some_first(v: Seq<(Vec<u16>, usize)>, name: Seq<u16>, j: int)
    requires
        0 <= j < v.len(),
        v[j].0@ == name,
    ensures
        find_name(v, name) is Some,
    decreases j,
{
    if exists|q: int| 0 <= q < j && v[q].0@ == name {
        let q = choose|q: int| 0 <= q < j && v[q].0@ == name;
        lemma_some_first(v, name, q);
    } else {
        assert(is_first_name(v, name, j));
    }
}

pub proof fn lemma_grows_refl(a: &MemFsHandler)
    ensures
        a.grows_from(a),
{
    assert forall|i: int| 0 <= i < a.entries@.len() implies
        (#[trigger] a.children_of(i)).subrange(0, a.children_of(i).len() as int) == a.children_of(i) by {
        assert(a.children_of(i).subrange(0, a.children_of(i).len() as int) =~= a.children_of(i));
    }
}

proof fn lemma_grows_trans(a: &MemFsHandler, b: &MemFsHandler, c: &MemFsHandler)
    requires
        b.grows_from(a),
        c.grows_from(b),
    ensures
        c.grows_from(a),
{
    assert forall|i: int| 0 <= i < a.entries@.len() implies {
        &&& (#[trigger] c.entry(i) is Directory) == a.entry(i) is Directory
        &&& c.entry(i) is File == a.entry(i) is File
        &&& a.children_of(i).len() <= c.children_of(i).len()
        &&& c.children_of(i).subrange(0, a.children_of(i).len() as int) == a.children_of(i)
    } by {
        assert(b.entry(i) is Directory == a.entry(i) is Directory);
        assert(c.entry(i) is Directory == b.entry(i) is Directory);
        let la = a.children_of(i).len() as int;
        let lb = b.children_of(i).len() as int;
        assert(c.children_of(i).subrange(0, la) =~= c.children_of(i).subrange(0, lb).subrange(0, la));
        assert(b.children_of(i).subrange(0, la) == a.children_of(i));
    }
}

proof fn lemma_walk_split(fs: &MemFsHandler, d: int, path: Seq<Seq<u16>>, i: int)
    requires
        0 <= i <= path.len(),
        fs.walk(d, path.subrange(0, i)) is Ok,
    ensures
        fs.walk(d, path) == fs.walk(fs.walk(d, path.subrange(0, i)).unwrap(), path.subrange(i, path.len() as int)),
    decreases i,
{
    if i == 0 {
        assert(path.subrange(0, path.len() as int) =~= path);
    } else {
        assert(path.subrange(0, i)[0] == path[0]);
        assert(path.subrange(0, i).drop_first() =~= path.drop_first().subrange(0, i - 1));
        assert(path.subrange(i, path.len() as int) =~= path.drop_first().subrange(i - 1, path.drop_first().len() as int));
        let c = fs.child(d, path[0]).unwrap();
        lemma_walk_split(fs, c, path.drop_first(), i - 1);
    }
}

impl MemFsHandler {
    /// Resolves the directory `path` names below `start`. A missing
    /// component is created as an empty directory, so resolution never fails
    /// because a component is absent.
    #[verifier::rlimit(100)]
    pub fn find_dir_entry(&mut self, start: usize, path: &Vec<Vec<u16>>, now: u64) -> (r: Result<usize, FsError>)
        requires
            old(self).wf(),
            start < old(self).entries@.len(),
            old(self).entry(start as int) is Directory,
        ensures
            final(self).wf(),
            final(self).grows_from(old(self)),
            widen(r) == final(self).walk(start as int, unit_views(path@)),
            r != Err::<usize, FsError>(FsError::ObjectNameNotFound),
            r matches Ok(d) ==> d < final(self).entries@.len() && final(self).entry(d as int) is Directory,
            forall|i: int| old(self).entries@.len() <= i < final(self).entries@.len()
                ==> #[trigger] final(self).entry(i) is Directory,
            old(self).all_missing(start as int, unit_views(path@))
                ==> r is Ok && final(self).entries@.len() == old(self).entries@.len() + path@.len()
                    && final(self).children_of(r.unwrap() as int).len() == 0
                    && !final(self).stat_of(r.unwrap() as int).delete_pending
                    && r.unwrap() == final(self).entries@.len() - 1,
            path@.len() == 0 ==> *final(self) == *old(self),
            old(self).walk(start as int, unit_views(path@)) is Ok ==> *final(self) == *old(self),
            old(self).resolvable(start as int, unit_views(path@)) ==> r is Ok,
            final(self).entries@.len() <= old(self).entries@.len() + path@.len(),
            final(self).entries@.len() == old(self).entries@.len() ==> final(self).entries == old(self).entries,
            final(self).entries@.len() > old(self).entries@.len() ==> {
                &&& exists|a: int| #[trigger] final(self).added_under(old(self), a)
                &&& final(self).children_of(final(self).entries@.len() - 1).len() == 0
            },
            forall|j: int| old(self).entries@.len() <= j < final(self).entries@.len() - 1
                ==> (#[trigger] final(self).children_of(j)).len() == 1,
            forall|j: int| old(self).entries@.len() <= j < final(self).entries@.len()
                ==> #[trigger] final(self).listed_by_parent(j),
            forall|i: int| 0 <= i < old(self).entries@.len() ==> #[trigger] final(self).stat_of(i) == old(self).stat_of(i),
            forall|i: int| old(self).entries@.len() <= i < final(self).entries@.len()
                ==> (#[trigger] final(self).stat_of(i)).handle_count == 0,
            final(self).streams == old(self).streams,
            final(self).existing_readonly == old(self).existing_readonly,
            final(self).url == old(self).url,
    {
        let ghost names = unit_views(path@);
        if path.len() == 0 {
            proof {
                lemma_grows_refl(self);
            }
            return Ok(start);
        }
        let mut cur = start;
        let ghost fresh = old(self).all_missing(start as int, names);
        let ghost ok = old(self).resolvable(start as int, names);
        let ghost mut on_old = true;
        let ghost mut anchor: int = 0;
        assert(names.subrange(0, names.len() as int) =~= names);
        let mut i: usize = 0;
        proof {
            lemma_grows_refl(self);
        }
        assert(self.walk(start as int, names.subrange(0, 0)) == Ok::<int, FsError>(start as int));
        while i < path.len()
            invariant
                self.wf(),
                self.grows_from(old(self)),
                start < self.entries@.len(),
                i <= path@.len(),
                names == unit_views(path@),
                cur < self.entries@.len(),
                self.entry(cur as int) is Directory,
                self.walk(start as int, names.subrange(0, i as int)) == Ok::<int, FsError>(cur as int),
                forall|j: int| old(self).entries@.len() <= j < self.entries@.len()
                    ==> #[trigger] self.entry(j) is Directory,
                fresh ==> self.entries@.len() == old(self).entries@.len() + i,
                fresh && i > 0 ==> cur == self.entries@.len() - 1 && self.children_of(cur as int).len() == 0
                    && !self.stat_of(cur as int).delete_pending,
                fresh && i == 0 ==> cur == start,
                i == 0 ==> self.entries@ == old(self).entries@,
                old(self).walk(start as int, names) is Ok ==> *self == *old(self),
                fresh == old(self).all_missing(start as int, names),
                ok == old(self).resolvable(start as int, names),
                forall|j: int| old(self).entries@.len() <= j < self.entries@.len()
                    ==> #[trigger] self.listed_by_parent(j),
                ok && on_old ==> self.entries == old(self).entries
                    && old(self).resolvable(cur as int, names.subrange(i as int, names.len() as int)),
                ok && !on_old ==> forall|k: int| i <= k < names.len() ==> (#[trigger] names[k]).len() <= MAX_COMPONENT_LENGTH,
                self.entries@.len() <= old(self).entries@.len() + i,
                on_old ==> self.entries == old(self).entries,
                !on_old ==> cur == self.entries@.len() - 1 && self.children_of(cur as int).len() == 0
                    && self.entries@.len() > old(self).entries@.len(),
                forall|j: int| old(self).entries@.len() <= j < self.entries@.len() - 1
                    ==> (#[trigger] self.children_of(j)).len() == 1,
                !on_old ==> self.added_under(old(self), anchor),
                forall|j: int| 0 <= j < old(self).entries@.len() ==> #[trigger] self.stat_of(j) == old(self).stat_of(j),
                forall|j: int| old(self).entries@.len() <= j < self.entries@.len()
                    ==> (#[trigger] self.stat_of(j)).handle_count == 0,
                self.streams == old(self).streams,
                self.existing_readonly == old(self).existing_readonly,
                self.url == old(self).url,
            decreases path@.len() - i,
        {
            let ghost before = *self;
            let ghost was_old = on_old;
            let ghost prefix = names.subrange(0, i as int);
            assert(names.subrange(0, i + 1) =~= prefix.push(names[i as int]));
            proof {
                lemma_walk_push(self, start as int, prefix, names[i as int]);
            }
            let name = &path[i];
            assert(names[i as int] == name@);
            let ghost rest = names.subrange(i as int, names.len() as int);
            assert(rest[0] == names[i as int]);
            assert(rest.drop_first() =~= names.subrange(i + 1, names.len() as int));
            proof {
                if old(self).walk(start as int, names) is Ok {
                    lemma_walk_split(self, start as int, names, i as int);
                    assert(names.subrange(i as int, names.len() as int)[0] == names[i as int]);
                }
            }
            if name.len() > 255 {
                assert(names[i as int] == path@[i as int]@);
                proof {
                    lemma_walk_split(self, start as int, names, i as int);
                    assert(names.subrange(i as int, names.len() as int)[0] == names[i as int]);
                }
                return Err(FsError::ObjectNameInvalid);
            }
            let next = match self.lookup_child(cur, name.as_slice()) {
                Some(c) => {
                    proof {
                        if fresh {
                            assert(names[i as int] == name@);
                            if i == 0 {
                                assert(self.child(start as int, names[0]) == old(self).child(start as int, names[0]));
                            } else {
                                assert(find_name(self.children_of(cur as int), name@) is None);
                            }
                            assert(false);
                        }
                        if !on_old {
                            assert(find_name(self.children_of(cur as int), name@) is None);
                            assert(false);
                        }
                        if ok && on_old {
                            assert(self.child(cur as int, name@) == old(self).child(cur as int, name@));
                        }
                    }
                    c
                },
                None => {
                    proof {
                        if ok && on_old {
                            assert(self.child(cur as int, name@) == old(self).child(cur as int, name@));
                            assert(forall|k: int| 0 <= k < rest.len() ==> (#[trigger] rest[k]).len() <= MAX_COMPONENT_LENGTH);
                            assert forall|k: int| i + 1 <= k < names.len() implies (#[trigger] names[k]).len() <= MAX_COMPONENT_LENGTH by {
                                assert(rest[k - i] == names[k]);
                            }
                        }
                        if on_old {
                            anchor = cur as int;
                        }
                        on_old = false;
                    }
                    let id = self.next_id();
                    let nm = crate::path::slice_units(name.as_slice(), 0, name.len());
                    assert(nm@ =~= name@);
                    let c = self.create_dir_entry(id, cur, nm, now);
                    proof {
                        assert(self.grows_from(&before)) by {
                            assert forall|j: int| 0 <= j < before.entries@.len() implies {
                                &&& (#[trigger] self.entry(j) is Directory) == before.entry(j) is Directory
                                &&& self.entry(j) is File == before.entry(j) is File
                                &&& before.children_of(j).len() <= self.children_of(j).len()
                                &&& self.children_of(j).subrange(0, before.children_of(j).len() as int) == before.children_of(j)
                            } by {
                                if j == cur as int {
                                    assert(self.children_of(j).subrange(0, before.children_of(j).len() as int) =~= before.children_of(j));
                                }
                            }
                        }
                        lemma_walk_grows(&before, self, start as int, prefix);
                        let k = before.children_of(cur as int).len() as int;
                        assert(is_first_name(self.children_of(cur as int), names[i as int], k)) by {
                            assert forall|j: int| 0 <= j < k implies self.children_of(cur as int)[j].0@ != names[i as int] by {
                                assert(self.children_of(cur as int)[j] == before.children_of(cur as int)[j]);
                                if before.children_of(cur as int)[j].0@ == names[i as int] {
                                    assert(exists|q: int| is_first_name(before.children_of(cur as int), names[i as int], q)) by {
                                        lemma_some_first(before.children_of(cur as int), names[i as int], j);
                                    }
                                }
                            }
                        }
                        lemma_first_name_unique(self.children_of(cur as int), names[i as int], k);
                        assert(self.child(cur as int, names[i as int]) == Some(c as int));
                        lemma_grows_trans(old(self), &before, self);
                        assert(self.children_of(cur as int) =~= before.children_of(cur as int).push((nm, c)));
                        assert forall|j: int| old(self).entries@.len() <= j < self.entries@.len() - 1
                            implies (#[trigger] self.children_of(j)).len() == 1 by {
                            if j != cur as int {
                                assert(self.entry(j) == before.entry(j));
                            }
                        }
                        if was_old {
                            assert(before.entries == old(self).entries);
                            assert(anchor == cur as int);
                            assert(self.children_of(anchor).drop_last() =~= old(self).children_of(anchor));
                            assert forall|d: int| 0 <= d < old(self).entries@.len() && d != anchor
                                implies #[trigger] self.children_of(d) == old(self).children_of(d) by {
                                assert(self.entry(d) == before.entry(d));
                            }
                        } else {
                            assert(self.children_of(anchor) == before.children_of(anchor)) by {
                                assert(self.entry(anchor) == before.entry(anchor));
                            }
                            assert forall|d: int| 0 <= d < old(self).entries@.len() && d != anchor
                                implies #[trigger] self.children_of(d) == old(self).children_of(d) by {
                                assert(self.entry(d) == before.entry(d));
                            }
                        }
                        assert forall|j: int| old(self).entries@.len() <= j < self.entries@.len()
                            implies #[trigger] self.listed_by_parent(j) by {
                            if j < before.entries@.len() {
                                assert(before.listed_by_parent(j));
                                assert(self.stat_of(j) == before.stat_of(j)) by {
                                    if j != cur as int {
                                        assert(self.entry(j) == before.entry(j));
                                    }
                                }
                                let p = before.stat_of(j).parent.unwrap() as int;
                                let k = choose|k: int| 0 <= k < before.children_of(p).len() && #[trigger] before.children_of(p)[k].1 == j;
                                assert(self.entry(p) is Directory == before.entry(p) is Directory);
                                assert(before.children_of(p).len() <= self.children_of(p).len());
                                assert(self.children_of(p).subrange(0, before.children_of(p).len() as int)[k] == self.children_of(p)[k]);
                                assert(self.children_of(p)[k].1 == j);
                                if j != cur as int {
                                    assert(self.entry(j) == before.entry(j));
                                }
                            } else {
                                let k = self.children_of(cur as int).len() - 1;
                                assert(self.children_of(cur as int)[k].1 == j);
                            }
                        }
                        assert forall|j: int| 0 <= j < old(self).entries@.len() implies #[trigger] self.stat_of(j) == old(self).stat_of(j) by {
                            assert(before.stat_of(j) == old(self).stat_of(j));
                            if j != cur as int {
                                assert(self.entry(j) == before.entry(j));
                            }
                        }
                        assert forall|j: int| old(self).entries@.len() <= j < self.entries@.len()
                            implies (#[trigger] self.stat_of(j)).handle_count == 0 by {
                            if j < before.entries@.len() {
                                assert(before.stat_of(j).handle_count == 0);
                                if j != cur as int {
                                    assert(self.entry(j) == before.entry(j));
                                }
                            }
                        }
                    }
                    c
                },
            };
            assert(self.child(cur as int, names[i as int]) == Some(next as int));
            assert(fresh ==> self.entry(next as int) is Directory);
            if !self.entries[next].is_dir() {
                assert(!fresh);
                proof {
                    lemma_walk_split(self, start as int, names, i as int);
                    assert(names.subrange(i as int, names.len() as int)[0] == names[i as int]);
                }
                return Err(FsError::ObjectPathNotFound);
            }
            assert(names[i as int].len() <= MAX_COMPONENT_LENGTH);
            assert(self.walk(cur as int, seq![names[i as int]]) == Ok::<int, FsError>(next as int)) by {
                assert(seq![names[i as int]].drop_first() =~= Seq::<Seq<u16>>::empty());
                assert(seq![names[i as int]][0] == names[i as int]);
                assert(self.walk(next as int, Seq::<Seq<u16>>::empty()) == Ok::<int, FsError>(next as int));
            }
            proof {
                lemma_walk_push(self, start as int, prefix, names[i as int]);
            }
            cur = next;
            i += 1;
        }
        assert(names.subrange(0, path@.len() as int) =~= names);
        Ok(cur)
    }
}


pub proof fn lemma_wf_replace(old: &MemFsHandler, new: &MemFsHandler, i: int)
    requires
        old.wf(),
        0 <= i < old.entries@.len(),
        new.entries@ == old.entries@.update(i, new.entries@[i]),
        new.streams@.len() == old.streams@.len(),
        entry_in_bounds(new.entries@[i], old.entries@.len(), old.streams@.len()),
        i == ROOT ==> new.entries@[i] is Directory && new.entries@[i].spec_stat().parent is None,
        new.stat_of(i).parent == old.stat_of(i).parent,
        new.children_of(i) == old.children_of(i) || forall|k: int|
            0 <= k < new.children_of(i).len() ==> new.stat_of((#[trigger] new.children_of(i)[k]).1 as int).parent
                == Some(i as usize),
        new.children_of(i) == old.children_of(i) || names_distinct(new.children_of(i)),
    ensures
        new.wf(),
{
    assert forall|d: int| 0 <= d < new.entries@.len() implies names_distinct(#[trigger] new.children_of(d)) by {
        if d != i {
            assert(new.entries@[d] == old.entries@[d]);
        }
        assert(names_distinct(old.children_of(d)));
    }
    assert forall|d: int, k: int|
        0 <= d < new.entries@.len() && 0 <= k < new.children_of(d).len() implies new.stat_of(
            (#[trigger] new.children_of(d)[k]).1 as int,
        ).parent == Some(d as usize) by {
        let c = new.children_of(d)[k].1 as int;
        if d != i {
            assert(new.entries@[d] == old.entries@[d]);
            assert(old.children_of(d)[k] == new.children_of(d)[k]);
        } else if new.children_of(i) == old.children_of(i) {
            assert(old.children_of(d)[k] == new.children_of(d)[k]);
        }
        assert(entry_in_bounds(old.entries@[d], old.entries@.len(), old.streams@.len()));
        if c != i {
            assert(new.entries@[c] == old.entries@[c]);
        }
    }
    assert forall|j: int| 0 <= j < new.entries@.len() implies entry_in_bounds(
        #[trigger] new.entries@[j],
        new.entries@.len(),
        new.streams@.len(),
    ) by {
        if j != i {
            assert(new.entries@[j] == old.entries@[j]);
        }
    }
}

/// Pointing the parent link of an entry that no directory lists elsewhere
/// keeps the invariant.
pub proof fn lemma_wf_relink(old: &MemFsHandler, new: &MemFsHandler, e: int, p: usize)
    requires
        old.wf(),
        0 <= e < old.entries@.len(),
        e != ROOT,
        p < old.entries@.len(),
        new.entries@ == old.entries@.update(e, old.entry(e).with_stat(Stat { parent: Some(p), ..old.stat_of(e) })),
        new.streams@.len() == old.streams@.len(),
        forall|d: int, k: int|
            0 <= d < old.entries@.len() && 0 <= k < old.children_of(d).len() ==> (#[trigger] old.children_of(d)[k]).1 != e,
    ensures
        new.wf(),
{
    assert(entry_in_bounds(old.entries@[e], old.entries@.len(), old.streams@.len()));
    assert forall|j: int| 0 <= j < new.entries@.len() implies entry_in_bounds(
        #[trigger] new.entries@[j],
        new.entries@.len(),
        new.streams@.len(),
    ) by {
        if j != e {
            assert(new.entries@[j] == old.entries@[j]);
        }
    }
    assert forall|d: int, k: int|
        0 <= d < new.entries@.len() && 0 <= k < new.children_of(d).len() implies new.stat_of(
            (#[trigger] new.children_of(d)[k]).1 as int,
        ).parent == Some(d as usize) by {
        if d != e {
            assert(new.entries@[d] == old.entries@[d]);
        }
        assert(old.children_of(d)[k] == new.children_of(d)[k]);
        assert(entry_in_bounds(old.entries@[d], old.entries@.len(), old.streams@.len()));
        let c = new.children_of(d)[k].1 as int;
        assert(c != e);
        assert(new.entries@[c] == old.entries@[c]);
    }
    assert forall|d: int| 0 <= d < new.entries@.len() implies names_distinct(#[trigger] new.children_of(d)) by {
        if d != e {
            assert(new.entries@[d] == old.entries@[d]);
        }
        assert(names_distinct(old.children_of(d)));
    }
}

pub proof fn lemma_wf_more_streams(old: &MemFsHandler, new: &MemFsHandler)
    requires
        old.wf(),
        new.entries@ == old.entries@,
        new.streams@.len() >= old.streams@.len(),
    ensures
        new.wf(),
{
    assert forall|d: int, k: int|
        0 <= d < new.entries@.len() && 0 <= k < new.children_of(d).len() implies new.stat_of(
            (#[trigger] new.children_of(d)[k]).1 as int,
        ).parent == Some(d as usize) by {
        assert(old.children_of(d)[k] == new.children_of(d)[k]);
    }
    assert forall|d: int| 0 <= d < new.entries@.len() implies names_distinct(#[trigger] new.children_of(d)) by {
        assert(names_distinct(old.children_of(d)));
    }
    assert forall|j: int| 0 <= j < new.entries@.len() implies entry_in_bounds(
        #[trigger] new.entries@[j],
        new.entries@.len(),
        new.streams@.len(),
    ) by {
        assert(entry_in_bounds(old.entries@[j], old.entries@.len(), old.streams@.len()));
    }
}

impl MemFsHandler {
    /// Appends a fresh empty stream created at `now` and returns its index.
    pub fn push_stream(&mut self, now: u64) -> (r: usize)
        requires
            old(self).wf(),
        ensures
            final(self).wf(),
            r == old(self).streams@.len(),
            final(self).streams@ == old(self).streams@.push(final(self).streams@[r as int]),
            final(self).streams@[r as int].handle_count == 0,
            !final(self).streams@[r as int].delete_pending,
            final(self).streams@[r as int].data@.len() == 0,
            final(self).streams@[r as int].content_length == 0,
            final(self).streams@[r as int].ctime == now,
            final(self).entries == old(self).entries,
            final(self).id_counter == old(self).id_counter,
            final(self).existing_readonly == old(self).existing_readonly,
    {
        let r = self.streams.len();
        let mut st = AltStream::new();
        st.ctime = now;
        self.streams.push(st);
        proof {
            lemma_wf_more_streams(old(self), self);
        }
        r
    }

    /// Records stream `sid` under `name` in the stream map of entry `e`.
    pub fn add_alt_stream(&mut self, e: usize, name: Vec<u16>, sid: usize)
        requires
            old(self).wf(),
            e < old(self).entries@.len(),
            sid < old(self).streams@.len(),
        ensures
            final(self).wf(),
            final(self).entries@ == old(self).entries@.update(e as int, final(self).entry(e as int)),
            final(self).entry(e as int) == old(self).entry(e as int).with_stat(Stat {
                alt_streams: final(self).stat_of(e as int).alt_streams,
                ..old(self).stat_of(e as int)
            }),
            final(self).stat_of(e as int).alt_streams@ == old(self).stat_of(e as int).alt_streams@.push((name, sid)),
            final(self).streams == old(self).streams,
            final(self).id_counter == old(self).id_counter,
            final(self).existing_readonly == old(self).existing_readonly,
    {
        let st = self.entries[e].stat_mut();
        st.alt_streams.push((name, sid));
        proof {
            let x = self.entries@[e as int];
            assert(entry_in_bounds(old(self).entries@[e as int], old(self).entries@.len(), old(self).streams@.len()));
            assert forall|k: int| 0 <= k < x.spec_stat().alt_streams@.len() implies
                (#[trigger] x.spec_stat().alt_streams@[k]).1 < self.streams@.len() by {
                if k < old(self).stat_of(e as int).alt_streams@.len() {
                    assert(x.spec_stat().alt_streams@[k] == old(self).stat_of(e as int).alt_streams@[k]);
                }
            }
            assert(entry_in_bounds(x, old(self).entries@.len(), old(self).streams@.len()));
            lemma_wf_replace(old(self), self, e as int);
        }
    }

    /// Puts `child` under `name` in directory `d`.
    pub fn add_child(&mut self, d: usize, name: Vec<u16>, child: usize)
        requires
            old(self).wf(),
            d < old(self).entries@.len(),
            child < old(self).entries@.len(),
            old(self).entry(d as int) is Directory,
            old(self).stat_of(child as int).parent == Some(d),
            find_name(old(self).children_of(d as int), name@) is None,
        ensures
            final(self).wf(),
            final(self).entries@ == old(self).entries@.update(d as int, final(self).entry(d as int)),
            final(self).entry(d as int) is Directory,
            final(self).stat_of(d as int) == old(self).stat_of(d as int),
            final(self).children_of(d as int) == old(self).children_of(d as int).push((name, child)),
            final(self).streams == old(self).streams,
            final(self).id_counter == old(self).id_counter,
            final(self).existing_readonly == old(self).existing_readonly,
    {
        match &mut self.entries[d] {
            Entry::Directory(dir) => {
                dir.children.push((name, child));
            },
            _ => {},
        }
        proof {
            let x = self.entries@[d as int];
            assert(entry_in_bounds(old(self).entries@[d as int], old(self).entries@.len(), old(self).streams@.len()));
            assert forall|k: int| 0 <= k < self.children_of(d as int).len() implies
                (#[trigger] self.children_of(d as int)[k]).1 < self.entries@.len() by {
                if k < old(self).children_of(d as int).len() {
                    assert(self.children_of(d as int)[k] == old(self).children_of(d as int)[k]);
                }
            }
            assert forall|k: int| 0 <= k < self.children_of(d as int).len() implies
                self.stat_of((#[trigger] self.children_of(d as int)[k]).1 as int).parent == Some(d) by {
                let c = self.children_of(d as int)[k].1 as int;
                if k < old(self).children_of(d as int).len() {
                    assert(self.children_of(d as int)[k] == old(self).children_of(d as int)[k]);
                    assert(old(self).stat_of(c).parent == Some(d));
                }
                if c != d as int {
                    assert(self.entries@[c] == old(self).entries@[c]);
                }
            }
            assert(names_distinct(old(self).children_of(d as int)));
            assert(self.children_of(d as int) =~= old(self).children_of(d as int).push((name, child)));
            lemma_distinct_push(old(self).children_of(d as int), (name, child));
            lemma_wf_replace(old(self), self, d as int);
        }
    }

    /// Appends entry `e` to the arena and returns its index.
    pub fn push_entry(&mut self, e: Entry) -> (r: usize)
        requires
            old(self).wf(),
            entry_in_bounds(e, old(self).entries@.len(), old(self).streams@.len()),
            match e {
                Entry::Directory(d) => d.children@.len() == 0,
                _ => true,
            },
        ensures
            final(self).wf(),
            r == old(self).entries@.len(),
            final(self).entries@ == old(self).entries@.push(e),
            final(self).streams == old(self).streams,
            final(self).id_counter == old(self).id_counter,
            final(self).existing_readonly == old(self).existing_readonly,
    {
        let r = self.entries.len();
        self.entries.push(e);
        proof {
            let n = self.entries@.len();
            let m = self.streams@.len();
            assert forall|j: int| 0 <= j < n implies entry_in_bounds(#[trigger] self.entries@[j], n, m) by {
                if j < n - 1 {
                    assert(self.entries@[j] == old(self).entries@[j]);
                    assert(entry_in_bounds(old(self).entries@[j], (n - 1) as nat, m));
                }
            }
            assert forall|d: int, k: int|
                0 <= d < n && 0 <= k < self.children_of(d).len() implies self.stat_of(
                    (#[trigger] self.children_of(d)[k]).1 as int,
                ).parent == Some(d as usize) by {
                assert(self.entries@[d] == old(self).entries@[d]);
                assert(old(self).children_of(d)[k] == self.children_of(d)[k]);
                assert(entry_in_bounds(old(self).entries@[d], old(self).entries@.len(), old(self).streams@.len()));
                let c = self.children_of(d)[k].1 as int;
                assert(self.entries@[c] == old(self).entries@[c]);
            }
            assert forall|d: int| 0 <= d < n implies names_distinct(#[trigger] self.children_of(d)) by {
                if d < n - 1 {
                    assert(self.entries@[d] == old(self).entries@[d]);
                    assert(names_distinct(old(self).children_of(d)));
                } else {
                    assert(self.children_of(d).len() == 0);
                }
            }
        }
        r
    }
}

impl EntryHandle {
    /// Opens a session on entry `e` (and stream `s`, if any) of `fs`,
    /// counting it in the handle counts of both.
    pub fn new(fs: &mut MemFsHandler, index: u64, e: usize, s: Option<usize>, delete_on_close: bool) -> (r: EntryHandle)
        requires
            old(fs).wf(),
            e < old(fs).entries@.len(),
            old(fs).stat_of(e as int).handle_count < u32::MAX,
            s matches Some(sid) ==> sid < old(fs).streams@.len() && old(fs).streams@[sid as int].handle_count < u32::MAX,
        ensures
            final(fs).wf(),
            r == EntryHandle::new_spec(index, e, s, delete_on_close),
            final(fs).entries@ == old(fs).entries@.update(e as int, final(fs).entry(e as int)),
            final(fs).entry(e as int) == old(fs).entry(e as int).with_stat(Stat {
                handle_count: (old(fs).stat_of(e as int).handle_count + 1) as u32,
                ..old(fs).stat_of(e as int)
            }),
            match s {
                Some(sid) => final(fs).streams@ == old(fs).streams@.update(sid as int, AltStream {
                    handle_count: (old(fs).streams@[sid as int].handle_count + 1) as u32,
                    ..old(fs).streams@[sid as int]
                }),
                None => final(fs).streams == old(fs).streams,
            },
            final(fs).id_counter == old(fs).id_counter,
            final(fs).existing_readonly == old(fs).existing_readonly,
    {
        let st = fs.entries[e].stat_mut();
        st.handle_count = st.handle_count + 1;
        proof {
            assert(entry_in_bounds(old(fs).entries@[e as int], old(fs).entries@.len(), old(fs).streams@.len()));
            assert(entry_in_bounds(fs.entries@[e as int], old(fs).entries@.len(), old(fs).streams@.len()));
            lemma_wf_replace(old(fs), fs, e as int);
        }
        match s {
            Some(sid) => {
                let ghost mid = *fs;
                fs.streams[sid].handle_count = fs.streams[sid].handle_count + 1;
                proof {
                    lemma_wf_more_streams(&mid, fs);
                }
            },
            None => {},
        }
        EntryHandle {
            index,
            entry: e,
            alt_stream: s,
            delete_on_close,
            mtime_delayed: None,
            atime_delayed: None,
            ctime_enabled: true,
            mtime_enabled: true,
            atime_enabled: true,
        }
    }
}

} // verus!
