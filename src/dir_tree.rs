use vstd::prelude::*;

use crate::entry::{Entry, FileEntry};
use crate::fs::{entry_in_bounds, MemFsHandler, ROOT};
use crate::metadata::Stat;

verus! {

/// A hierarchical description of names used to seed the tree at startup;
/// a name ending in `/` is a directory.
pub struct DirTree {
    pub name: String,
    pub children: Vec<DirTree>,
}

impl DirTree {
    pub fn is_folder(&self) -> (r: bool)
        ensures
            r == (self.name@.len() > 0 && self.name@.last() == '/'),
    {
        let s = self.name.as_str();
        let n = s.unicode_len();
        n > 0 && s.get_char(n - 1) == '/'
    }
}

/// The UTF-16 code units of one character.
pub open spec fn char_units(c: char) -> Seq<u16> {
    let v = c as u32;
    if v < 0x10000 {
        seq![v as u16]
    } else {
        let w = (v - 0x10000) as u32;
        seq![(0xd800 + (w >> 10u32)) as u16, (0xdc00 + (w & 0x3ffu32)) as u16]
    }
}

/// The UTF-16 code units of `s` with every `/` left out.
pub open spec fn name_units(s: Seq<char>) -> Seq<u16>
    decreases s.len(),
{
    if s.len() == 0 {
        seq![]
    } else {
        let rest = name_units(s.drop_last());
        if s.last() == '/' { rest } else { rest + char_units(s.last()) }
    }
}

/// A seed name as an entry name: UTF-16, without its `/`.
pub fn seed_name(s: &str) -> (r: Vec<u16>)
    ensures
        r@ == name_units(s@),
{
    let n = s.unicode_len();
    let mut r: Vec<u16> = Vec::new();
    let mut i: usize = 0;
    while i < n
        invariant
            n == s@.len(),
            i <= n,
            r@ == name_units(s@.subrange(0, i as int)),
        decreases n - i,
    {
        let c = s.get_char(i);
        assert(s@.subrange(0, i + 1).drop_last() =~= s@.subrange(0, i as int));
        assert(s@.subrange(0, i + 1).last() == c);
        if c != '/' {
            let v = c as u32;
            if v < 0x10000 {
                r.push(v as u16);
            } else {
                let w = v - 0x10000;
                assert(w >> 10u32 <= 0x3fffff) by (bit_vector);
                assert(w & 0x3ffu32 <= 0x3ff) by (bit_vector);
                r.push(#[verifier::truncate] ((0xd800 + (w >> 10u32)) as u16));
                r.push(#[verifier::truncate] ((0xdc00 + (w & 0x3ffu32)) as u16));
            }
            assert(r@ =~= name_units(s@.subrange(0, i as int)) + char_units(c));
        }
        i += 1;
    }
    assert(s@.subrange(0, n as int) =~= s@);
    r
}

/// A seed name denotes a directory when it ends in `/`.
pub open spec fn folder(t: DirTree) -> bool {
    t.name@.len() > 0 && t.name@.last() == '/'
}

/// Sibling seeds carry distinct names (without their `/`), at every level.
pub open spec fn seed_ok(t: DirTree) -> bool
    decreases t,
{
    &&& forall|k1: int, k2: int| 0 <= k1 < k2 < t.children@.len()
        ==> name_units((#[trigger] t.children@[k1]).name@) != name_units((#[trigger] t.children@[k2]).name@)
    &&& forall|k: int| 0 <= k < t.children@.len() ==> seed_ok(#[trigger] t.children@[k])
}

/// Directory `d` holds exactly the seeded children of `t`, in order, at
/// every level below it: each named after its seed, linking back to its
/// directory, made at an index in `[lo, hi)`, a Directory seeded the same
/// way when the seed is a folder and an empty local File otherwise.
pub open spec fn seeded(fs: &MemFsHandler, d: int, t: DirTree, lo: int, hi: int) -> bool
    decreases t,
{
    &&& fs.children_of(d).len() == t.children@.len()
    &&& forall|k: int| 0 <= k < t.children@.len() ==> {
        let c = (#[trigger] fs.children_of(d)[k]).1 as int;
        &&& lo <= c < hi
        &&& fs.children_of(d)[k].0@ == name_units(t.children@[k].name@)
        &&& fs.stat_of(c).parent == Some(d as usize)
        &&& (fs.entry(c) is Directory) == folder(t.children@[k])
        &&& !folder(t.children@[k]) ==> match fs.entry(c) {
            Entry::File(f) => f.data@.len() == 0,
            _ => false,
        }
        &&& folder(t.children@[k]) ==> seeded(fs, c, t.children@[k], lo, hi)
    }
}

/// `pair`, listed under directory `parent` in `fs`, is the seeded form of
/// `t`, with the whole subtree made at indices in `[lo, hi)`.
pub open spec fn seeded_child(fs: &MemFsHandler, parent: int, pair: (Vec<u16>, usize), t: DirTree, lo: int, hi: int) -> bool {
    let c = pair.1 as int;
    &&& lo <= c < hi
    &&& pair.0@ == name_units(t.name@)
    &&& fs.stat_of(c).parent == Some(parent as usize)
    &&& (fs.entry(c) is Directory) == folder(t)
    &&& !folder(t) ==> match fs.entry(c) {
        Entry::File(f) => f.data@.len() == 0,
        _ => false,
    }
    &&& folder(t) ==> seeded(fs, c, t, lo, hi)
}

/// The pair at position `base + k` of `parent`'s children is the seeded
/// form of `t`.
pub open spec fn seeded_at(fs: &MemFsHandler, parent: int, base: int, k: int, t: DirTree, lo: int, hi: int) -> bool {
    seeded_child(fs, parent, fs.children_of(parent)[base + k], t, lo, hi)
}

/// Seeding stays true where the entries of its index range are kept and
/// the range's end grows.
pub proof fn lemma_seeded_frame(a: &MemFsHandler, b: &MemFsHandler, d: int, t: DirTree, lo: int, hi: int, hi2: int)
    requires
        seeded(a, d, t, lo, hi),
        b.children_of(d) == a.children_of(d),
        hi <= hi2,
        forall|i: int| lo <= i < hi ==> #[trigger] b.entry(i) == a.entry(i),
    ensures
        seeded(b, d, t, lo, hi2),
    decreases t,
{
    assert forall|k: int| 0 <= k < t.children@.len() implies {
        let c = (#[trigger] b.children_of(d)[k]).1 as int;
        &&& lo <= c < hi2
        &&& b.children_of(d)[k].0@ == name_units(t.children@[k].name@)
        &&& b.stat_of(c).parent == Some(d as usize)
        &&& (b.entry(c) is Directory) == folder(t.children@[k])
        &&& !folder(t.children@[k]) ==> match b.entry(c) {
            Entry::File(f) => f.data@.len() == 0,
            _ => false,
        }
        &&& folder(t.children@[k]) ==> seeded(b, c, t.children@[k], lo, hi2)
    } by {
        let c = a.children_of(d)[k].1 as int;
        assert(b.entry(c) == a.entry(c));
        if folder(t.children@[k]) {
            assert(decreases_to!(t => t.children));
            lemma_seeded_frame(a, b, c, t.children@[k], lo, hi, hi2);
        }
    }
}

proof fn lemma_child_frame(a: &MemFsHandler, b: &MemFsHandler, parent: int, pair: (Vec<u16>, usize), t: DirTree, lo: int, hi: int, hi2: int)
    requires
        seeded_child(a, parent, pair, t, lo, hi),
        hi <= hi2,
        forall|i: int| lo <= i < hi ==> #[trigger] b.entry(i) == a.entry(i),
    ensures
        seeded_child(b, parent, pair, t, lo, hi2),
{
    let c = pair.1 as int;
    assert(b.entry(c) == a.entry(c));
    if folder(t) {
        lemma_seeded_frame(a, b, c, t, lo, hi, hi2);
    }
}

proof fn lemma_seeded_lower(fs: &MemFsHandler, d: int, t: DirTree, lo: int, lo2: int, hi: int)
    requires
        seeded(fs, d, t, lo, hi),
        lo2 <= lo,
    ensures
        seeded(fs, d, t, lo2, hi),
    decreases t,
{
    assert forall|k: int| 0 <= k < t.children@.len() && folder(t.children@[k]) implies seeded(
        fs,
        (#[trigger] fs.children_of(d)[k]).1 as int,
        t.children@[k],
        lo2,
        hi,
    ) by {
        assert(decreases_to!(t => t.children));
        lemma_seeded_lower(fs, fs.children_of(d)[k].1 as int, t.children@[k], lo, lo2, hi);
    }
}

/// Ids handed out from `start` to the entries made in `[lo, hi)`, one each
/// in index order, when the counter does not wrap.
pub open spec fn ids_in_order(fs: &MemFsHandler, start: u64, lo: int, hi: int) -> bool {
    start + (hi - lo) <= u64::MAX ==> {
        &&& fs.id_counter == start + (hi - lo)
        &&& forall|j: int| lo <= j < hi ==> #[trigger] fs.stat_of(j).id == start + (j - lo)
    }
}

impl MemFsHandler {
    /// Adds the children of `tree` under directory `parent`, recursively:
    /// a folder becomes a Directory seeded the same way, any other name an
    /// empty local File.
    pub fn add_subtree(&mut self, parent: usize, tree: &DirTree, now: u64)
        requires
            old(self).wf(),
            parent < old(self).entries@.len(),
            old(self).entry(parent as int) is Directory,
            seed_ok(*tree),
            forall|k: int| 0 <= k < tree.children@.len() ==> crate::fs::find_name(
                old(self).children_of(parent as int),
                name_units((#[trigger] tree.children@[k]).name@),
            ) is None,
        ensures
            final(self).wf(),
            final(self).streams == old(self).streams,
            final(self).existing_readonly == old(self).existing_readonly,
            final(self).entries@.len() >= old(self).entries@.len(),
            forall|i: int| 0 <= i < old(self).entries@.len() && i != parent ==>
                #[trigger] final(self).entry(i) == old(self).entry(i),
            final(self).entry(parent as int) is Directory,
            final(self).stat_of(parent as int) == old(self).stat_of(parent as int),
            final(self).children_of(parent as int).len() == old(self).children_of(parent as int).len() + tree.children@.len(),
            final(self).children_of(parent as int).subrange(0, old(self).children_of(parent as int).len() as int)
                == old(self).children_of(parent as int),
            forall|k: int| 0 <= k < tree.children@.len() ==> seeded_at(
                final(self),
                parent as int,
                old(self).children_of(parent as int).len() as int,
                k,
                #[trigger] tree.children@[k],
                old(self).entries@.len() as int,
                final(self).entries@.len() as int,
            ),
            forall|i: int| 0 <= i < final(self).entries@.len() ==>
                (#[trigger] final(self).entry(i) is HttpFile) == (i < old(self).entries@.len() && old(self).entry(i) is HttpFile),
            ids_in_order(final(self), old(self).id_counter, old(self).entries@.len() as int, final(self).entries@.len() as int),
        decreases tree,
    {
        let ghost ocl = old(self).children_of(parent as int).len() as int;
        let ghost lo = old(self).entries@.len() as int;
        let mut i: usize = 0;
        while i < tree.children.len()
            invariant
                self.wf(),
                parent < old(self).entries@.len(),
                lo == old(self).entries@.len(),
                self.streams == old(self).streams,
                self.existing_readonly == old(self).existing_readonly,
                self.entries@.len() >= old(self).entries@.len(),
                i <= tree.children@.len(),
                ocl == old(self).children_of(parent as int).len(),
                forall|j: int| 0 <= j < old(self).entries@.len() && j != parent ==>
                    #[trigger] self.entry(j) == old(self).entry(j),
                self.entry(parent as int) is Directory,
                self.stat_of(parent as int) == old(self).stat_of(parent as int),
                self.children_of(parent as int).len() == ocl + i,
                self.children_of(parent as int).subrange(0, ocl) == old(self).children_of(parent as int),
                forall|k: int| 0 <= k < i ==> seeded_at(
                    self, parent as int, ocl, k, #[trigger] tree.children@[k], lo, self.entries@.len() as int),
                forall|j: int| 0 <= j < self.entries@.len() ==>
                    (#[trigger] self.entry(j) is HttpFile) == (j < old(self).entries@.len() && old(self).entry(j) is HttpFile),
                ids_in_order(self, old(self).id_counter, lo, self.entries@.len() as int),
                seed_ok(*tree),
                forall|k: int| 0 <= k < tree.children@.len() ==> crate::fs::find_name(
                    old(self).children_of(parent as int),
                    name_units((#[trigger] tree.children@[k]).name@),
                ) is None,
            decreases tree.children@.len() - i,
        {
            let child = &tree.children[i];
            assert(decreases_to!(tree => tree.children));
            assert(decreases_to!(tree.children => tree.children[i as int]));
            let ghost s0 = *self;
            let id = self.next_id();
            let name = seed_name(child.name.as_str());
            proof {
                assert(*child == tree.children@[i as int]);
                assert(name@ == name_units(tree.children@[i as int].name@));
                let v = self.children_of(parent as int);
                assert(v == s0.children_of(parent as int));
                assert forall|j: int| 0 <= j < v.len() implies (#[trigger] v[j]).0@ != name@ by {
                    if j < ocl {
                        assert(v[j] == old(self).children_of(parent as int)[j]) by {
                            assert(v.subrange(0, ocl)[j] == v[j]);
                        }
                        assert(crate::fs::find_name(old(self).children_of(parent as int), name@) is None);
                        if v[j].0@ == name@ {
                            crate::fs::lemma_some_first(old(self).children_of(parent as int), name@, j);
                        }
                    } else {
                        let k = j - ocl;
                        assert(seeded_at(&s0, parent as int, ocl, k, tree.children@[k], lo, s0.entries@.len() as int));
                        assert(name_units(tree.children@[k].name@) != name_units(tree.children@[i as int].name@));
                    }
                }
                crate::fs::lemma_absent_name(v, name@);
                assert(seed_ok(*child));
            }
            if child.is_folder() {
                let d = self.create_dir_entry(id, parent, name, now);
                let ghost s1 = *self;
                self.add_subtree(d, child, now);
                proof {
                    let n2 = self.entries@.len() as int;
                    assert forall|j: int| lo <= j < s0.entries@.len() implies #[trigger] self.entry(j) == s0.entry(j) by {
                        assert(s1.entry(j) == s0.entry(j));
                    }
                    assert(self.children_of(parent as int) == s1.children_of(parent as int)) by {
                        assert(self.entry(parent as int) == s1.entry(parent as int));
                    }
                    assert(s1.children_of(parent as int) =~= s0.children_of(parent as int).push((name, d)));
                    assert(seeded(self, d as int, *child, s1.entries@.len() as int, n2)) by {
                        assert forall|k: int| 0 <= k < child.children@.len() implies {
                            let c = (#[trigger] self.children_of(d as int)[k]).1 as int;
                            &&& s1.entries@.len() <= c < n2
                            &&& self.children_of(d as int)[k].0@ == name_units(child.children@[k].name@)
                            &&& self.stat_of(c).parent == Some(d)
                            &&& (self.entry(c) is Directory) == folder(child.children@[k])
                            &&& !folder(child.children@[k]) ==> match self.entry(c) {
                                Entry::File(f) => f.data@.len() == 0,
                                _ => false,
                            }
                            &&& folder(child.children@[k]) ==> seeded(self, c, child.children@[k], s1.entries@.len() as int, n2)
                        } by {
                            assert(seeded_at(self, d as int, 0, k, child.children@[k], s1.entries@.len() as int, n2));
                        }
                    }
                    lemma_seeded_lower(self, d as int, *child, s1.entries@.len() as int, lo, n2);
                    assert(seeded_at(self, parent as int, ocl, i as int, tree.children@[i as int], lo, n2));
                    assert forall|k: int| 0 <= k < i + 1 implies seeded_at(
                        self, parent as int, ocl, k, #[trigger] tree.children@[k], lo, n2,
                    ) by {
                        if k < i {
                            assert(seeded_at(&s0, parent as int, ocl, k, tree.children@[k], lo, s0.entries@.len() as int));
                            let pair = s0.children_of(parent as int)[ocl + k];
                            assert(self.children_of(parent as int)[ocl + k] == pair);
                            lemma_child_frame(&s0, self, parent as int, pair, tree.children@[k], lo, s0.entries@.len() as int, n2);
                        }
                    }
                    assert forall|j: int| 0 <= j < old(self).entries@.len() && j != parent implies
                        #[trigger] self.entry(j) == old(self).entry(j) by {
                        assert(s1.entry(j) == s0.entry(j));
                    }
                    assert forall|j: int| 0 <= j < self.entries@.len() implies
                        (#[trigger] self.entry(j) is HttpFile) == (j < old(self).entries@.len() && old(self).entry(j) is HttpFile) by {
                        assert(self.entry(j) is HttpFile == (j < s1.entries@.len() && s1.entry(j) is HttpFile));
                        if j < s0.entries@.len() && j != parent as int {
                            assert(s1.entry(j) == s0.entry(j));
                        }
                    }
                    assert(self.children_of(parent as int).subrange(0, ocl) =~= old(self).children_of(parent as int)) by {
                        assert(s0.children_of(parent as int).subrange(0, ocl) == old(self).children_of(parent as int));
                    }
                    if old(self).id_counter + (n2 - lo) <= u64::MAX {
                        assert(ids_in_order(&s0, old(self).id_counter, lo, s0.entries@.len() as int));
                        assert(s1.id_counter == old(self).id_counter + (s1.entries@.len() - lo));
                        assert(ids_in_order(self, s1.id_counter, s1.entries@.len() as int, n2));
                        assert forall|j: int| lo <= j < n2 implies #[trigger] self.stat_of(j).id == old(self).id_counter + (j - lo) by {
                            if j < s0.entries@.len() {
                                assert(s1.entry(j) == s0.entry(j));
                                assert(self.entry(j) == s0.entry(j));
                                assert(s0.stat_of(j).id == old(self).id_counter + (j - lo));
                            } else if j == d as int {
                                assert(self.stat_of(j) == s1.stat_of(j));
                                assert(s1.stat_of(j).id == id);
                            } else {
                                assert(self.stat_of(j).id == s1.id_counter + (j - s1.entries@.len()));
                            }
                        }
                    }
                }
            } else {
                let stat = Stat::new(id, 0, Some(parent), now);
                let f = Entry::File(FileEntry::new(stat));
                assert(entry_in_bounds(f, self.entries@.len(), self.streams@.len()));
                let c = self.push_entry(f);
                let ghost s1 = *self;
                self.add_child(parent, name, c);
                proof {
                    let n2 = self.entries@.len() as int;
                    assert(self.children_of(parent as int) =~= s0.children_of(parent as int).push((name, c)));
                    assert forall|j: int| lo <= j < s0.entries@.len() implies #[trigger] self.entry(j) == s0.entry(j) by {
                        assert(self.entry(j) == s1.entry(j));
                    }
                    assert forall|k: int| 0 <= k < i + 1 implies seeded_at(
                        self, parent as int, ocl, k, #[trigger] tree.children@[k], lo, n2,
                    ) by {
                        if k < i {
                            assert(seeded_at(&s0, parent as int, ocl, k, tree.children@[k], lo, s0.entries@.len() as int));
                            let pair = s0.children_of(parent as int)[ocl + k];
                            assert(self.children_of(parent as int)[ocl + k] == pair);
                            lemma_child_frame(&s0, self, parent as int, pair, tree.children@[k], lo, s0.entries@.len() as int, n2);
                        } else {
                            assert(self.entry(c as int) == s1.entry(c as int));
                        }
                    }
                    assert forall|j: int| 0 <= j < old(self).entries@.len() && j != parent implies
                        #[trigger] self.entry(j) == old(self).entry(j) by {
                        assert(self.entry(j) == s1.entry(j));
                        assert(s1.entry(j) == s0.entry(j));
                    }
                    assert forall|j: int| 0 <= j < self.entries@.len() implies
                        (#[trigger] self.entry(j) is HttpFile) == (j < old(self).entries@.len() && old(self).entry(j) is HttpFile) by {
                        if j != parent as int {
                            assert(self.entry(j) == s1.entry(j));
                            if j < s0.entries@.len() {
                                assert(s1.entry(j) == s0.entry(j));
                            }
                        }
                    }
                    assert(self.children_of(parent as int).subrange(0, ocl) =~= old(self).children_of(parent as int)) by {
                        assert(s0.children_of(parent as int).subrange(0, ocl) == old(self).children_of(parent as int));
                    }
                    if old(self).id_counter + (n2 - lo) <= u64::MAX {
                        assert(ids_in_order(&s0, old(self).id_counter, lo, s0.entries@.len() as int));
                        assert forall|j: int| lo <= j < n2 implies #[trigger] self.stat_of(j).id == old(self).id_counter + (j - lo) by {
                            assert(self.entry(j) == s1.entry(j));
                            if j < s0.entries@.len() {
                                assert(s1.entry(j) == s0.entry(j));
                                assert(s0.stat_of(j).id == old(self).id_counter + (j - lo));
                            } else {
                                assert(s1.stat_of(j).id == id);
                            }
                        }
                    }
                }
            }
            i += 1;
        }
    }

    /// Seeds the tree from `tree`, whose root stands for the root directory:
    /// the root gains the seeded form of each of its children, at every
    /// level; no HttpFile is made; the new entries get distinct ids unless
    /// the id counter wraps.
    pub fn build_tree(&mut self, tree: &DirTree, now: u64)
        requires
            old(self).wf(),
            seed_ok(*tree),
            forall|k: int| 0 <= k < tree.children@.len() ==> crate::fs::find_name(
                old(self).children_of(ROOT as int),
                name_units((#[trigger] tree.children@[k]).name@),
            ) is None,
        ensures
            final(self).wf(),
            final(self).streams == old(self).streams,
            final(self).entries@.len() >= old(self).entries@.len(),
            final(self).children_of(ROOT as int).len() == old(self).children_of(ROOT as int).len() + tree.children@.len(),
            final(self).children_of(ROOT as int).subrange(0, old(self).children_of(ROOT as int).len() as int)
                == old(self).children_of(ROOT as int),
            forall|k: int| 0 <= k < tree.children@.len() ==> seeded_at(
                final(self),
                ROOT as int,
                old(self).children_of(ROOT as int).len() as int,
                k,
                #[trigger] tree.children@[k],
                old(self).entries@.len() as int,
                final(self).entries@.len() as int,
            ),
            forall|i: int| 0 <= i < final(self).entries@.len() ==>
                (#[trigger] final(self).entry(i) is HttpFile) == (i < old(self).entries@.len() && old(self).entry(i) is HttpFile),
            old(self).id_counter + (final(self).entries@.len() - old(self).entries@.len()) <= u64::MAX ==> forall|i: int, j: int|
                old(self).entries@.len() <= i < j < final(self).entries@.len()
                    ==> #[trigger] final(self).stat_of(i).id != #[trigger] final(self).stat_of(j).id,
    {
        self.add_subtree(ROOT, tree, now);
    }
}

} // verus!
