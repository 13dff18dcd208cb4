use vstd::prelude::*;

use crate::fs::{entry_in_bounds, MemFsHandler};
use crate::handle::EntryHandle;
use crate::metadata::Stat;

verus! {

/// `k` is the first position in `v` that holds index `id`.
pub open spec fn is_first_id(v: Seq<(Vec<u16>, usize)>, id: usize, k: int) -> bool {
    0 <= k < v.len() && v[k].1 == id && forall|j: int| 0 <= j < k ==> v[j].1 != id
}

/// The position of the first pair of `v` that holds index `id`.
pub fn find_id(v: &Vec<(Vec<u16>, usize)>, id: usize) -> (r: Option<usize>)
    ensures
        match r {
            Some(k) => is_first_id(v@, id, k as int),
            None => forall|j: int| 0 <= j < v@.len() ==> v@[j].1 != id,
        },
{
    let mut k: usize = 0;
    while k < v.len()
        invariant
            k <= v@.len(),
            forall|j: int| 0 <= j < k ==> v@[j].1 != id,
        decreases v@.len() - k,
    {
        if v[k].1 == id {
            return Some(k);
        }
        k += 1;
    }
    None
}

/// `w` is `v` without its first pair holding `id` (unchanged if none does).
pub open spec fn without_id(v: Seq<(Vec<u16>, usize)>, w: Seq<(Vec<u16>, usize)>, id: usize) -> bool {
    if exists|k: int| is_first_id(v, id, k) {
        w == v.remove(choose|k: int| is_first_id(v, id, k))
    } else {
        w == v
    }
}

proof fn lemma_some_first_id(v: Seq<(Vec<u16>, usize)>, id: usize, j: int)
    requires
        0 <= j < v.len(),
        v[j].1 == id,
    ensures
        exists|k: int| is_first_id(v, id, k),
    decreases j,
{
    if exists|q: int| 0 <= q < j && v[q].1 == id {
        let q = choose|q: int| 0 <= q < j && v[q].1 == id;
        lemma_some_first_id(v, id, q);
    } else {
        assert(is_first_id(v, id, j));
    }
}

proof fn lemma_first_id_unique(v: Seq<(Vec<u16>, usize)>, id: usize, k: int)
    requires
        is_first_id(v, id, k),
    ensures
        (choose|c: int| is_first_id(v, id, c)) == k,
{
    let c = choose|c: int| is_first_id(v, id, c);
    assert(is_first_id(v, id, c));
    if c < k {
        assert(v[c].1 != id);
    } else if k < c {
        assert(v[k].1 != id);
    }
}

/// `p` is one of the pairs of `v`.
pub open spec fn pair_in(v: Seq<(Vec<u16>, usize)>, p: (Vec<u16>, usize)) -> bool {
    exists|j: int| 0 <= j < v.len() && #[trigger] v[j] == p
}

/// What closing the last handle decides for an entry or stream: whether it
/// is removed.
pub open spec fn removed_at_close(delete_pending: bool, handle_count: u32) -> bool {
    delete_pending && handle_count == 0
}

/// How one open (`open`) or one disposal changes an entry's handle count,
/// as `create_file` and `dispose_handle` state it.
pub open spec fn handle_step(before: u32, after: u32, open: bool) -> bool {
    if open {
        after == before + 1
    } else {
        after == if before > 0 { before - 1 } else { 0 }
    }
}

/// Opens minus disposals among the first `k` operations.
pub open spec fn open_balance(ops: Seq<bool>, k: int) -> int
    decreases k,
{
    if k <= 0 {
        0
    } else {
        open_balance(ops, k - 1) + if ops[k - 1] { 1int } else { -1int }
    }
}

/// Along any sequence of opens and disposals of one entry that starts with
/// no handles and never disposes more handles than were opened, the handle
/// count is the number of sessions still open; once every session is
/// disposed it is back at zero.
pub proof fn lemma_handle_count_balance(counts: Seq<u32>, ops: Seq<bool>)
    requires
        counts.len() == ops.len() + 1,
        counts[0] == 0,
        forall|i: int| 0 <= i < ops.len() ==> handle_step(#[trigger] counts[i], counts[i + 1], ops[i]),
        forall|k: int| 0 <= k <= ops.len() ==> #[trigger] open_balance(ops, k) >= 0,
    ensures
        forall|k: int| 0 <= k <= ops.len() ==> #[trigger] counts[k] == open_balance(ops, k),
        open_balance(ops, ops.len() as int) == 0 ==> counts[ops.len() as int] == 0,
    decreases ops.len(),
{
    if ops.len() > 0 {
        let n = ops.len() - 1;
        let c = counts.drop_last();
        let o = ops.drop_last();
        assert forall|k: int| 0 <= k <= o.len() implies #[trigger] open_balance(o, k) == open_balance(ops, k) by {
            lemma_balance_prefix(o, ops, k);
        }
        assert forall|i: int| 0 <= i < o.len() implies handle_step(#[trigger] c[i], c[i + 1], o[i]) by {
            assert(handle_step(counts[i], counts[i + 1], ops[i]));
        }
        assert forall|k: int| 0 <= k <= o.len() implies #[trigger] open_balance(o, k) >= 0 by {
            assert(open_balance(ops, k) >= 0);
        }
        lemma_handle_count_balance(c, o);
        assert(counts[n] == open_balance(ops, n)) by {
            assert(c[n] == open_balance(o, n));
        }
        assert(handle_step(counts[n], counts[n + 1], ops[n]));
        assert(open_balance(ops, n + 1) >= 0);
        assert forall|k: int| 0 <= k <= ops.len() implies #[trigger] counts[k] == open_balance(ops, k) by {
            if k <= n {
                assert(c[k] == open_balance(o, k));
            }
        }
    }
}

proof fn lemma_balance_prefix(o: Seq<bool>, ops: Seq<bool>, k: int)
    requires
        o.len() <= ops.len(),
        forall|i: int| 0 <= i < o.len() ==> o[i] == ops[i],
        0 <= k <= o.len(),
    ensures
        open_balance(o, k) == open_balance(ops, k),
    decreases k,
{
    if k > 0 {
        lemma_balance_prefix(o, ops, k - 1);
    }
}

impl MemFsHandler {
    /// Close: commits the session's delayed timestamps, keeping the later
    /// of each delayed value and the current one.
    pub fn close_file(&mut self, h: &EntryHandle)
        requires
            old(self).wf(),
            h.entry < old(self).entries@.len(),
        ensures
            final(self).wf(),
            final(self).entries@ == old(self).entries@.update(h.entry as int, final(self).entry(h.entry as int)),
            final(self).entry(h.entry as int) == old(self).entry(h.entry as int).with_stat(crate::metadata::Stat {
                mtime: match h.mtime_delayed {
                    Some(m) => if m > old(self).stat_of(h.entry as int).mtime { m } else { old(self).stat_of(h.entry as int).mtime },
                    None => old(self).stat_of(h.entry as int).mtime,
                },
                atime: match h.atime_delayed {
                    Some(a) => if a > old(self).stat_of(h.entry as int).atime { a } else { old(self).stat_of(h.entry as int).atime },
                    None => old(self).stat_of(h.entry as int).atime,
                },
                ..old(self).stat_of(h.entry as int)
            }),
            final(self).streams == old(self).streams,
            final(self).existing_readonly == old(self).existing_readonly,
            final(self).id_counter == old(self).id_counter,
    {
        let e = h.entry;
        {
            let st = self.entries[e].stat_mut();
            match h.mtime_delayed {
                Some(m) => {
                    if m > st.mtime {
                        st.mtime = m;
                    }
                },
                None => {},
            }
            match h.atime_delayed {
                Some(a) => {
                    if a > st.atime {
                        st.atime = a;
                    }
                },
                None => {},
            }
        }
        proof {
            assert(entry_in_bounds(old(self).entries@[e as int], old(self).entries@.len(), old(self).streams@.len()));
            crate::fs::lemma_wf_replace(old(self), self, e as int);
        }
    }

    /// Takes the first child of directory `d` that is entry `e` out of `d`.
    pub fn remove_child_id(&mut self, d: usize, e: usize)
        requires
            old(self).wf(),
            d < old(self).entries@.len(),
        ensures
            final(self).wf(),
            final(self).entries@ == old(self).entries@.update(d as int, final(self).entry(d as int)),
            final(self).stat_of(d as int) == old(self).stat_of(d as int),
            final(self).entry(d as int) is Directory == old(self).entry(d as int) is Directory,
            final(self).entry(d as int) is File == old(self).entry(d as int) is File,
            without_id(old(self).children_of(d as int), final(self).children_of(d as int), e),
            (exists|k: int| is_first_id(old(self).children_of(d as int), e, k))
                ==> final(self).children_of(d as int).len() == old(self).children_of(d as int).len() - 1,
            final(self).streams == old(self).streams,
            final(self).existing_readonly == old(self).existing_readonly,
            final(self).id_counter == old(self).id_counter,
            final(self).url == old(self).url,
    {
        let ghost v = old(self).children_of(d as int);
        match &mut self.entries[d] {
            crate::entry::Entry::Directory(dir) => {
                match find_id(&dir.children, e) {
                    Some(k) => {
                        dir.children.remove(k);
                        proof {
                            lemma_first_id_unique(v, e, k as int);
                        }
                    },
                    None => {},
                }
            },
            _ => {},
        }
        proof {
            assert(entry_in_bounds(old(self).entries@[d as int], old(self).entries@.len(), old(self).streams@.len()));
            let w = self.children_of(d as int);
            assert forall|k: int| 0 <= k < w.len() implies (#[trigger] w[k]).1 < self.entries@.len() by {
                if exists|c: int| is_first_id(v, e, c) {
                    let c = choose|c: int| is_first_id(v, e, c);
                    if k < c {
                        assert(w[k] == v[k]);
                    } else {
                        assert(w[k] == v[k + 1]);
                    }
                } else {
                    assert(w[k] == v[k]);
                }
            }
            crate::fs::lemma_wf_replace(old(self), self, d as int);
        }
    }

    /// Whether directory `d` lists entry `e`.
    pub fn lists_child(&self, d: usize, e: usize) -> (r: bool)
        requires
            d < self.entries@.len(),
        ensures
            r == exists|k: int| 0 <= k < self.children_of(d as int).len() && #[trigger] self.children_of(d as int)[k].1 == e,
    {
        match &self.entries[d] {
            crate::entry::Entry::Directory(dir) => {
                assert(dir.children@ == self.children_of(d as int));
                match find_id(&dir.children, e) {
                    Some(k) => {
                        assert(dir.children@[k as int].1 == e);
                        true
                    },
                    None => false,
                }
            },
            _ => {
                assert(self.children_of(d as int).len() == 0);
                false
            },
        }
    }

    /// Takes every listing of entry `e` out of directory `d`.
    pub fn unlist(&mut self, d: usize, e: usize)
        requires
            old(self).wf(),
            d < old(self).entries@.len(),
        ensures
            final(self).wf(),
            final(self).entries@.len() == old(self).entries@.len(),
            forall|i: int| 0 <= i < old(self).entries@.len() && i != d ==> #[trigger] final(self).entry(i) == old(self).entry(i),
            final(self).stat_of(d as int) == old(self).stat_of(d as int),
            final(self).entry(d as int) is Directory == old(self).entry(d as int) is Directory,
            forall|k: int| 0 <= k < final(self).children_of(d as int).len() ==> (#[trigger] final(self).children_of(d as int)[k]).1 != e,
            forall|k: int| 0 <= k < final(self).children_of(d as int).len()
                ==> pair_in(old(self).children_of(d as int), #[trigger] final(self).children_of(d as int)[k]),
            final(self).streams == old(self).streams,
            final(self).existing_readonly == old(self).existing_readonly,
            final(self).id_counter == old(self).id_counter,
            final(self).url == old(self).url,
    {
        assert forall|k: int| 0 <= k < self.children_of(d as int).len()
            implies pair_in(old(self).children_of(d as int), #[trigger] self.children_of(d as int)[k]) by {
            assert(self.children_of(d as int)[k] == old(self).children_of(d as int)[k]);
        }
        while self.lists_child(d, e)
            invariant
                self.wf(),
                d < self.entries@.len(),
                self.entries@.len() == old(self).entries@.len(),
                forall|i: int| 0 <= i < old(self).entries@.len() && i != d ==> #[trigger] self.entry(i) == old(self).entry(i),
                self.stat_of(d as int) == old(self).stat_of(d as int),
                self.entry(d as int) is Directory == old(self).entry(d as int) is Directory,
                self.streams == old(self).streams,
                self.existing_readonly == old(self).existing_readonly,
                self.id_counter == old(self).id_counter,
                self.url == old(self).url,
                forall|k: int| 0 <= k < self.children_of(d as int).len()
                    ==> pair_in(old(self).children_of(d as int), #[trigger] self.children_of(d as int)[k]),
            decreases self.children_of(d as int).len(),
        {
            let ghost before = *self;
            let ghost k0 = choose|k: int| 0 <= k < before.children_of(d as int).len() && #[trigger] before.children_of(d as int)[k].1 == e;
            proof {
                let v = before.children_of(d as int);
                if !exists|k: int| is_first_id(v, e, k) {
                    assert(!is_first_id(v, e, k0));
                    lemma_some_first_id(v, e, k0);
                }
            }
            self.remove_child_id(d, e);
            proof {
                assert forall|i: int| 0 <= i < old(self).entries@.len() && i != d implies #[trigger] self.entry(i) == old(self).entry(i) by {
                    assert(self.entry(i) == before.entry(i));
                }
                crate::rename::lemma_without_id_subset(before.children_of(d as int), self.children_of(d as int), e);
                assert forall|k: int| 0 <= k < self.children_of(d as int).len()
                    implies pair_in(old(self).children_of(d as int), #[trigger] self.children_of(d as int)[k]) by {
                    let q = choose|q: int| 0 <= q < before.children_of(d as int).len()
                        && #[trigger] self.children_of(d as int)[k] == before.children_of(d as int)[q];
                    assert(pair_in(old(self).children_of(d as int), before.children_of(d as int)[q]));
                }
            }
        }
    }

    /// Takes the first stream-map pair of entry `e` naming stream `s` out of
    /// the map.
    pub fn remove_stream_id(&mut self, e: usize, s: usize)
        requires
            old(self).wf(),
            e < old(self).entries@.len(),
        ensures
            final(self).wf(),
            final(self).entries@ == old(self).entries@.update(e as int, final(self).entry(e as int)),
            final(self).entry(e as int) == old(self).entry(e as int).with_stat(crate::metadata::Stat {
                alt_streams: final(self).stat_of(e as int).alt_streams,
                ..old(self).stat_of(e as int)
            }),
            without_id(old(self).stat_of(e as int).alt_streams@, final(self).stat_of(e as int).alt_streams@, s),
            final(self).streams == old(self).streams,
            final(self).existing_readonly == old(self).existing_readonly,
            final(self).id_counter == old(self).id_counter,
    {
        let ghost v = old(self).stat_of(e as int).alt_streams@;
        let st = self.entries[e].stat_mut();
        match find_id(&st.alt_streams, s) {
            Some(k) => {
                st.alt_streams.remove(k);
                proof {
                    lemma_first_id_unique(v, s, k as int);
                }
            },
            None => {},
        }
        proof {
            assert(entry_in_bounds(old(self).entries@[e as int], old(self).entries@.len(), old(self).streams@.len()));
            let x = self.entries@[e as int];
            let w = x.spec_stat().alt_streams@;
            assert forall|k: int| 0 <= k < w.len() implies (#[trigger] w[k]).1 < self.streams@.len() by {
                if exists|c: int| is_first_id(v, s, c) {
                    let c = choose|c: int| is_first_id(v, s, c);
                    if k < c {
                        assert(w[k] == v[k]);
                    } else {
                        assert(w[k] == v[k + 1]);
                    }
                } else {
                    assert(w[k] == v[k]);
                }
            }
            assert(entry_in_bounds(x, old(self).entries@.len(), old(self).streams@.len()));
            crate::fs::lemma_wf_replace(old(self), self, e as int);
        }
    }

    /// Handle disposal. The entry's delete-on-close intent is applied and its
    /// handle count dropped; an entry left pending with no handles leaves its
    /// parent's children (the root, having no parent, only loses the
    /// pending mark). A bound stream goes through the same steps against the
    /// entry's stream map.
    #[verifier::rlimit(80)]
    pub fn dispose_handle(&mut self, h: EntryHandle, now: u64)
        requires
            old(self).wf(),
            h.entry < old(self).entries@.len(),
            h.alt_stream matches Some(s) ==> s < old(self).streams@.len(),
        ensures
            final(self).wf(),
            final(self).entries@.len() == old(self).entries@.len(),
            final(self).streams@.len() == old(self).streams@.len(),
            final(self).existing_readonly == old(self).existing_readonly,
            final(self).id_counter == old(self).id_counter,
            ({
                let e = h.entry as int;
                let st0 = old(self).stat_of(e);
                let pending = st0.delete_pending || (h.delete_on_close && h.alt_stream is None);
                let count = if st0.handle_count > 0 { (st0.handle_count - 1) as u32 } else { 0u32 };
                let gone = removed_at_close(pending, count) && st0.parent is Some && st0.parent != Some(h.entry);
                &&& final(self).stat_of(e).handle_count == count
                &&& final(self).stat_of(e).id == st0.id && final(self).stat_of(e).attrs == st0.attrs
                &&& final(self).stat_of(e).ctime == st0.ctime && final(self).stat_of(e).parent == st0.parent
                &&& handle_step(st0.handle_count, final(self).stat_of(e).handle_count, false)
                &&& final(self).entry(e) is Directory == old(self).entry(e) is Directory
                &&& final(self).entry(e) is File == old(self).entry(e) is File
                &&& gone ==> {
                    let p = st0.parent.unwrap() as int;
                    &&& final(self).stat_of(e).delete_pending
                    &&& without_id(old(self).children_of(p), final(self).children_of(p), h.entry)
                    &&& final(self).stat_of(p).mtime == now
                    &&& final(self).stat_of(p) == (Stat { mtime: now, atime: now, ..old(self).stat_of(p) })
                    &&& final(self).entry(p) is Directory == old(self).entry(p) is Directory
                    &&& forall|i: int| 0 <= i < old(self).entries@.len() && i != p
                        ==> #[trigger] final(self).children_of(i) == old(self).children_of(i)
                    &&& forall|i: int| 0 <= i < old(self).entries@.len() && i != p && i != e
                        ==> #[trigger] final(self).entry(i) == old(self).entry(i)
                }
                &&& !gone ==> {
                    &&& forall|i: int| 0 <= i < old(self).entries@.len() && i != e
                        ==> #[trigger] final(self).entry(i) == old(self).entry(i)
                    &&& !final(self).stat_of(e).delete_pending
                    &&& forall|i: int| 0 <= i < old(self).entries@.len()
                        ==> #[trigger] final(self).children_of(i) == old(self).children_of(i)
                }
                &&& match h.alt_stream {
                    Some(s) => {
                        let ss0 = old(self).streams@[s as int];
                        let spending = ss0.delete_pending || h.delete_on_close;
                        let scount = if ss0.handle_count > 0 { (ss0.handle_count - 1) as u32 } else { 0u32 };
                        &&& final(self).streams@[s as int].handle_count == scount
                        &&& final(self).streams@[s as int].delete_pending == spending
                        &&& final(self).streams@[s as int].data == ss0.data
                        &&& final(self).streams@[s as int].content_length == ss0.content_length
                        &&& removed_at_close(spending, scount)
                            ==> without_id(st0.alt_streams@, final(self).stat_of(e).alt_streams@, s)
                        &&& !removed_at_close(spending, scount)
                            ==> final(self).stat_of(e).alt_streams@ == st0.alt_streams@
                        &&& final(self).stat_of(e).mtime == now
                        &&& final(self).stat_of(e).atime
                            == if removed_at_close(spending, scount) && h.atime_enabled { now } else { st0.atime }
                    },
                    None => {
                        &&& final(self).streams == old(self).streams
                        &&& final(self).stat_of(e).alt_streams@ == st0.alt_streams@
                        &&& final(self).stat_of(e).mtime == st0.mtime
                        &&& final(self).stat_of(e).atime == st0.atime
                    },
                }
            }),
    {
        let e = h.entry;
        let parent = self.entries[e].stat().parent;
        let ghost st0 = old(self).stat_of(e as int);
        let ghost pending = st0.delete_pending || (h.delete_on_close && h.alt_stream is None);
        let ghost count = if st0.handle_count > 0 { (st0.handle_count - 1) as u32 } else { 0u32 };
        {
            let st = self.entries[e].stat_mut();
            if h.delete_on_close && h.alt_stream.is_none() {
                st.delete_pending = true;
            }
            if st.handle_count > 0 {
                st.handle_count = st.handle_count - 1;
            }
        }
        proof {
            assert(entry_in_bounds(old(self).entries@[e as int], old(self).entries@.len(), old(self).streams@.len()));
            crate::fs::lemma_wf_replace(old(self), self, e as int);
        }
        let ghost s1 = *self;
        let removable = self.entries[e].stat().delete_pending && self.entries[e].stat().handle_count == 0;
        let mut removed = false;
        match parent {
            Some(p) => {
                if removable && p != e {
                    assert(entry_in_bounds(old(self).entries@[e as int], old(self).entries@.len(), old(self).streams@.len()));
                    {
                        let pst = self.entries[p].stat_mut();
                        pst.update_mtime(now);
                    }
                    proof {
                        assert(entry_in_bounds(s1.entries@[p as int], s1.entries@.len(), s1.streams@.len()));
                        crate::fs::lemma_wf_replace(&s1, self, p as int);
                    }
                    self.remove_child_id(p, e);
                    removed = true;
                }
            },
            None => {},
        }
        if !removed {
            let ghost s2 = *self;
            {
                let st = self.entries[e].stat_mut();
                st.delete_pending = false;
            }
            proof {
                assert(entry_in_bounds(s2.entries@[e as int], s2.entries@.len(), s2.streams@.len()));
                crate::fs::lemma_wf_replace(&s2, self, e as int);
            }
        }
        let ghost s3 = *self;
        assert(self.stat_of(e as int).alt_streams@ == st0.alt_streams@);
        match h.alt_stream {
            Some(s) => {
                {
                    let st = self.entries[e].stat_mut();
                    st.mtime = now;
                }
                proof {
                    assert(entry_in_bounds(s3.entries@[e as int], s3.entries@.len(), s3.streams@.len()));
                    crate::fs::lemma_wf_replace(&s3, self, e as int);
                }
                let ghost s4 = *self;
                if h.delete_on_close {
                    self.streams[s].delete_pending = true;
                }
                if self.streams[s].handle_count > 0 {
                    self.streams[s].handle_count = self.streams[s].handle_count - 1;
                }
                proof {
                    crate::fs::lemma_wf_more_streams(&s4, self);
                }
                if self.streams[s].delete_pending && self.streams[s].handle_count == 0 {
                    self.remove_stream_id(e, s);
                    let ghost s5 = *self;
                    {
                        let st = self.entries[e].stat_mut();
                        h.update_atime(st, now);
                    }
                    proof {
                        assert(entry_in_bounds(s5.entries@[e as int], s5.entries@.len(), s5.streams@.len()));
                        crate::fs::lemma_wf_replace(&s5, self, e as int);
                    }
                }
            },
            None => {},
        }
    }
}

} // verus!
