use vstd::prelude::*;

use crate::metadata::Stat;

verus! {

/// A local file whose content is fully resident.
pub struct FileEntry {
    pub stat: Stat,
    pub data: Vec<u8>,
}

impl FileEntry {
    pub fn new(stat: Stat) -> (r: Self)
        ensures
            r.stat == stat,
            r.data@.len() == 0,
    {
        FileEntry { stat, data: Vec::new() }
    }
}

/// A file backed by the remote origin; its bytes live in a bound stream.
pub struct HttpFileEntry {
    pub stat: Stat,
    pub download_pending: bool,
    pub data_cache: Option<Vec<u8>>,
}

impl HttpFileEntry {
    pub open spec fn cache(&self) -> Option<Seq<u8>> {
        match self.data_cache {
            Some(d) => Some(d@),
            None => None,
        }
    }

    pub fn new(stat: Stat) -> (r: Self)
        ensures
            r.stat == stat,
            r.download_pending,
            r.cache() is None,
    {
        HttpFileEntry { stat, download_pending: true, data_cache: None }
    }

    pub fn data_len(&self) -> (r: usize)
        ensures
            r == match self.cache() {
                Some(d) => d.len(),
                None => 0,
            },
    {
        match &self.data_cache {
            Some(d) => d.len(),
            None => 0,
        }
    }

    pub fn get_data(&self) -> (r: Option<Vec<u8>>)
        ensures
            match r {
                Some(d) => self.cache() == Some(d@),
                None => self.cache() is None,
            },
    {
        match &self.data_cache {
            Some(d) => Some(copy_bytes(d)),
            None => None,
        }
    }
}

/// A directory: child names with the arena index of each child.
pub struct DirEntry {
    pub stat: Stat,
    pub children: Vec<(Vec<u16>, usize)>,
}

impl DirEntry {
    pub fn new(stat: Stat) -> (r: Self)
        ensures
            r.stat == stat,
            r.children@.len() == 0,
    {
        DirEntry { stat, children: Vec::new() }
    }
}

/// A node of the tree.
pub enum Entry {
    File(FileEntry),
    HttpFile(HttpFileEntry),
    Directory(DirEntry),
}

impl Entry {
    pub open spec fn spec_stat(&self) -> Stat {
        match self {
            Entry::File(f) => f.stat,
            Entry::HttpFile(h) => h.stat,
            Entry::Directory(d) => d.stat,
        }
    }

    pub open spec fn with_stat(self, s: Stat) -> Entry {
        match self {
            Entry::File(f) => Entry::File(FileEntry { stat: s, ..f }),
            Entry::HttpFile(h) => Entry::HttpFile(HttpFileEntry { stat: s, ..h }),
            Entry::Directory(d) => Entry::Directory(DirEntry { stat: s, ..d }),
        }
    }

    pub fn stat(&self) -> (r: &Stat)
        ensures
            *r == self.spec_stat(),
    {
        match self {
            Entry::File(f) => &f.stat,
            Entry::HttpFile(h) => &h.stat,
            Entry::Directory(d) => &d.stat,
        }
    }

    pub fn stat_mut(&mut self) -> (r: &mut Stat)
        ensures
            *r == old(self).spec_stat(),
            *final(self) == old(self).with_stat(*final(r)),
    {
        match self {
            Entry::File(f) => &mut f.stat,
            Entry::HttpFile(h) => &mut h.stat,
            Entry::Directory(d) => &mut d.stat,
        }
    }

    pub fn is_dir(&self) -> (r: bool)
        ensures
            r == (self is Directory),
    {
        match self {
            Entry::Directory(_) => true,
            _ => false,
        }
    }
}

/// A fresh copy of a byte buffer.
pub fn copy_bytes(d: &Vec<u8>) -> (r: Vec<u8>)
    ensures
        r@ == d@,
{
    let mut r: Vec<u8> = Vec::new();
    let mut i: usize = 0;
    while i < d.len()
        invariant
            i <= d@.len(),
            r@ == d@.subrange(0, i as int),
        decreases d@.len() - i,
    {
        r.push(d[i]);
        i += 1;
    }
    assert(r@ =~= d@);
    r
}

} // verus!
