use vstd::prelude::*;

verus! {

pub const FILE_ATTRIBUTE_READONLY: u32 = 0x1;
pub const FILE_ATTRIBUTE_HIDDEN: u32 = 0x2;
pub const FILE_ATTRIBUTE_SYSTEM: u32 = 0x4;
pub const FILE_ATTRIBUTE_DIRECTORY: u32 = 0x10;
pub const FILE_ATTRIBUTE_ARCHIVE: u32 = 0x20;
pub const FILE_ATTRIBUTE_NORMAL: u32 = 0x80;
pub const FILE_ATTRIBUTE_TEMPORARY: u32 = 0x100;
pub const FILE_ATTRIBUTE_OFFLINE: u32 = 0x1000;
pub const FILE_ATTRIBUTE_NOT_CONTENT_INDEXED: u32 = 0x2000;

/// The attribute bits that an entry may carry.
pub const SUPPORTED_ATTRS: u32 = 0x31a7;

/// A named secondary data container attached to an entry.
pub struct AltStream {
    pub handle_count: u32,
    pub delete_pending: bool,
    pub data: Vec<u8>,
    /// Authoritative size; it may be known before `data` reaches it.
    pub content_length: u64,
    pub ctime: u64,
}

impl AltStream {
    pub fn new() -> (r: Self)
        ensures
            r.handle_count == 0,
            !r.delete_pending,
            r.data@.len() == 0,
            r.content_length == 0,
            r.ctime == 0,
    {
        AltStream { handle_count: 0, delete_pending: false, data: Vec::new(), content_length: 0, ctime: 0 }
    }
}

/// A masked set of file-attribute flags.
#[derive(Clone, Copy, PartialEq, Eq, Structural, Debug)]
pub struct Attributes {
    pub value: u32,
}

pub open spec fn output_attrs(value: u32, is_dir: bool) -> u32 {
    let v = if is_dir { value | FILE_ATTRIBUTE_DIRECTORY } else { value };
    if v == 0 { FILE_ATTRIBUTE_NORMAL } else { v }
}

impl Attributes {
    pub fn new(attrs: u32) -> (r: Self)
        ensures
            r.value == attrs & SUPPORTED_ATTRS,
    {
        Attributes { value: attrs & SUPPORTED_ATTRS }
    }

    /// The mask as reported to callers: the directory bit injected, and
    /// `normal` in place of an otherwise empty mask.
    pub fn get_output_attrs(&self, is_dir: bool) -> (r: u32)
        ensures
            r == output_attrs(self.value, is_dir),
            r != 0,
    {
        let v = self.value;
        let mut attrs = v;
        if is_dir {
            attrs = v | FILE_ATTRIBUTE_DIRECTORY;
            assert(attrs != 0) by (bit_vector)
                requires attrs == v | 0x10u32;
        }
        if attrs == 0 {
            attrs = FILE_ATTRIBUTE_NORMAL;
        }
        attrs
    }
}

/// Per-entry metadata. Times are ticks handed in by the host.
pub struct Stat {
    pub id: u64,
    pub attrs: Attributes,
    pub ctime: u64,
    pub mtime: u64,
    pub atime: u64,
    pub handle_count: u32,
    pub delete_pending: bool,
    /// Arena index of the parent directory; `None` only for the root.
    pub parent: Option<usize>,
    /// Stream name and arena index of each alternate stream.
    pub alt_streams: Vec<(Vec<u16>, usize)>,
}

impl Stat {
    pub fn new(id: u64, attrs: u32, parent: Option<usize>, now: u64) -> (r: Self)
        ensures
            r.id == id,
            r.attrs.value == attrs & SUPPORTED_ATTRS,
            r.ctime == now && r.mtime == now && r.atime == now,
            r.handle_count == 0,
            !r.delete_pending,
            r.parent == parent,
            r.alt_streams@.len() == 0,
    {
        Stat {
            id,
            attrs: Attributes::new(attrs),
            ctime: now,
            mtime: now,
            atime: now,
            handle_count: 0,
            delete_pending: false,
            parent,
            alt_streams: Vec::new(),
        }
    }

    pub fn update_atime(&mut self, atime: u64)
        ensures
            *final(self) == (Stat { atime, ..*old(self) }),
    {
        self.atime = atime;
    }

    pub fn update_mtime(&mut self, mtime: u64)
        ensures
            *final(self) == (Stat { atime: mtime, mtime, ..*old(self) }),
    {
        self.update_atime(mtime);
        self.mtime = mtime;
    }
}

} // verus!
