//! Access to a disk as a run of bytes.
use vstd::prelude::*;

use crate::bytes::spliced;
use crate::fat::entry::DirEntry;

verus! {

/// A disk that can be read and written at any byte.
pub trait DiskIO {
    /// All bytes of the disk.
    spec fn image(&self) -> Seq<u8>;

    fn read(&mut self, offset: u32, len: u32) -> (r: Vec<u8>)
        requires
            offset + len <= old(self).image().len(),
        ensures
            r@ == old(self).image().subrange(offset as int, offset + len),
            final(self).image() == old(self).image(),
    ;

    fn write(&mut self, offset: u32, data: &[u8])
        requires
            offset + data@.len() <= old(self).image().len(),
        ensures
            final(self).image() == spliced(old(self).image(), offset as int, data@),
    ;
}

/// A disk held in memory.
pub struct MemoryDisk {
    pub bytes: Vec<u8>,
}

impl DiskIO for MemoryDisk {
    open spec fn image(&self) -> Seq<u8> {
        self.bytes@
    }

    fn read(&mut self, offset: u32, len: u32) -> (r: Vec<u8>) {
        let from: usize = offset as usize;
        let size: usize = self.bytes.len();
        crate::text::sub_bytes(self.bytes.as_slice(), from, from + len as usize)
    }

    fn write(&mut self, offset: u32, data: &[u8]) {
        let size: usize = self.bytes.len();
        crate::console::graphics::copy_span(
            self.bytes.as_mut_slice(), offset as usize, data, 0, data.len(),
        );
        assert(data@.subrange(0, data@.len() as int) =~= data@);
    }
}

/// Typed access to a disk.
pub struct DiskAccess<D: DiskIO> {
    pub io: D,
}

impl<D: DiskIO> DiskAccess<D> {
    pub open spec fn image(&self) -> Seq<u8> {
        self.io.image()
    }

    pub fn new(io: D) -> (r: Self)
        ensures
            r.io == io,
    {
        DiskAccess { io }
    }

    /// Read the directory entry at a byte offset.
    pub fn read_struct_from_disk(&mut self, offset: u32) -> (r: DirEntry)
        requires
            offset + 32 <= old(self).image().len(),
        ensures
            r@ == old(self).image().subrange(offset as int, offset + 32),
            final(self).image() == old(self).image(),
    {
        let bytes: Vec<u8> = self.io.read(offset, 32);
        let mut raw: [u8; 32] = [0u8; 32];
        let mut i: usize = 0;
        while i < 32
            invariant
                i <= 32,
                bytes@.len() == 32,
                forall|k: int| 0 <= k < i ==> raw@[k] == bytes@[k],
            decreases 32 - i,
        {
            raw[i] = bytes[i];
            i += 1;
        }
        assert(raw@ =~= bytes@);
        DirEntry { raw }
    }

    /// Write a directory entry at a byte offset.
    pub fn write_struct_to_disk(&mut self, offset: u32, entry: &DirEntry)
        requires
            offset + 32 <= old(self).image().len(),
        ensures
            final(self).image() == spliced(old(self).image(), offset as int, entry@),
    {
        self.io.write(offset, entry.raw.as_slice());
    }

    pub fn read_bytes_from_disk(&mut self, offset: u32, len: u32) -> (r: Vec<u8>)
        requires
            offset + len <= old(self).image().len(),
        ensures
            r@ == old(self).image().subrange(offset as int, offset + len),
            final(self).image() == old(self).image(),
    {
        self.io.read(offset, len)
    }

    pub fn write_bytes_to_disk(&mut self, offset: u32, data: &[u8])
        requires
            offset + data@.len() <= old(self).image().len(),
        ensures
            final(self).image() == spliced(old(self).image(), offset as int, data@),
    {
        self.io.write(offset, data);
    }
}

} // verus!
