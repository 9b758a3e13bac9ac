//! Where a value lies: a chunk, a block, and a byte range.

use vstd::prelude::*;

verus! {

#[derive(Debug, Clone, Copy, PartialEq, Eq, PartialOrd, Ord)]
pub struct DataLocation {
    pub chunk: u32,
    pub block: u16,
    pub offset: u8,
    pub length: u8,
}

impl DataLocation {
    pub fn new(chunk_id_: u32, block_id_: u16, offset_: u8, length_: u8) -> (r: Self)
        ensures
            r.chunk == chunk_id_,
            r.block == block_id_,
            r.offset == offset_,
            r.length == length_,
    {
        DataLocation { chunk: chunk_id_, block: block_id_, offset: offset_, length: length_ }
    }

    /// The bytes of `bytes` that the location covers.
    pub fn fetch_data(&self, bytes: &[u8]) -> (r: Result<Vec<u8>, &str>)
        requires
            self.offset + self.length <= bytes@.len(),
        ensures
            r matches Ok(v) && v@ == bytes@.subrange(self.offset as int, self.offset + self.length),
    {
        let start = self.offset as usize;
        let end = start + self.length as usize;
        Ok(vstd::slice::slice_to_vec(&bytes[start..end]))
    }
}

} // verus!
