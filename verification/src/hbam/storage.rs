//! A byte range of a block.

use vstd::prelude::*;

verus! {

#[derive(Debug, Clone, Copy)]
pub struct BlockStorage {
    pub offset: u16,
    pub length: u16,
}

impl BlockStorage {
    /// The bytes of `buffer` that the range covers.
    pub fn lookup_from_buffer(&self, buffer: &[u8]) -> (r: Result<Vec<u8>, &str>)
        requires
            self.offset + self.length <= buffer@.len(),
        ensures
            r matches Ok(v) && v@ == buffer@.subrange(self.offset as int, self.offset + self.length),
    {
        let start = self.offset as usize;
        let end = start + self.length as usize;
        Ok(vstd::slice::slice_to_vec(&buffer[start..end]))
    }
}

} // verus!
