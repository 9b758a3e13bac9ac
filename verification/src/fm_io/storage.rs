//! A byte range of a buffer.

use vstd::prelude::*;

verus! {

#[derive(Debug, Clone, Copy)]
pub struct BlockStorage {
    pub offset: u32,
    pub length: u16,
}

impl BlockStorage {
    /// The bytes of `buffer` that the range covers.
    pub fn lookup_from_buffer(&self, buffer: &Vec<u8>) -> (r: Result<Vec<u8>, &str>)
        requires
            self.offset + self.length <= buffer@.len(),
        ensures
            r matches Ok(v) && v@ == buffer@.subrange(self.offset as int, self.offset + self.length),
    {
        let n = buffer.len();
        let start = self.offset as usize;
        let end = start + self.length as usize;
        Ok(vstd::slice::slice_to_vec(&buffer.as_slice()[start..end]))
    }
}

} // verus!
