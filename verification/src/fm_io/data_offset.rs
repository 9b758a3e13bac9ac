//! The position of a value inside a chunk.

use vstd::prelude::*;

verus! {

#[derive(Debug, Clone, Copy, PartialEq, Eq)]
pub struct ChunkOffset {
    pub chunk_index: u32,
    pub local_index: u32,
}

impl ChunkOffset {
    pub fn new(chunk_index_: u32, local_index_: u32) -> (r: Self)
        ensures
            r.chunk_index == chunk_index_,
            r.local_index == local_index_,
    {
        ChunkOffset { chunk_index: chunk_index_, local_index: local_index_ }
    }
}

} // verus!
