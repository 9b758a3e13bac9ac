//! The position of a reader in the HBAM tree.

use vstd::prelude::*;

verus! {

type BlockIndex = u32;

type ChunkIndex = u16;

/// A block of the tree and a chunk in it.
pub struct HBAMCursor {
    pub block_index: BlockIndex,
    pub chunk_index: ChunkIndex,
}

impl HBAMCursor {
    /// The cursor at block 0, chunk 0.
    pub fn new() -> (r: Self)
        ensures
            r.block_index == 0,
            r.chunk_index == 0,
    {
        HBAMCursor { block_index: 0, chunk_index: 0 }
    }
}

} // verus!
