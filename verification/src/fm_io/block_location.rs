//! The position of a value: a chunk and an offset in it.

use std::cmp::Ordering;
use vstd::prelude::*;
use vstd::std_specs::cmp::PartialOrdSpecImpl;

verus! {

/// Ordered by chunk, then by offset.
#[derive(Debug, Clone, Copy, PartialEq, Eq, Structural, Ord)]
pub struct BlockLocation {
    pub chunk_index: u32,
    pub offset: u32,
}

/// The order of two locations: by chunk index first, and by offset within
/// the same chunk.
pub open spec fn location_order(a: BlockLocation, b: BlockLocation) -> Ordering {
    if a.chunk_index < b.chunk_index {
        Ordering::Less
    } else if a.chunk_index > b.chunk_index {
        Ordering::Greater
    } else if a.offset < b.offset {
        Ordering::Less
    } else if a.offset > b.offset {
        Ordering::Greater
    } else {
        Ordering::Equal
    }
}

impl BlockLocation {
    pub fn new(chunk_index_: u32, local_index_: u32) -> (r: Self)
        ensures
            r.chunk_index == chunk_index_,
            r.offset == local_index_,
    {
        BlockLocation { chunk_index: chunk_index_, offset: local_index_ }
    }
}

impl PartialOrd for BlockLocation {
    fn partial_cmp(&self, other: &Self) -> (r: Option<Ordering>) {
        if self.chunk_index < other.chunk_index {
            Some(Ordering::Less)
        } else if self.chunk_index > other.chunk_index {
            Some(Ordering::Greater)
        } else if self.offset < other.offset {
            Some(Ordering::Less)
        } else if self.offset > other.offset {
            Some(Ordering::Greater)
        } else {
            Some(Ordering::Equal)
        }
    }
}

impl PartialOrdSpecImpl for BlockLocation {
    open spec fn obeys_partial_cmp_spec() -> bool {
        true
    }

    open spec fn partial_cmp_spec(&self, other: &BlockLocation) -> Option<Ordering> {
        Some(location_order(*self, *other))
    }
}

/// Two locations in one chunk compare by offset, and a location in a later
/// chunk comes after every location in an earlier one, whatever the offsets.
pub proof fn lemma_location_order(a: BlockLocation, b: BlockLocation)
    ensures
        a.chunk_index < b.chunk_index ==> location_order(a, b) == Ordering::Less,
        a.chunk_index == b.chunk_index && a.offset < b.offset ==> location_order(a, b)
            == Ordering::Less,
        location_order(a, b) == Ordering::Equal <==> a == b,
        location_order(a, b) == Ordering::Less <==> location_order(b, a) == Ordering::Greater,
{
}

} // verus!
