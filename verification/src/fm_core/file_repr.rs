//! The objects read from a file, by id.

use std::collections::HashMap;
use vstd::prelude::*;
use super::component::FMTable;

verus! {

broadcast use vstd::std_specs::hash::group_hash_axioms;

pub struct FmpObjectManager {
    pub tables: HashMap<usize, FMTable>,
}

impl FmpObjectManager {
    /// No objects.
    pub fn new() -> (r: Self)
        ensures
            r.tables@ == Map::<usize, FMTable>::empty(),
    {
        FmpObjectManager { tables: HashMap::new() }
    }
}

} // verus!
