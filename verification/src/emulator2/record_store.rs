//! A list of records.

use vstd::prelude::*;
use super::record::Record;

verus! {

#[derive(Debug, Clone)]
pub struct RecordStore {
    pub storage: Vec<Record>,
}

impl RecordStore {
    /// An empty store.
    pub fn new() -> (r: Self)
        ensures
            r.storage@ == Seq::<Record>::empty(),
    {
        RecordStore { storage: Vec::new() }
    }
}

} // verus!
