//! Found sets of the second emulator.

use std::rc::Rc;
use vstd::prelude::*;
use super::record::Record;
use super::table_occurrence::TableOccurrence;

verus! {

/// One request of a find: a field of an occurrence and the expression it
/// is matched against.
pub struct FindRequest {
    table_occurrence: String,
    field: String,
    expression: String,
}

/// The records found in an occurrence and the position of the current one.
pub struct FoundSet {
    record_ptr: usize,
    records: Vec<usize>,
    find: Vec<FindRequest>,
    occurrence: Rc<TableOccurrence>,
}

impl FoundSet {
    /// The position of the current record.
    pub closed spec fn position(&self) -> usize {
        self.record_ptr
    }

    /// The record numbers of the found set.
    pub closed spec fn found(&self) -> Seq<usize> {
        self.records@
    }

    /// The records of the occurrence's table.
    pub closed spec fn table_records(&self) -> Seq<Record> {
        self.occurrence.table.records@
    }

    /// The current record: none when the found set is empty, else the
    /// record of the occurrence's table at the current position.
    pub fn current_record(&self) -> (r: Option<&Record>)
        requires
            self.found().len() > 0 ==> self.position() < self.table_records().len(),
        ensures
            self.found().len() == 0 ==> r is None,
            self.found().len() > 0 ==> r == Some(&self.table_records()[self.position() as int]),
    {
        if self.records.len() == 0 {
            return None;
        }
        Some(&self.occurrence.get_records()[self.record_ptr])
    }
}

} // verus!
