//! Table occurrences of the second emulator: a named view of a base table.

use std::rc::Rc;
use vstd::prelude::*;
use super::record::Record;
use super::table::Table;

verus! {

pub struct TableOccurrence {
    pub id: usize,
    pub name: String,
    pub data_source: usize,
    pub table: Rc<Table>,
}

impl TableOccurrence {
    /// An occurrence of `table_` with the given id, name and data source.
    pub fn new(id_: usize, name_: String, data_source_: usize, table_: Rc<Table>) -> (r: Self)
        ensures
            r.id == id_,
            r.name == name_,
            r.data_source == data_source_,
            r.table == table_,
    {
        TableOccurrence { id: id_, name: name_, data_source: data_source_, table: table_ }
    }

    /// The records of the occurrence's table.
    pub fn get_records(&self) -> (r: &Vec<Record>)
        ensures
            *r == self.table.records,
    {
        &self.table.records
    }
}

} // verus!
