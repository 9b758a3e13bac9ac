//! Base tables of the second emulator.

use vstd::prelude::*;
use super::record::Record;

verus! {

#[derive(Debug, Clone)]
pub struct Table {
    pub id: usize,
    pub name: String,
    pub records: Vec<Record>,
    pub field_names: Vec<String>,
}

impl Table {
    /// A table with the given id, no name, no records and no fields.
    pub fn new(id_: usize) -> (r: Self)
        ensures
            r.id == id_,
            r.name@ == Seq::<char>::empty(),
            r.records@ == Seq::<Record>::empty(),
            r.field_names@ == Seq::<String>::empty(),
    {
        Table { id: id_, name: String::new(), records: Vec::new(), field_names: Vec::new() }
    }

    /// The table with its name set.
    pub fn name(self, name: &str) -> (r: Self)
        ensures
            r.id == self.id,
            r.name@ == name@,
            r.records == self.records,
            r.field_names == self.field_names,
    {
        let mut s = self;
        s.name = name.to_owned();
        s
    }

    /// Builds a blank record numbered after the existing ones; the record is
    /// not stored, so the table is left as it was.
    pub fn new_record(&mut self)
        ensures
            *final(self) == *old(self),
    {
        let _tmp = Record::new(self.records.len(), &self.field_names);
    }
}

} // verus!
