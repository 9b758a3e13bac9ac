//! Layouts: each shows one table occurrence.

use vstd::prelude::*;

verus! {

#[derive(Debug, Clone)]
pub struct Layout {
    pub id: usize,
    pub name: String,
    pub table_occurrence_id: usize,
}

impl Layout {
    /// A layout with the given id and name, showing the given occurrence.
    pub fn new(id_: usize, name_: String, table_occurrence_id_: usize) -> (r: Self)
        ensures
            r.id == id_,
            r.name == name_,
            r.table_occurrence_id == table_occurrence_id_,
    {
        Layout { id: id_, name: name_, table_occurrence_id: table_occurrence_id_ }
    }
}

} // verus!
