//! Windows of the second emulator: each shows a layout of a file.

use std::collections::HashMap;
use std::rc::Rc;
use vstd::prelude::*;
use super::database::Database;
use super::find::FoundSet;
use super::layout::Layout;
use super::record::Record;

verus! {

broadcast use vstd::std_specs::hash::group_hash_axioms;

#[derive(Debug, Clone, Copy, PartialEq, Eq, Structural)]
pub enum WindowStyle {
    Document,
    FloatingDocument,
    Dialog,
    Card,
}

pub struct Window {
    pub id: u32,
    pub name: String,
    pub file: String,
    pub layout: Rc<Layout>,
    pub style: WindowStyle,
    pub found_sets: HashMap<usize, FoundSet>,
}

/// The position of the first layout with the smallest id.
pub open spec fn first_min_layout(layouts: Seq<Rc<Layout>>) -> int
    decreases layouts.len(),
{
    if layouts.len() <= 1 {
        0
    } else {
        let i = first_min_layout(layouts.drop_last());
        if layouts.last().id < layouts[i].id {
            layouts.len() - 1
        } else {
            i
        }
    }
}

proof fn lemma_first_min_layout(layouts: Seq<Rc<Layout>>)
    requires
        layouts.len() > 0,
    ensures
        0 <= first_min_layout(layouts) < layouts.len(),
        forall|j: int| 0 <= j < layouts.len() ==> layouts[first_min_layout(layouts)].id <= (#[trigger] layouts[j]).id,
    decreases layouts.len(),
{
    if layouts.len() > 1 {
        let d = layouts.drop_last();
        lemma_first_min_layout(d);
        let i = first_min_layout(d);
        assert(d[i] == layouts[i]);
        assert forall|j: int| 0 <= j < layouts.len() implies layouts[first_min_layout(layouts)].id <= (
        #[trigger] layouts[j]).id by {
            if j < layouts.len() - 1 {
                assert(d[j] == layouts[j]);
            }
        }
    }
}

/// A database can open a window: it has a layout, and the occurrence that
/// its first layout with the smallest id shows exists.
pub open spec fn can_open_window(db: &Database) -> bool {
    &&& db.layouts@.len() > 0
    &&& exists|k: int|
        0 <= k < db.table_occurrences@.len() && (#[trigger] db.table_occurrences@[k]).id
            == db.layouts@[first_min_layout(db.layouts@)].table_occurrence_id
}

impl Window {
    /// A document window on `db` showing the first of its layouts with the
    /// smallest id, with no found sets yet.
    pub fn new(id_: u32, file_: String, name_: String, db: &Database) -> (r: Self)
        requires
            can_open_window(db),
        ensures
            r.id == id_,
            r.file == file_,
            r.name == name_,
            *r.layout == *db.layouts@[first_min_layout(db.layouts@)],
            r.style == WindowStyle::Document,
            r.found_sets@ == Map::<usize, FoundSet>::empty(),
    {
        proof {
            lemma_first_min_layout(db.layouts@);
        }
        let mut best: usize = 0;
        let mut i: usize = 1;
        while i < db.layouts.len()
            invariant
                1 <= i <= db.layouts@.len(),
                best as int == first_min_layout(db.layouts@.subrange(0, i as int)),
                best < i,
            decreases db.layouts.len() - i,
        {
            proof {
                assert(db.layouts@.subrange(0, i as int + 1).drop_last() =~= db.layouts@.subrange(0, i as int));
            }
            if db.layouts[i].id < db.layouts[best].id {
                best = i;
            }
            i = i + 1;
        }
        proof {
            assert(db.layouts@.subrange(0, i as int) =~= db.layouts@);
        }
        let layout = &db.layouts[best];
        let copy = Layout { id: layout.id, name: layout.name.clone(), table_occurrence_id: layout.table_occurrence_id };
        Window {
            id: id_,
            file: file_,
            name: name_,
            layout: Rc::new(copy),
            style: WindowStyle::Document,
            found_sets: HashMap::new(),
        }
    }

    /// The occurrence shown by the window's layout.
    pub fn get_table_occurrence_id(&self) -> (r: usize)
        ensures
            r == self.layout.table_occurrence_id,
    {
        self.layout.table_occurrence_id
    }

    /// The found set of the occurrence the window shows, if it has one.
    pub fn get_current_found_set(&self) -> (r: Option<&FoundSet>)
        ensures
            match r {
                Some(f) => self.found_sets@.contains_key(self.layout.table_occurrence_id) && *f
                    == self.found_sets@[self.layout.table_occurrence_id],
                None => !self.found_sets@.contains_key(self.layout.table_occurrence_id),
            },
    {
        self.found_sets.get(&self.get_table_occurrence_id())
    }

    /// The current record of the window's found set, if it has one.
    pub fn get_current_record_ref(&self) -> (r: Option<&Record>)
        requires
            self.found_sets@.contains_key(self.layout.table_occurrence_id) ==> ({
                let f = self.found_sets@[self.layout.table_occurrence_id];
                f.found().len() > 0 ==> f.position() < f.table_records().len()
            }),
        ensures
            ({
                let k = self.layout.table_occurrence_id;
                if !self.found_sets@.contains_key(k) || self.found_sets@[k].found().len() == 0 {
                    r is None
                } else {
                    r == Some(&self.found_sets@[k].table_records()[self.found_sets@[k].position() as int])
                }
            }),
    {
        match self.get_current_found_set() {
            Some(f) => f.current_record(),
            None => None,
        }
    }
}

} // verus!
