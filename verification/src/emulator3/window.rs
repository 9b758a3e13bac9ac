//! Windows of the third emulator.

use vstd::prelude::*;

verus! {

pub struct Window {
    pub id: u32,
    pub name: String,
    pub database: String,
    pub layout_id: u32,
}

impl Window {
    /// Window 0 with no name and no database, on layout 0.
    pub fn new() -> (r: Self)
        ensures
            r.id == 0,
            r.name@ == Seq::<char>::empty(),
            r.database@ == Seq::<char>::empty(),
            r.layout_id == 0,
    {
        Window { id: 0, name: String::new(), database: String::new(), layout_id: 0 }
    }

    /// The window with its id set.
    pub fn id(self, id: u32) -> (r: Self)
        ensures
            r == (Window { id: id, ..self }),
    {
        let mut s = self;
        s.id = id;
        s
    }

    /// The window with its name set.
    pub fn name(self, name_: String) -> (r: Self)
        ensures
            r == (Window { name: name_, ..self }),
    {
        let mut s = self;
        s.name = name_;
        s
    }

    /// The window with its database set.
    pub fn database(self, database_: String) -> (r: Self)
        ensures
            r == (Window { database: database_, ..self }),
    {
        let mut s = self;
        s.database = database_;
        s
    }

    /// The window with its layout set.
    pub fn layout_id(self, layout_id: u32) -> (r: Self)
        ensures
            r == (Window { layout_id: layout_id, ..self }),
    {
        let mut s = self;
        s.layout_id = layout_id;
        s
    }
}

} // verus!
