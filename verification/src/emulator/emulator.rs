//! State kept by the first emulator besides its databases.

use vstd::prelude::*;

verus! {

type WindowId = u32;

type DbId = u32;

type OccurrenceId = u32;

type LayoutId = u32;

/// The ids of the active window, layout, occurrence and database, and
/// whether they need refreshing.
pub struct IDCache {
    dirty: bool,
    active_window: WindowId,
    active_layout: LayoutId,
    active_occurrence: OccurrenceId,
    active_database: DbId,
}

impl View for IDCache {
    type V = (bool, u32, u32, u32, u32);

    closed spec fn view(&self) -> (bool, u32, u32, u32, u32) {
        (self.dirty, self.active_window, self.active_layout, self.active_occurrence, self.active_database)
    }
}

impl IDCache {
    /// A clean cache with every id 0.
    pub fn new() -> (r: Self)
        ensures
            r@ == (false, 0u32, 0u32, 0u32, 0u32),
    {
        IDCache { dirty: false, active_window: 0, active_layout: 0, active_occurrence: 0, active_database: 0 }
    }
}

/// A script variable.
#[derive(Debug)]
pub struct Variable {
    pub name: String,
    pub value: String,
    pub global: bool,
}

impl Variable {
    pub fn new(n: String, val: String, g: bool) -> (r: Self)
        ensures
            r.name == n,
            r.value == val,
            r.global == g,
    {
        Variable { name: n, value: val, global: g }
    }
}

/// The outcome of a test.
#[derive(PartialEq, Eq, Structural, Debug, Clone, Copy)]
pub enum TestState {
    Pass,
    Fail,
}

} // verus!
