//! The third emulator: windows on open files, and the variables of the
//! scripts being run.

pub mod record_store;
pub mod relation_path;
pub mod script_mgr;
pub mod window;
pub mod window_mgr;

use vstd::prelude::*;

verus! {

/// Why a test could not be run.
pub enum EmulatorErr {
    UnknownTest(String),
    UnknownFile(String),
}

/// The active database and window.
#[derive(Debug, Clone)]
pub struct EmulatorState {
    pub active_database: String,
    pub active_window: u32,
}

impl EmulatorState {
    /// No active database; window 0.
    pub fn new() -> (r: Self)
        ensures
            r.active_database@ == Seq::<char>::empty(),
            r.active_window == 0,
    {
        EmulatorState { active_database: String::new(), active_window: 0 }
    }
}

} // verus!
