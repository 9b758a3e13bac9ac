//! The windows of the third emulator, by id.

use std::collections::BTreeMap;
use vstd::prelude::*;
use super::window::Window;

verus! {

pub struct WindowMgr {
    pub windows: BTreeMap<u32, Window>,
}

impl WindowMgr {
    /// No windows.
    pub fn new() -> (r: Self)
        ensures
            r.windows@ == Map::<u32, Window>::empty(),
    {
        WindowMgr { windows: BTreeMap::new() }
    }
}

} // verus!
