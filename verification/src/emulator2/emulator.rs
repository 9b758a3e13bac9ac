//! The second emulator: its open databases, its script engine and its
//! windows.

use vstd::prelude::*;
use super::database_mgr::DatabaseMgr;
use super::script_engine::ScriptEngine;
use super::window_mgr::WindowMgr;

verus! {

pub struct Emulator {
    database_mgr: DatabaseMgr,
    script_engine: ScriptEngine,
    window_mgr: WindowMgr,
}

impl Emulator {
    /// The open databases.
    pub closed spec fn databases(&self) -> DatabaseMgr {
        self.database_mgr
    }

    /// The windows.
    pub closed spec fn windows(&self) -> WindowMgr {
        self.window_mgr
    }

    /// The script engine.
    pub closed spec fn engine(&self) -> ScriptEngine {
        self.script_engine
    }

    /// An emulator with no databases, no windows and no running script.
    pub fn new() -> (r: Self)
        ensures
            r.databases().wf(),
            r.databases().databases@.len() == 0,
            r.windows().window_list().len() == 0,
            r.windows().current() == 0,
            r.engine().running().len() == 0,
            r.engine().frames().len() == 0,
    {
        Emulator { database_mgr: DatabaseMgr::new(), script_engine: ScriptEngine::new(), window_mgr: WindowMgr::new() }
    }
}

} // verus!
