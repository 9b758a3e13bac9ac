//! The script engine of the second emulator: the scripts being run and
//! their variables.

use vstd::prelude::*;
use crate::schema::Script;

verus! {

/// Why a step could not be taken.
pub enum StepResult {
    EndOfExecution,
}

pub struct ScriptEngine {
    instr_ptrs: Vec<(Script, u32)>,
    variables: Vec<Vec<String>>,
}

impl ScriptEngine {
    /// The scripts being run, each with its next step.
    pub closed spec fn running(&self) -> Seq<(Script, u32)> {
        self.instr_ptrs@
    }

    /// The variable frames of the scripts being run.
    pub closed spec fn frames(&self) -> Seq<Vec<String>> {
        self.variables@
    }

    /// An engine running no script, with no variables.
    pub fn new() -> (r: Self)
        ensures
            r.running() == Seq::<(Script, u32)>::empty(),
            r.frames() == Seq::<Vec<String>>::empty(),
    {
        ScriptEngine { instr_ptrs: Vec::new(), variables: Vec::new() }
    }
}

} // verus!
