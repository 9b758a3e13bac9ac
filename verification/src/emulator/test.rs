//! Values of the test environment of the first emulator.

use std::collections::HashMap;
use vstd::prelude::*;

verus! {

/// A script variable.
#[derive(Debug)]
pub struct Variable {
    pub name: String,
    pub value: String,
    pub global: bool,
}

impl Variable {
    pub fn new(n: String, val: String, g: bool) -> (r: Self)
        ensures
            r.name == n,
            r.value == val,
            r.global == g,
    {
        Variable { name: n, value: val, global: g }
    }
}

/// A table of the test environment: its records by field name.
pub struct VMTable {
    pub name: String,
    pub records: HashMap<String, Vec<String>>,
}

/// The outcome of a test.
#[derive(PartialEq, Eq, Structural, Debug, Clone, Copy)]
pub enum TestState {
    Pass,
    Fail,
}

} // verus!
