//! Schema objects as found in a file.

use vstd::prelude::*;
use crate::fm_io::data_offset::ChunkOffset;

verus! {

#[derive(Debug)]
pub struct FMTable {
    pub table_name: String,
}

/// A table whose name is still stored in the file.
#[derive(Debug)]
pub struct FMTableRef {
    pub table_name: ChunkOffset,
}

#[derive(Debug)]
pub struct Script {}

#[derive(Debug)]
pub struct FMRelation {}

#[derive(Debug)]
pub struct FMScript {}

} // verus!
