//! The instruction format of file blocks.

pub mod block;
pub mod chunk;
pub mod instruction;
