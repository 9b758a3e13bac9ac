//! Low-level pieces of the file reader: block locations, chunk offsets and
//! byte ranges.

pub mod block;
pub mod block_location;
pub mod chunk;
pub mod data_offset;
pub mod storage;
