//! The first HBAM reader: paths written as decimal strings, data locations
//! and the cursor of the tree.

pub mod btree;
pub mod chunk;
pub mod data_location;
pub mod numbers;
pub mod path;
pub mod storage;
