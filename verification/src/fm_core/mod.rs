//! The objects found in a file.

pub mod component;
pub mod file_repr;
