//! A library for reading the HBAM storage layer of FileMaker `.fmp12`
//! files, together with the schema model and record-keeping logic of an
//! emulator that runs scripts against such files.

pub mod hbam2;
pub mod diff;
pub mod emulator;
pub mod emulator2;
pub mod emulator3;
pub mod fm_core;
pub mod fm_format;
pub mod fm_io;
pub mod hbam;
pub mod schema;
pub mod util;
