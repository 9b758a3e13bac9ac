//! The second emulator: databases built from a schema, windows showing a
//! layout, and per-window found sets.

pub mod data_source;
pub mod database;
pub mod database_mgr;
pub mod emulator;
pub mod find;
pub mod layout;
pub mod record;
pub mod record_store;
pub mod script_engine;
pub mod table;
pub mod table_occurrence;
pub mod window;
pub mod window_mgr;
