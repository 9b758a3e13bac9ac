//! External data sources of a database.

use vstd::prelude::*;

verus! {

/// The kind of file a data source refers to.
#[derive(Debug, Clone, Copy, PartialEq, Eq, Structural)]
pub enum DataSourceType {
    FileMaker,
    Cadmus,
    ODBC,
}

/// A data source: its id, name, kind and file.
pub struct DataSource {
    pub id: usize,
    pub name: String,
    pub dstype: DataSourceType,
    pub filename: String,
}

} // verus!
