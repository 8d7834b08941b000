//! Configuration of the relational backend.

use vstd::prelude::*;

verus! {

/// Where the sqlite database lives, and whether to create the file when it
/// is missing.
pub struct SqliteBackendConfig<'a> {
    pub path: &'a str,
    pub create_if_missing: bool,
}

/// The configured kind of relational backend.
pub enum BackendConfig<'a> {
    Sqlite(SqliteBackendConfig<'a>),
}

} // verus!
