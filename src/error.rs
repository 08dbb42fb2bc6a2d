//! Errors of a migration run.

use vstd::prelude::*;

verus! {

/// What can stop a migration step.
#[derive(Debug)]
pub enum MigrationError {
    /// The source or the destination DSN is not configured.
    MissingDsn,
    /// The destination DSN is no URL with a host: the address and why.
    InvalidDsn { dsn: String, reason: String },
    /// A row of the destination's collection table has no readable id and
    /// name; `row` is its position in the result set.
    InvalidCollectionRow { row: usize },
    /// The channel to the destination could not be set up.
    Connection(String),
    /// A statement or a fetch failed.
    Execution(String),
}

} // verus!
