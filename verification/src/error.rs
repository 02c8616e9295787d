//! The error taxonomy of the engine: schema-consistency, precondition
//! violations, unsupported operations, and execution failures reported by
//! the database.

use vstd::prelude::*;
use crate::changeset::RecordAction;
use crate::statement::StatementKind;

verus! {

/// A database-level failure classification, handed back by the execution
/// layer when a statement could not be run.
#[derive(Debug, PartialEq, Eq)]
pub struct DbError {
    pub message: String,
}

/// An error of the persistence engine. Every failure aborts the remaining
/// steps of the current changeset; nothing is retried internally.
#[derive(Debug, PartialEq, Eq)]
pub enum IntelError {
    /// Schema consistency: no foreign-key pair of `table` refers to
    /// `referred_table`.
    NoForeignKeyPair { table: String, referred_table: String },
    /// Schema consistency: more than one foreign-key pair of `table` refers
    /// to `referred_table`.
    AmbiguousForeignKeyPair { table: String, referred_table: String },
    /// Schema consistency: no table descriptor named `table` was loaded.
    TableNotFound { table: String },
    /// Schema consistency: `table` does not belong to the window's tabs.
    TabNotFound { table: String },
    /// Precondition violation: a record lacks a value the operation must
    /// bind for `column` of `table`.
    MissingColumnValue { table: String, column: String },
    /// Unsupported operation: `action` is not valid in its context.
    UnsupportedAction { action: RecordAction },
    /// Unsupported operation: `table` has a composite primary key, which the
    /// multi-record delete path does not handle.
    CompositePrimaryKey { table: String },
    /// Schema consistency: `table` has no primary-key column at all.
    NoPrimaryKey { table: String },
    /// Precondition violation: a textual record id could not be read as a
    /// value of the primary-key column's type.
    InvalidRecordId { record_id: String },
    /// The database rejected or failed to run a statement against `table`.
    Execution { table: String, kind: StatementKind, error: DbError },
    /// The database returned no row for a statement that was owed one.
    NoRowReturned { table: String },
    /// A step was asked of a changeset session that already finished or
    /// failed.
    SessionClosed,
    /// A database response was handed to a changeset session at a point
    /// where none was awaited, or withheld where one was.
    UnexpectedResponse,
}

} // verus!
