//! Persistence engine of a schema-generic database administration tool.
//!
//! Given a relational schema introspected at runtime (tables, primary keys,
//! foreign keys) and a user-edited changeset describing additions, edits,
//! links and unlinks across a main record and its related records, the
//! library synthesizes the parameterized INSERT / UPDATE / DELETE / upsert
//! statements needed to make the database consistent with the changeset.
//!
//! Statement execution itself is left to the caller: statements are produced
//! as typed [`statement::Statement`] values, rendered to SQL text on demand,
//! and the changeset orchestrator is a step machine that hands out one
//! statement at a time and consumes the rows the database returned for it.

pub mod builder;
pub mod changeset;
pub mod data_modify;
pub mod error;
pub mod laws;
pub mod record;
pub mod render;
pub mod resolver;
pub mod schema;
pub mod statement;
pub mod text;
pub mod value;
