//! A schema linter core: rules ("problems") are declared as a detection-query
//! template plus message/migration/rollback templates, bound to a per-run
//! configuration, executed against a database client, and collected into a
//! report with generated fix and rollback SQL.
//!
//! The heart of the crate is the `WHERE`-clause compiler in [`filter`], which
//! turns a typed configuration value tree into a safe, correctly quoted SQL
//! predicate, and the [`report`] module, which aggregates findings with
//! identity-based deduplication.

pub mod attrs;
pub mod client;
pub mod definition;
pub mod error;
pub mod field;
pub mod filter;
pub mod fixture;
pub mod inspector;
pub mod linter;
pub mod problem;
pub mod registry;
pub mod render;
pub mod report;
