//! The database-facing contracts: a client executes one query at a time and
//! hands back rows; a row can be converted into a typed finding.
//!
//! The crate never opens a connection itself: a concrete client (and the
//! conversion of its error values into the plain texts carried here) lives
//! with the caller that owns the connection.

use vstd::prelude::*;

verus! {

/// Conversion of one result row into a typed value.
pub trait TryFromRow<Row>: Sized {
    fn try_from_row(row: Row) -> Result<Self, ParseRowError>;
}

/// Interface to interact with a database: one query in flight at a time.
pub trait Client {
    type Row;

    fn query(&mut self, query: &str) -> Result<Vec<Self::Row>, ExecuteQueryError>;
}

/// The client could not be reached or refused the connection.
#[derive(Debug)]
pub enum EstablishConnectionError {
    Failed(String),
}

/// The client rejected or failed the submitted SQL.
#[derive(Debug)]
pub enum ExecuteQueryError {
    Failed(String),
}

/// A returned row did not match the expected shape.
#[derive(Debug)]
pub enum ParseRowError {
    Malformed(String),
}

impl EstablishConnectionError {
    /// The text the client gave for the failure.
    pub fn describe(&self) -> (r: &str)
        ensures
            self matches EstablishConnectionError::Failed(m) && r@ == m@,
    {
        match self {
            EstablishConnectionError::Failed(m) => m.as_str(),
        }
    }
}

impl ExecuteQueryError {
    /// The text the client gave for the failure.
    pub fn describe(&self) -> (r: &str)
        ensures
            self matches ExecuteQueryError::Failed(m) && r@ == m@,
    {
        match self {
            ExecuteQueryError::Failed(m) => m.as_str(),
        }
    }
}

impl ParseRowError {
    /// The text the row parser gave for the failure.
    pub fn describe(&self) -> (r: &str)
        ensures
            self matches ParseRowError::Malformed(m) && r@ == m@,
    {
        match self {
            ParseRowError::Malformed(m) => m.as_str(),
        }
    }
}

} // verus!
