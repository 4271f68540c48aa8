//! The error taxonomy of a run.  Any failure anywhere aborts the whole run
//! and is carried to the caller with enough context to say which stage
//! failed; nothing is retried and no partial report is returned.

use vstd::prelude::*;

verus! {

/// The failure of a run step.
#[derive(Debug)]
pub enum Error {
    /// The `WHERE` clause compiler rejected the configuration.
    RenderSql(crate::filter::Error),
    /// A template failed to render: which template (`"message"`,
    /// `"migration"`, `"rollback"` or `"query"`), and the engine's text.
    Template(String, String),
    /// The configuration could not be parsed, or names an unknown rule kind.
    ParseConfig(String),
    /// The client rejected or failed the detection query.
    ExecuteQuery(crate::client::ExecuteQueryError),
    /// A result row did not match the expected shape.
    ParseRow(crate::client::ParseRowError),
}

/// The exact text `describe` produces for each failure: the stage that
/// failed, then its own account.
pub open spec fn describe_text(e: Error) -> Seq<char> {
    match e {
        Error::RenderSql(inner) => "failed to render the SQL WHERE clause: "@
            + crate::filter::describe_text(inner),
        Error::Template(which, message) => "failed to render the "@ + which@ + " template: "@
            + message@,
        Error::ParseConfig(message) => "invalid configuration: "@ + message@,
        Error::ExecuteQuery(inner) => "query execution failed: "@ + inner->Failed_0@,
        Error::ParseRow(inner) => "row parsing failed: "@ + inner->Malformed_0@,
    }
}

impl Error {
    /// A short, human-readable account of the failure, naming the stage
    /// that failed and carrying its detail.
    pub fn describe(&self) -> (r: String)
        ensures
            r@ == describe_text(*self),
    {
        let mut out = String::new();
        match self {
            Error::RenderSql(e) => {
                out.append("failed to render the SQL WHERE clause: ");
                let detail = e.describe();
                out.append(detail.as_str());
            },
            Error::Template(which, message) => {
                out.append("failed to render the ");
                out.append(which.as_str());
                out.append(" template: ");
                out.append(message.as_str());
            },
            Error::ParseConfig(message) => {
                out.append("invalid configuration: ");
                out.append(message.as_str());
            },
            Error::ExecuteQuery(e) => {
                out.append("query execution failed: ");
                out.append(e.describe());
            },
            Error::ParseRow(e) => {
                out.append("row parsing failed: ");
                out.append(e.describe());
            },
        }
        proof {
            assert(out@ =~= describe_text(*self));
        }
        out
    }
}

impl From<crate::filter::Error> for Error {
    fn from(err: crate::filter::Error) -> (r: Self) {
        Error::RenderSql(err)
    }
}

impl vstd::std_specs::convert::FromSpecImpl<crate::filter::Error> for Error {
    open spec fn obeys_from_spec() -> bool {
        true
    }

    open spec fn from_spec(err: crate::filter::Error) -> Self {
        Error::RenderSql(err)
    }
}

} // verus!
