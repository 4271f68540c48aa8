//! Sample problem declarations, kept as plain data: the shapes a rule's
//! backing structure takes, used to exercise definition assembly.

use vstd::prelude::*;

verus! {

/// A rule detecting columns whose length is not limited: two filter fields,
/// a plain column name, and a limit field.
pub struct TestColumnLimitMissed {
    pub scope_name: String,
    pub table_name: String,
    pub column_name: String,
    pub limit: u32,
}

/// A rule detecting tables without a primary key: two filter fields and no
/// migration.
pub struct TestPrimaryKeyMissed {
    pub scope_name: String,
    pub table_name: String,
}

} // verus!
