//! Rows and the schema that says how their columns are indexed.

use vstd::prelude::*;

verus! {

/// How one column of a table is indexed.
#[derive(Clone, Copy, Debug, PartialEq, Eq, Structural)]
pub enum IndexKind {
    /// The column is stored but not indexed.
    Plain,
    /// Indexed for point lookups and sorted range scans.
    Ordered,
    /// Indexed for point lookups only.
    Hash,
    /// Indexed for point lookups; no two rows may hold the same value.
    Unique,
}

/// One record: `N` column values that the table may index, and a payload
/// that the table stores and never looks into.
#[derive(Clone, Debug, PartialEq, Eq)]
pub struct Row<P, const N: usize> {
    /// The column values, in schema order.
    pub keys: [u64; N],
    /// Whatever else the record carries.
    pub payload: P,
}

} // verus!
