//! An in-memory table of rows with synchronized secondary indexes.
//!
//! A [`Table`] owns one array of rows and one index per indexed column. A
//! column is indexed in one of three ways:
//!
//! - an [`OrderedIndex`] answers point lookups and sorted range scans;
//! - a [`HashIndex`] answers point lookups only;
//! - a [`UniqueIndex`] answers point lookups and lets no two rows hold the
//!   same value.
//!
//! Column values are `u64`. Whatever else a record carries travels as the
//! payload of its [`Row`], which the table never looks into.
//!
//! # Identifiers
//!
//! The identifier of a row is its position in the row array. Rows are kept
//! dense: removing a row moves the last row into the gap, so that row gets a
//! new identifier, and every index is told. An identifier is therefore good
//! until the next removal or replacement, not for the life of the row.
//!
//! # Consistency
//!
//! Every index of a table is a function of the rows: the index of a column
//! relates a value to a row exactly when the row holds that value there.
//! Inserting, removing and replacing keep it so. An insert or replacement
//! that would put a second row under a value of a unique column is turned
//! down before anything is touched, and names the row that holds the value.
//!
//! # Queries
//!
//! A query asks one index for identifiers and hands back an iterator that
//! resolves them into rows one at a time: [`IndexIterator`] for a hashed
//! column, [`IndexDoubleEndedIterator`], which can also be read from the
//! back, for an ordered one. A range scan walks the values of the column in
//! ascending order and stops at the first one past the upper limit.
//!
//! Which index a query needs is part of its contract: asking a hashed column
//! for a range is a call that does not verify.

pub mod bound;
pub mod hashed;
pub mod iter;
pub mod laws;
pub mod listing;
pub mod order;
pub mod ordered;
pub mod row;
pub mod schema;
pub mod store;
pub mod table;
pub mod unique;
pub mod view;

pub use bound::Bound;
pub use hashed::HashIndex;
pub use iter::IndexDoubleEndedIterator;
pub use iter::IndexIterator;
pub use ordered::OrderedIndex;
pub use row::IndexKind;
pub use row::Row;
pub use store::RowStore;
pub use table::Table;
pub use unique::UniqueIndex;
pub use view::TableView;
