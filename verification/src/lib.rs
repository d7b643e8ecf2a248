//! Schema-driven validation and compilation of tab-delimited flat files.
//!
//! Each input line starts with a one-character record-type key. A schema,
//! loaded from a key-value configuration, declares for every key the field
//! types, output column names, destination table and cross-record links.
//! Lines are validated against the schema; an error-free batch of files is
//! compiled into per-table SQL INSERT statements, with link columns copied
//! from the most recently seen row of the linked record type.

pub mod text;
pub mod schema;
pub mod classify;
pub mod validate;
pub mod link;
pub mod compile;
pub mod batch;
pub mod report;

use vstd::prelude::*;

verus! {

} // verus!
