//! The error taxonomy of the collection.
//!
//! Errors are values: every fallible operation returns either its payload or
//! one of these tags, and the contracts say exactly on which inputs each tag
//! comes.

use vstd::prelude::*;

verus! {

/// Everything that a collection operation can report.
#[derive(Clone, Copy, PartialEq, Eq, Structural, Debug)]
pub enum Error {
    /// A vector's length differs from the collection dimension.
    DimensionMismatch,
    /// The slot table has reached its limit of `u32::MAX` entries.
    CapacityExceeded,
    /// The vector ID is not live.
    NotFound,
    /// The collection holds no records.
    EmptyCollection,
    /// No live entry point exists to seed a search.
    SearchUnavailable,
    /// A parameter lies outside its documented range.
    InvalidInput,
}

} // verus!
