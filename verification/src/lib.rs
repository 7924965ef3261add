//! An in-memory vector collection with HNSW (Hierarchical Navigable Small
//! World) indexing: insertion, deletion, update and approximate k-nearest
//! neighbor search over fixed-dimensional integer vectors, each carrying an
//! opaque payload.
//!
//! Vector components are `i32` values (a fixed-point embedding); distances
//! are exact squared Euclidean distances carried in `u128`, so the ordering
//! of neighbors is total and free of rounding.

use vstd::prelude::*;

pub mod distance;
pub mod error;
pub mod collection;
pub mod construct;
pub mod graph;
pub mod index;
pub mod kvs;
pub mod pool;
pub mod search;
pub mod store;

verus! {

} // verus!
