//! Columnar ORDER BY execution core: block sorting, k-way streaming merge,
//! and the parallel sort pipeline around them.
//!
//! A block is an immutable columnar row-batch over a fixed schema.  Sorting
//! and merging are driven by a list of sort keys, each with a direction and a
//! null-placement option.  Everything in this crate carries a contract and is
//! verified; the asynchronous plumbing that feeds blocks in and out lives
//! outside the library.

pub mod aggregators;
pub mod array_merge;
pub mod arrays;
pub mod block_sort;
pub mod blocks;
pub mod compare;
pub mod error;
pub mod expressions;
pub mod pipeline;
pub mod plans;
pub mod processors;
pub mod sort_indices;
pub mod streams;
pub mod transforms;

pub use error::FuseQueryError;
pub use error::FuseQueryResult;
