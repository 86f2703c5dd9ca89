//! Array-algebra operations over a dynamically tagged value representation.
//!
//! The library backs the built-in array functions of a query-language
//! evaluator: callers hand in already-evaluated values, the library checks
//! their shape, performs the requested set or sequence operation, and returns
//! a result value or a typed error.  A wrongly typed argument degrades to the
//! null-like sentinel instead of aborting; only an arity violation of
//! `insert` is reported as an error.

pub mod value;
pub mod order;
pub mod seqops;
pub mod sorting;
pub mod array;
pub mod laws;
