//! A parallel reduction: one value out of a sequence and a binary operation.
//!
//! [`parallel_binary_operation`] cuts its input into one contiguous chunk per
//! worker, folds every chunk from left to right on a thread pool, and
//! combines the folds of the chunks, in their order, by the same operation.
//! The seed of the folds is inferred from the operation, see [`identity`].
//!
//! What the result is depends on the operation alone. For an associative
//! operation whose neutral element is the inferred seed it is the left fold
//! of the whole input, however the input was cut and however the folds were
//! bracketed. For any other operation it is one of the values that such a
//! bracketing can give, see [`grouping`].
//!
//! The operation has to accept every pair of values. On machine integers
//! that means wrapping, saturating or otherwise total arithmetic, see
//! [`integers`].

pub mod chunking;
pub mod grouping;
pub mod identity;
pub mod integers;
pub mod operation;
pub mod reduce;

pub use reduce::{parallel_binary_operation, parallel_binary_operation_with_workers};
