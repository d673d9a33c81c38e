//! A verified model of a streaming, morsel-driven dataflow engine: compute
//! nodes exchange small batches of columnar data over ports with explicit
//! readiness signalling, and a buffered reduction node aggregates all of its
//! input before emitting a single result batch.

pub mod frame;
pub mod laws;
pub mod morsel;
pub mod port;
pub mod reduce_node;
pub mod reducer;
pub mod scheduler;
pub mod selector;

use vstd::prelude::*;

verus! {

/// The failures a node or one of its tasks can surface. Any such failure is
/// fatal for the query: it propagates to the scheduler and no result batch is
/// ever emitted after it.
#[derive(Clone, Copy, PartialEq, Eq, Structural, Debug)]
pub enum EngineError {
    /// A selector referred to a column the input batch does not have.
    Evaluation,
    /// A finalized reduction value does not fit the declared output type.
    InvalidCast,
    /// Columns of differing lengths were assembled into one batch.
    MismatchedLengths,
    /// A cross-instance combine was asked to touch group ids that are not
    /// valid for both accumulator collections.
    InvalidCombine,
}

} // verus!
