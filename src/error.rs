use vstd::prelude::*;

verus! {

/// Why a multiplication produced no matrix.
#[derive(Debug, Clone, Copy, PartialEq, Eq, Structural)]
pub enum MatrixError {
    /// The inner dimensions of the operands differ, or two views to be
    /// multiplied elementwise have different lengths.
    DimensionMismatch,
    /// A product or a running sum of a dot product leaves the range of `i64`.
    Overflow,
    /// A reply was missing or did not belong to the cell it was collected for.
    WorkerFailure,
}

/// Why a counter could not be incremented.
#[derive(Debug, Clone, Copy, PartialEq, Eq, Structural)]
pub enum MetricsError {
    /// No counter has the given name.
    KeyNotFound,
}

} // verus!
