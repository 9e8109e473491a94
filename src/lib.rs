//! Dense integer matrix multiplication, decomposed into one independent
//! dot-product task per output cell and reassembled by cell index, with the
//! algebraic laws of the product proved; and a registry of named counters.

pub mod error;
pub mod laws;
pub mod matrix;
pub mod metrics;
pub mod text;
pub mod vector;

pub use error::{MatrixError, MetricsError};
pub use metrics::AmapMetrics;
pub use matrix::{multiply, Matrix, Msginput, Msgoutput, NUMBER_THREADS};
pub use vector::{vector_point, Vector};
