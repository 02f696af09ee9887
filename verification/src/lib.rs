//! A fixed-capacity dense matrix of wide signed integers, filled one cell at
//! a time in row-major order, with row and column extraction and checked
//! matrix multiplication.

pub mod digits;
pub mod errors;
pub mod matrix;

pub use errors::CapacityExhaustedError;
pub use errors::IncompatibleMatrixError;
pub use errors::MatrixError;
pub use matrix::Matrix;
