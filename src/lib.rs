//! Generic numeric matrices: dense row-major storage, transpose views and
//! compact symmetric storage, with verified index arithmetic.
pub mod numerics;
pub mod matrix;
pub mod display;
pub mod dense;
pub mod transpose;
pub mod symmetric;

pub use dense::{Dense, MatrixIterator};
pub use display::layout;
pub use matrix::{Matrix, MatrixError};
pub use numerics::{gcd, lcm, Integer, Numeric, SignedInt, Unsigned};
pub use symmetric::Symmetric;
pub use transpose::{MatrixT, MatrixTMut};
