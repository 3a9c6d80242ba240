//! Least-squares solutions of `A x = b` for dense matrices.
//!
//! The library checks that a matrix and a right-hand side fit together,
//! hands their buffers to a divide-and-conquer SVD solver, and reads the
//! solution, the singular values, the rank and the residual sum of squares
//! out of what the solver leaves behind. The solver and the arithmetic of
//! the elements come from the element type, through
//! [`LeastSquaresSvdDivideConquer`] and [`Scalar`].
//!
//! A system can be solved through three traits: [`LeastSquaresSvd`] works on
//! copies, [`LeastSquaresSvdInto`] uses up the matrix and the right-hand
//! side, and [`LeastSquaresSvdInPlace`] overwrites them.

pub mod array;
pub mod error;
pub mod laws;
pub mod layout;
pub mod least_squares;
pub mod scalar;
pub mod solver;

pub use crate::array::{Array, Array1, Array2, Ix1, Ix2};
pub use crate::error::LinalgError;
pub use crate::layout::{matrix_layouts, vector_layout, MatrixLayout};
pub use crate::least_squares::{
    compute_residual_array1, compute_residual_scalar, extract_matrix, extract_vector, Ix1OrIx2,
    LeastSquaresResult, LeastSquaresSvd, LeastSquaresSvdInPlace, LeastSquaresSvdInto,
};
pub use crate::scalar::{column_sum_of_squares, sum_of_squares, Scalar};
pub use crate::solver::{LeastSquaresOutput, LeastSquaresSvdDivideConquer, Solved};
