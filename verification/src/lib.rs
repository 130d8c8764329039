//! Fixed-point linear algebra for a small 3-D rendering pipeline.
//!
//! The crate provides dense matrices with the classic recursive
//! submatrix / minor / cofactor / determinant / inverse family, homogeneous
//! four-component tuples (points and vectors), rays, and a pixel canvas.
//!
//! Every quantity is a fixed-point number: an `i128` counting units of
//! `1 / fixed::SCALE` (five decimal places). Matrix multiplication and
//! inversion round their results to this grid, and approximate equality
//! uses an absolute tolerance of `fixed::TOLERANCE` units (0.001).
//! Determinants, minors and cofactors are reported on the finer grid of
//! `1 / fixed::DET_SCALE` (twenty decimal places), on which they are exact
//! for matrices up to 4 x 4.

pub mod canvas;
pub mod color;
pub mod fixed;
pub mod kernel;
pub mod laws;
pub mod matrix;
pub mod ray;
pub mod tuple;
