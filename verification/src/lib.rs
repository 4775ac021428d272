//! A tableau-based simplex solver for small linear programs.
//!
//! The solver works over exact rational arithmetic: every tableau entry is a
//! reduced fraction of two 64-bit integers, so the pivot row operations are
//! exact and every contract below speaks of true rational values rather than
//! floating-point approximations.  Arithmetic that would leave the 64-bit
//! range after reduction is reported as an error instead of silently losing
//! precision.

pub mod builder;
pub mod driver;
pub mod error;
pub mod extract;
pub mod laws;
pub mod pivot;
pub mod rational;
pub mod solver;
pub mod tableau;
