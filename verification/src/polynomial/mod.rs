//! Multilinear and univariate polynomials over any element type.

pub mod composed;
pub mod multilinear;
pub mod univariant;
pub mod utils;
