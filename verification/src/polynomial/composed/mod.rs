//! Polynomials composed of several multilinear polynomials.

pub mod multilinear;
