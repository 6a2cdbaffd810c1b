//! Building blocks for zero-knowledge proof systems: layered arithmetic
//! circuits and their wiring predicates for the GKR protocol, multilinear and
//! univariate polynomials, a Fiat-Shamir transcript and Groth16 setup helpers.
//!
//! Field and group elements are any types that implement the operators of
//! `core::ops`. A function that computes with them states of its result
//! what the operators of the type returned on which operands, and, for the
//! types whose operators are as `vstd` specifies them, which value that is;
//! see [`algebra`].

pub mod algebra;
pub mod fiat_shamir;
pub mod gkr;
pub mod groth16;
pub mod polynomial;
