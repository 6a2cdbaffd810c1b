//! Helpers for the trusted setup of Groth16.

pub mod utils;
