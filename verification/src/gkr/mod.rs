//! Layered arithmetic circuits for the GKR protocol.

pub mod circuit;
pub mod primitives;
pub mod trace;
pub mod utils;
pub mod wiring;
