//! Placing the points of an ordered figure.

pub mod brute;
pub mod laws;
pub mod lowering;
