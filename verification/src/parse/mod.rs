//! Reading the text of a figure.

pub mod constraints;
pub mod document;
pub mod elements;
pub mod expr;
pub mod math;
pub mod number;
pub mod path;
pub mod quantity;
pub mod statements;
