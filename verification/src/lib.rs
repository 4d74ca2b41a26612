//! Geometric constraint problems in the plane: figures of named points
//! and constraints between them.
//!
//! The library keeps the index of a figure, decides for each constraint
//! which points it can pin once others are known, computes the order in
//! which the points are to be placed, describes what each constraint
//! contributes to the place of a point, and steers the backtracking search
//! for the places. It also reads the text of a figure. Numbers that are no
//! whole numbers pass through as they are written or as bit patterns: the
//! library does not compute with them.

pub mod constraints;
pub mod draw;
pub mod flags;
pub mod iter;
pub mod names;
pub mod order;
pub mod parse;
pub mod parsing;
pub mod solve;
pub mod util;
