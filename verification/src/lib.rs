//! Exact planar geometry on a periodic (toroidal) two-dimensional domain.
//!
//! Coordinates are integers, read as fixed-point values: callers pick a scale
//! and every coordinate is a multiple of it. On that representation the
//! minimum-image displacement, clockwise angular ordering, the shoelace area
//! and map normalisation are all exact, so each function carries a contract
//! that pins its result down completely.

pub mod bearing;
pub mod map_tools;
pub mod pbc;
pub mod polygon;
pub mod sort;
