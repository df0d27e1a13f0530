//! Uniform random points inside a disk around a geographic origin.
//!
//! Coordinates are held in fixed point (ten-millionths of a degree). A planar
//! disk sampler proposes candidates, and a rejection loop accepts the first one
//! that a caller-supplied great-circle check places inside the radius.

pub mod disk;
pub mod geo;
pub mod sampling;
pub mod search;
