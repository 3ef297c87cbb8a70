//! Exact geometry for classical fractals: the dragon curve, the Koch
//! snowflake, the Sierpinski triangle, the Pythagoras tree, a circle packing
//! in the manner of Sierpinski, and the pixel selection of an escape-time
//! Julia set.
//!
//! Every generator is a pure function of its parameters. Geometry is
//! produced on integer lattices on which each subdivision is exact; the
//! caller maps lattice points to the plane.
pub mod lattice;
pub mod dragon;
pub mod koch;
pub mod sierpinski;
pub mod pythagoras;
pub mod packing;
pub mod shapes;
pub mod julia;
pub mod output;
pub mod animation;
