//! Verified core of a 2D arcade physics engine: cyclic edge pairing over
//! polygon boundaries, polygon splitting along a line, the collision
//! acceptance rule, the bookkeeping of the iterative smallest enclosing
//! circle, the mode switches of the player's ship, glyph outline tracing, and
//! the flat path list handed to a renderer.
//!
//! Everything here works on plain values. Coordinates are a type parameter:
//! the arithmetic on them (intersections, distances, orderings) is done by the
//! caller, which hands the outcome of each geometric test to this crate as a
//! plain value.

pub mod iter;
pub mod polygon;
pub mod render;
pub mod collision;
pub mod circle;
pub mod player;
pub mod font;
