//! Shapes: a small verified geometry library.
//!
//! Text lines such as `circle 0 0 5` or `rect 1 2 3 4` are parsed into
//! [`shape::Shape`] values; shapes expose sample points and point
//! containment, and a sampled-point heuristic decides whether two shapes
//! collide. The pipeline module filters a list of lines down to the shapes
//! that parse and reports each adjacent pair that collides.
//!
//! Coordinates are integers: every contract is stated over exact integer
//! arithmetic, with no rounding to reason about.

pub mod circle;
pub mod pipeline;
pub mod rect;
pub mod shape;
pub mod text;
