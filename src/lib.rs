//! Koch curves and the Koch snowflake, computed exactly.
//!
//! Every point the construction visits lies on the triangular lattice spanned
//! by the unit vectors at 0° and 60°: the lattice point `(a, b)` stands for
//! the plane point `(a + b / 2, b * sqrt(3) / 2)`. Cutting a segment into
//! thirds and raising the equilateral bump over its middle third are then
//! integer operations, so the whole subdivision is carried out and proved
//! without rounding. Turning lattice points into pixels is left to the caller.

pub mod geometry;
pub mod koch;
pub mod koch_laws;
pub mod snowflake;
