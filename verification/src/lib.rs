//! Partition of a rectangular grid of cells into straight chains, and the
//! discrete side of the fills that are drawn into the rectangle of a chain.
//!
//! - `grid`: the cells that are still unclaimed, and the claims on them.
//! - `carve`: carving a grid into chains until no cell is left.
//! - `chain`: chains, and the weighted choice of their colour and fill.
//! - `fills`: lattices of points, by their indices, and meshes of triangles.
//! - `paper`: paper sizes in millimetres and pixels.
//! - `random` and `geometry`: the calls into the random number generator and
//!   the geometry of rectangles, whose contracts are believed, not proved.

pub mod grid;
pub mod random;
pub mod chain;
pub mod carve;
pub mod paper;
pub mod geometry;
pub mod fills;
