//! Procedurally generated triangle meshes: the vertex layout and the
//! triangle index buffer of a barn-shaped prism, a cone, a vase (a surface
//! of revolution) and a flat disc, plus the shape-selection logic of the
//! viewer that shows them.
//!
//! Each generator returns, for every vertex, a small descriptor saying what
//! that vertex stands for (a rim point, a grid point of the lathe, ...),
//! and the `u16` index list that joins the vertices into triangles.

pub mod topology;
pub mod barn;
mod wrap;
pub mod band;
pub mod cone;
pub mod vase;
pub mod disc;
pub mod viewer;
