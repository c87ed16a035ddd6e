//! Shadows cast by a point light behind convex walls, on an integer lattice.
//!
//! Every coordinate is an integer and every decision is taken in exact
//! arithmetic; only the far end of a shadow ray is rounded, down onto the
//! lattice. The contracts are stated over the spec functions of each module.

pub mod arith;
pub mod geometry;
pub mod input;
pub mod model;
pub mod nannou_geom;
pub mod projection;
pub mod render;
pub mod shadow;
pub mod silhouette;
pub mod slope;

pub use geometry::{Corner, Point, Viewport, COORD_LIMIT};
pub use input::InputEvent;
pub use model::{Light, Model, Polygon, LIGHT_RADIUS};
pub use render::DrawCommand;
pub use slope::Slope;
