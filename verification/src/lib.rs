//! Exact, integer-valued core of a small procedural celestial scene:
//! cube-sphere mesh topology, an orbital hierarchy with a snapshot barrier,
//! and the pixel layout of a six-face star-field cubemap.
//!
//! Every quantity here is an integer. Lengths are expressed on a lattice whose
//! unit the caller chooses, so that scaling to world units and normalising
//! directions are left to the caller.

pub mod celestial_shaders;
pub mod geometry;
pub mod grid;
pub mod orbits;
pub mod skybox;
