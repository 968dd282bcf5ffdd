//! Discrete structure of procedural galaxy point fields: the sampling
//! lattice, the sphere cut-off, spiral-arm anchor selection and the
//! expansion of anchors into per-sample plans. Coordinates are kept as exact
//! integers; turning them into world positions is left to the caller.

pub mod lattice;
pub mod jitter;
pub mod spiral;
