//! A 2D skeletal animation core: hierarchical bone transforms, multi-track
//! animation sampling and mixing, and generation of draw-ready triangle
//! geometry with clipping and batching.
//!
//! All scalar quantities (coordinates, scales, rotations in degrees, color
//! channels, times) are fixed-point numbers: an `i64` counting steps of
//! `1 / FX_ONE` of a unit. See the `fixed` module.

pub mod clip;
pub mod color;
pub mod error;
pub mod fixed;
pub mod mesh;
pub mod animation;
pub mod attachment;
pub mod draw;
pub mod skeleton;
pub mod state;
