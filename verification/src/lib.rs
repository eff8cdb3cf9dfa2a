//! A chunk-streaming engine for a large tile-based world.
//!
//! The library decides, for a moving camera, which terrain chunks of a
//! sparse world must be materialized and which must be released.
//! All world-space quantities are integer world units; the camera zoom is
//! a fixed-point scale in units of [`viewport::ZOOM_UNIT`].

pub mod chunk;
pub mod dynamic_chunks;
pub mod viewport;
pub mod world_data;
