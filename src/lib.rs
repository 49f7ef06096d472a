//! A predator/prey simulation core: perception queries, a decaying memory of
//! sightings, raster primitives for drawing the world, and frame pacing.

pub mod geometry;
pub mod memory;
pub mod raster;
pub mod pacing;
pub mod chance;
pub mod beast;
pub mod world;


pub mod render;
