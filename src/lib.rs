//! An endless field of irregularly spaced objects around a moving viewpoint.
//!
//! The world is an integer grid of world units. A best-candidate sampler
//! spreads objects over a rectangle so that large objects keep larger gaps,
//! and a chunk streamer loads each square region of the world exactly once,
//! when the viewpoint first comes near it.
pub mod config;
pub mod geometry;
mod random;
pub mod sampler;
pub mod streamer;

pub use config::{ConfigError, FieldConfig, VIEW_LIMIT};
pub use geometry::{Candidate, Point, Rect, SizeRange, COORD_LIMIT};
pub use sampler::{generate_points, pick_best, place_from_draws, score};
pub use streamer::{
    attach_variants, region_bounds, regions_around, safe_points, ChunkStreamer, GeneratedObject,
    RegionId,
};
