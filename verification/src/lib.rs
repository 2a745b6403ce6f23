//! A software rasterizer for sprites: stores of sprites and scenes that are
//! named by stable ids, sampling of bitmaps at whole pixels, and a
//! compositor that lays the sampled sprites over a scene in order of their
//! z-index.
//!
//! Everything here works on integers and bytes. Coordinates that are
//! single-precision numbers are carried as bit patterns and never
//! interpreted; whoever calls the library rounds sample points to whole
//! pixels first.

pub mod blend;
pub mod buffer;
pub mod frame;
pub mod laws;
pub mod layer;
pub mod members;
pub mod order;
pub mod pixels;
pub mod sampling;
pub mod scene;
pub mod scenes;
pub mod sprites;
pub mod world;
