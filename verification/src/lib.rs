//! Verified core of a tilesheet viewer: tile-size detection from file names,
//! tile grid arithmetic, the configuration fallbacks, and the scene state
//! machine that drives the file picker and the image viewer.

pub mod text;
pub mod tile_size;
pub mod grid;
pub mod config;
pub mod scene;
