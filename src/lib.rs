//! Glitch effects on RGBA rasters, with the parameter models that animate them.
pub mod coords;
pub mod pixel;
pub mod opacity;
pub mod raster;
pub mod scanline;
pub mod rng;
pub mod blocks;
pub mod wind;
pub mod channels;
pub mod args;
pub mod pipeline;
