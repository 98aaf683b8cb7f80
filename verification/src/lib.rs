//! Turns a raster image into text for a terminal: one brightness level per
//! pixel, optional error-diffusion dithering, and three ways of writing the
//! levels out as glyphs.

pub mod ansi;
pub mod dither;
pub mod encoder;
pub mod field;
pub mod invert;
pub mod pipeline;
pub mod raster;
pub mod render;
pub mod text;
pub mod txtr;
