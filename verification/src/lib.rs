//! Option parsing, section assembly and event handling for a fractal viewer.
pub mod events;
pub mod julia;
pub mod options;
pub mod raster;
pub mod text;
