//! A character-grid drawing canvas: a raster of styled cells edited by
//! discrete drawing operations (pencil, line, flood fill, erase) with a
//! replay-based linear undo/redo history.

pub mod cell;
pub mod colour;
pub mod config;
pub mod coords;
pub mod events;
pub mod flood;
pub mod line;
pub mod paint;
pub mod palette;
pub mod parse_colour;
pub mod raster;
pub mod session;
pub mod undo;
