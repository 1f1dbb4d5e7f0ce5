//! A desktop pet: sprite-sheet handling, raster drawing on BGRA canvases and the
//! animation state machine, each with its contract.
pub mod config;
pub mod effects;
pub mod input;
pub mod pet;
pub mod raster;
pub mod sheet;
pub mod state;
