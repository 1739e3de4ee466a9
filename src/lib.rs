//! A small character-grid rendering engine for terminal animations: a canvas
//! of characters addressed in Cartesian coordinates, line and circle
//! rasterizers, and a frame scheduler that paces redraws.

pub mod canvas;
pub mod line;
pub mod circle;
pub mod frame;
