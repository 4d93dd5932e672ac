//! Handwriting capture and recognition: strokes drawn on a canvas are
//! rasterised into an RGB image that a recognition model reads.

pub mod canvas;
pub mod raster;
pub mod processing;
pub mod trocr_processor;
pub mod ui;
pub mod trocr_model;
