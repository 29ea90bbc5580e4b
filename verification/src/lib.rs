//! A 2D raster canvas engine: a logically unbounded drawing surface made of
//! stacked layers, each sparsely backed by fixed-size pixel chunks, with
//! rectangle and oval fill actions, multi-layer compositing, and a viewport
//! that maps between signed canvas space and unsigned view-pixel space.

pub mod canvas;
pub mod chunks;
pub mod layer;
pub mod pixels;
pub mod position;
pub mod view;
