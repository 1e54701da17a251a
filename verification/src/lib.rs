//! Layered border frames for a character grid.
//!
//! A `Border` describes an arbitrary number of concentric rectangular
//! frames drawn at a configurable padding from the window edge, with
//! per-layer glyphs and colors.  Rendering is pure: it turns a border
//! configuration and a window size into the sequence of cell writes
//! (position, glyph, color) that a terminal front end then performs.

pub mod border;
pub mod color;
pub mod font;
pub mod geometry;
pub mod laws;
pub mod layer;
pub mod render;
