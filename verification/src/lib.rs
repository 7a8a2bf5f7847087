//! Compositing of shaped glyph runs onto a shared pixel canvas, for comparing
//! the output of two text shapers band by band.

pub mod canvas;
pub mod color;
pub mod glyph;
pub mod layout;
pub mod raster;
pub mod render;
pub mod shaper;
