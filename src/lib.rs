//! Raster annotation of a captured image: scan conversion of lines, rectangles,
//! disks, triangles and arrows onto an RGBA pixel buffer, alpha compositing, text
//! and caret placement, and the interaction state machine that turns pointer and
//! key events into shapes.

pub mod annotation;
pub mod arrow;
pub mod blend;
pub mod blur;
pub mod canvas;
pub mod circle;
pub mod keycode_to_text;
pub mod line;
pub mod rectangle;
pub mod render;
pub mod text;
pub mod triangle;
