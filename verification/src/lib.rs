//! A glyph-atlas and text-layout core for a simple editable-text renderer.
//!
//! The library builds a packed glyph atlas from rasterized glyph records,
//! lays a mutable character buffer out into positioned glyph instances with
//! greedy word wrap, and maps a logical cursor index to and from screen
//! positions. Rasterization, kerning data, windowing and drawing are external
//! collaborators: the core only consumes their outputs as plain values.
//!
//! All screen coordinates are whole pixels held in `i64`. Advances and
//! kerning adjustments arrive in the rasterizer's native fixed-point units
//! (1/64 pixel) and are converted at each consumption site.

pub mod atlas;
pub mod command;
pub mod cursor;
pub mod geom;
pub mod glyph;
pub mod layout;
