//! A small verified 2D text-rendering core: an 8x8 monospace glyph table,
//! a solid background fill, and a transparent text blitter that overlays
//! glyph pixels onto a linear RGBA framebuffer.

pub mod color;
pub mod glyph;
pub mod frame;
pub mod blit;
