//! A character-grid rendering core: a grid of cells (glyph, foreground,
//! background, font selector), a pool of floating glyphs, snapshots of grid
//! regions, and the decisions that drive the per-frame upload and draw.
use vstd::prelude::*;

pub mod codec;
pub mod colors;
pub mod grid;
pub mod input;
pub mod render;
pub mod snapshot;
pub mod text;
pub mod ui;
pub mod window;

verus! {

/// An RGBA colour, one byte per channel.
pub type Col = (u8, u8, u8, u8);

} // verus!
