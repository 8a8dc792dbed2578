//! SimplePixelFont (`.spf`) encoding and decoding.
use vstd::prelude::*;

pub mod format;
pub mod ergonomics;
pub mod printer;
pub mod bitmap_font;
pub mod glyphs;
pub mod cache;
pub mod tag;
pub mod ffi;
pub mod glyph_stream;

verus! {
} // verus!
