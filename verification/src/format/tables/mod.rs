//! Reading and writing the four kinds of tables.
use vstd::prelude::*;

pub mod character;
pub mod color;
pub mod pixmap;
pub mod font;

verus! {
} // verus!
