//! The table and record builders.
pub mod character;
pub mod color;
pub mod pixmap;
