//! Positions and values that tags attach to spans of an encoded file.
use vstd::prelude::*;

verus! {

/// A bit position in an encoded file: `bit` bits into byte `byte`.
#[derive(Debug, Clone, Copy, PartialEq, Eq)]
pub struct ByteIndex {
    pub byte: usize,
    pub bit: usize,
}

/// The bits from `start` up to `end`.
#[derive(Debug, Clone, Copy, PartialEq, Eq)]
pub struct Span {
    pub start: ByteIndex,
    pub end: ByteIndex,
}

/// The value that a tagged span holds.
#[derive(Debug, Clone, PartialEq, Eq)]
pub enum TagValue {
    MagicBytes(Vec<u8>),
    Version(u8),
    Header(u8),
}

/// The kind of part that a tagged span covers.
#[derive(Debug, Clone, Copy, PartialEq, Eq)]
pub enum TagType {
    MagicBytes,
    Version,
    Header,
    Table,
}

/// Something that receives the tags of an encoded file.
pub trait TagWriter {
}

/// A tag receiver that keeps nothing.
#[derive(Debug, Clone, Copy, Default)]
pub struct TagWriterNoOp;

impl TagWriter for TagWriterNoOp {
}

} // verus!
