//! The numbers that a C caller sees: status codes, the named constants of
//! the enumerated fields, and the bits of each table's flag bytes.
use vstd::prelude::*;
use crate::format::{DeserializeError, SerializeError};

verus! {

/// Configuration bit of a pixmap table: every pixmap has the table's width.
pub const SPF_PIXMAP_TABLE_CONFIGURATION_FLAGS_CONSTANT_WIDTH: u8 = 1;
/// Configuration bit of a pixmap table: every pixmap has the table's height.
pub const SPF_PIXMAP_TABLE_CONFIGURATION_FLAGS_CONSTANT_HEIGHT: u8 = 2;
/// Configuration bit of a pixmap table: every pixmap has the table's depth.
pub const SPF_PIXMAP_TABLE_CONFIGURATION_FLAGS_CONSTANT_BITS_PER_PIXEL: u8 = 4;
/// Link bit of a pixmap table: it names color tables.
pub const SPF_PIXMAP_TABLE_LINK_FLAGS_LINK_COLOR_TABLES: u8 = 1;
/// Modifier bit of a character table: each character stores an advance.
pub const SPF_CHARACTER_TABLE_MODIFIER_FLAGS_USE_ADVANCE_X: u8 = 1;
/// Modifier bit of a character table: each character stores a pixmap index.
pub const SPF_CHARACTER_TABLE_MODIFIER_FLAGS_USE_PIXMAP_INDEX: u8 = 2;
/// Modifier bit of a character table: each character stores a pixmap table index.
pub const SPF_CHARACTER_TABLE_MODIFIER_FLAGS_USE_PIXMAP_TABLE_INDEX: u8 = 4;
/// Configuration bit of a character table: every character has the same
/// number of code points.
pub const SPF_CHARACTER_TABLE_CONFIGURATION_FLAGS_CONSTANT_CODE_POINT_COUNT: u8 = 1;
/// Link bit of a character table: it names pixmap tables.
pub const SPF_CHARACTER_TABLE_LINK_FLAGS_LINK_PIXMAP_TABLES: u8 = 1;
/// Modifier bit of a color table: each color stores its color type.
pub const SPF_COLOR_TABLE_MODIFIER_FLAGS_USE_COLOR_TYPE: u8 = 1;
/// Configuration bit of a color table: every color has the table's alpha.
pub const SPF_COLOR_TABLE_CONFIGURATION_FLAGS_CONSTANT_ALPHA: u8 = 1;
/// Link bit of a font table: it names character tables.
pub const SPF_FONT_TABLE_LINK_FLAGS_LINK_CHARACTER_TABLES: u8 = 1;

/// What can go wrong while a value crosses the C boundary.
#[derive(Debug, Clone, Copy, PartialEq, Eq)]
pub enum ConversionError {
    /// A string holds a NUL byte, at the given byte position.
    NulError(usize),
    /// A C string is not valid UTF-8; its first this many bytes are.
    Utf8Error(usize),
    /// A version byte names no known format version.
    UnsupportedVersion,
    /// A color type byte names no known color type.
    UnsupportedColorType,
    /// A font type byte names no known font type.
    UnsupportedFontType,
}

/// The status that every exported call returns: `Success` on success, else the
/// failure.
#[derive(Debug, Clone, Copy, PartialEq, Eq)]
pub enum SPFStatus {
    Success,
    ErrUnexpectedEndOfFile,
    ErrInvalidSignature,
    ErrUnsupportedVersion,
    ErrUnsupportedColorType,
    ErrUnsupportedTableIdentifier,
    ErrUnsupportedFontType,
    ErrStaticVectorTooLarge,
    ErrInvalidPixmapData,
    ErrConversionNulError,
    ErrConversionUtf8Error,
}

/// The number by which a C caller knows a status.
pub open spec fn spec_status_code(s: SPFStatus) -> u8 {
    match s {
        SPFStatus::Success => 0,
        SPFStatus::ErrUnexpectedEndOfFile => 1,
        SPFStatus::ErrInvalidSignature => 2,
        SPFStatus::ErrUnsupportedVersion => 3,
        SPFStatus::ErrUnsupportedColorType => 4,
        SPFStatus::ErrUnsupportedTableIdentifier => 5,
        SPFStatus::ErrUnsupportedFontType => 6,
        SPFStatus::ErrStaticVectorTooLarge => 10,
        SPFStatus::ErrInvalidPixmapData => 11,
        SPFStatus::ErrConversionNulError => 20,
        SPFStatus::ErrConversionUtf8Error => 21,
    }
}

/// The status that reports a decoding error.
pub open spec fn spec_status_of_deserialize(e: DeserializeError) -> SPFStatus {
    match e {
        DeserializeError::UnexpectedEndOfFile => SPFStatus::ErrUnexpectedEndOfFile,
        DeserializeError::InvalidSignature => SPFStatus::ErrInvalidSignature,
        DeserializeError::UnsupportedVersion => SPFStatus::ErrUnsupportedVersion,
        DeserializeError::UnsupportedColorType => SPFStatus::ErrUnsupportedColorType,
        DeserializeError::UnsupportedTableIdentifier => SPFStatus::ErrUnsupportedTableIdentifier,
        DeserializeError::UnsupportedFontType => SPFStatus::ErrUnsupportedFontType,
    }
}

/// The status that reports an encoding error.
pub open spec fn spec_status_of_serialize(e: SerializeError) -> SPFStatus {
    match e {
        SerializeError::StaticVectorTooLarge => SPFStatus::ErrStaticVectorTooLarge,
        SerializeError::InvalidPixmapData => SPFStatus::ErrInvalidPixmapData,
    }
}

/// The status that reports a conversion error.
pub open spec fn spec_status_of_conversion(e: ConversionError) -> SPFStatus {
    match e {
        ConversionError::NulError(_) => SPFStatus::ErrConversionNulError,
        ConversionError::Utf8Error(_) => SPFStatus::ErrConversionUtf8Error,
        ConversionError::UnsupportedVersion => SPFStatus::ErrUnsupportedVersion,
        ConversionError::UnsupportedColorType => SPFStatus::ErrUnsupportedColorType,
        ConversionError::UnsupportedFontType => SPFStatus::ErrUnsupportedFontType,
    }
}

impl SPFStatus {
    /// The number by which a C caller knows this status.
    pub fn code(&self) -> (r: u8)
        ensures
            r == spec_status_code(*self),
    {
        match self {
            SPFStatus::Success => 0,
            SPFStatus::ErrUnexpectedEndOfFile => 1,
            SPFStatus::ErrInvalidSignature => 2,
            SPFStatus::ErrUnsupportedVersion => 3,
            SPFStatus::ErrUnsupportedColorType => 4,
            SPFStatus::ErrUnsupportedTableIdentifier => 5,
            SPFStatus::ErrUnsupportedFontType => 6,
            SPFStatus::ErrStaticVectorTooLarge => 10,
            SPFStatus::ErrInvalidPixmapData => 11,
            SPFStatus::ErrConversionNulError => 20,
            SPFStatus::ErrConversionUtf8Error => 21,
        }
    }
}

impl From<DeserializeError> for SPFStatus {
    fn from(err: DeserializeError) -> (r: SPFStatus) {
        match err {
            DeserializeError::UnexpectedEndOfFile => SPFStatus::ErrUnexpectedEndOfFile,
            DeserializeError::InvalidSignature => SPFStatus::ErrInvalidSignature,
            DeserializeError::UnsupportedVersion => SPFStatus::ErrUnsupportedVersion,
            DeserializeError::UnsupportedColorType => SPFStatus::ErrUnsupportedColorType,
            DeserializeError::UnsupportedTableIdentifier => {
                SPFStatus::ErrUnsupportedTableIdentifier
            },
            DeserializeError::UnsupportedFontType => SPFStatus::ErrUnsupportedFontType,
        }
    }
}

impl vstd::std_specs::convert::FromSpecImpl<DeserializeError> for SPFStatus {
    open spec fn obeys_from_spec() -> bool {
        true
    }

    open spec fn from_spec(v: DeserializeError) -> Self {
        spec_status_of_deserialize(v)
    }
}

impl From<SerializeError> for SPFStatus {
    fn from(err: SerializeError) -> (r: SPFStatus) {
        match err {
            SerializeError::StaticVectorTooLarge => SPFStatus::ErrStaticVectorTooLarge,
            SerializeError::InvalidPixmapData => SPFStatus::ErrInvalidPixmapData,
        }
    }
}

impl vstd::std_specs::convert::FromSpecImpl<SerializeError> for SPFStatus {
    open spec fn obeys_from_spec() -> bool {
        true
    }

    open spec fn from_spec(v: SerializeError) -> Self {
        spec_status_of_serialize(v)
    }
}

impl From<ConversionError> for SPFStatus {
    fn from(err: ConversionError) -> (r: SPFStatus) {
        match err {
            ConversionError::NulError(_) => SPFStatus::ErrConversionNulError,
            ConversionError::Utf8Error(_) => SPFStatus::ErrConversionUtf8Error,
            ConversionError::UnsupportedVersion => SPFStatus::ErrUnsupportedVersion,
            ConversionError::UnsupportedColorType => SPFStatus::ErrUnsupportedColorType,
            ConversionError::UnsupportedFontType => SPFStatus::ErrUnsupportedFontType,
        }
    }
}

impl vstd::std_specs::convert::FromSpecImpl<ConversionError> for SPFStatus {
    open spec fn obeys_from_spec() -> bool {
        true
    }

    open spec fn from_spec(v: ConversionError) -> Self {
        spec_status_of_conversion(v)
    }
}

/// Named constants for the version field of a layout.
#[derive(Debug, Clone, Copy, PartialEq, Eq)]
pub enum SPFVersion {
    FV0,
}

impl SPFVersion {
    /// The number that stands for this version.
    pub fn code(&self) -> (r: u8)
        ensures
            r == 0,
    {
        0
    }
}

/// Named constants for the color type field of a color.
#[derive(Debug, Clone, Copy, PartialEq, Eq)]
pub enum SPFColorType {
    Dynamic,
    Absolute,
}

impl SPFColorType {
    /// The number that stands for this color type.
    pub fn code(&self) -> (r: u8)
        ensures
            r == (match *self {
                SPFColorType::Dynamic => 0u8,
                SPFColorType::Absolute => 1u8,
            }),
    {
        match self {
            SPFColorType::Dynamic => 0,
            SPFColorType::Absolute => 1,
        }
    }
}

/// Named constants for the font type field of a font.
#[derive(Debug, Clone, Copy, PartialEq, Eq)]
pub enum SPFFontType {
    Regular,
    Bold,
    Italic,
}

impl SPFFontType {
    /// The number that stands for this font type.
    pub fn code(&self) -> (r: u8)
        ensures
            r == (match *self {
                SPFFontType::Regular => 0u8,
                SPFFontType::Bold => 1u8,
                SPFFontType::Italic => 2u8,
            }),
    {
        match self {
            SPFFontType::Regular => 0,
            SPFFontType::Bold => 1,
            SPFFontType::Italic => 2,
        }
    }
}

} // verus!
