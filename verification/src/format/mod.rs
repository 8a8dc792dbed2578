//! The composite structs that mirror a `SimplePixelFont` binary file, and the
//! [`layout_to_data`] / [`layout_from_data`] functions that convert between
//! them and bytes.
use vstd::prelude::*;

pub mod byte;
pub mod flags;
pub mod model;
pub mod deserialize;
pub mod serialize;
pub mod text;
pub mod tables;
pub mod roundtrip;
pub mod framing;
pub mod bits;
pub mod packing;
pub mod colors;

pub use byte::{ByteReader, ByteReaderImpl, ByteWriter};
pub use deserialize::{
    deserialize_with_engine, layout_from_data, try_deserialize_with_engine, try_layout_from_data,
    DeserializeEngine,
};
pub use model::Failure;
pub use serialize::{
    layout_to_data, serialize_with_engine, try_layout_to_data, try_serialize_with_engine,
    SerializeEngine,
};
pub use flags::{
    CharacterTableConfigurationFlags, CharacterTableLinkFlags, CharacterTableModifierFlags,
    ColorTableConfigurationFlags, ColorTableModifierFlags, FontTableLinkFlags,
    PixmapTableConfigurationFlags, PixmapTableLinkFlags,
};

verus! {

/// Format version of a `.spf` file.
#[derive(Debug, Clone, Copy, PartialEq, Eq)]
pub enum Version {
    FV0,
}

impl Version {
    /// The version that `value` encodes.
    pub fn try_from(value: u8) -> (r: Result<Version, DeserializeError>)
        ensures
            r == spec_version_from(value),
    {
        match value {
            0 => Ok(Version::FV0),
            _ => Err(DeserializeError::UnsupportedVersion),
        }
    }

    /// The byte that encodes this version.
    pub fn to_u8(&self) -> (r: u8)
        ensures
            r == spec_version_byte(*self),
    {
        match self {
            Version::FV0 => 0,
        }
    }

    /// The version's name: `FV`, then its byte in binary.
    pub fn to_string(&self) -> (r: String)
        ensures
            r@ == seq!['F', 'V', '0'],
    {
        match self {
            Version::FV0 => {
                let r = String::from_str("FV0");
                proof {
                    reveal_strlit("FV0");
                }
                r
            },
        }
    }
}

/// The version that a version byte encodes.
pub open spec fn spec_version_from(value: u8) -> Result<Version, DeserializeError> {
    if value == 0 {
        Ok(Version::FV0)
    } else {
        Err(DeserializeError::UnsupportedVersion)
    }
}

/// The byte that encodes a version.
pub open spec fn spec_version_byte(v: Version) -> u8 {
    match v {
        Version::FV0 => 0,
    }
}

/// How the channels of a [`Color`] are to be read.
#[derive(Debug, Clone, Copy, PartialEq, Eq)]
pub enum ColorType {
    Dynamic,
    Absolute,
}

impl ColorType {
    /// The color type that `value` encodes.
    pub fn try_from(value: u8) -> (r: Result<ColorType, DeserializeError>)
        ensures
            r == (if value == 0 {
                Ok(ColorType::Dynamic)
            } else if value == 1 {
                Ok(ColorType::Absolute)
            } else {
                Err(DeserializeError::UnsupportedColorType)
            }),
    {
        match value {
            0 => Ok(ColorType::Dynamic),
            1 => Ok(ColorType::Absolute),
            _ => Err(DeserializeError::UnsupportedColorType),
        }
    }
}

/// The style of a [`Font`].
#[derive(Debug, Clone, Copy, PartialEq, Eq)]
pub enum FontType {
    Regular,
    Bold,
    Italic,
}

impl FontType {
    /// The font type that `value` encodes.
    pub fn try_from(value: u8) -> (r: Result<FontType, DeserializeError>)
        ensures
            r == spec_font_type_from(value),
    {
        match value {
            0 => Ok(FontType::Regular),
            1 => Ok(FontType::Bold),
            2 => Ok(FontType::Italic),
            _ => Err(DeserializeError::UnsupportedFontType),
        }
    }

    /// The byte that encodes this font type.
    pub fn to_u8(&self) -> (r: u8)
        ensures
            r == spec_font_type_byte(*self),
    {
        match self {
            FontType::Regular => 0,
            FontType::Bold => 1,
            FontType::Italic => 2,
        }
    }
}

/// The font type that a font type byte encodes.
pub open spec fn spec_font_type_from(value: u8) -> Result<FontType, DeserializeError> {
    if value == 0 {
        Ok(FontType::Regular)
    } else if value == 1 {
        Ok(FontType::Bold)
    } else if value == 2 {
        Ok(FontType::Italic)
    } else {
        Err(DeserializeError::UnsupportedFontType)
    }
}

/// The byte that encodes a font type.
pub open spec fn spec_font_type_byte(t: FontType) -> u8 {
    match t {
        FontType::Regular => 0,
        FontType::Bold => 1,
        FontType::Italic => 2,
    }
}

/// The kind of table that follows a table identifier byte.
#[derive(Debug, Clone, Copy, PartialEq, Eq)]
pub enum TableIdentifier {
    Character,
    Pixmap,
    Color,
    Font,
}

impl TableIdentifier {
    /// The table kind that `value` identifies.
    pub fn try_from(value: u8) -> (r: Result<TableIdentifier, DeserializeError>)
        ensures
            r == spec_table_identifier_from(value),
    {
        match value {
            1 => Ok(TableIdentifier::Character),
            2 => Ok(TableIdentifier::Pixmap),
            3 => Ok(TableIdentifier::Color),
            4 => Ok(TableIdentifier::Font),
            _ => Err(DeserializeError::UnsupportedTableIdentifier),
        }
    }
}

/// The table kind that a table identifier byte identifies.
pub open spec fn spec_table_identifier_from(value: u8) -> Result<TableIdentifier, DeserializeError> {
    if value == 1 {
        Ok(TableIdentifier::Character)
    } else if value == 2 {
        Ok(TableIdentifier::Pixmap)
    } else if value == 3 {
        Ok(TableIdentifier::Color)
    } else if value == 4 {
        Ok(TableIdentifier::Font)
    } else {
        Err(DeserializeError::UnsupportedTableIdentifier)
    }
}

/// Identifier byte of a character table.
pub const CHARACTER_TABLE_ID: u8 = 1;
/// Identifier byte of a pixmap table.
pub const PIXMAP_TABLE_ID: u8 = 2;
/// Identifier byte of a color table.
pub const COLOR_TABLE_ID: u8 = 3;
/// Identifier byte of a font table.
pub const FONT_TABLE_ID: u8 = 4;

/// Errors that can occur while parsing a `.spf` byte buffer into a [`Layout`].
#[derive(Debug, Clone, Copy, PartialEq, Eq)]
pub enum DeserializeError {
    /// The data ended before the value being read.
    UnexpectedEndOfFile,
    /// The data does not start with the `.spf` signature.
    InvalidSignature,
    /// The version byte names no known format version.
    UnsupportedVersion,
    /// A color type byte names no known color type.
    UnsupportedColorType,
    /// A table identifier byte names no known table kind.
    UnsupportedTableIdentifier,
    /// A font type byte names no known font type.
    UnsupportedFontType,
}

/// Errors that can occur while serializing a [`Layout`] into a `.spf` byte buffer.
#[derive(Debug, Clone, Copy, PartialEq, Eq)]
pub enum SerializeError {
    /// A vector whose length is stored in one byte holds more than 255 items,
    /// or a pixmap holds more pixels than its width times its height.
    StaticVectorTooLarge,
    /// A pixmap's data cannot be stored.
    InvalidPixmapData,
}

/// The full, decoded contents of a `.spf` file: its format version, packing
/// mode, and every table it defines.
#[derive(Debug, Clone, PartialEq)]
pub struct Layout {
    /// The format version.
    pub version: Version,
    /// Whether partial trailing bytes of pixmaps are packed to the bit
    /// (`true`) or padded out to a full byte (`false`).
    pub compact: bool,
    /// The character tables, in declaration order.
    pub character_tables: Vec<CharacterTable>,
    /// The color tables, in declaration order.
    pub color_tables: Vec<ColorTable>,
    /// The pixmap tables, in declaration order.
    pub pixmap_tables: Vec<PixmapTable>,
    /// The font tables, in declaration order.
    pub font_tables: Vec<FontTable>,
}

/// A table of pixmaps.
#[derive(Debug, Clone, PartialEq)]
pub struct PixmapTable {
    /// Which configuration values are constant for every pixmap.
    pub configuration_flags: PixmapTableConfigurationFlags,
    /// Width shared by every pixmap, when set.
    pub constant_width: Option<u8>,
    /// Height shared by every pixmap, when set.
    pub constant_height: Option<u8>,
    /// Bits per pixel shared by every pixmap, when set.
    pub constant_bits_per_pixel: Option<u8>,
    /// Which other tables this table links to.
    pub link_flags: PixmapTableLinkFlags,
    /// Indexes of the linked color tables, when set.
    pub color_table_indexes: Option<Vec<u8>>,
    /// The pixmaps, in declaration order.
    pub pixmaps: Vec<Pixmap>,
}

/// One pixmap of a [`PixmapTable`].
#[derive(Debug, Clone, PartialEq)]
pub struct Pixmap {
    /// Width of this pixmap, when the table has no constant width.
    pub custom_width: Option<u8>,
    /// Height of this pixmap, when the table has no constant height.
    pub custom_height: Option<u8>,
    /// Bits per pixel of this pixmap, when the table has none constant.
    pub custom_bits_per_pixel: Option<u8>,
    /// The pixel data.
    pub data: Vec<u8>,
}

/// A table of characters.
#[derive(Debug, Clone, PartialEq)]
pub struct CharacterTable {
    /// Which optional per-character fields are present.
    pub modifier_flags: CharacterTableModifierFlags,
    /// Which configuration values are constant for every character.
    pub configuration_flags: CharacterTableConfigurationFlags,
    /// Number of code points shared by every character, when set.
    pub constant_code_point_count: Option<u8>,
    /// Which other tables this table links to.
    pub link_flags: CharacterTableLinkFlags,
    /// Indexes of the linked pixmap tables, when set.
    pub pixmap_table_indexes: Option<Vec<u8>>,
    /// The characters, in declaration order.
    pub characters: Vec<Character>,
}

/// One character of a [`CharacterTable`].
#[derive(Debug, Clone, PartialEq)]
pub struct Character {
    /// Horizontal advance of this character.
    pub advance_x: Option<u8>,
    /// Index of this character's pixmap.
    pub pixmap_index: Option<u8>,
    /// Index of the pixmap table holding this character's pixmap.
    pub pixmap_table_index: Option<u8>,
    /// The code points (grapheme cluster) this character stands for.
    pub code_points: String,
}

/// A table of colors.
#[derive(Debug, Clone, PartialEq)]
pub struct ColorTable {
    /// Which optional per-color fields are present.
    pub modifier_flags: ColorTableModifierFlags,
    /// Which configuration values are constant for every color.
    pub configuration_flags: ColorTableConfigurationFlags,
    /// Alpha shared by every color, when set.
    pub constant_alpha: Option<u8>,
    /// The colors, in declaration order.
    pub colors: Vec<Color>,
}

/// One color of a [`ColorTable`].
#[derive(Debug, Clone, PartialEq)]
pub struct Color {
    /// How the channels are to be read.
    pub color_type: Option<ColorType>,
    /// Alpha of this color, when the table has no constant alpha.
    pub custom_alpha: Option<u8>,
    pub red: u8,
    pub green: u8,
    pub blue: u8,
}

/// A table of fonts.
#[derive(Debug, Clone, PartialEq)]
pub struct FontTable {
    /// Which other tables this table links to.
    pub link_flags: FontTableLinkFlags,
    /// Indexes of the linked character tables, when set.
    pub character_table_indexes: Option<Vec<u8>>,
    /// The fonts, in declaration order.
    pub fonts: Vec<Font>,
}

/// One font of a [`FontTable`].
#[derive(Debug, Clone, PartialEq)]
pub struct Font {
    pub name: String,
    pub author: String,
    pub version: u8,
    pub font_type: FontType,
    /// Indexes of the character tables this font uses.
    pub linked_character_table_indexes: Vec<u8>,
}

/// Abstract value of a [`Pixmap`].
#[verifier::ext_equal]
pub struct PixmapModel {
    pub custom_width: Option<u8>,
    pub custom_height: Option<u8>,
    pub custom_bits_per_pixel: Option<u8>,
    pub data: Seq<u8>,
}

/// Abstract value of a [`PixmapTable`].
#[verifier::ext_equal]
pub struct PixmapTableModel {
    pub configuration_flags: u8,
    pub constant_width: Option<u8>,
    pub constant_height: Option<u8>,
    pub constant_bits_per_pixel: Option<u8>,
    pub link_flags: u8,
    pub color_table_indexes: Option<Seq<u8>>,
    pub pixmaps: Seq<PixmapModel>,
}

/// Abstract value of a [`Character`].
#[verifier::ext_equal]
pub struct CharacterModel {
    pub advance_x: Option<u8>,
    pub pixmap_index: Option<u8>,
    pub pixmap_table_index: Option<u8>,
    pub code_points: Seq<char>,
}

/// Abstract value of a [`CharacterTable`].
#[verifier::ext_equal]
pub struct CharacterTableModel {
    pub modifier_flags: u8,
    pub configuration_flags: u8,
    pub constant_code_point_count: Option<u8>,
    pub link_flags: u8,
    pub pixmap_table_indexes: Option<Seq<u8>>,
    pub characters: Seq<CharacterModel>,
}

/// Abstract value of a [`Color`].
#[verifier::ext_equal]
pub struct ColorModel {
    pub color_type: Option<ColorType>,
    pub custom_alpha: Option<u8>,
    pub red: u8,
    pub green: u8,
    pub blue: u8,
}

/// Abstract value of a [`ColorTable`].
#[verifier::ext_equal]
pub struct ColorTableModel {
    pub modifier_flags: u8,
    pub configuration_flags: u8,
    pub constant_alpha: Option<u8>,
    pub colors: Seq<ColorModel>,
}

/// Abstract value of a [`Font`].
#[verifier::ext_equal]
pub struct FontModel {
    pub name: Seq<char>,
    pub author: Seq<char>,
    pub version: u8,
    pub font_type: FontType,
    pub linked_character_table_indexes: Seq<u8>,
}

/// Abstract value of a [`FontTable`].
#[verifier::ext_equal]
pub struct FontTableModel {
    pub link_flags: u8,
    pub character_table_indexes: Option<Seq<u8>>,
    pub fonts: Seq<FontModel>,
}

/// Abstract value of a [`Layout`].
#[verifier::ext_equal]
pub struct LayoutModel {
    pub version: Version,
    pub compact: bool,
    pub character_tables: Seq<CharacterTableModel>,
    pub color_tables: Seq<ColorTableModel>,
    pub pixmap_tables: Seq<PixmapTableModel>,
    pub font_tables: Seq<FontTableModel>,
}

/// The abstract value of an optional byte vector.
pub open spec fn opt_seq(v: Option<Vec<u8>>) -> Option<Seq<u8>> {
    match v {
        Some(v) => Some(v@),
        None => None,
    }
}

impl View for Pixmap {
    type V = PixmapModel;

    open spec fn view(&self) -> PixmapModel {
        PixmapModel {
            custom_width: self.custom_width,
            custom_height: self.custom_height,
            custom_bits_per_pixel: self.custom_bits_per_pixel,
            data: self.data@,
        }
    }
}

impl View for PixmapTable {
    type V = PixmapTableModel;

    open spec fn view(&self) -> PixmapTableModel {
        PixmapTableModel {
            configuration_flags: self.configuration_flags@,
            constant_width: self.constant_width,
            constant_height: self.constant_height,
            constant_bits_per_pixel: self.constant_bits_per_pixel,
            link_flags: self.link_flags@,
            color_table_indexes: opt_seq(self.color_table_indexes),
            pixmaps: self.pixmaps@.map_values(|p: Pixmap| p@),
        }
    }
}

impl View for Character {
    type V = CharacterModel;

    open spec fn view(&self) -> CharacterModel {
        CharacterModel {
            advance_x: self.advance_x,
            pixmap_index: self.pixmap_index,
            pixmap_table_index: self.pixmap_table_index,
            code_points: self.code_points@,
        }
    }
}

impl View for CharacterTable {
    type V = CharacterTableModel;

    open spec fn view(&self) -> CharacterTableModel {
        CharacterTableModel {
            modifier_flags: self.modifier_flags@,
            configuration_flags: self.configuration_flags@,
            constant_code_point_count: self.constant_code_point_count,
            link_flags: self.link_flags@,
            pixmap_table_indexes: opt_seq(self.pixmap_table_indexes),
            characters: self.characters@.map_values(|c: Character| c@),
        }
    }
}

impl View for Color {
    type V = ColorModel;

    open spec fn view(&self) -> ColorModel {
        ColorModel {
            color_type: self.color_type,
            custom_alpha: self.custom_alpha,
            red: self.red,
            green: self.green,
            blue: self.blue,
        }
    }
}

impl View for ColorTable {
    type V = ColorTableModel;

    open spec fn view(&self) -> ColorTableModel {
        ColorTableModel {
            modifier_flags: self.modifier_flags@,
            configuration_flags: self.configuration_flags@,
            constant_alpha: self.constant_alpha,
            colors: self.colors@.map_values(|c: Color| c@),
        }
    }
}

impl View for Font {
    type V = FontModel;

    open spec fn view(&self) -> FontModel {
        FontModel {
            name: self.name@,
            author: self.author@,
            version: self.version,
            font_type: self.font_type,
            linked_character_table_indexes: self.linked_character_table_indexes@,
        }
    }
}

impl View for FontTable {
    type V = FontTableModel;

    open spec fn view(&self) -> FontTableModel {
        FontTableModel {
            link_flags: self.link_flags@,
            character_table_indexes: opt_seq(self.character_table_indexes),
            fonts: self.fonts@.map_values(|f: Font| f@),
        }
    }
}

impl Layout {
    /// A layout of the first format version, not compact, with no tables.
    pub fn empty() -> (r: Self)
        ensures
            r@ == super::format::model::empty_layout(Version::FV0, false),
    {
        let r = Layout {
            version: Version::FV0,
            compact: false,
            character_tables: Vec::new(),
            color_tables: Vec::new(),
            pixmap_tables: Vec::new(),
            font_tables: Vec::new(),
        };
        assert(r@ =~= super::format::model::empty_layout(Version::FV0, false));
        r
    }
}

impl View for Layout {
    type V = LayoutModel;

    open spec fn view(&self) -> LayoutModel {
        LayoutModel {
            version: self.version,
            compact: self.compact,
            character_tables: self.character_tables@.map_values(|t: CharacterTable| t@),
            color_tables: self.color_tables@.map_values(|t: ColorTable| t@),
            pixmap_tables: self.pixmap_tables@.map_values(|t: PixmapTable| t@),
            font_tables: self.font_tables@.map_values(|t: FontTable| t@),
        }
    }
}

} // verus!
