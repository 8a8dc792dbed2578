//! Bit flag sets stored in a single byte of the `.spf` format.
use vstd::prelude::*;

verus! {

/// Bit flags selecting which configuration values are constant for every [`Pixmap`](super::Pixmap) in a [`PixmapTable`](super::PixmapTable).
///
/// Every bit is kept, including bits that no flag names.
#[derive(Debug, Clone, Copy, PartialEq, Eq)]
pub struct PixmapTableConfigurationFlags {
    bits: u8,
}

impl View for PixmapTableConfigurationFlags {
    type V = u8;

    closed spec fn view(&self) -> u8 {
        self.bits
    }
}

impl PixmapTableConfigurationFlags {
    /// The set holding exactly the bits of `bits`.
    pub fn from_bits_retain(bits: u8) -> (r: Self)
        ensures
            r@ == bits,
    {
        PixmapTableConfigurationFlags { bits }
    }

    /// The set with no flag.
    pub fn empty() -> (r: Self)
        ensures
            r@ == 0,
    {
        PixmapTableConfigurationFlags { bits: 0 }
    }

    /// The byte holding this set.
    pub fn bits(&self) -> (r: u8)
        ensures
            r == self@,
    {
        self.bits
    }

    /// Whether every flag of `other` is in this set.
    pub fn contains(&self, other: Self) -> (r: bool)
        ensures
            r == (self@ & other@ == other@),
    {
        self.bits & other.bits == other.bits
    }

    /// Every pixmap has the table's constant width.
    pub fn constant_width() -> (r: Self)
        ensures
            r@ == 1u8,
    {
        PixmapTableConfigurationFlags { bits: 1 }
    }

    /// Every pixmap has the table's constant height.
    pub fn constant_height() -> (r: Self)
        ensures
            r@ == 2u8,
    {
        PixmapTableConfigurationFlags { bits: 2 }
    }

    /// Every pixmap has the table's constant bits per pixel.
    pub fn constant_bits_per_pixel() -> (r: Self)
        ensures
            r@ == 4u8,
    {
        PixmapTableConfigurationFlags { bits: 4 }
    }
}

/// Bit flags selecting which other tables a [`PixmapTable`](super::PixmapTable) links to.
///
/// Every bit is kept, including bits that no flag names.
#[derive(Debug, Clone, Copy, PartialEq, Eq)]
pub struct PixmapTableLinkFlags {
    bits: u8,
}

impl View for PixmapTableLinkFlags {
    type V = u8;

    closed spec fn view(&self) -> u8 {
        self.bits
    }
}

impl PixmapTableLinkFlags {
    /// The set holding exactly the bits of `bits`.
    pub fn from_bits_retain(bits: u8) -> (r: Self)
        ensures
            r@ == bits,
    {
        PixmapTableLinkFlags { bits }
    }

    /// The set with no flag.
    pub fn empty() -> (r: Self)
        ensures
            r@ == 0,
    {
        PixmapTableLinkFlags { bits: 0 }
    }

    /// The byte holding this set.
    pub fn bits(&self) -> (r: u8)
        ensures
            r == self@,
    {
        self.bits
    }

    /// Whether every flag of `other` is in this set.
    pub fn contains(&self, other: Self) -> (r: bool)
        ensures
            r == (self@ & other@ == other@),
    {
        self.bits & other.bits == other.bits
    }

    /// The table links to color tables.
    pub fn link_color_tables() -> (r: Self)
        ensures
            r@ == 1u8,
    {
        PixmapTableLinkFlags { bits: 1 }
    }
}

/// Bit flags selecting which optional fields are present on every [`Character`](super::Character) record in a [`CharacterTable`](super::CharacterTable).
///
/// Every bit is kept, including bits that no flag names.
#[derive(Debug, Clone, Copy, PartialEq, Eq)]
pub struct CharacterTableModifierFlags {
    bits: u8,
}

impl View for CharacterTableModifierFlags {
    type V = u8;

    closed spec fn view(&self) -> u8 {
        self.bits
    }
}

impl CharacterTableModifierFlags {
    /// The set holding exactly the bits of `bits`.
    pub fn from_bits_retain(bits: u8) -> (r: Self)
        ensures
            r@ == bits,
    {
        CharacterTableModifierFlags { bits }
    }

    /// The set with no flag.
    pub fn empty() -> (r: Self)
        ensures
            r@ == 0,
    {
        CharacterTableModifierFlags { bits: 0 }
    }

    /// The byte holding this set.
    pub fn bits(&self) -> (r: u8)
        ensures
            r == self@,
    {
        self.bits
    }

    /// Whether every flag of `other` is in this set.
    pub fn contains(&self, other: Self) -> (r: bool)
        ensures
            r == (self@ & other@ == other@),
    {
        self.bits & other.bits == other.bits
    }

    /// Every record carries an `advance_x` byte.
    pub fn use_advance_x() -> (r: Self)
        ensures
            r@ == 1u8,
    {
        CharacterTableModifierFlags { bits: 1 }
    }

    /// Every record carries a `pixmap_index` byte.
    pub fn use_pixmap_index() -> (r: Self)
        ensures
            r@ == 2u8,
    {
        CharacterTableModifierFlags { bits: 2 }
    }

    /// Every record carries a `pixmap_table_index` byte.
    pub fn use_pixmap_table_index() -> (r: Self)
        ensures
            r@ == 4u8,
    {
        CharacterTableModifierFlags { bits: 4 }
    }
}

/// Bit flags selecting which other tables a [`CharacterTable`](super::CharacterTable) links to.
///
/// Every bit is kept, including bits that no flag names.
#[derive(Debug, Clone, Copy, PartialEq, Eq)]
pub struct CharacterTableLinkFlags {
    bits: u8,
}

impl View for CharacterTableLinkFlags {
    type V = u8;

    closed spec fn view(&self) -> u8 {
        self.bits
    }
}

impl CharacterTableLinkFlags {
    /// The set holding exactly the bits of `bits`.
    pub fn from_bits_retain(bits: u8) -> (r: Self)
        ensures
            r@ == bits,
    {
        CharacterTableLinkFlags { bits }
    }

    /// The set with no flag.
    pub fn empty() -> (r: Self)
        ensures
            r@ == 0,
    {
        CharacterTableLinkFlags { bits: 0 }
    }

    /// The byte holding this set.
    pub fn bits(&self) -> (r: u8)
        ensures
            r == self@,
    {
        self.bits
    }

    /// Whether every flag of `other` is in this set.
    pub fn contains(&self, other: Self) -> (r: bool)
        ensures
            r == (self@ & other@ == other@),
    {
        self.bits & other.bits == other.bits
    }

    /// The table links to pixmap tables.
    pub fn link_pixmap_tables() -> (r: Self)
        ensures
            r@ == 1u8,
    {
        CharacterTableLinkFlags { bits: 1 }
    }
}

/// Bit flags selecting which configuration values are constant for every [`Character`](super::Character) in a [`CharacterTable`](super::CharacterTable).
///
/// Every bit is kept, including bits that no flag names.
#[derive(Debug, Clone, Copy, PartialEq, Eq)]
pub struct CharacterTableConfigurationFlags {
    bits: u8,
}

impl View for CharacterTableConfigurationFlags {
    type V = u8;

    closed spec fn view(&self) -> u8 {
        self.bits
    }
}

impl CharacterTableConfigurationFlags {
    /// The set holding exactly the bits of `bits`.
    pub fn from_bits_retain(bits: u8) -> (r: Self)
        ensures
            r@ == bits,
    {
        CharacterTableConfigurationFlags { bits }
    }

    /// The set with no flag.
    pub fn empty() -> (r: Self)
        ensures
            r@ == 0,
    {
        CharacterTableConfigurationFlags { bits: 0 }
    }

    /// The byte holding this set.
    pub fn bits(&self) -> (r: u8)
        ensures
            r == self@,
    {
        self.bits
    }

    /// Whether every flag of `other` is in this set.
    pub fn contains(&self, other: Self) -> (r: bool)
        ensures
            r == (self@ & other@ == other@),
    {
        self.bits & other.bits == other.bits
    }

    /// Every character has the table's constant number of code points.
    pub fn constant_code_point_count() -> (r: Self)
        ensures
            r@ == 1u8,
    {
        CharacterTableConfigurationFlags { bits: 1 }
    }
}

/// Bit flags selecting which optional fields are present on every [`Color`](super::Color) record in a [`ColorTable`](super::ColorTable).
///
/// Every bit is kept, including bits that no flag names.
#[derive(Debug, Clone, Copy, PartialEq, Eq)]
pub struct ColorTableModifierFlags {
    bits: u8,
}

impl View for ColorTableModifierFlags {
    type V = u8;

    closed spec fn view(&self) -> u8 {
        self.bits
    }
}

impl ColorTableModifierFlags {
    /// The set holding exactly the bits of `bits`.
    pub fn from_bits_retain(bits: u8) -> (r: Self)
        ensures
            r@ == bits,
    {
        ColorTableModifierFlags { bits }
    }

    /// The set with no flag.
    pub fn empty() -> (r: Self)
        ensures
            r@ == 0,
    {
        ColorTableModifierFlags { bits: 0 }
    }

    /// The byte holding this set.
    pub fn bits(&self) -> (r: u8)
        ensures
            r == self@,
    {
        self.bits
    }

    /// Whether every flag of `other` is in this set.
    pub fn contains(&self, other: Self) -> (r: bool)
        ensures
            r == (self@ & other@ == other@),
    {
        self.bits & other.bits == other.bits
    }

    /// Every record carries a color type.
    pub fn use_color_type() -> (r: Self)
        ensures
            r@ == 1u8,
    {
        ColorTableModifierFlags { bits: 1 }
    }
}

/// Bit flags selecting which configuration values are constant for every [`Color`](super::Color) in a [`ColorTable`](super::ColorTable).
///
/// Every bit is kept, including bits that no flag names.
#[derive(Debug, Clone, Copy, PartialEq, Eq)]
pub struct ColorTableConfigurationFlags {
    bits: u8,
}

impl View for ColorTableConfigurationFlags {
    type V = u8;

    closed spec fn view(&self) -> u8 {
        self.bits
    }
}

impl ColorTableConfigurationFlags {
    /// The set holding exactly the bits of `bits`.
    pub fn from_bits_retain(bits: u8) -> (r: Self)
        ensures
            r@ == bits,
    {
        ColorTableConfigurationFlags { bits }
    }

    /// The set with no flag.
    pub fn empty() -> (r: Self)
        ensures
            r@ == 0,
    {
        ColorTableConfigurationFlags { bits: 0 }
    }

    /// The byte holding this set.
    pub fn bits(&self) -> (r: u8)
        ensures
            r == self@,
    {
        self.bits
    }

    /// Whether every flag of `other` is in this set.
    pub fn contains(&self, other: Self) -> (r: bool)
        ensures
            r == (self@ & other@ == other@),
    {
        self.bits & other.bits == other.bits
    }

    /// Every color has the table's constant alpha.
    pub fn constant_alpha() -> (r: Self)
        ensures
            r@ == 1u8,
    {
        ColorTableConfigurationFlags { bits: 1 }
    }
}

/// Bit flags selecting which other tables a [`FontTable`](super::FontTable) links to.
///
/// Every bit is kept, including bits that no flag names.
#[derive(Debug, Clone, Copy, PartialEq, Eq)]
pub struct FontTableLinkFlags {
    bits: u8,
}

impl View for FontTableLinkFlags {
    type V = u8;

    closed spec fn view(&self) -> u8 {
        self.bits
    }
}

impl FontTableLinkFlags {
    /// The set holding exactly the bits of `bits`.
    pub fn from_bits_retain(bits: u8) -> (r: Self)
        ensures
            r@ == bits,
    {
        FontTableLinkFlags { bits }
    }

    /// The set with no flag.
    pub fn empty() -> (r: Self)
        ensures
            r@ == 0,
    {
        FontTableLinkFlags { bits: 0 }
    }

    /// The byte holding this set.
    pub fn bits(&self) -> (r: u8)
        ensures
            r == self@,
    {
        self.bits
    }

    /// Whether every flag of `other` is in this set.
    pub fn contains(&self, other: Self) -> (r: bool)
        ensures
            r == (self@ & other@ == other@),
    {
        self.bits & other.bits == other.bits
    }

    /// The table links to character tables.
    pub fn link_character_tables() -> (r: Self)
        ensures
            r@ == 1u8,
    {
        FontTableLinkFlags { bits: 1 }
    }
}

} // verus!
