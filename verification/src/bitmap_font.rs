//! Single-table fonts whose characters carry a bitmap of boolean pixels.
use vstd::prelude::*;
use vstd::slice::slice_to_vec;
use crate::format::bits::{bit_state, bits_of};
use crate::format::byte::ByteWriter;
use crate::format::roundtrip::enc_bit_seq;
use crate::glyph_stream::{
    glyph_font_bytes, glyph_head, lemma_parse_glyph_font_bytes, lemma_records_len, lemma_records_sized,
    lemma_records_start, lemma_records_step, parse_glyph_font, read_glyph_font, record_encoder,
    record_ok, records_view, write_glyph_head, write_glyph_record,
};
use crate::format::model::Cursor;

verus! {

/// Characters are aligned by width.
pub const ALIGNMENT_WIDTH: bool = false;
/// Characters are aligned by height.
pub const ALIGNMENT_HEIGHT: bool = true;

/// The configuration flags of a [`SimplePixelFont`].
#[derive(Debug, Default, Clone, Copy)]
pub struct ConfigurationFlags {
    /// Whether the characters are aligned by width (`false`) or height
    /// (`true`).
    pub alignment: bool,
}

/// The modifier flags of a [`SimplePixelFont`].
#[derive(Debug, Default, Clone, Copy)]
pub struct ModifierFlags {
    /// Whether the font body is packed without padding bits.
    pub compact: bool,
}

/// The bitmap of a character: `width * height` pixels, row by row.
///
/// An inferred bitmap has no dimensions yet; the font it is added to
/// derives them from its size.
#[derive(Debug)]
pub struct Bitmap {
    pub width: u8,
    pub height: u8,
    pub data: Vec<bool>,
    /// Whether the dimensions are still to be derived.
    pub inferred: bool,
}

/// A character of a [`SimplePixelFont`].
#[derive(Debug)]
pub struct Character {
    pub utf8: char,
    pub size: u8,
    pub bitmap: Bitmap,
}

/// A font: its flags, its size (the height of every character), and its
/// characters.
#[derive(Debug)]
pub struct SimplePixelFont {
    pub configurations: ConfigurationFlags,
    pub modifiers: ModifierFlags,
    pub size: u8,
    pub characters: Vec<Character>,
}

impl Bitmap {
    /// Whether the bitmap is inferred.
    pub open spec fn inferred_flag(&self) -> bool {
        self.inferred
    }

    /// A bitmap with the given dimensions and pixels; an error when there
    /// are not `width * height` pixels.
    pub fn new(width: u8, height: u8, data: Vec<bool>) -> (r: Result<Self, String>)
        ensures
            match r {
                Ok(b) => width * height == data@.len() && b.width == width && b.height == height
                    && b.data == data && !b.inferred_flag(),
                Err(e) => width * height != data@.len() && e@
                    == "Bitmap width*height does not equal data.len()!"@,
            },
    {
        proof {
            assert(width as usize * height as usize <= 65025) by (nonlinear_arith)
                requires
                    width <= 255,
                    height <= 255,
            ;
        }
        if width as usize * height as usize == data.len() {
            Ok(Bitmap { width, height, data, inferred: false })
        } else {
            Err("Bitmap width*height does not equal data.len()!".to_owned())
        }
    }

    /// A bitmap of the given pixels whose dimensions are not known yet.
    pub fn inferred(data: &[bool]) -> (r: Self)
        ensures
            r.width == 0,
            r.height == 0,
            r.data@ == data@,
            r.inferred_flag(),
    {
        Bitmap { width: 0, height: 0, data: slice_to_vec(data), inferred: true }
    }

    /// Whether the bitmap is inferred.
    pub fn is_inferred(&self) -> (r: bool)
        ensures
            r == self.inferred_flag(),
    {
        self.inferred
    }
}

impl Character {
    /// A character with a bitmap of known dimensions; an error when the
    /// bitmap is inferred.
    pub fn new(utf8: char, size: u8, bitmap: Bitmap) -> (r: Result<Self, String>)
        ensures
            match r {
                Ok(c) => !bitmap.inferred_flag() && c == (Character { utf8, size, bitmap }),
                Err(e) => bitmap.inferred_flag() && e@
                    == "Bitmap provided is inferred, use Character::inferred() instead!"@,
            },
    {
        if !bitmap.is_inferred() {
            Ok(Character { utf8, size, bitmap })
        } else {
            Err("Bitmap provided is inferred, use Character::inferred() instead!".to_owned())
        }
    }

    /// A character with an inferred bitmap, whose size the font derives.
    pub fn inferred(utf8: char, bitmap: Bitmap) -> (r: Self)
        requires
            bitmap.inferred_flag(),
        ensures
            r == (Character { utf8, size: 0, bitmap }),
    {
        Character { utf8, size: 0, bitmap }
    }
}

/// The width that a font of height `size` derives for an inferred bitmap
/// of `len` pixels, as the format's 16- and 8-bit arithmetic computes it;
/// `None` when the pixels do not fill whole columns.
pub open spec fn inferred_width(len: nat, size: u8) -> Option<u8> {
    let n = (len % 65536) as int;
    if n % (size as int) == 0 {
        Some(((n / (size as int)) % 256) as u8)
    } else {
        None
    }
}

impl SimplePixelFont {
    /// A font with the given flags and size and no characters.
    pub fn new(configurations: ConfigurationFlags, modifiers: ModifierFlags, size: u8) -> (r: Self)
        ensures
            r.configurations == configurations,
            r.modifiers == modifiers,
            r.size == size,
            r.characters@ == Seq::<Character>::empty(),
    {
        SimplePixelFont { configurations, modifiers, size, characters: Vec::new() }
    }

    /// Adds `character`, deriving the dimensions of an inferred bitmap from
    /// the font's size; an error when its pixels do not fill whole columns.
    pub fn add_character(&mut self, character: Character) -> (r: Result<(), String>)
        requires
            old(self).configurations.alignment == ALIGNMENT_HEIGHT,
            character.bitmap.inferred_flag() ==> old(self).size != 0,
            character.bitmap.inferred_flag() ==> (inferred_width(
                character.bitmap.data@.len(),
                old(self).size,
            ) matches Some(w) ==> w * old(self).size == character.bitmap.data@.len()),
        ensures
            final(self).configurations == old(self).configurations,
            final(self).modifiers == old(self).modifiers,
            final(self).size == old(self).size,
            if character.bitmap.inferred_flag() {
                match inferred_width(character.bitmap.data@.len(), old(self).size) {
                    Some(w) => r is Ok && final(self).characters@.len() == old(self).characters@.len() + 1
                        && final(self).characters@.drop_last() == old(self).characters@
                        && final(self).characters@.last().utf8 == character.utf8
                        && final(self).characters@.last().size == w
                        && final(self).characters@.last().bitmap.width == w
                        && final(self).characters@.last().bitmap.height == old(self).size
                        && final(self).characters@.last().bitmap.data == character.bitmap.data
                        && !final(self).characters@.last().bitmap.inferred_flag(),
                    None => r == Err::<(), String>(r->Err_0) && r->Err_0@
                        == "Character's bitmap dimensions cannot be inffered."@
                        && final(self).characters == old(self).characters,
                }
            } else {
                r is Ok && final(self).characters@ == old(self).characters@.push(
                    Character { size: character.bitmap.width, ..character },
                )
            },
    {
        if character.bitmap.is_inferred() {
            let len = character.bitmap.data.len();
            let n = (len % 65536) as u16;
            let size = self.size as u16;
            let remainder = (n % size) as u8;
            if remainder == 0 {
                let width = ((n / size) % 256) as u8;
                let ghost before = self.characters@;
                let Character { utf8, size: _, bitmap } = character;
                let data = bitmap.data;
                match Bitmap::new(width, self.size, data) {
                    Ok(b) => {
                        self.characters.push(Character { utf8, size: width, bitmap: b });
                        assert(self.characters@.drop_last() =~= before);
                        Ok(())
                    },
                    Err(_) => {
                        assert(false);
                        Ok(())
                    },
                }
            } else {
                Err("Character's bitmap dimensions cannot be inffered.".to_owned())
            }
        } else {
            let size = character.bitmap.width;
            self.characters.push(Character { size, ..character });
            Ok(())
        }
    }
}

/// The records of a font's characters: each character, its size and its
/// pixels.
pub open spec fn bitmap_records(characters: Seq<Character>) -> Seq<(char, u8, Seq<bool>)> {
    characters.map_values(|c: Character| (c.utf8, c.size, c.bitmap.data@))
}

/// The bytes a font is encoded as: the signature `fsF`, a header byte
/// (bit 0: aligned by height; bit 4: compact), the size, then each
/// character's UTF-8 bytes, its size, and its pixels one bit each, least
/// significant bit first, padded to a byte boundary unless compact.
pub open spec fn spf_font_bytes(
    configurations: ConfigurationFlags,
    modifiers: ModifierFlags,
    size: u8,
    characters: Seq<Character>,
) -> Seq<u8> {
    glyph_font_bytes(configurations.alignment, modifiers.compact, size, bitmap_records(characters))
}

/// Whether `d` holds a font: it starts with the signature `fsF` and each
/// record reads, neither running past the end of the bytes nor holding a
/// code point that is not valid UTF-8.
pub open spec fn spf_font_decodable(d: Seq<u8>) -> bool {
    parse_glyph_font(d) is Some
}

/// A decoded character: its size times the font's size pixels, dimensions
/// that follow the alignment, and not inferred.
pub open spec fn decoded_character(c: Character, alignment: bool, size: u8) -> bool {
    &&& c.bitmap.data@.len() == c.size * size
    &&& c.bitmap.width == if alignment { c.size } else { size }
    &&& c.bitmap.height == if alignment { size } else { c.size }
    &&& !c.bitmap.inferred_flag()
}

/// Whether `font` is what the bytes `d` hold: the alignment, packing, size
/// and records that [`parse_glyph_font`] reads, each record a character
/// whose bitmap follows the alignment.
pub open spec fn spf_font_read_from(font: SimplePixelFont, d: Seq<u8>) -> bool {
    match parse_glyph_font(d) {
        Some(p) => {
            &&& font.configurations.alignment == p.0
            &&& font.modifiers.compact == p.1
            &&& font.size == p.2
            &&& bitmap_records(font.characters@) == p.3
            &&& forall|k: int| 0 <= k < font.characters@.len() ==> decoded_character(
                #[trigger] font.characters@[k],
                p.0,
                p.2,
            )
        },
        None => false,
    }
}

/// Appending character `i` of the records extends the records by it.
proof fn lemma_push_record(before: Seq<Character>, c: Character, rv: Seq<(char, u8, Seq<bool>)>, i: int, alignment: bool, size: u8)
    requires
        before.len() == i,
        0 <= i < rv.len(),
        bitmap_records(before) == rv.take(i),
        rv[i] == (c.utf8, c.size, c.bitmap.data@),
        forall|k: int| 0 <= k < before.len() ==> decoded_character(#[trigger] before[k], alignment, size),
        decoded_character(c, alignment, size),
    ensures
        bitmap_records(before.push(c)) == rv.take(i + 1),
        before.push(c).len() == i + 1,
        forall|k: int| 0 <= k < before.push(c).len() ==> decoded_character(#[trigger] before.push(c)[k], alignment, size),
{
    let after = before.push(c);
    assert forall|k: int| 0 <= k < after.len() implies decoded_character(#[trigger] after[k], alignment, size) by {
        if k < i {
            assert(after[k] == before[k]);
        }
    }
    assert forall|k: int| 0 <= k < i + 1 implies #[trigger] bitmap_records(after)[k] == rv.take(i + 1)[k] by {
        if k < i {
            assert(after[k] == before[k]);
            assert(bitmap_records(before)[k] == rv.take(i)[k]);
        } else {
            assert(after[k] == c);
        }
    }
    assert(bitmap_records(after) =~= rv.take(i + 1));
}

impl SimplePixelFont {
    /// Encodes the font into bytes that can then be written to a file.
    pub fn to_vec_u8(&self) -> (r: Vec<u8>)
        ensures
            r@ == spf_font_bytes(self.configurations, self.modifiers, self.size, self.characters@),
    {
        let alignment = self.configurations.alignment;
        let compact = self.modifiers.compact;
        let mut w = ByteWriter::new();
        let ghost recs = bitmap_records(self.characters@);
        let ghost head = bits_of(glyph_head(alignment, compact, self.size));
        proof {
            lemma_records_start(head, recs, compact);
        }
        write_glyph_head(&mut w, alignment, compact, self.size);
        let mut i: usize = 0;
        while i < self.characters.len()
            invariant
                i <= self.characters@.len(),
                recs == bitmap_records(self.characters@),
                head == bits_of(glyph_head(alignment, compact, self.size)),
                compact == self.modifiers.compact,
                alignment == self.configurations.alignment,
                w@ == bit_state(head + enc_bit_seq(recs.take(i as int), record_encoder(compact))),
            decreases self.characters@.len() - i,
        {
            let c = &self.characters[i];
            proof {
                lemma_records_step(head, recs, compact, i as int);
                assert(recs[i as int] == (c.utf8, c.size, c.bitmap.data@));
            }
            write_glyph_record(
                &mut w,
                c.utf8,
                c.size,
                &c.bitmap.data,
                compact,
                Ghost(head + enc_bit_seq(recs.take(i as int), record_encoder(compact))),
            );
            i = i + 1;
        }
        assert(recs.take(i as int) =~= recs);
        w.bytes
    }

    /// Decodes the bytes of a font. Each bitmap gets its dimensions from the
    /// alignment: the character's size wide and the font's size high when
    /// aligned by height, the other way round otherwise. The header byte
    /// gives the alignment in bit 0 and the packing in bit 4; its other bits,
    /// and the bits that pad a bitmap to a byte, are not read.
    pub fn from_vec_u8(buffer: Vec<u8>) -> (r: SimplePixelFont)
        requires
            spf_font_decodable(buffer@),
        ensures
            spf_font_read_from(r, buffer@),
    {
        Self::try_from_vec_u8(buffer).unwrap()
    }

    /// Decodes the bytes of a font as [`SimplePixelFont::from_vec_u8`] does,
    /// or gives `None` where the bytes hold no font.
    pub fn try_from_vec_u8(buffer: Vec<u8>) -> (r: Option<SimplePixelFont>)
        ensures
            r is Some <==> spf_font_decodable(buffer@),
            r matches Some(font) ==> spf_font_read_from(font, buffer@),
    {
        let (alignment, compact, size, records) = match read_glyph_font(buffer.as_slice()) {
            Some(x) => x,
            None => {
                return None;
            },
        };
        let ghost rv = records_view(records@);
        proof {
            lemma_records_sized(buffer@, Cursor { index: 5, pointer: 0 }, compact, size);
        }
        let mut characters: Vec<Character> = Vec::new();
        let mut i: usize = 0;
        while i < records.len()
            invariant
                i <= records@.len(),
                rv == records_view(records@),
                forall|k: int| 0 <= k < rv.len() ==> (#[trigger] rv[k]).2.len() == rv[k].1 * size,
                characters@.len() == i,
                bitmap_records(characters@) == rv.take(i as int),
                forall|k: int| 0 <= k < characters@.len() ==> decoded_character(#[trigger] characters@[k], alignment, size),
            decreases records@.len() - i,
        {
            let utf8 = records[i].0;
            let csize = records[i].1;
            let data = slice_to_vec(records[i].2.as_slice());
            proof {
                assert(rv[i as int] == (records@[i as int].0, records@[i as int].1, records@[i as int].2@));
                assert(rv[i as int].2.len() == rv[i as int].1 * size);
                assert(data@ == records@[i as int].2@);
            }
            let width = if alignment { csize } else { size };
            let height = if alignment { size } else { csize };
            let c = Character { utf8, size: csize, bitmap: Bitmap { width, height, data, inferred: false } };
            let ghost before = characters@;
            let ghost cc = c;
            characters.push(c);
            proof {
                lemma_push_record(before, cc, rv, i as int, alignment, size);
            }
            i = i + 1;
        }
        assert(rv.take(i as int) =~= rv);
        Some(SimplePixelFont {
            configurations: ConfigurationFlags { alignment },
            modifiers: ModifierFlags { compact },
            size,
            characters,
        })
    }
}

/// What a font's bytes read back as is that font: where each character
/// has its size times the font's size pixels and is not `'\0'` (which is
/// written as no bytes), the font read from [`SimplePixelFont::to_vec_u8`]'s
/// bytes has the same alignment, packing, size and characters' code points,
/// sizes and pixels.
pub proof fn lemma_spf_font_read_back(font: SimplePixelFont, read: SimplePixelFont)
    requires
        forall|i: int| 0 <= i < font.characters@.len() ==> (#[trigger] font.characters@[i]).utf8 != '\0'
            && font.characters@[i].bitmap.data@.len() == font.characters@[i].size * font.size,
        spf_font_read_from(read, spf_font_bytes(font.configurations, font.modifiers, font.size, font.characters@)),
    ensures
        spf_font_decodable(spf_font_bytes(font.configurations, font.modifiers, font.size, font.characters@)),
        read.configurations.alignment == font.configurations.alignment,
        read.modifiers.compact == font.modifiers.compact,
        read.size == font.size,
        bitmap_records(read.characters@) == bitmap_records(font.characters@),
{
    let rs = bitmap_records(font.characters@);
    assert forall|i: int| 0 <= i < rs.len() implies record_ok(#[trigger] rs[i], font.size) by {
        assert(rs[i] == (font.characters@[i].utf8, font.characters@[i].size, font.characters@[i].bitmap.data@));
    }
    lemma_parse_glyph_font_bytes(font.configurations.alignment, font.modifiers.compact, font.size, rs);
}

/// The bitmaps of a font read from bytes follow its alignment: aligned by
/// width, each bitmap is the font's size wide and its character's size
/// high; aligned by height, its character's size wide and the font's size
/// high. Either way it holds width times height pixels.
pub proof fn lemma_decoded_bitmap_dimensions(font: SimplePixelFont, d: Seq<u8>, k: int)
    requires
        spf_font_read_from(font, d),
        0 <= k < font.characters@.len(),
    ensures
        !font.configurations.alignment ==> font.characters@[k].bitmap.width == font.size
            && font.characters@[k].bitmap.height == font.characters@[k].size,
        font.configurations.alignment ==> font.characters@[k].bitmap.width == font.characters@[k].size
            && font.characters@[k].bitmap.height == font.size,
        font.characters@[k].bitmap.data@.len() == font.characters@[k].bitmap.width
            * font.characters@[k].bitmap.height,
{
    let c = font.characters@[k];
    assert(decoded_character(c, font.configurations.alignment, font.size));
    assert(c.size * font.size == font.size * c.size) by (nonlinear_arith);
}

} // verus!
