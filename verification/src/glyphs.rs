//! Glyph fonts: a header and a body of characters, each with its own width
//! and a pixel map of the font's constant height.
use vstd::prelude::*;
use crate::bitmap_font::ALIGNMENT_HEIGHT;
use crate::format::bits::{bit_state, bits_of};
use crate::format::byte::ByteWriter;
use crate::format::roundtrip::enc_bit_seq;
use crate::glyph_stream::{
    glyph_font_bytes, glyph_head, lemma_parse_glyph_font_bytes, lemma_records_sized, lemma_records_start,
    lemma_records_step, parse_glyph_font, read_glyph_font, record_encoder, record_ok, records_view,
    write_glyph_head, write_glyph_record,
};
use crate::format::model::Cursor;

verus! {

/// The configuration flags of a glyph font.
#[derive(Debug, Default, Clone, Copy)]
pub struct ConfigurationFlags {
    /// Whether the characters are aligned by width (`false`) or height
    /// (`true`).
    pub alignment: bool,
}

/// The modifier flags of a glyph font.
#[derive(Debug, Default, Clone, Copy)]
pub struct ModifierFlags {
    /// Whether the font body is packed without padding bits.
    pub compact: bool,
}

/// The values every glyph font sets.
#[derive(Debug, Clone, Copy)]
pub struct RequiredValues {
    /// The height (or width) shared by every character.
    pub constant_size: u8,
}

/// The header of a glyph font.
#[derive(Debug, Clone, Copy)]
pub struct Header {
    pub configuration_flags: ConfigurationFlags,
    pub modifier_flags: ModifierFlags,
    pub required_values: RequiredValues,
}

/// A character of a glyph font: its code point, its width, and its pixels,
/// row by row.
#[derive(Debug)]
pub struct Character {
    pub utf8: char,
    pub custom_size: u8,
    pub byte_map: Vec<u8>,
}

/// The characters of a glyph font.
#[derive(Debug)]
pub struct Body {
    pub characters: Vec<Character>,
}

/// A glyph font.
#[derive(Debug)]
pub struct Layout {
    pub header: Header,
    pub body: Body,
}

impl Character {
    /// A character with the given code point, width and pixels.
    pub fn new(utf8: char, custom_size: u8, byte_map: Vec<u8>) -> (r: Self)
        ensures
            r == (Character { utf8, custom_size, byte_map }),
    {
        Character { utf8, custom_size, byte_map }
    }
}

impl Layout {
    /// A font with the given header and body.
    pub fn new(header: Header, body: Body) -> (r: Self)
        ensures
            r == (Layout { header, body }),
    {
        Layout { header, body }
    }

    /// Adds `character` at the end of the body.
    pub fn add_character(&mut self, character: Character) -> (r: Result<(), String>)
        requires
            old(self).header.configuration_flags.alignment == ALIGNMENT_HEIGHT,
        ensures
            r is Ok,
            final(self).header == old(self).header,
            final(self).body.characters@ == old(self).body.characters@.push(character),
    {
        self.body.characters.push(character);
        Ok(())
    }
}

/// The pixels of a pixel map: a pixel is set where its byte is 1.
pub open spec fn map_pixels(byte_map: Seq<u8>) -> Seq<bool> {
    byte_map.map_values(|b: u8| b == 1)
}

/// The records of a font's characters: each character, its width and its
/// pixels.
pub open spec fn glyph_records(characters: Seq<Character>) -> Seq<(char, u8, Seq<bool>)> {
    characters.map_values(|c: Character| (c.utf8, c.custom_size, map_pixels(c.byte_map@)))
}

/// The bytes a glyph font is encoded as: the signature `fsF`, a header
/// byte (bit 0: aligned by height; bit 4: compact), the constant size, then
/// each character's UTF-8 bytes, its width, and its pixels one bit each
/// (set where the byte is 1), least significant bit first, padded to a byte
/// boundary unless compact.
pub open spec fn glyph_layout_bytes(header: Header, characters: Seq<Character>) -> Seq<u8> {
    glyph_font_bytes(
        header.configuration_flags.alignment,
        header.modifier_flags.compact,
        header.required_values.constant_size,
        glyph_records(characters),
    )
}

/// Whether `d` holds a glyph font: it starts with the signature `fsF` and
/// each record reads, neither running past the end of the bytes nor holding
/// a code point that is not valid UTF-8.
pub open spec fn glyph_layout_decodable(d: Seq<u8>) -> bool {
    parse_glyph_font(d) is Some
}

/// A decoded character: its width times the font's size pixels, each 0 or 1.
pub open spec fn decoded_glyph(c: Character, size: u8) -> bool {
    &&& c.byte_map@.len() == c.custom_size * size
    &&& forall|j: int| 0 <= j < c.byte_map@.len() ==> #[trigger] c.byte_map@[j] == 0 || c.byte_map@[j] == 1
}

/// Whether `layout` is what the bytes `d` hold: the alignment, packing,
/// constant size and records that [`parse_glyph_font`] reads, each pixel a
/// byte, 1 where set and 0 elsewhere.
pub open spec fn glyph_layout_read_from(layout: Layout, d: Seq<u8>) -> bool {
    match parse_glyph_font(d) {
        Some(p) => {
            &&& layout.header.configuration_flags.alignment == p.0
            &&& layout.header.modifier_flags.compact == p.1
            &&& layout.header.required_values.constant_size == p.2
            &&& glyph_records(layout.body.characters@) == p.3
            &&& forall|k: int| 0 <= k < layout.body.characters@.len() ==> decoded_glyph(
                #[trigger] layout.body.characters@[k],
                p.2,
            )
        },
        None => false,
    }
}

/// Appending character `i` of the records extends the records by it.
proof fn lemma_push_glyph(before: Seq<Character>, c: Character, rv: Seq<(char, u8, Seq<bool>)>, i: int, size: u8)
    requires
        before.len() == i,
        0 <= i < rv.len(),
        glyph_records(before) == rv.take(i),
        rv[i] == (c.utf8, c.custom_size, map_pixels(c.byte_map@)),
        forall|k: int| 0 <= k < before.len() ==> decoded_glyph(#[trigger] before[k], size),
        decoded_glyph(c, size),
    ensures
        glyph_records(before.push(c)) == rv.take(i + 1),
        before.push(c).len() == i + 1,
        forall|k: int| 0 <= k < before.push(c).len() ==> decoded_glyph(#[trigger] before.push(c)[k], size),
{
    let after = before.push(c);
    assert forall|k: int| 0 <= k < after.len() implies decoded_glyph(#[trigger] after[k], size) by {
        if k < i {
            assert(after[k] == before[k]);
        }
    }
    assert forall|k: int| 0 <= k < i + 1 implies #[trigger] glyph_records(after)[k] == rv.take(i + 1)[k] by {
        if k < i {
            assert(after[k] == before[k]);
            assert(glyph_records(before)[k] == rv.take(i)[k]);
        } else {
            assert(after[k] == c);
        }
    }
    assert(glyph_records(after) =~= rv.take(i + 1));
}

/// The pixels of a pixel map: true where the byte is 1.
fn pixels_of(byte_map: &Vec<u8>) -> (r: Vec<bool>)
    ensures
        r@ == map_pixels(byte_map@),
{
    let mut r: Vec<bool> = Vec::new();
    let mut j: usize = 0;
    while j < byte_map.len()
        invariant
            j <= byte_map@.len(),
            r@ == map_pixels(byte_map@.take(j as int)),
        decreases byte_map@.len() - j,
    {
        r.push(byte_map[j] == 1);
        assert(map_pixels(byte_map@.take(j + 1)) =~= map_pixels(byte_map@.take(j as int)).push(
            byte_map@[j as int] == 1,
        ));
        j = j + 1;
    }
    assert(byte_map@.take(j as int) =~= byte_map@);
    r
}

/// The pixel map of pixels: 1 where a pixel is set, 0 elsewhere.
fn byte_map_of(pixels: &Vec<bool>) -> (r: Vec<u8>)
    ensures
        map_pixels(r@) == pixels@,
        forall|j: int| 0 <= j < r@.len() ==> #[trigger] r@[j] == 0 || r@[j] == 1,
{
    let mut r: Vec<u8> = Vec::new();
    let mut j: usize = 0;
    while j < pixels.len()
        invariant
            j <= pixels@.len(),
            r@.len() == j,
            map_pixels(r@) == pixels@.take(j as int),
            forall|k: int| 0 <= k < r@.len() ==> #[trigger] r@[k] == 0 || r@[k] == 1,
        decreases pixels@.len() - j,
    {
        r.push(if pixels[j] { 1u8 } else { 0u8 });
        assert(map_pixels(r@) =~= pixels@.take(j + 1));
        j = j + 1;
    }
    assert(pixels@.take(j as int) =~= pixels@);
    r
}

impl Layout {
    /// Encodes the font into bytes that can then be written to a file.
    pub fn to_data(&self) -> (r: Vec<u8>)
        ensures
            r@ == glyph_layout_bytes(self.header, self.body.characters@),
    {
        let alignment = self.header.configuration_flags.alignment;
        let compact = self.header.modifier_flags.compact;
        let size = self.header.required_values.constant_size;
        let mut w = ByteWriter::new();
        let ghost recs = glyph_records(self.body.characters@);
        let ghost head = bits_of(glyph_head(alignment, compact, size));
        proof {
            lemma_records_start(head, recs, compact);
        }
        write_glyph_head(&mut w, alignment, compact, size);
        let mut i: usize = 0;
        while i < self.body.characters.len()
            invariant
                i <= self.body.characters@.len(),
                recs == glyph_records(self.body.characters@),
                head == bits_of(glyph_head(alignment, compact, size)),
                compact == self.header.modifier_flags.compact,
                w@ == bit_state(head + enc_bit_seq(recs.take(i as int), record_encoder(compact))),
            decreases self.body.characters@.len() - i,
        {
            let c = &self.body.characters[i];
            let pixels = pixels_of(&c.byte_map);
            proof {
                lemma_records_step(head, recs, compact, i as int);
                assert(recs[i as int] == (c.utf8, c.custom_size, pixels@));
            }
            write_glyph_record(
                &mut w,
                c.utf8,
                c.custom_size,
                &pixels,
                compact,
                Ghost(head + enc_bit_seq(recs.take(i as int), record_encoder(compact))),
            );
            i = i + 1;
        }
        assert(recs.take(i as int) =~= recs);
        w.bytes
    }

    /// Decodes the bytes of a glyph font; each pixel comes back as a byte,
    /// 1 where set and 0 elsewhere. The header byte gives the alignment in
    /// bit 0 and the packing in bit 4; its other bits, and the bits that pad
    /// a pixel map to a byte, are not read.
    pub fn from_data(buffer: Vec<u8>) -> (r: Layout)
        requires
            glyph_layout_decodable(buffer@),
        ensures
            glyph_layout_read_from(r, buffer@),
    {
        Self::try_from_data(buffer).unwrap()
    }

    /// Decodes the bytes of a glyph font as [`Layout::from_data`] does, or
    /// gives `None` where the bytes hold no glyph font.
    pub fn try_from_data(buffer: Vec<u8>) -> (r: Option<Layout>)
        ensures
            r is Some <==> glyph_layout_decodable(buffer@),
            r matches Some(layout) ==> glyph_layout_read_from(layout, buffer@),
    {
        let (alignment, compact, size, records) = match read_glyph_font(buffer.as_slice()) {
            Some(x) => x,
            None => {
                return None;
            },
        };
        let ghost rv = records_view(records@);
        proof {
            lemma_records_sized(buffer@, Cursor { index: 5, pointer: 0 }, compact, size);
        }
        let mut characters: Vec<Character> = Vec::new();
        let mut i: usize = 0;
        while i < records.len()
            invariant
                i <= records@.len(),
                rv == records_view(records@),
                forall|k: int| 0 <= k < rv.len() ==> (#[trigger] rv[k]).2.len() == rv[k].1 * size,
                characters@.len() == i,
                glyph_records(characters@) == rv.take(i as int),
                forall|k: int| 0 <= k < characters@.len() ==> decoded_glyph(#[trigger] characters@[k], size),
            decreases records@.len() - i,
        {
            let utf8 = records[i].0;
            let csize = records[i].1;
            let byte_map = byte_map_of(&records[i].2);
            proof {
                assert(rv[i as int] == (records@[i as int].0, records@[i as int].1, records@[i as int].2@));
                assert(rv[i as int].2.len() == rv[i as int].1 * size);
            }
            let c = Character { utf8, custom_size: csize, byte_map };
            let ghost before = characters@;
            let ghost cc = c;
            characters.push(c);
            proof {
                lemma_push_glyph(before, cc, rv, i as int, size);
            }
            i = i + 1;
        }
        assert(rv.take(i as int) =~= rv);
        Some(Layout {
            header: Header {
                configuration_flags: ConfigurationFlags { alignment },
                modifier_flags: ModifierFlags { compact },
                required_values: RequiredValues { constant_size: size },
            },
            body: Body { characters },
        })
    }
}

/// What a glyph font's bytes read back as is that font: where each
/// character has its width times the constant size pixels and is not `'\0'`
/// (which is written as no bytes), the font read from [`Layout::to_data`]'s
/// bytes has the same alignment, packing, constant size and characters'
/// code points, widths and pixels.
pub proof fn lemma_glyph_layout_read_back(layout: Layout, read: Layout)
    requires
        forall|i: int| 0 <= i < layout.body.characters@.len() ==> (#[trigger] layout.body.characters@[i]).utf8
            != '\0' && layout.body.characters@[i].byte_map@.len() == layout.body.characters@[i].custom_size
            * layout.header.required_values.constant_size,
        glyph_layout_read_from(read, glyph_layout_bytes(layout.header, layout.body.characters@)),
    ensures
        glyph_layout_decodable(glyph_layout_bytes(layout.header, layout.body.characters@)),
        read.header.configuration_flags.alignment == layout.header.configuration_flags.alignment,
        read.header.modifier_flags.compact == layout.header.modifier_flags.compact,
        read.header.required_values.constant_size == layout.header.required_values.constant_size,
        glyph_records(read.body.characters@) == glyph_records(layout.body.characters@),
{
    let size = layout.header.required_values.constant_size;
    let cs = layout.body.characters@;
    let rs = glyph_records(cs);
    assert forall|i: int| 0 <= i < rs.len() implies record_ok(#[trigger] rs[i], size) by {
        assert(rs[i] == (cs[i].utf8, cs[i].custom_size, map_pixels(cs[i].byte_map@)));
    }
    lemma_parse_glyph_font_bytes(
        layout.header.configuration_flags.alignment,
        layout.header.modifier_flags.compact,
        size,
        rs,
    );
}

} // verus!
