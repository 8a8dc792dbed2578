//! The byte layout shared by the single-table fonts of [`crate::bitmap_font`]
//! and [`crate::glyphs`].
//!
//! The bytes are a stream of bits, packed least significant first: the
//! signature `fsF`, a header byte (bit 0: aligned by height; bit 4: compact),
//! the font's size, then one record per character: the character's UTF-8
//! bytes, its size byte, and one bit per pixel. Unless the font is compact,
//! each record's pixels are padded with zero bits to a byte boundary; a
//! compact font packs the next record right after the last pixel.
//!
//! Reading takes the alignment from bit 0 and the packing from bit 4 of the
//! header byte and leaves its other bits and the padding bits unread; it
//! reads records while a whole byte is left.
use vstd::prelude::*;
use vstd::utf8::{encode_scalar, encode_utf8, encode_utf8_first_scalar};
use crate::format::bits::{
    at_bits, bit_at, bit_cursor, bit_state, bits_of, fits, lemma_append_bits, lemma_at_bits_split,
    lemma_at_bits_value, lemma_at_pack, lemma_pack_len, lemma_bytes_for_bits, pack_bits,
    value_bits,
};
use crate::format::byte::{ByteReader, ByteWriter, WriterState};
use crate::format::deserialize::{next_code_point, take_bits, take_byte, DeserializeEngine};
use crate::format::model::{lead_width, p_bits, p_byte, p_bytes, p_code_point, Cursor, Parsed};
use crate::format::roundtrip::{
    at, cursor, enc_bit_seq, lemma_after_nothing, lemma_at_bit_seq_item, lemma_at_byte,
    lemma_at_split, lemma_enc_bit_seq_take, lemma_enc_bit_seq_unfold, lemma_encode_scalar_lead,
    lemma_p_code_point_at, lemma_ws_code_points, lemma_ws_push, terminator,
};
use crate::format::serialize::put;
use crate::format::serialize::put_bits;
use crate::format::tables::character::push_grapheme_cluster;
use crate::format::text::string_push;

verus! {

/// The signature that opens a glyph font.
pub open spec fn glyph_signature() -> Seq<u8> {
    seq![102u8, 115u8, 70u8]
}

/// The header byte: bit 0 for alignment by height, bit 4 for compact.
pub open spec fn header_byte(alignment: bool, compact: bool) -> u8 {
    (if alignment { 1u8 } else { 0u8 }) | (if compact { 16u8 } else { 0u8 })
}

/// The bytes a character is written as: its UTF-8 encoding, or nothing for
/// `'\0'` (whose only byte is 0, and 0 bytes are not written).
pub open spec fn char_bytes(c: char) -> Seq<u8> {
    if c == '\0' {
        Seq::empty()
    } else {
        encode_utf8(seq![c])
    }
}

/// The zero bits that pad `n` pixel bits to a byte boundary, unless the
/// font is compact.
pub open spec fn pad_bits(n: nat, compact: bool) -> Seq<bool> {
    if !compact && n % 8 != 0 {
        value_bits(0, (8 - n % 8) as u8)
    } else {
        Seq::empty()
    }
}

/// The bits of one character record: its bytes, its size, its pixels, and
/// the padding.
pub open spec fn record_bits(r: (char, u8, Seq<bool>), compact: bool) -> Seq<bool> {
    bits_of(char_bytes(r.0).push(r.1)) + (r.2 + pad_bits(r.2.len(), compact))
}

/// Encodes character records.
pub open spec fn record_encoder(compact: bool) -> spec_fn((char, u8, Seq<bool>)) -> Seq<bool> {
    |r: (char, u8, Seq<bool>)| record_bits(r, compact)
}

/// The bytes before the records.
pub open spec fn glyph_head(alignment: bool, compact: bool, size: u8) -> Seq<u8> {
    glyph_signature() + seq![header_byte(alignment, compact), size]
}

/// The bits of a whole glyph font.
pub open spec fn glyph_font_bits(alignment: bool, compact: bool, size: u8, records: Seq<(char, u8, Seq<bool>)>) -> Seq<bool> {
    bits_of(glyph_head(alignment, compact, size)) + enc_bit_seq(records, record_encoder(compact))
}

/// The bytes of a whole glyph font.
pub open spec fn glyph_font_bytes(alignment: bool, compact: bool, size: u8, records: Seq<(char, u8, Seq<bool>)>) -> Seq<u8> {
    pack_bits(glyph_font_bits(alignment, compact, size, records))
}

/// A record that reads back: a character other than `'\0'` (which is
/// written as no bytes) and exactly its size times the font's size pixels.
pub open spec fn record_ok(r: (char, u8, Seq<bool>), size: u8) -> bool {
    &&& r.0 != '\0'
    &&& r.2.len() == r.1 * size
}

/// The position of a cursor, in bits from the start of the bytes.
pub open spec fn cursor_bits(c: Cursor) -> int {
    8 * c.index + c.pointer
}

/// The bits left to read after `c`; none once `c` is past the end.
pub open spec fn bits_left(d: Seq<u8>, c: Cursor) -> nat {
    if cursor_bits(c) < 8 * d.len() {
        (8 * d.len() - cursor_bits(c)) as nat
    } else {
        0
    }
}

/// Reading `n` pixels at `c`, one bit each, set where the bit is 1.
pub open spec fn p_pixels(d: Seq<u8>, c: Cursor, n: nat) -> Parsed<Seq<bool>>
    decreases n,
{
    if n == 0 {
        Parsed::Done(Seq::empty(), c)
    } else {
        match p_pixels(d, c, (n - 1) as nat) {
            Parsed::Done(px, c1) => match p_bits(d, c1, 1) {
                Parsed::Done(b, c2) => Parsed::Done(px.push(b == 1), c2),
                Parsed::Failed(f) => Parsed::Failed(f),
            },
            Parsed::Failed(f) => Parsed::Failed(f),
        }
    }
}

/// Reading one character record at `c`: a code point, the character's size
/// byte, its size times the font's `size` pixels and, unless the font is
/// compact, the bits that pad the pixels to a byte, whatever they hold.
pub open spec fn p_glyph_record(d: Seq<u8>, c: Cursor, compact: bool, size: u8) -> Parsed<(char, u8, Seq<bool>)> {
    match p_code_point(d, c) {
        Parsed::Done(ch, c1) => match p_byte(d, c1) {
            Parsed::Done(w, c2) => match p_pixels(d, c2, (w * size) as nat) {
                Parsed::Done(px, c3) => if !compact && px.len() % 8 != 0 {
                    match p_bits(d, c3, (8 - px.len() % 8) as u8) {
                        Parsed::Done(_, c4) => Parsed::Done((ch, w, px), c4),
                        Parsed::Failed(f) => Parsed::Failed(f),
                    }
                } else {
                    Parsed::Done((ch, w, px), c3)
                },
                Parsed::Failed(f) => Parsed::Failed(f),
            },
            Parsed::Failed(f) => Parsed::Failed(f),
        },
        Parsed::Failed(f) => Parsed::Failed(f),
    }
}

/// Reading records from `c` while a whole byte is left: `None` when a
/// record cannot be read (it runs past the end of the bytes, or its code
/// point is not valid UTF-8).
pub open spec fn p_glyph_records(d: Seq<u8>, c: Cursor, compact: bool, size: u8) -> Option<Seq<(char, u8, Seq<bool>)>>
    decreases bits_left(d, c),
{
    if cursor_bits(c) + 8 > 8 * d.len() {
        Some(Seq::empty())
    } else {
        match p_glyph_record(d, c, compact, size) {
            Parsed::Done(r, c1) => {
                proof {
                    lemma_record_advances(d, c, compact, size);
                }
                match p_glyph_records(d, c1, compact, size) {
                    Some(rest) => Some(seq![r] + rest),
                    None => None,
                }
            },
            Parsed::Failed(_) => None,
        }
    }
}

/// `front` followed by what `rest` holds, if it holds anything.
pub open spec fn prefixed(front: Seq<(char, u8, Seq<bool>)>, rest: Option<Seq<(char, u8, Seq<bool>)>>) -> Option<Seq<(char, u8, Seq<bool>)>> {
    match rest {
        Some(s) => Some(front + s),
        None => None,
    }
}

/// What a glyph font's bytes hold: its alignment (bit 0 of the header byte),
/// whether it is compact (bit 4), its size and its character records. The
/// header byte and the size read as 0 where the bytes end before them, and
/// the records start at byte 5. `None` when the bytes do not start with
/// the signature `fsF` or a record cannot be read.
pub open spec fn parse_glyph_font(d: Seq<u8>) -> Option<(bool, bool, u8, Seq<(char, u8, Seq<bool>)>)> {
    if d.len() < 3 || d.take(3) != glyph_signature() {
        None
    } else {
        let header: u8 = if d.len() > 3 { d[3] } else { 0 };
        let size: u8 = if d.len() > 4 { d[4] } else { 0 };
        let compact = header & 16 == 16;
        match p_glyph_records(d, Cursor { index: 5, pointer: 0 }, compact, size) {
            Some(rs) => Some((header & 1 == 1, compact, size, rs)),
            None => None,
        }
    }
}

/// Reading whole bytes keeps the bit offset and moves on a byte each.
proof fn lemma_p_bytes_step(d: Seq<u8>, c: Cursor, n: nat)
    ensures
        p_bytes(d, c, n) matches Parsed::Done(s, c2) ==> c2.pointer == c.pointer && c2.index == c.index + n
            && (n > 0 ==> c2.index <= d.len()),
    decreases n,
{
    if n > 0 {
        lemma_p_bytes_step(d, c, (n - 1) as nat);
    }
}

/// Reading a code point keeps the bit offset and moves on one to four bytes.
proof fn lemma_code_point_step(d: Seq<u8>, c: Cursor)
    ensures
        p_code_point(d, c) matches Parsed::Done(ch, c1) ==> c1.pointer == c.pointer && c.index < c1.index
            && c1.index <= d.len(),
{
    match p_byte(d, c) {
        Parsed::Done(lead, c1) => {
            let w = lead_width(lead);
            if w != 0 {
                lemma_p_bytes_step(d, c1, (w - 1) as nat);
            }
        },
        Parsed::Failed(_) => {},
    }
}

/// Reading `n` bits moves the cursor on `n` bits.
proof fn lemma_p_bits_step(d: Seq<u8>, c: Cursor, n: u8)
    requires
        n <= 8,
    ensures
        p_bits(d, c, n) matches Parsed::Done(v, c1) ==> cursor_bits(c1) == cursor_bits(c) + n && c1.index <= d.len(),
{
}

/// Reading `n` pixels gives `n` of them and moves the cursor on `n` bits.
proof fn lemma_p_pixels_step(d: Seq<u8>, c: Cursor, n: nat)
    ensures
        p_pixels(d, c, n) matches Parsed::Done(px, c1) ==> px.len() == n && cursor_bits(c1) == cursor_bits(c) + n
            && (n > 0 ==> c1.index <= d.len()),
    decreases n,
{
    if n > 0 {
        lemma_p_pixels_step(d, c, (n - 1) as nat);
        match p_pixels(d, c, (n - 1) as nat) {
            Parsed::Done(px, c1) => lemma_p_bits_step(d, c1, 1),
            Parsed::Failed(_) => {},
        }
    }
}

/// Once reading pixels fails, reading more of them fails too.
proof fn lemma_p_pixels_fail(d: Seq<u8>, c: Cursor, m: nat, n: nat)
    requires
        m <= n,
        p_pixels(d, c, m) is Failed,
    ensures
        p_pixels(d, c, n) is Failed,
    decreases n - m,
{
    if m < n {
        lemma_p_pixels_fail(d, c, m, (n - 1) as nat);
    }
}

/// Reading a record moves the cursor on at least two bytes, to no further
/// than the byte after the end, and gives the record its pixels.
pub proof fn lemma_record_advances(d: Seq<u8>, c: Cursor, compact: bool, size: u8)
    ensures
        p_glyph_record(d, c, compact, size) matches Parsed::Done(r, c4) ==> cursor_bits(c4) >= cursor_bits(c) + 16
            && c4.index <= d.len() && r.2.len() == r.1 * size,
{
    lemma_code_point_step(d, c);
    match p_code_point(d, c) {
        Parsed::Done(ch, c1) => match p_byte(d, c1) {
            Parsed::Done(w, c2) => {
                let n = (w * size) as nat;
                lemma_p_pixels_step(d, c2, n);
                match p_pixels(d, c2, n) {
                    Parsed::Done(px, c3) => {
                        if !compact && px.len() % 8 != 0 {
                            lemma_p_bits_step(d, c3, (8 - px.len() % 8) as u8);
                        }
                    },
                    Parsed::Failed(_) => {},
                }
            },
            Parsed::Failed(_) => {},
        },
        Parsed::Failed(_) => {},
    }
}

/// Each record read has its size times the font's size pixels.
pub(crate) proof fn lemma_records_sized(d: Seq<u8>, c: Cursor, compact: bool, size: u8)
    ensures
        p_glyph_records(d, c, compact, size) matches Some(rs) ==> forall|k: int|
            0 <= k < rs.len() ==> (#[trigger] rs[k]).2.len() == rs[k].1 * size,
    decreases bits_left(d, c),
{
    if cursor_bits(c) + 8 <= 8 * d.len() {
        lemma_record_advances(d, c, compact, size);
        match p_glyph_record(d, c, compact, size) {
            Parsed::Done(r, c1) => {
                lemma_records_sized(d, c1, compact, size);
                match p_glyph_records(d, c1, compact, size) {
                    Some(rest) => {
                        let all = seq![r] + rest;
                        assert forall|k: int| 0 <= k < all.len() implies (#[trigger] all[k]).2.len() == all[k].1 * size by {
                            if k > 0 {
                                assert(all[k] == rest[k - 1]);
                            }
                        }
                    },
                    None => {},
                }
            },
            Parsed::Failed(_) => {},
        }
    }
}

/// Writes the signature, the header byte and the size into an empty writer.
pub(crate) fn write_glyph_head(w: &mut ByteWriter, alignment: bool, compact: bool, size: u8)
    requires
        old(w)@ == bit_state(Seq::empty()),
    ensures
        final(w)@ == bit_state(bits_of(glyph_head(alignment, compact, size))),
{
    let none = Ghost(Seq::<bool>::empty());
    let ghost b0 = Seq::<u8>::empty();
    proof {
        lemma_after_nothing(none@);
        lemma_ws_push(none@, b0, 102);
        lemma_ws_push(none@, b0.push(102), 115);
        lemma_ws_push(none@, b0.push(102).push(115), 70);
    }
    let _ = put(w, 102);
    assert(b0 + seq![102u8] =~= b0.push(102));
    let _ = put(w, 115);
    assert(b0.push(102) + seq![115u8] =~= b0.push(102).push(115));
    let _ = put(w, 70);
    let header: u8 = (if alignment { 1u8 } else { 0u8 }) | (if compact { 16u8 } else { 0u8 });
    let ghost b3 = b0.push(102).push(115).push(70);
    assert(b0.push(102).push(115) + seq![70u8] =~= b3);
    proof {
        lemma_ws_push(none@, b3, header);
        lemma_ws_push(none@, b3 + seq![header], size);
    }
    let _ = put(w, header);
    let _ = put(w, size);
    assert(b3 + seq![header] + seq![size] =~= glyph_head(alignment, compact, size));
    assert(none@ + bits_of(glyph_head(alignment, compact, size)) =~= bits_of(glyph_head(alignment, compact, size)));
}

/// Writes one character record after the bits `e`.
pub(crate) fn write_glyph_record(
    w: &mut ByteWriter,
    utf8: char,
    size: u8,
    pixels: &Vec<bool>,
    compact: bool,
    Ghost(e): Ghost<Seq<bool>>,
)
    requires
        old(w)@ == bit_state(e),
        !compact ==> e.len() % 8 == 0,
    ensures
        final(w)@ == bit_state(e + record_bits((utf8, size, pixels@), compact)),
{
    let ghost b0 = Seq::<u8>::empty();
    proof {
        lemma_after_nothing(e);
    }
    if utf8 != '\0' {
        let mut s = String::new();
        string_push(&mut s, utf8);
        assert(s@ == seq![utf8]);
        proof {
            lemma_ws_code_points(e, b0, seq![utf8], Some(1u8));
        }
        let _ = push_grapheme_cluster(w, Some(1u8), &s);
        assert(b0 + (encode_utf8(seq![utf8]) + terminator(Some(1u8))) =~= char_bytes(utf8));
    } else {
        assert(b0 =~= char_bytes(utf8));
    }
    proof {
        lemma_ws_push(e, char_bytes(utf8), size);
    }
    let _ = put(w, size);
    assert(char_bytes(utf8) + seq![size] =~= char_bytes(utf8).push(size));
    let ghost e1 = e + bits_of(char_bytes(utf8).push(size));
    assert(e1.len() == e.len() + 8 * (char_bytes(utf8).len() + 1));
    let mut i: usize = 0;
    assert(e1 + pixels@.take(0) =~= e1);
    while i < pixels.len()
        invariant
            i <= pixels.len(),
            w@ == bit_state(e1 + pixels@.take(i as int)),
        decreases pixels.len() - i,
    {
        let v: u8 = if pixels[i] { 1 } else { 0 };
        proof {
            assert(fits(v, 1u8)) by {
                assert((v == 0u8 || v == 1u8) ==> (v >> 1u8) == 0u8) by (bit_vector);
            }
            assert(value_bits(v, 1) =~= seq![pixels@[i as int]]) by {
                assert(((1u8 >> 0u8) & 1u8 == 1u8) && !((0u8 >> 0u8) & 1u8 == 1u8)) by (bit_vector);
            }
            lemma_append_bits(e1 + pixels@.take(i as int), v, 1);
        }
        let _ = put_bits(w, v, 1);
        assert(e1 + pixels@.take(i as int) + value_bits(v, 1) =~= e1 + pixels@.take(i + 1));
        i = i + 1;
    }
    assert(pixels@.take(i as int) =~= pixels@);
    let ghost e2 = e1 + pixels@;
    assert(e2.len() % 8 == (if compact { e2.len() % 8 } else { pixels@.len() % 8 }));
    if !compact && w.pointer != 0 {
        let n: u8 = 8 - w.pointer;
        proof {
            assert(fits(0u8, n)) by {
                assert((0 < n && n <= 8) ==> (n >= 8 || (0u8 >> n) == 0u8)) by (bit_vector);
            }
            lemma_append_bits(e2, 0, n);
        }
        let _ = put_bits(w, 0, n);
        assert(e2 + value_bits(0, n) =~= e + record_bits((utf8, size, pixels@), compact));
    } else {
        assert(e2 =~= e + record_bits((utf8, size, pixels@), compact));
    }
}

/// The records as plain values.
pub open spec fn records_view(v: Seq<(char, u8, Vec<bool>)>) -> Seq<(char, u8, Seq<bool>)> {
    v.map_values(|x: (char, u8, Vec<bool>)| (x.0, x.1, x.2@))
}

/// A character other than `'\0'` is written as its scalar's encoding.
proof fn lemma_char_bytes(c: char)
    requires
        c != '\0',
    ensures
        char_bytes(c) == encode_scalar(c as u32),
        char_bytes(c).len() >= 1,
{
    assert(encode_utf8(seq![c].drop_first()) =~= Seq::<u8>::empty());
    encode_utf8_first_scalar(seq![c]);
    assert(encode_utf8(seq![c]) =~= encode_scalar(c as u32));
    lemma_encode_scalar_lead(c);
}

/// Where a record's bits occur, reading a code point, a byte, one bit per
/// pixel and then the padding gives the record back.
proof fn lemma_read_record(d: Seq<u8>, pos: int, r: (char, u8, Seq<bool>), compact: bool, size: u8)
    requires
        record_ok(r, size),
        at_bits(d, pos, record_bits(r, compact)),
    ensures
        ({
            let n1 = char_bytes(r.0).len() as int;
            let p0 = pos + 8 * n1 + 8;
            let pad = pad_bits(r.2.len(), compact);
            &&& n1 >= 1
            &&& p_code_point(d, bit_cursor(pos)) == Parsed::Done(r.0, bit_cursor(pos + 8 * n1))
            &&& p_byte(d, bit_cursor(pos + 8 * n1)) == Parsed::Done(r.1, bit_cursor(p0))
            &&& forall|j: int| 0 <= j < r.2.len() ==> #[trigger] p_bits(d, bit_cursor(p0 + j), 1)
                == Parsed::Done(if r.2[j] { 1u8 } else { 0u8 }, bit_cursor(p0 + j + 1))
            &&& pad.len() > 0 ==> p_bits(d, bit_cursor(p0 + r.2.len()), pad.len() as u8) == Parsed::Done(
                0u8,
                bit_cursor(p0 + r.2.len() + pad.len()),
            )
            &&& record_bits(r, compact).len() == 8 * n1 + 8 + r.2.len() + pad.len()
        }),
{
    let cb = char_bytes(r.0);
    let n1 = cb.len() as int;
    lemma_char_bytes(r.0);
    let pad = pad_bits(r.2.len(), compact);
    lemma_at_bits_split(d, pos, bits_of(cb.push(r.1)), r.2 + pad);
    assert(cb.push(r.1) =~= cb + seq![r.1]);
    assert(at(d, pos, 0, cb + seq![r.1]));
    lemma_at_split(d, pos, 0, cb, seq![r.1]);
    lemma_p_code_point_at(d, pos, 0, r.0);
    lemma_at_byte(d, pos, n1, seq![r.1]);
    let p0 = pos + 8 * n1 + 8;
    assert(cursor(pos, 0) == bit_cursor(pos));
    assert(cursor(pos, n1) == bit_cursor(pos + 8 * n1));
    assert(cursor(pos, n1 + 1) == bit_cursor(p0));
    lemma_at_bits_split(d, p0, r.2, pad);
    assert forall|j: int| 0 <= j < r.2.len() implies #[trigger] p_bits(d, bit_cursor(p0 + j), 1)
        == Parsed::Done(if r.2[j] { 1u8 } else { 0u8 }, bit_cursor(p0 + j + 1)) by {
        let v: u8 = if r.2[j] { 1u8 } else { 0u8 };
        assert(((1u8 >> 0u8) & 1u8 == 1u8) && !((0u8 >> 0u8) & 1u8 == 1u8)) by (bit_vector);
        assert((v == 0u8 || v == 1u8) ==> (v >> 1u8) == 0u8) by (bit_vector);
        assert(at_bits(d, p0 + j, value_bits(v, 1))) by {
            assert(value_bits(v, 1)[0] == r.2[j]);
            assert(bit_at(d, p0 + j) == r.2[j]);
            assert(p0 + j + 0 == p0 + j);
        }
        lemma_at_bits_value(d, p0 + j, v, 1);
    }
    if pad.len() > 0 {
        let n = pad.len() as u8;
        assert(fits(0u8, n)) by {
            assert((0 < n && n <= 8) ==> (n >= 8 || (0u8 >> n) == 0u8)) by (bit_vector);
        }
        lemma_at_bits_value(d, p0 + r.2.len(), 0, n);
    }
}

/// Where the head occurs at the start, its five bytes read back in turn.
proof fn lemma_read_head(d: Seq<u8>, h: Seq<u8>)
    requires
        h.len() == 5,
        at(d, 0, 0, h),
    ensures
        forall|k: int| 0 <= k < 5 ==> #[trigger] p_byte(d, bit_cursor(8 * k)) == Parsed::Done(
            h[k],
            bit_cursor(8 * k + 8),
        ),
{
    assert forall|k: int| 0 <= k < 5 implies #[trigger] p_byte(d, bit_cursor(8 * k)) == Parsed::Done(
        h[k],
        bit_cursor(8 * k + 8),
    ) by {
        assert(h.take(k) + h.skip(k) =~= h);
        lemma_at_split(d, 0, 0, h.take(k), h.skip(k));
        lemma_at_byte(d, 0, k, h.skip(k));
        assert(h.skip(k)[0] == h[k]);
        assert(cursor(0, k) == bit_cursor(8 * k));
        assert(cursor(0, k + 1) == bit_cursor(8 * k + 8));
    }
}

/// One byte of the head reads back.
proof fn lemma_read_head_byte(d: Seq<u8>, h: Seq<u8>, k: int)
    requires
        h.len() == 5,
        at(d, 0, 0, h),
        0 <= k < 5,
    ensures
        p_byte(d, bit_cursor(8 * k)) == Parsed::Done(h[k], bit_cursor(8 * k + 8)),
{
    lemma_read_head(d, h);
}

/// The header byte gives back its two flags.
proof fn lemma_header_byte(alignment: bool, compact: bool)
    ensures
        (header_byte(alignment, compact) & 1 == 1) == alignment,
        (header_byte(alignment, compact) & 16 == 16) == compact,
{
    let x: u8 = if alignment { 1u8 } else { 0u8 };
    let y: u8 = if compact { 16u8 } else { 0u8 };
    assert((x == 0 || x == 1) && (y == 0 || y == 16) ==> ((((x | y) & 1) == 1) == (x == 1) && (((x
        | y) & 16) == 16) == (y == 16))) by (bit_vector);
}

/// Reads one character record, as [`p_glyph_record`] says, with the number
/// of bits it took; `None` where the record cannot be read.
fn read_glyph_record<R: ByteReader>(engine: &mut DeserializeEngine<R>, compact: bool, size: u8) -> (r: Option<(char, u8, Vec<bool>, usize)>)
    requires
        old(engine).wf(),
    ensures
        final(engine).wf(),
        final(engine).data() == old(engine).data(),
        match p_glyph_record(old(engine).data(), old(engine).position(), compact, size) {
            Parsed::Done(rec, c) => r matches Some(x) && (x.0, x.1, x.2@) == rec && final(engine).position() == c
                && cursor_bits(c) == cursor_bits(old(engine).position()) + x.3,
            Parsed::Failed(_) => r is None,
        },
{
    let ghost d = engine.data();
    let ghost c0 = engine.position();
    proof {
        lemma_code_point_step(d, c0);
    }
    let idx0 = engine.bytes.index();
    let ch = match next_code_point(engine) {
        Ok(c) => c,
        Err(_) => {
            return None;
        },
    };
    let ghost c1 = engine.position();
    let idx1 = engine.bytes.index();
    assert(idx1 - idx0 <= 4) by {
        lemma_code_point_bytes(d, c0);
    }
    let csize = match take_byte(engine) {
        Ok(b) => b,
        Err(_) => {
            return None;
        },
    };
    let ghost c2 = engine.position();
    let mut used: usize = 8 * (idx1 - idx0) + 8;
    assert(csize as usize * size as usize <= 65025) by (nonlinear_arith)
        requires
            csize <= 255,
            size <= 255,
    ;
    let count: usize = csize as usize * size as usize;
    let mut pixels: Vec<bool> = Vec::new();
    let mut j: usize = 0;
    assert(p_pixels(d, c2, 0) == Parsed::Done(Seq::<bool>::empty(), c2));
    while j < count
        invariant
            engine.wf(),
            engine.data() == d,
            j <= count,
            count == csize * size,
            count <= 65025,
            p_pixels(d, c2, j as nat) == Parsed::Done(pixels@, engine.position()),
            cursor_bits(engine.position()) == cursor_bits(c2) + j,
            used == cursor_bits(c2) - cursor_bits(c0),
            used <= 40,
            p_code_point(d, c0) == Parsed::Done(ch, c1),
            p_byte(d, c1) == Parsed::Done(csize, c2),
            d == old(engine).data(),
            c0 == old(engine).position(),
        decreases count - j,
    {
        let ghost cj = engine.position();
        proof {
            lemma_p_bits_step(d, cj, 1);
        }
        let v = match take_bits(engine, 1) {
            Ok(b) => b,
            Err(_) => {
                proof {
                    lemma_p_pixels_fail(d, c2, (j + 1) as nat, count as nat);
                    assert((csize * size) as nat == count as nat);
                }
                return None;
            },
        };
        pixels.push(v == 1);
        j = j + 1;
    }
    used = used + count;
    proof {
        lemma_p_pixels_step(d, c2, count as nat);
    }
    assert((csize * size) as nat == count as nat);
    if !compact && count % 8 != 0 {
        let n: u8 = (8 - count % 8) as u8;
        let ghost c3 = engine.position();
        proof {
            lemma_p_bits_step(d, c3, n);
        }
        match take_bits(engine, n) {
            Ok(_) => {},
            Err(_) => {
                return None;
            },
        }
        used = used + n as usize;
    }
    Some((ch, csize, pixels, used))
}

/// Reads a glyph font: its alignment, packing, size and character records,
/// as [`parse_glyph_font`] says, or `None` where that gives none.
pub(crate) fn read_glyph_font(buffer: &[u8]) -> (r: Option<(bool, bool, u8, Vec<(char, u8, Vec<bool>)>)>)
    ensures
        match r {
            Some(x) => parse_glyph_font(buffer@) == Some((x.0, x.1, x.2, records_view(x.3@))),
            None => parse_glyph_font(buffer@) is None,
        },
{
    let ghost d = buffer@;
    if buffer.len() < 3 || buffer[0] != 102 || buffer[1] != 115 || buffer[2] != 70 {
        proof {
            if d.len() >= 3 {
                assert(d.take(3)[0] == d[0] && d.take(3)[1] == d[1] && d.take(3)[2] == d[2]);
            }
        }
        return None;
    }
    assert(d.take(3) =~= glyph_signature());
    let header: u8 = if buffer.len() > 3 { buffer[3] } else { 0 };
    let size: u8 = if buffer.len() > 4 { buffer[4] } else { 0 };
    let alignment = header & 1 == 1;
    let compact = header & 16 == 16;
    let mut records: Vec<(char, u8, Vec<bool>)> = Vec::new();
    let ghost start = Cursor { index: 5, pointer: 0 };
    let ghost full = p_glyph_records(d, start, compact, size);
    assert(records_view(records@) =~= Seq::<(char, u8, Seq<bool>)>::empty());
    if buffer.len() < 5 {
        return Some((alignment, compact, size, records));
    }
    let mut engine = DeserializeEngine::from_data(buffer);
    let _ = take_byte(&mut engine);
    let _ = take_byte(&mut engine);
    let _ = take_byte(&mut engine);
    let _ = take_byte(&mut engine);
    let _ = take_byte(&mut engine);
    assert(engine.position() == start);
    proof {
        match full {
            Some(s) => assert(Seq::<(char, u8, Seq<bool>)>::empty() + s =~= s),
            None => {},
        }
    }
    assert(parse_glyph_font(d) == match full {
        Some(rs) => Some((alignment, compact, size, rs)),
        None => None::<(bool, bool, u8, Seq<(char, u8, Seq<bool>)>)>,
    });
    assert(buffer.len() < 0x1_0000_0000_0000_0000int);
    let len8: u128 = buffer.len() as u128 * 8;
    let mut bit_pos: u128 = 40;
    while bit_pos + 8 <= len8
        invariant
            engine.wf(),
            engine.data() == d,
            d == buffer@,
            len8 == 8 * d.len(),
            d.len() < 0x1_0000_0000_0000_0000int,
            bit_pos == cursor_bits(engine.position()),
            engine.position().index <= d.len(),
            full == prefixed(records_view(records@), p_glyph_records(d, engine.position(), compact, size)),
            parse_glyph_font(d) == match full {
                Some(rs) => Some((alignment, compact, size, rs)),
                None => None::<(bool, bool, u8, Seq<(char, u8, Seq<bool>)>)>,
            },
        decreases bits_left(d, engine.position()),
    {
        let ghost c0 = engine.position();
        proof {
            lemma_record_advances(d, c0, compact, size);
        }
        let (ch, csize, pixels, used) = match read_glyph_record(&mut engine, compact, size) {
            Some(x) => x,
            None => {
                assert(p_glyph_records(d, c0, compact, size) is None);
                return None;
            },
        };
        bit_pos = bit_pos + used as u128;
        let ghost c4 = engine.position();
        let ghost rec = (ch, csize, pixels@);
        let ghost before = records_view(records@);
        records.push((ch, csize, pixels));
        proof {
            assert(records_view(records@) =~= before.push(rec));
            match p_glyph_records(d, c4, compact, size) {
                Some(rest) => {
                    assert(before + (seq![rec] + rest) =~= before.push(rec) + rest);
                },
                None => {},
            }
        }
    }
    proof {
        assert(records_view(records@) + Seq::<(char, u8, Seq<bool>)>::empty() =~= records_view(records@));
    }
    Some((alignment, compact, size, records))
}

/// A code point takes at most four bytes.
proof fn lemma_code_point_bytes(d: Seq<u8>, c: Cursor)
    ensures
        p_code_point(d, c) matches Parsed::Done(ch, c1) ==> c1.index <= c.index + 4,
{
    match p_byte(d, c) {
        Parsed::Done(lead, c1) => {
            let w = lead_width(lead);
            if w != 0 {
                lemma_p_bytes_step(d, c1, (w - 1) as nat);
            }
        },
        Parsed::Failed(_) => {},
    }
}

/// The cursor at bit `pos` is at bit `pos`.
proof fn lemma_bit_cursor_bits(pos: int)
    requires
        pos >= 0,
    ensures
        cursor_bits(bit_cursor(pos)) == pos,
{
    assert(8 * (pos / 8) + pos % 8 == pos);
}

/// Where pixels read back one bit each, reading them gives them back.
proof fn lemma_p_pixels_at(d: Seq<u8>, p0: int, px: Seq<bool>, j: nat)
    requires
        p0 >= 0,
        j <= px.len(),
        forall|jj: int| 0 <= jj < px.len() ==> #[trigger] p_bits(d, bit_cursor(p0 + jj), 1) == Parsed::Done(
            if px[jj] { 1u8 } else { 0u8 },
            bit_cursor(p0 + jj + 1),
        ),
    ensures
        p_pixels(d, bit_cursor(p0), j) == Parsed::Done(px.take(j as int), bit_cursor(p0 + j)),
    decreases j,
{
    if j == 0 {
        assert(px.take(0) =~= Seq::<bool>::empty());
    } else {
        lemma_p_pixels_at(d, p0, px, (j - 1) as nat);
        let jj = j - 1;
        assert(p_bits(d, bit_cursor(p0 + jj), 1) == Parsed::Done(
            if px[jj] { 1u8 } else { 0u8 },
            bit_cursor(p0 + jj + 1),
        ));
        assert(px.take(jj).push(px[jj]) =~= px.take(j as int));
    }
}

/// Records written from record `k` on read back from where record `k`
/// starts.
proof fn lemma_parse_records_from(d: Seq<u8>, rs: Seq<(char, u8, Seq<bool>)>, compact: bool, size: u8, k: int)
    requires
        forall|i: int| 0 <= i < rs.len() ==> record_ok(#[trigger] rs[i], size),
        at_bits(d, 40, enc_bit_seq(rs, record_encoder(compact))),
        8 * d.len() < 40 + enc_bit_seq(rs, record_encoder(compact)).len() + 8,
        0 <= k <= rs.len(),
    ensures
        p_glyph_records(d, bit_cursor((40 + enc_bit_seq(rs.take(k), record_encoder(compact)).len()) as int), compact, size)
            == Some(rs.skip(k)),
    decreases rs.len() - k,
{
    let f = record_encoder(compact);
    let pos = (40 + enc_bit_seq(rs.take(k), f).len()) as int;
    lemma_bit_cursor_bits(pos);
    if k == rs.len() {
        assert(rs.take(k) =~= rs);
        assert(rs.skip(k) =~= Seq::<(char, u8, Seq<bool>)>::empty());
    } else {
        let r = rs[k];
        assert(record_ok(r, size));
        lemma_at_bit_seq_item(d, 40, rs, f, k);
        lemma_read_record(d, pos, r, compact, size);
        lemma_enc_bit_seq_take(rs, f, k);
        lemma_prefix_len(rs, f, k + 1);
        let n1 = char_bytes(r.0).len() as int;
        let p0 = pos + 8 * n1 + 8;
        let n = r.2.len();
        lemma_p_pixels_at(d, p0, r.2, n);
        assert(r.2.take(n as int) =~= r.2);
        assert((r.1 * size) as nat == n);
        let pad = pad_bits(n, compact);
        let next = (pos + record_bits(r, compact).len()) as int;
        if !compact && n % 8 != 0 {
            assert(pad.len() == 8 - n % 8);
        } else {
            assert(pad.len() == 0);
        }
        assert(next == 40 + enc_bit_seq(rs.take(k + 1), f).len());
        assert(p_glyph_record(d, bit_cursor(pos), compact, size) == Parsed::Done(r, bit_cursor(next)));
        lemma_parse_records_from(d, rs, compact, size, k + 1);
        assert(seq![r] + rs.skip(k + 1) =~= rs.skip(k));
    }
}

/// The bytes of a glyph font whose records read back hold that font:
/// reading them gives back its alignment, packing, size and records.
pub proof fn lemma_parse_glyph_font_bytes(alignment: bool, compact: bool, size: u8, records: Seq<(char, u8, Seq<bool>)>)
    requires
        forall|i: int| 0 <= i < records.len() ==> record_ok(#[trigger] records[i], size),
    ensures
        parse_glyph_font(glyph_font_bytes(alignment, compact, size, records)) == Some(
            (alignment, compact, size, records),
        ),
{
    let f = record_encoder(compact);
    let big = glyph_font_bits(alignment, compact, size, records);
    let d = pack_bits(big);
    let head = glyph_head(alignment, compact, size);
    lemma_at_pack(big);
    lemma_at_bits_split(d, 0, bits_of(head), enc_bit_seq(records, f));
    assert(at(d, 0, 0, head));
    lemma_read_head_byte(d, head, 0);
    lemma_read_head_byte(d, head, 1);
    lemma_read_head_byte(d, head, 2);
    lemma_read_head_byte(d, head, 3);
    lemma_read_head_byte(d, head, 4);
    assert(d[0] == head[0] && d[1] == head[1] && d[2] == head[2] && d[3] == head[3] && d[4] == head[4]);
    assert(d.take(3) =~= glyph_signature());
    lemma_header_byte(alignment, compact);
    lemma_pack_len(big);
    lemma_bytes_for_bits(big.len() as int);
    assert(records.take(0) =~= Seq::<(char, u8, Seq<bool>)>::empty());
    lemma_enc_bit_seq_unfold(records.take(0), f);
    lemma_parse_records_from(d, records, compact, size, 0);
    assert(bit_cursor(40) == Cursor { index: 5, pointer: 0 });
    assert(records.skip(0) =~= records);
}

/// The bits of a prefix of the records are no more than those of all.
proof fn lemma_prefix_len(recs: Seq<(char, u8, Seq<bool>)>, f: spec_fn((char, u8, Seq<bool>)) -> Seq<bool>, k: int)
    requires
        0 <= k <= recs.len(),
    ensures
        enc_bit_seq(recs.take(k), f).len() <= enc_bit_seq(recs, f).len(),
    decreases recs.len() - k,
{
    if k < recs.len() {
        lemma_enc_bit_seq_take(recs, f, k);
        lemma_prefix_len(recs, f, k + 1);
    } else {
        assert(recs.take(k) =~= recs);
    }
}

/// Unless the font is compact, every record fills whole bytes.
pub(crate) proof fn lemma_records_len(rs: Seq<(char, u8, Seq<bool>)>, compact: bool)
    ensures
        !compact ==> enc_bit_seq(rs, record_encoder(compact)).len() % 8 == 0,
    decreases rs.len(),
{
    let f = record_encoder(compact);
    lemma_enc_bit_seq_unfold(rs, f);
    if rs.len() > 0 {
        lemma_records_len(rs.drop_last(), compact);
    }
}

/// Writing the records `rs[..i]` then record `i` is writing `rs[..i + 1]`.
pub(crate) proof fn lemma_records_step(head: Seq<bool>, rs: Seq<(char, u8, Seq<bool>)>, compact: bool, i: int)
    requires
        0 <= i < rs.len(),
    ensures
        head + enc_bit_seq(rs.take(i), record_encoder(compact)) + record_bits(rs[i], compact) == head
            + enc_bit_seq(rs.take(i + 1), record_encoder(compact)),
        !compact ==> (head + enc_bit_seq(rs.take(i), record_encoder(compact))).len() % 8 == head.len() % 8,
{
    let f = record_encoder(compact);
    lemma_enc_bit_seq_take(rs, f, i);
    lemma_records_len(rs.take(i), compact);
    assert(head + enc_bit_seq(rs.take(i), f) + f(rs[i]) =~= head + enc_bit_seq(rs.take(i + 1), f));
}

/// The writer before any record: signature, header and size written.
pub(crate) proof fn lemma_records_start(head: Seq<bool>, rs: Seq<(char, u8, Seq<bool>)>, compact: bool)
    ensures
        head + enc_bit_seq(rs.take(0), record_encoder(compact)) == head,
        bit_state(Seq::<bool>::empty()) == (WriterState { bytes: Seq::<u8>::empty(), pointer: 0 }),
{
    assert(rs.take(0) =~= Seq::<(char, u8, Seq<bool>)>::empty());
    lemma_enc_bit_seq_unfold(rs.take(0), record_encoder(compact));
    assert(head + enc_bit_seq(rs.take(0), record_encoder(compact)) =~= head);
    lemma_pack_len(Seq::<bool>::empty());
    assert(pack_bits(Seq::<bool>::empty()) =~= Seq::<u8>::empty());
}

/// A glyph font whose records read back is determined by its bytes: two
/// such fonts with the same bytes have the same alignment, packing, size
/// and records.
pub proof fn lemma_glyph_font_unique(
    a1: bool,
    c1: bool,
    s1: u8,
    rs1: Seq<(char, u8, Seq<bool>)>,
    a2: bool,
    c2: bool,
    s2: u8,
    rs2: Seq<(char, u8, Seq<bool>)>,
)
    requires
        forall|i: int| 0 <= i < rs1.len() ==> record_ok(#[trigger] rs1[i], s1),
        forall|i: int| 0 <= i < rs2.len() ==> record_ok(#[trigger] rs2[i], s2),
        glyph_font_bytes(a1, c1, s1, rs1) == glyph_font_bytes(a2, c2, s2, rs2),
    ensures
        a1 == a2,
        c1 == c2,
        s1 == s2,
        rs1 == rs2,
{
    lemma_parse_glyph_font_bytes(a1, c1, s1, rs1);
    lemma_parse_glyph_font_bytes(a2, c2, s2, rs2);
}

} // verus!
