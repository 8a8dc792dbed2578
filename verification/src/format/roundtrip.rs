//! Reading back what was written: for every layout whose fields agree with
//! the flags they are written under, decoding its encoding gives it back,
//! with pixmap pixels packed into bytes.
use vstd::prelude::*;
use vstd::utf8::{
    char_is_scalar, char_u32_cast, encode_scalar, encode_utf8, encode_utf8_first_scalar,
    has_width_1_encoding, has_width_2_encoding, has_width_3_encoding, leading_byte_width_1,
    leading_byte_width_2, leading_byte_width_3, leading_byte_width_4,
};
use super::byte::{read8, WriterState};
use super::model::{
    lead_width, p_byte, p_byte_list, p_bytes, ws_bits, p_code_point, p_code_points_from, p_opt_byte,
    p_opt_byte_list, p_string_from, ws_byte_list, ws_bytes, ws_code_points, ws_links,
    ws_opt_byte, ws_push, ws_string, Cursor, Parsed, Written,
};
use super::text::lemma_lead_width;
use super::bits::{
    after, at_bits, bit_cursor, bit_state, bits_of, fits, lemma_after_push, lemma_append_bits,
    lemma_at_bits_byte, lemma_at_bits_split, lemma_at_bits_take, lemma_at_bits_value,
    lemma_at_pack, lemma_bits_of_add, lemma_bits_of_byte_seq, lemma_bits_of_pack,
    lemma_bytes_for_bits, lemma_pack_bits_of, lemma_pack_len, lemma_pack_split, pack_bits, value_bits,
};
use super::packing::{
    lemma_packed_empty, lemma_packed_stream, lemma_packed_whole_bytes, lemma_ws_pixels_bits,
    packed, pixel_bits,
};
use super::model::{
    p_character, p_character_table, p_characters, ws_character, ws_character_table,
    ws_characters,
};
use super::model::{
    p_color, p_color_table, p_colors, p_font, p_font_table, p_fonts, p_pixmap, p_pixmap_data,
    p_pixmap_table, p_pixmaps, pixmap_configuration_byte, pixmap_table_head, resolve, ws_color,
    ws_color_table, ws_colors, ws_font, ws_font_table, ws_fonts, ws_pixels, ws_pixmap,
    ws_pixmap_data, ws_pixmap_table, ws_pixmaps,
};
use super::model::{
    add_character_table, add_color_table, add_font_table, add_pixmap_table, empty_layout,
    empty_writer, magic, more_tables, p_header, p_layout_at, p_signature, p_table,
    p_tables, p_version, spec_layout_from_data, spec_layout_to_data, ws_character_tables,
    ws_color_tables, ws_font_tables, ws_layout, ws_pixmap_tables, ws_preamble, Failure,
};
use super::byte::spec_get_bit;
use super::{
    spec_version_byte, DeserializeError, LayoutModel, Version,
    spec_font_type_byte, CharacterModel, CharacterTableModel, ColorModel, ColorTableModel,
    FontModel, FontTableModel, PixmapModel, PixmapTableModel,
};

verus! {

// ----- bytes in place -----

/// `s` occurs in `d` starting `i` bytes after bit `base`.
pub open spec fn at(d: Seq<u8>, base: int, i: int, s: Seq<u8>) -> bool {
    at_bits(d, base + 8 * i, bits_of(s))
}

/// A writer state at a byte boundary holding `bytes`.
pub open spec fn aligned(bytes: Seq<u8>) -> WriterState {
    WriterState { bytes, pointer: 0 }
}

/// The cursor `i` bytes after bit `base`.
pub open spec fn cursor(base: int, i: int) -> Cursor {
    bit_cursor(base + 8 * i)
}

/// Where `a + b` occurs, `a` occurs, and `b` right after it.
pub proof fn lemma_at_split(d: Seq<u8>, base: int, i: int, a: Seq<u8>, b: Seq<u8>)
    requires
        at(d, base, i, a + b),
    ensures
        at(d, base, i, a),
        at(d, base, i + a.len(), b),
{
    lemma_bits_of_add(a, b);
    lemma_at_bits_split(d, base + 8 * i, bits_of(a), bits_of(b));
    assert(base + 8 * i + bits_of(a).len() == base + 8 * (i + a.len()));
}

/// Reading a byte where `s` occurs gives its first byte.
pub proof fn lemma_at_byte(d: Seq<u8>, base: int, i: int, s: Seq<u8>)
    requires
        at(d, base, i, s),
        s.len() >= 1,
    ensures
        p_byte(d, cursor(base, i)) == Parsed::Done(s[0], cursor(base, i + 1)),
{
    let h = seq![s[0]];
    assert(h + s.drop_first() =~= s);
    lemma_at_split(d, base, i, h, s.drop_first());
    lemma_bits_of_byte_seq(s[0]);
    lemma_at_bits_byte(d, base + 8 * i, s[0]);
    assert(base + 8 * i + 8 == base + 8 * (i + 1));
}

/// Writing a whole byte appends it.
pub proof fn lemma_ws_push(e0: Seq<bool>, bytes: Seq<u8>, b: u8)
    ensures
        ws_push(after(e0, bytes), b) == Written::Done(after(e0, bytes + seq![b])),
{
    lemma_after_push(e0, bytes, b);
}

/// Writing bytes appends them.
pub proof fn lemma_ws_bytes(e0: Seq<bool>, bytes: Seq<u8>, s: Seq<u8>)
    ensures
        ws_bytes(after(e0, bytes), s) == Written::Done(after(e0, bytes + s)),
    decreases s.len(),
{
    if s.len() > 0 {
        lemma_ws_bytes(e0, bytes, s.drop_last());
        lemma_ws_push(e0, bytes + s.drop_last(), s.last());
        assert(bytes + s.drop_last() + seq![s.last()] =~= bytes + s);
    } else {
        assert(bytes + s =~= bytes);
    }
}

/// Reading `s.len()` bytes where `s` occurs gives `s`.
pub proof fn lemma_p_bytes_at(d: Seq<u8>, base: int, i: int, s: Seq<u8>)
    requires
        at(d, base, i, s),
    ensures
        p_bytes(d, cursor(base, i), s.len()) == Parsed::Done(s, cursor(base, i + s.len())),
    decreases s.len(),
{
    if s.len() > 0 {
        let a = s.drop_last();
        let b = seq![s.last()];
        assert(a + b =~= s);
        lemma_at_split(d, base, i, a, b);
        lemma_p_bytes_at(d, base, i, a);
        lemma_at_byte(d, base, i + a.len(), b);
        assert(a.push(s.last()) =~= s);
    } else {
        assert(s =~= Seq::<u8>::empty());
    }
}

// ----- small fields -----

/// The flag byte for `b`: 1 when set.
pub open spec fn flag(b: bool) -> u8 {
    if b {
        1
    } else {
        0
    }
}

/// The bytes of an optional byte: the byte when present.
pub open spec fn enc_opt(o: Option<u8>) -> Seq<u8> {
    match o {
        Some(b) => seq![b],
        None => Seq::empty(),
    }
}

/// The bytes of a byte list: its length, then its bytes.
pub open spec fn enc_list(v: Seq<u8>) -> Seq<u8> {
    seq![v.len() as u8] + v
}

/// The bytes of optional table links: a flag byte, then the list when set.
pub open spec fn enc_links(v: Option<Seq<u8>>) -> Seq<u8> {
    match v {
        Some(v) => seq![1u8] + enc_list(v),
        None => seq![0u8],
    }
}

/// Bit 0 of the link flag byte tells whether links follow.
pub proof fn lemma_flag_bit0(b: bool)
    ensures
        (flag(b) & 1 == 1) == b,
{
    assert(1u8 & 1u8 == 1u8) by (bit_vector);
    assert(0u8 & 1u8 == 0u8) by (bit_vector);
}

pub proof fn lemma_ws_opt(e0: Seq<bool>, bytes: Seq<u8>, o: Option<u8>)
    ensures
        ws_opt_byte(after(e0, bytes), o, o is Some) == Written::Done(after(e0, bytes + enc_opt(o))),
{
    if let Some(b) = o {
        lemma_ws_push(e0, bytes, b);
    } else {
        assert(bytes + enc_opt(o) =~= bytes);
    }
}

pub proof fn lemma_p_opt_at(d: Seq<u8>, base: int, i: int, o: Option<u8>)
    requires
        at(d, base, i, enc_opt(o)),
    ensures
        p_opt_byte(d, cursor(base, i), o is Some) == Parsed::Done(o, cursor(base, i + enc_opt(o).len())),
{
    if o is Some {
        lemma_at_byte(d, base, i, enc_opt(o));
    }
}

pub proof fn lemma_ws_list(e0: Seq<bool>, bytes: Seq<u8>, v: Seq<u8>)
    requires
        v.len() <= 255,
    ensures
        ws_byte_list(after(e0, bytes), v) == Written::Done(after(e0, bytes + enc_list(v))),
{
    lemma_ws_push(e0, bytes, v.len() as u8);
    lemma_ws_bytes(e0, bytes + seq![v.len() as u8], v);
    assert(bytes + seq![v.len() as u8] + v =~= bytes + enc_list(v));
}

pub proof fn lemma_p_list_at(d: Seq<u8>, base: int, i: int, v: Seq<u8>)
    requires
        v.len() <= 255,
        at(d, base, i, enc_list(v)),
    ensures
        p_byte_list(d, cursor(base, i)) == Parsed::Done(v, cursor(base, i + enc_list(v).len())),
{
    lemma_at_split(d, base, i, seq![v.len() as u8], v);
    lemma_at_byte(d, base, i, seq![v.len() as u8]);
    lemma_p_bytes_at(d, base, i + 1, v);
}

/// Whether optional links can be written: at most 255 of them.
pub open spec fn links_ok(v: Option<Seq<u8>>) -> bool {
    v matches Some(s) ==> s.len() <= 255
}

pub proof fn lemma_ws_links(e0: Seq<bool>, bytes: Seq<u8>, v: Option<Seq<u8>>)
    requires
        links_ok(v),
    ensures
        ws_links(after(e0, bytes), v) == Written::Done(after(e0, bytes + enc_links(v))),
{
    lemma_ws_push(e0, bytes, flag(v is Some));
    if let Some(s) = v {
        lemma_ws_list(e0, bytes + seq![1u8], s);
        assert(bytes + seq![1u8] + enc_list(s) =~= bytes + enc_links(v));
    }
}

pub proof fn lemma_p_links_at(d: Seq<u8>, base: int, i: int, v: Option<Seq<u8>>)
    requires
        links_ok(v),
        at(d, base, i, enc_links(v)),
    ensures
        p_byte(d, cursor(base, i)) == Parsed::Done(flag(v is Some), cursor(base, i + 1)),
        p_opt_byte_list(d, cursor(base, i + 1), flag(v is Some) & 1 == 1) == Parsed::Done(
            v,
            cursor(base, i + enc_links(v).len()),
        ),
{
    lemma_flag_bit0(v is Some);
    lemma_at_byte(d, base, i, enc_links(v));
    if let Some(s) = v {
        lemma_at_split(d, base, i, seq![1u8], enc_list(s));
        lemma_p_list_at(d, base, i + 1, s);
    }
}

// ----- sequences of records -----

/// The bytes of the records `s`, each encoded by `f`, one after the other.
#[verifier::opaque]
pub open spec fn enc_seq<T>(s: Seq<T>, f: spec_fn(T) -> Seq<u8>) -> Seq<u8>
    decreases s.len(),
{
    if s.len() == 0 {
        Seq::empty()
    } else {
        enc_seq(s.drop_last(), f) + f(s.last())
    }
}

/// No records encode as no bytes; more encode as all but the last, then the
/// last.
pub proof fn lemma_enc_seq_unfold<T>(s: Seq<T>, f: spec_fn(T) -> Seq<u8>)
    ensures
        s.len() == 0 ==> enc_seq(s, f) == Seq::<u8>::empty(),
        s.len() > 0 ==> enc_seq(s, f) == enc_seq(s.drop_last(), f) + f(s.last()),
{
    reveal(enc_seq);
}

/// The records up to `k + 1` encode as those up to `k`, then record `k`.
pub proof fn lemma_enc_seq_take<T>(s: Seq<T>, f: spec_fn(T) -> Seq<u8>, k: int)
    requires
        0 <= k < s.len(),
    ensures
        enc_seq(s.take(k + 1), f) == enc_seq(s.take(k), f) + f(s[k]),
{
    assert(s.take(k + 1).drop_last() =~= s.take(k));
    lemma_enc_seq_unfold(s.take(k + 1), f);
}

/// Where the records' bytes occur, record `k` occurs after those before it.
pub proof fn lemma_at_seq_item<T>(d: Seq<u8>, base: int, i: int, s: Seq<T>, f: spec_fn(T) -> Seq<u8>, k: int)
    requires
        at(d, base, i, enc_seq(s, f)),
        0 <= k < s.len(),
    ensures
        at(d, base, i + enc_seq(s.take(k), f).len(), f(s[k])),
    decreases s.len(),
{
    lemma_enc_seq_unfold(s, f);
    lemma_at_split(d, base, i, enc_seq(s.drop_last(), f), f(s.last()));
    if k == s.len() - 1 {
        assert(s.take(k) =~= s.drop_last());
    } else {
        assert(s.drop_last().take(k) =~= s.take(k));
        lemma_at_seq_item(d, base, i, s.drop_last(), f, k);
    }
}

// ----- text -----

/// The first byte of a character's UTF-8 encoding announces the encoding's
/// length, and is 0 only for `'\0'`.
pub proof fn lemma_encode_scalar_lead(c: char)
    ensures
        encode_scalar(c as u32).len() >= 1,
        lead_width(encode_scalar(c as u32)[0]) == encode_scalar(c as u32).len(),
        (encode_scalar(c as u32)[0] == 0) == (c == '\0'),
{
    char_is_scalar(c);
    let v = c as u32;
    let e = encode_scalar(v);
    if has_width_1_encoding(v) {
        assert(leading_byte_width_1(v) <= 0x7f && (leading_byte_width_1(v) == 0) == (v == 0))
            by (bit_vector)
            requires
                v <= 0x7f,
        ;
    } else if has_width_2_encoding(v) {
        assert(0xc0 <= leading_byte_width_2(v) <= 0xdf) by (bit_vector);
    } else if has_width_3_encoding(v) {
        assert(0xe0 <= leading_byte_width_3(v) <= 0xef) by (bit_vector);
    } else {
        assert(0xf0 <= leading_byte_width_4(v) <= 0xf7) by (bit_vector);
    }
    lemma_lead_width(e[0]);
    if v == 0 {
        char_u32_cast(c, 0);
        char_u32_cast('\0', 0);
    }
}

/// Reading a code point where a character's encoding occurs gives the
/// character.
pub proof fn lemma_p_code_point_at(d: Seq<u8>, base: int, i: int, c: char)
    requires
        at(d, base, i, encode_scalar(c as u32)),
    ensures
        p_code_point(d, cursor(base, i)) == Parsed::Done(c, cursor(base, i + encode_scalar(c as u32).len())),
{
    let e = encode_scalar(c as u32);
    lemma_encode_scalar_lead(c);
    let rest = e.subrange(1, e.len() as int);
    assert(seq![e[0]] + rest =~= e);
    lemma_at_split(d, base, i, seq![e[0]], rest);
    lemma_at_byte(d, base, i, seq![e[0]]);
    lemma_p_bytes_at(d, base, i + 1, rest);
    assert(encode_utf8(seq![c].drop_first()) =~= Seq::<u8>::empty());
    assert(encode_utf8(seq![c]) =~= e);
    encode_utf8_first_scalar(seq![c]);
    char_u32_cast(c, c as u32);
}

/// What follows a character's code points: a 0 byte, unless the table has
/// a constant code point count.
pub open spec fn terminator(constant: Option<u8>) -> Seq<u8> {
    if constant is None {
        seq![0u8]
    } else {
        Seq::empty()
    }
}

/// Reading code points where `rest` is encoded, after `acc` was read, gives
/// `acc + rest`.
pub proof fn lemma_p_code_points_at(
    d: Seq<u8>,
    base: int,
    i: int,
    constant: Option<u8>,
    acc: Seq<char>,
    rest: Seq<char>,
)
    requires
        rest.len() >= 1,
        acc.len() + rest.len() <= 255,
        constant matches Some(k) ==> k == acc.len() + rest.len(),
        constant is None ==> forall|j: int| 1 <= j < rest.len() ==> rest[j] != '\0',
        at(d, base, i, encode_utf8(rest) + terminator(constant)),
    ensures
        p_code_points_from(d, cursor(base, i), constant, acc) == Parsed::Done(
            acc + rest,
            cursor(base, i + (encode_utf8(rest) + terminator(constant)).len()),
        ),
    decreases rest.len(),
{
    let e0 = encode_scalar(rest[0] as u32);
    let tail = encode_utf8(rest.drop_first());
    let term = terminator(constant);
    assert(encode_utf8(rest) + term =~= e0 + (tail + term));
    lemma_at_split(d, base, i, e0, tail + term);
    lemma_p_code_point_at(d, base, i, rest[0]);
    let acc1 = acc.push(rest[0]);
    let j = i + e0.len();
    assert(acc1 + rest.drop_first() =~= acc + rest);
    if rest.len() == 1 {
        assert(rest.drop_first() =~= Seq::<char>::empty());
        assert(tail =~= Seq::<u8>::empty());
        assert(acc1 =~= acc + rest);
        if constant is None {
            lemma_at_byte(d, base, j, tail + term);
        }
    } else {
        assert(rest.drop_first()[0] == rest[1]);
        if constant is None {
            lemma_encode_scalar_lead(rest[1]);
            assert((tail + term)[0] == encode_scalar(rest[1] as u32)[0]);
            lemma_at_byte(d, base, j, tail + term);
        }
        lemma_p_code_points_at(d, base, j, constant, acc1, rest.drop_first());
    }
}

/// Reading a string where `rest` and a 0 byte are encoded, after `acc` was
/// read, gives `acc + rest`.
pub proof fn lemma_p_string_at(d: Seq<u8>, base: int, i: int, acc: Seq<char>, rest: Seq<char>)
    requires
        rest.len() >= 1,
        forall|j: int| 1 <= j < rest.len() ==> rest[j] != '\0',
        at(d, base, i, encode_utf8(rest) + seq![0u8]),
    ensures
        p_string_from(d, cursor(base, i), acc) == Parsed::Done(
            acc + rest,
            cursor(base, i + encode_utf8(rest).len() + 1),
        ),
    decreases rest.len(),
{
    let e0 = encode_scalar(rest[0] as u32);
    let tail = encode_utf8(rest.drop_first());
    let term = seq![0u8];
    assert(encode_utf8(rest) + term =~= e0 + (tail + term));
    lemma_at_split(d, base, i, e0, tail + term);
    lemma_p_code_point_at(d, base, i, rest[0]);
    let acc1 = acc.push(rest[0]);
    let j = i + e0.len();
    assert(acc1 + rest.drop_first() =~= acc + rest);
    if rest.len() == 1 {
        assert(rest.drop_first() =~= Seq::<char>::empty());
        assert(tail =~= Seq::<u8>::empty());
        assert(acc1 =~= acc + rest);
        lemma_at_byte(d, base, j, tail + term);
    } else {
        assert(rest.drop_first()[0] == rest[1]);
        lemma_encode_scalar_lead(rest[1]);
        assert((tail + term)[0] == encode_scalar(rest[1] as u32)[0]);
        lemma_at_byte(d, base, j, tail + term);
        lemma_p_string_at(d, base, j, acc1, rest.drop_first());
    }
}

pub proof fn lemma_ws_code_points(e0: Seq<bool>, bytes: Seq<u8>, chars: Seq<char>, constant: Option<u8>)
    ensures
        ws_code_points(after(e0, bytes), chars, constant) == Written::Done(
            after(e0, bytes + (encode_utf8(chars) + terminator(constant))),
        ),
{
    lemma_ws_bytes(e0, bytes, encode_utf8(chars));
    if constant is None {
        lemma_ws_push(e0, bytes + encode_utf8(chars), 0);
    }
    assert(bytes + encode_utf8(chars) + terminator(constant) =~= bytes + (encode_utf8(chars)
        + terminator(constant)));
}

pub proof fn lemma_ws_string(e0: Seq<bool>, bytes: Seq<u8>, s: Seq<char>)
    ensures
        ws_string(after(e0, bytes), s) == Written::Done(after(e0, bytes + (encode_utf8(s) + seq![0u8]))),
{
    lemma_ws_bytes(e0, bytes, encode_utf8(s));
    lemma_ws_push(e0, bytes + encode_utf8(s), 0);
    assert(bytes + encode_utf8(s) + seq![0u8] =~= bytes + (encode_utf8(s) + seq![0u8]));
}

// ----- character tables -----

/// Code points that read back as written: between 1 and 255 of them,
/// exactly the constant count when the table has one, and otherwise no
/// `'\0'` after the first (a 0 byte would end them).
pub open spec fn representable_code_points(chars: Seq<char>, constant: Option<u8>) -> bool {
    &&& 1 <= chars.len() <= 255
    &&& match constant {
        Some(k) => chars.len() == k,
        None => forall|j: int| 1 <= j < chars.len() ==> chars[j] != '\0',
    }
}

/// A character that reads back as written: its optional fields are set
/// exactly when the table's modifier flags call for them.
pub open spec fn representable_character(ch: CharacterModel, t: CharacterTableModel) -> bool {
    &&& (ch.advance_x is Some) == (t.modifier_flags & 1 == 1)
    &&& (ch.pixmap_index is Some) == (t.modifier_flags & 2 == 2)
    &&& (ch.pixmap_table_index is Some) == (t.modifier_flags & 4 == 4)
    &&& representable_code_points(ch.code_points, t.constant_code_point_count)
}

/// A character table that reads back as written: its flag bytes are the
/// ones the writer derives, and its lists fit their one-byte lengths.
pub open spec fn representable_character_table(t: CharacterTableModel) -> bool {
    &&& t.configuration_flags == flag(t.constant_code_point_count is Some)
    &&& t.link_flags == flag(t.pixmap_table_indexes is Some)
    &&& links_ok(t.pixmap_table_indexes)
    &&& t.characters.len() <= 255
    &&& forall|k: int| 0 <= k < t.characters.len() ==> representable_character(#[trigger] t.characters[k], t)
}

/// The bytes of a character record.
pub open spec fn enc_character(ch: CharacterModel, t: CharacterTableModel) -> Seq<u8> {
    enc_opt(ch.advance_x) + (enc_opt(ch.pixmap_index) + (enc_opt(ch.pixmap_table_index) + (
    encode_utf8(ch.code_points) + terminator(t.constant_code_point_count))))
}

/// Encodes the character records of table `t`.
pub open spec fn character_encoder(t: CharacterTableModel) -> spec_fn(CharacterModel) -> Seq<u8> {
    |ch: CharacterModel| enc_character(ch, t)
}

/// The bytes of a character table after its identifier byte.
pub open spec fn enc_character_table_body(t: CharacterTableModel) -> Seq<u8> {
    seq![t.modifier_flags] + (seq![t.configuration_flags] + (enc_opt(t.constant_code_point_count) + (
    enc_links(t.pixmap_table_indexes) + (seq![t.characters.len() as u8] + enc_seq(
        t.characters,
        character_encoder(t),
    )))))
}

proof fn lemma_ws_character(e0: Seq<bool>, bytes: Seq<u8>, ch: CharacterModel, t: CharacterTableModel)
    requires
        representable_character(ch, t),
    ensures
        ws_character(after(e0, bytes), ch, t) == Written::Done(after(e0, bytes + enc_character(ch, t))),
{
    let b1 = bytes + enc_opt(ch.advance_x);
    let b2 = b1 + enc_opt(ch.pixmap_index);
    let b3 = b2 + enc_opt(ch.pixmap_table_index);
    lemma_ws_opt(e0, bytes, ch.advance_x);
    lemma_ws_opt(e0, b1, ch.pixmap_index);
    lemma_ws_opt(e0, b2, ch.pixmap_table_index);
    lemma_ws_code_points(e0, b3, ch.code_points, t.constant_code_point_count);
    assert(b3 + (encode_utf8(ch.code_points) + terminator(t.constant_code_point_count)) =~= bytes
        + enc_character(ch, t));
}

proof fn lemma_p_character_at(d: Seq<u8>, base: int, i: int, ch: CharacterModel, t: CharacterTableModel)
    requires
        representable_character(ch, t),
        at(d, base, i, enc_character(ch, t)),
    ensures
        p_character(d, cursor(base, i), t.modifier_flags, t.constant_code_point_count) == Parsed::Done(
            ch,
            cursor(base, i + enc_character(ch, t).len()),
        ),
{
    let e1 = enc_opt(ch.advance_x);
    let e2 = enc_opt(ch.pixmap_index);
    let e3 = enc_opt(ch.pixmap_table_index);
    let e4 = encode_utf8(ch.code_points) + terminator(t.constant_code_point_count);
    lemma_at_split(d, base, i, e1, e2 + (e3 + e4));
    lemma_at_split(d, base, i + e1.len(), e2, e3 + e4);
    lemma_at_split(d, base, i + e1.len() + e2.len(), e3, e4);
    lemma_p_opt_at(d, base, i, ch.advance_x);
    lemma_p_opt_at(d, base, i + e1.len(), ch.pixmap_index);
    lemma_p_opt_at(d, base, i + e1.len() + e2.len(), ch.pixmap_table_index);
    lemma_p_code_points_at(
        d,
        base,
        i + e1.len() + e2.len() + e3.len(),
        t.constant_code_point_count,
        Seq::empty(),
        ch.code_points,
    );
    assert(Seq::<char>::empty() + ch.code_points =~= ch.code_points);
}

proof fn lemma_ws_characters(e0: Seq<bool>, bytes: Seq<u8>, cs: Seq<CharacterModel>, t: CharacterTableModel)
    requires
        forall|k: int| 0 <= k < cs.len() ==> representable_character(#[trigger] cs[k], t),
    ensures
        ws_characters(after(e0, bytes), cs, t) == Written::Done(
            after(e0, bytes + enc_seq(cs, character_encoder(t))),
        ),
    decreases cs.len(),
{
    lemma_enc_seq_unfold(cs, character_encoder(t));
    if cs.len() == 0 {
        assert(bytes + enc_seq(cs, character_encoder(t)) =~= bytes);
    } else {
        lemma_ws_characters(e0, bytes, cs.drop_last(), t);
        assert(representable_character(cs[cs.len() - 1], t));
        lemma_ws_character(e0, bytes + enc_seq(cs.drop_last(), character_encoder(t)), cs.last(), t);
        assert(bytes + enc_seq(cs.drop_last(), character_encoder(t)) + enc_character(cs.last(), t)
            =~= bytes + enc_seq(cs, character_encoder(t)));
    }
}

proof fn lemma_p_characters_at(d: Seq<u8>, base: int, i: int, cs: Seq<CharacterModel>, t: CharacterTableModel, k: int)
    requires
        forall|j: int| 0 <= j < cs.len() ==> representable_character(#[trigger] cs[j], t),
        at(d, base, i, enc_seq(cs, character_encoder(t))),
        0 <= k <= cs.len(),
    ensures
        p_characters(d, cursor(base, i), k as nat, t.modifier_flags, t.constant_code_point_count)
            == Parsed::Done(cs.take(k), cursor(base, i + enc_seq(cs.take(k), character_encoder(t)).len())),
    decreases k,
{
    let f = character_encoder(t);
    if k == 0 {
        assert(cs.take(0) =~= Seq::<CharacterModel>::empty());
        lemma_enc_seq_unfold(cs.take(0), f);
    } else {
        lemma_p_characters_at(d, base, i, cs, t, k - 1);
        lemma_at_seq_item(d, base, i, cs, f, k - 1);
        assert(representable_character(cs[k - 1], t));
        lemma_p_character_at(d, base, i + enc_seq(cs.take(k - 1), f).len(), cs[k - 1], t);
        lemma_enc_seq_take(cs, f, k - 1);
        assert(cs.take(k - 1).push(cs[k - 1]) =~= cs.take(k));
    }
}

pub proof fn lemma_ws_character_table(e0: Seq<bool>, bytes: Seq<u8>, t: CharacterTableModel)
    requires
        representable_character_table(t),
    ensures
        ws_character_table(after(e0, bytes), t) == Written::Done(
            after(e0, bytes + (seq![1u8] + enc_character_table_body(t))),
        ),
{
    let b1 = bytes + seq![1u8];
    let b2 = b1 + seq![t.modifier_flags];
    let b3 = b2 + seq![t.configuration_flags];
    let b4 = b3 + enc_opt(t.constant_code_point_count);
    let b5 = b4 + enc_links(t.pixmap_table_indexes);
    let b6 = b5 + seq![t.characters.len() as u8];
    lemma_ws_push(e0, bytes, 1);
    lemma_ws_push(e0, b1, t.modifier_flags);
    lemma_ws_push(e0, b2, t.configuration_flags);
    lemma_ws_opt(e0, b3, t.constant_code_point_count);
    lemma_ws_links(e0, b4, t.pixmap_table_indexes);
    lemma_ws_push(e0, b5, t.characters.len() as u8);
    lemma_ws_characters(e0, b6, t.characters, t);
    assert(b6 + enc_seq(t.characters, character_encoder(t)) =~= bytes + (seq![1u8]
        + enc_character_table_body(t)));
}

pub proof fn lemma_p_character_table_at(d: Seq<u8>, base: int, i: int, t: CharacterTableModel)
    requires
        representable_character_table(t),
        at(d, base, i, enc_character_table_body(t)),
    ensures
        p_character_table(d, cursor(base, i)) == Parsed::Done(
            t,
            cursor(base, i + enc_character_table_body(t).len()),
        ),
{
    let e1 = seq![t.modifier_flags];
    let e2 = seq![t.configuration_flags];
    let e3 = enc_opt(t.constant_code_point_count);
    let e4 = enc_links(t.pixmap_table_indexes);
    let e5 = seq![t.characters.len() as u8];
    let e6 = enc_seq(t.characters, character_encoder(t));
    lemma_at_split(d, base, i, e1, e2 + (e3 + (e4 + (e5 + e6))));
    lemma_at_split(d, base, i + 1, e2, e3 + (e4 + (e5 + e6)));
    lemma_at_split(d, base, i + 2, e3, e4 + (e5 + e6));
    lemma_at_split(d, base, i + 2 + e3.len(), e4, e5 + e6);
    lemma_at_split(d, base, i + 2 + e3.len() + e4.len(), e5, e6);
    lemma_at_byte(d, base, i, e1);
    lemma_at_byte(d, base, i + 1, e2);
    lemma_flag_bit0(t.constant_code_point_count is Some);
    lemma_p_opt_at(d, base, i + 2, t.constant_code_point_count);
    lemma_p_links_at(d, base, i + 2 + e3.len(), t.pixmap_table_indexes);
    lemma_at_byte(d, base, i + 2 + e3.len() + e4.len(), e5);
    lemma_p_characters_at(d, base, i + 3 + e3.len() + e4.len(), t.characters, t, t.characters.len() as int);
    assert(t.characters.take(t.characters.len() as int) =~= t.characters);
}

// ----- color tables -----

/// A color that reads back as written: no color type (the format does not
/// store one), and its own alpha exactly when the table has no constant one.
pub open spec fn representable_color(c: ColorModel, t: ColorTableModel) -> bool {
    &&& c.color_type is None
    &&& (c.custom_alpha is Some) == (t.constant_alpha is None)
}

/// A color table that reads back as written: its modifier and configuration
/// flags are 0 (the format does not store them), and it has at most 255
/// colors.
pub open spec fn representable_color_table(t: ColorTableModel) -> bool {
    &&& t.modifier_flags == 0
    &&& t.configuration_flags == 0
    &&& t.colors.len() <= 255
    &&& forall|k: int| 0 <= k < t.colors.len() ==> representable_color(#[trigger] t.colors[k], t)
}

/// The bytes of a color record.
pub open spec fn enc_color(c: ColorModel) -> Seq<u8> {
    enc_opt(c.custom_alpha) + seq![c.red, c.green, c.blue]
}

/// Encodes color records.
pub open spec fn color_encoder() -> spec_fn(ColorModel) -> Seq<u8> {
    |c: ColorModel| enc_color(c)
}

/// The bytes of a color table after its identifier byte.
pub open spec fn enc_color_table_body(t: ColorTableModel) -> Seq<u8> {
    seq![0u8] + (seq![flag(t.constant_alpha is Some)] + (enc_opt(t.constant_alpha) + (seq![0u8] + (
    seq![t.colors.len() as u8] + enc_seq(t.colors, color_encoder())))))
}

proof fn lemma_ws_color(e0: Seq<bool>, bytes: Seq<u8>, c: ColorModel, t: ColorTableModel)
    requires
        representable_color(c, t),
    ensures
        ws_color(after(e0, bytes), c, t.constant_alpha) == Written::Done(after(e0, bytes + enc_color(c))),
{
    let b1 = bytes + enc_opt(c.custom_alpha);
    lemma_ws_opt(e0, bytes, c.custom_alpha);
    lemma_ws_push(e0, b1, c.red);
    lemma_ws_push(e0, b1 + seq![c.red], c.green);
    lemma_ws_push(e0, b1 + seq![c.red] + seq![c.green], c.blue);
    assert(b1 + seq![c.red] + seq![c.green] + seq![c.blue] =~= bytes + enc_color(c));
}

proof fn lemma_p_color_at(d: Seq<u8>, base: int, i: int, c: ColorModel, t: ColorTableModel)
    requires
        representable_color(c, t),
        at(d, base, i, enc_color(c)),
    ensures
        p_color(d, cursor(base, i), t.constant_alpha) == Parsed::Done(c, cursor(base, i + enc_color(c).len())),
{
    let e1 = enc_opt(c.custom_alpha);
    let e2 = seq![c.red, c.green, c.blue];
    lemma_at_split(d, base, i, e1, e2);
    lemma_p_opt_at(d, base, i, c.custom_alpha);
    let j = i + e1.len();
    assert(e2 =~= seq![c.red] + seq![c.green, c.blue]);
    assert(seq![c.green, c.blue] =~= seq![c.green] + seq![c.blue]);
    lemma_at_split(d, base, j, seq![c.red], seq![c.green, c.blue]);
    lemma_at_split(d, base, j + 1, seq![c.green], seq![c.blue]);
    lemma_at_byte(d, base, j, seq![c.red]);
    lemma_at_byte(d, base, j + 1, seq![c.green]);
    lemma_at_byte(d, base, j + 2, seq![c.blue]);
}

proof fn lemma_ws_colors(e0: Seq<bool>, bytes: Seq<u8>, cs: Seq<ColorModel>, t: ColorTableModel)
    requires
        forall|k: int| 0 <= k < cs.len() ==> representable_color(#[trigger] cs[k], t),
    ensures
        ws_colors(after(e0, bytes), cs, t.constant_alpha) == Written::Done(
            after(e0, bytes + enc_seq(cs, color_encoder())),
        ),
    decreases cs.len(),
{
    lemma_enc_seq_unfold(cs, color_encoder());
    if cs.len() == 0 {
        assert(bytes + enc_seq(cs, color_encoder()) =~= bytes);
    } else {
        lemma_ws_colors(e0, bytes, cs.drop_last(), t);
        assert(representable_color(cs[cs.len() - 1], t));
        lemma_ws_color(e0, bytes + enc_seq(cs.drop_last(), color_encoder()), cs.last(), t);
        assert(bytes + enc_seq(cs.drop_last(), color_encoder()) + enc_color(cs.last())
            =~= bytes + enc_seq(cs, color_encoder()));
    }
}

proof fn lemma_p_colors_at(d: Seq<u8>, base: int, i: int, cs: Seq<ColorModel>, t: ColorTableModel, k: int)
    requires
        forall|j: int| 0 <= j < cs.len() ==> representable_color(#[trigger] cs[j], t),
        at(d, base, i, enc_seq(cs, color_encoder())),
        0 <= k <= cs.len(),
    ensures
        p_colors(d, cursor(base, i), k as nat, t.constant_alpha) == Parsed::Done(
            cs.take(k),
            cursor(base, i + enc_seq(cs.take(k), color_encoder()).len()),
        ),
    decreases k,
{
    let f = color_encoder();
    if k == 0 {
        assert(cs.take(0) =~= Seq::<ColorModel>::empty());
        lemma_enc_seq_unfold(cs.take(0), f);
    } else {
        lemma_p_colors_at(d, base, i, cs, t, k - 1);
        lemma_at_seq_item(d, base, i, cs, f, k - 1);
        assert(representable_color(cs[k - 1], t));
        lemma_p_color_at(d, base, i + enc_seq(cs.take(k - 1), f).len(), cs[k - 1], t);
        lemma_enc_seq_take(cs, f, k - 1);
        assert(cs.take(k - 1).push(cs[k - 1]) =~= cs.take(k));
    }
}

pub proof fn lemma_ws_color_table(e0: Seq<bool>, bytes: Seq<u8>, t: ColorTableModel)
    requires
        representable_color_table(t),
    ensures
        ws_color_table(after(e0, bytes), t) == Written::Done(
            after(e0, bytes + (seq![3u8] + enc_color_table_body(t))),
        ),
{
    let b1 = bytes + seq![3u8];
    let b2 = b1 + seq![0u8];
    let b3 = b2 + seq![flag(t.constant_alpha is Some)];
    let b4 = b3 + enc_opt(t.constant_alpha);
    let b5 = b4 + seq![0u8];
    let b6 = b5 + seq![t.colors.len() as u8];
    lemma_ws_push(e0, bytes, 3);
    lemma_ws_push(e0, b1, 0);
    lemma_ws_push(e0, b2, flag(t.constant_alpha is Some));
    lemma_ws_opt(e0, b3, t.constant_alpha);
    lemma_ws_push(e0, b4, 0);
    lemma_ws_push(e0, b5, t.colors.len() as u8);
    lemma_ws_colors(e0, b6, t.colors, t);
    assert(b6 + enc_seq(t.colors, color_encoder()) =~= bytes + (seq![3u8] + enc_color_table_body(t)));
}

pub proof fn lemma_p_color_table_at(d: Seq<u8>, base: int, i: int, t: ColorTableModel)
    requires
        representable_color_table(t),
        at(d, base, i, enc_color_table_body(t)),
    ensures
        p_color_table(d, cursor(base, i)) == Parsed::Done(t, cursor(base, i + enc_color_table_body(t).len())),
{
    let e1 = seq![0u8];
    let e2 = seq![flag(t.constant_alpha is Some)];
    let e3 = enc_opt(t.constant_alpha);
    let e4 = seq![0u8];
    let e5 = seq![t.colors.len() as u8];
    let e6 = enc_seq(t.colors, color_encoder());
    lemma_at_split(d, base, i, e1, e2 + (e3 + (e4 + (e5 + e6))));
    lemma_at_split(d, base, i + 1, e2, e3 + (e4 + (e5 + e6)));
    lemma_at_split(d, base, i + 2, e3, e4 + (e5 + e6));
    lemma_at_split(d, base, i + 2 + e3.len(), e4, e5 + e6);
    lemma_at_split(d, base, i + 3 + e3.len(), e5, e6);
    lemma_at_byte(d, base, i, e1);
    lemma_at_byte(d, base, i + 1, e2);
    lemma_flag_bit0(t.constant_alpha is Some);
    lemma_p_opt_at(d, base, i + 2, t.constant_alpha);
    lemma_at_byte(d, base, i + 2 + e3.len(), e4);
    lemma_at_byte(d, base, i + 3 + e3.len(), e5);
    lemma_p_colors_at(d, base, i + 4 + e3.len(), t.colors, t, t.colors.len() as int);
    assert(t.colors.take(t.colors.len() as int) =~= t.colors);
}

// ----- pixmap tables -----

/// Pixel data that reads back packed: exactly `width * height` pixels, each
/// within its bits per pixel (at most eight), within the format's 16-bit
/// size arithmetic.
pub open spec fn representable_pixels(data: Seq<u8>, width: u8, height: u8, bits_per_pixel: u8) -> bool {
    &&& data.len() == width * height
    &&& width * height * bits_per_pixel <= 65535
    &&& (width * height == 0 || (0 < bits_per_pixel <= 8 && forall|i: int|
        0 <= i < data.len() ==> fits(#[trigger] data[i], bits_per_pixel)))
}

/// The bits per pixel of `p` in a table whose constant is `constant`.
pub open spec fn pixel_depth(p: PixmapModel, constant: Option<u8>) -> u8 {
    resolve(constant, p.custom_bits_per_pixel).unwrap()
}

/// A pixmap that reads back: its own dimensions are set exactly when the
/// table has no constant ones, and its data is representable.
pub open spec fn representable_pixmap(p: PixmapModel, t: PixmapTableModel) -> bool {
    &&& (p.custom_width is Some) == (t.constant_width is None)
    &&& (p.custom_height is Some) == (t.constant_height is None)
    &&& (p.custom_bits_per_pixel is Some) == (t.constant_bits_per_pixel is None)
    &&& representable_pixels(
        p.data,
        resolve(t.constant_width, p.custom_width).unwrap(),
        resolve(t.constant_height, p.custom_height).unwrap(),
        pixel_depth(p, t.constant_bits_per_pixel),
    )
}

/// A pixmap table that reads back: its flag bytes are 0 (the format derives
/// them), its lists fit their one-byte lengths, and every pixmap is
/// representable.
pub open spec fn representable_pixmap_table(t: PixmapTableModel) -> bool {
    &&& t.configuration_flags == 0
    &&& t.link_flags == 0
    &&& links_ok(t.color_table_indexes)
    &&& t.pixmaps.len() <= 255
    &&& forall|k: int| 0 <= k < t.pixmaps.len() ==> representable_pixmap(#[trigger] t.pixmaps[k], t)
}

/// A pixmap as it reads back: its pixels packed into bytes.
pub open spec fn read_back_pixmap(p: PixmapModel, constant: Option<u8>) -> PixmapModel {
    PixmapModel { data: packed(p.data, pixel_depth(p, constant)), ..p }
}

/// A pixmap table as it reads back: every pixmap's pixels packed.
pub open spec fn read_back_pixmap_table(t: PixmapTableModel) -> PixmapTableModel {
    PixmapTableModel {
        pixmaps: t.pixmaps.map_values(|p: PixmapModel| read_back_pixmap(p, t.constant_bits_per_pixel)),
        ..t
    }
}

/// The bits of a pixmap's data: its pixels, then, unless the layout is
/// compact, zero bits up to the next byte boundary.
pub open spec fn data_bits(data: Seq<u8>, bits_per_pixel: u8, compact: bool) -> Seq<bool> {
    let px = pixel_bits(data, bits_per_pixel);
    if !compact && px.len() % 8 != 0 {
        px + value_bits(0, (8 - px.len() % 8) as u8)
    } else {
        px
    }
}

/// The bytes of a pixmap record before its data.
pub open spec fn enc_pixmap_head(p: PixmapModel) -> Seq<u8> {
    enc_opt(p.custom_width) + (enc_opt(p.custom_height) + enc_opt(p.custom_bits_per_pixel))
}

/// The bits of a pixmap record.
pub open spec fn enc_pixmap(p: PixmapModel, constant: Option<u8>, compact: bool) -> Seq<bool> {
    bits_of(enc_pixmap_head(p)) + data_bits(p.data, pixel_depth(p, constant), compact)
}

/// Encodes pixmap records of a table whose constant depth is `constant`.
pub open spec fn pixmap_encoder(constant: Option<u8>, compact: bool) -> spec_fn(PixmapModel) -> Seq<bool> {
    |p: PixmapModel| enc_pixmap(p, constant, compact)
}

/// The bytes of a pixmap table after its identifier byte and before its
/// pixmaps.
pub open spec fn enc_pixmap_table_head(t: PixmapTableModel) -> Seq<u8> {
    seq![0u8] + (seq![pixmap_configuration_byte(t)] + (enc_opt(t.constant_width) + (enc_opt(
        t.constant_height,
    ) + (enc_opt(t.constant_bits_per_pixel) + (enc_links(t.color_table_indexes) + seq![
        t.pixmaps.len() as u8,
    ])))))
}

/// The bits of a pixmap table after its identifier byte.
pub open spec fn enc_pixmap_table_body(t: PixmapTableModel, compact: bool) -> Seq<bool> {
    bits_of(enc_pixmap_table_head(t)) + enc_bit_seq(
        t.pixmaps,
        pixmap_encoder(t.constant_bits_per_pixel, compact),
    )
}

/// Concatenation is associative.
proof fn lemma_seq_assoc<T>(a: Seq<T>, b: Seq<T>, c: Seq<T>)
    ensures
        a + b + c == a + (b + c),
{
    assert(a + b + c =~= a + (b + c));
}

/// The bits of the records `s`, each encoded by `f`, one after the other.
#[verifier::opaque]
pub open spec fn enc_bit_seq<T>(s: Seq<T>, f: spec_fn(T) -> Seq<bool>) -> Seq<bool>
    decreases s.len(),
{
    if s.len() == 0 {
        Seq::empty()
    } else {
        enc_bit_seq(s.drop_last(), f) + f(s.last())
    }
}

pub proof fn lemma_enc_bit_seq_unfold<T>(s: Seq<T>, f: spec_fn(T) -> Seq<bool>)
    ensures
        s.len() == 0 ==> enc_bit_seq(s, f) == Seq::<bool>::empty(),
        s.len() > 0 ==> enc_bit_seq(s, f) == enc_bit_seq(s.drop_last(), f) + f(s.last()),
{
    reveal(enc_bit_seq);
}

pub proof fn lemma_enc_bit_seq_take<T>(s: Seq<T>, f: spec_fn(T) -> Seq<bool>, k: int)
    requires
        0 <= k < s.len(),
    ensures
        enc_bit_seq(s.take(k + 1), f) == enc_bit_seq(s.take(k), f) + f(s[k]),
{
    assert(s.take(k + 1).drop_last() =~= s.take(k));
    lemma_enc_bit_seq_unfold(s.take(k + 1), f);
}

/// Where the records' bits occur, record `k` occurs after those before it.
pub proof fn lemma_at_bit_seq_item<T>(d: Seq<u8>, pos: int, s: Seq<T>, f: spec_fn(T) -> Seq<bool>, k: int)
    requires
        at_bits(d, pos, enc_bit_seq(s, f)),
        0 <= k < s.len(),
    ensures
        at_bits(d, pos + enc_bit_seq(s.take(k), f).len(), f(s[k])),
    decreases s.len(),
{
    lemma_enc_bit_seq_unfold(s, f);
    lemma_at_bits_split(d, pos, enc_bit_seq(s.drop_last(), f), f(s.last()));
    if k == s.len() - 1 {
        assert(s.take(k) =~= s.drop_last());
    } else {
        assert(s.drop_last().take(k) =~= s.take(k));
        lemma_at_bit_seq_item(d, pos, s.drop_last(), f, k);
    }
}

/// Bits 0, 1 and 2 of a pixmap table's configuration byte tell which
/// constants are set.
proof fn lemma_pixmap_configuration_byte(t: PixmapTableModel)
    ensures
        (pixmap_configuration_byte(t) & 1 == 1) == (t.constant_width is Some),
        (pixmap_configuration_byte(t) & 2 == 2) == (t.constant_height is Some),
        (pixmap_configuration_byte(t) & 4 == 4) == (t.constant_bits_per_pixel is Some),
{
    let x: u8 = if t.constant_width is Some { 1u8 } else { 0u8 };
    let y: u8 = if t.constant_height is Some { 2u8 } else { 0u8 };
    let z: u8 = if t.constant_bits_per_pixel is Some { 4u8 } else { 0u8 };
    assert(pixmap_configuration_byte(t) == x | y | z);
    assert((x == 0 || x == 1) && (y == 0 || y == 2) && (z == 0 || z == 4) ==> ((((x | y | z) & 1)
        == 1) == (x == 1) && (((x | y | z) & 2) == 2) == (y == 2) && (((x | y | z) & 4) == 4) == (z
        == 4))) by (bit_vector);
}

/// Unless the layout is compact, a pixmap's data fills whole bytes.
proof fn lemma_data_bits_len(data: Seq<u8>, bpp: u8, compact: bool)
    ensures
        data_bits(data, bpp, compact).len() >= pixel_bits(data, bpp).len(),
        !compact ==> data_bits(data, bpp, compact).len() % 8 == 0,
{
}

/// Writing the pixels of a pixmap appends their stream.
proof fn lemma_ws_pixel_stream(e: Seq<bool>, data: Seq<u8>, bpp: u8)
    requires
        data.len() == 0 || (0 < bpp <= 8 && forall|i: int| 0 <= i < data.len() ==> fits(#[trigger] data[i], bpp)),
    ensures
        ws_pixels(bit_state(e), data, bpp) == Written::Done(bit_state(e + pixel_bits(data, bpp))),
        pixel_bits(data, bpp).len() == data.len() * bpp,
{
    assert(data.len() * bpp >= 0) by (nonlinear_arith);
    if data.len() == 0 {
        assert(pixel_bits(data, bpp) =~= Seq::<bool>::empty());
        assert(e + pixel_bits(data, bpp) =~= e);
    } else {
        lemma_ws_pixels_bits(e, data, bpp);
    }
}

/// Padding to the next byte boundary appends zero bits.
proof fn lemma_ws_pad(e: Seq<bool>, z: u8)
    requires
        0 < z < 8,
    ensures
        ws_bits(bit_state(e), 0, z) == Written::Done(bit_state(e + value_bits(0, z))),
{
    assert(fits(0u8, z)) by {
        assert((0 < z && z < 8) ==> (z >= 8 || (0u8 >> z) == 0u8)) by (bit_vector);
    }
    lemma_append_bits(e, 0, z);
}

proof fn lemma_ws_pixmap_data(e: Seq<bool>, data: Seq<u8>, w: u8, h: u8, bpp: u8, compact: bool)
    requires
        representable_pixels(data, w, h, bpp),
        !compact ==> e.len() % 8 == 0,
    ensures
        ws_pixmap_data(bit_state(e), data, w, h, bpp, compact) == Written::Done(
            bit_state(e + data_bits(data, bpp, compact)),
        ),
{
    let px = pixel_bits(data, bpp);
    lemma_ws_pixel_stream(e, data, bpp);
    let st1 = bit_state(e + px);
    let n = data.len() * bpp;
    assert(px.len() == n);
    assert(st1.pointer == ((e.len() + n) % 8) as u8);
    if !compact && st1.pointer != 0 {
        assert(n % 8 != 0);
        let z = (8 - n % 8) as u8;
        lemma_ws_pad(e + px, z);
        assert(e + px + value_bits(0, z) =~= e + data_bits(data, bpp, compact));
    } else {
        if !compact {
            assert(n % 8 == 0);
        }
        assert(data_bits(data, bpp, compact) == px);
    }
}

/// Reading `m` whole bytes where the bits `e` (of `8 * m` bits) occur gives
/// them packed.
proof fn lemma_p_whole_bytes(d: Seq<u8>, pos: int, e: Seq<bool>, m: int)
    requires
        at_bits(d, pos, e),
        e.len() == 8 * m,
        m >= 0,
    ensures
        p_bytes(d, bit_cursor(pos), m as nat) == Parsed::Done(pack_bits(e), bit_cursor(pos + 8 * m)),
{
    lemma_bits_of_pack(e);
    lemma_bytes_for_bits(8 * m);
    lemma_pack_len(e);
    let s = pack_bits(e);
    assert(at(d, pos, 0, s));
    lemma_p_bytes_at(d, pos, 0, s);
    assert(cursor(pos, 0) == bit_cursor(pos));
}

proof fn lemma_p_pixmap_data_at(d: Seq<u8>, pos: int, data: Seq<u8>, w: u8, h: u8, bpp: u8, compact: bool)
    requires
        representable_pixels(data, w, h, bpp),
        at_bits(d, pos, data_bits(data, bpp, compact)),
    ensures
        p_pixmap_data(d, bit_cursor(pos), w, h, bpp, compact) == Parsed::Done(
            packed(data, bpp),
            bit_cursor(pos + data_bits(data, bpp, compact).len()),
        ),
{
    let e = pixel_bits(data, bpp);
    let total = w * h * bpp;
    assert(total >= 0) by (nonlinear_arith)
        requires
            total == w * h * bpp,
    ;
    assert(data.len() * bpp == total);
    assert(e.len() == total);
    lemma_packed_stream(data, bpp);
    let whole = total / 8;
    let rem = total % 8;
    let db = data_bits(data, bpp, compact);
    lemma_at_bits_take(d, pos, db, e.len() as int);
    assert(db.take(e.len() as int) =~= e);
    lemma_at_bits_take(d, pos, e, 8 * whole);
    lemma_p_whole_bytes(d, pos, e.take(8 * whole), whole);
    if rem == 0 {
        assert(e.take(8 * whole) =~= e);
        assert(db =~= e);
    } else {
        lemma_pack_split(e, whole, rem);
        let last = pack_bits(e)[whole];
        assert(pack_bits(e).take(whole).push(last) =~= pack_bits(e));
        if compact {
            assert(db =~= e);
            lemma_at_bits_value(d, pos + 8 * whole, last, rem as u8);
            assert(pos + 8 * whole + rem == pos + e.len());
        } else {
            let z = value_bits(0, (8 - rem) as u8);
            assert(db =~= e + z);
            lemma_at_bits_take(d, pos, db, 8 * whole);
            assert(db.skip(8 * whole) =~= e.skip(8 * whole) + z);
            lemma_at_bits_byte(d, pos + 8 * whole, last);
            assert(p_bytes(d, bit_cursor(pos), (whole + 1) as nat) == Parsed::Done(
                pack_bits(e),
                bit_cursor(pos + 8 * whole + 8),
            ));
            assert(pos + 8 * whole + 8 == pos + db.len());
        }
    }
}

proof fn lemma_ws_pixmap(e: Seq<bool>, p: PixmapModel, t: PixmapTableModel, compact: bool)
    requires
        representable_pixmap(p, t),
        !compact ==> e.len() % 8 == 0,
    ensures
        ws_pixmap(bit_state(e), p, t, compact) == Written::Done(
            bit_state(e + enc_pixmap(p, t.constant_bits_per_pixel, compact)),
        ),
{
    let b0 = Seq::<u8>::empty();
    let b1 = b0 + enc_opt(p.custom_width);
    let b2 = b1 + enc_opt(p.custom_height);
    let b3 = b2 + enc_opt(p.custom_bits_per_pixel);
    let bpp = pixel_depth(p, t.constant_bits_per_pixel);
    assert(bits_of(b0) =~= Seq::<bool>::empty());
    assert(e + bits_of(b0) =~= e);
    lemma_ws_opt(e, b0, p.custom_width);
    lemma_ws_opt(e, b1, p.custom_height);
    lemma_ws_opt(e, b2, p.custom_bits_per_pixel);
    assert(b3 =~= enc_pixmap_head(p));
    let e3 = e + bits_of(b3);
    assert(e3.len() == e.len() + 8 * b3.len());
    lemma_ws_pixmap_data(
        e3,
        p.data,
        resolve(t.constant_width, p.custom_width).unwrap(),
        resolve(t.constant_height, p.custom_height).unwrap(),
        bpp,
        compact,
    );
    assert(e3 + data_bits(p.data, bpp, compact) =~= e + enc_pixmap(p, t.constant_bits_per_pixel, compact));
}

proof fn lemma_p_pixmap_at(d: Seq<u8>, pos: int, p: PixmapModel, t: PixmapTableModel, compact: bool)
    requires
        representable_pixmap(p, t),
        at_bits(d, pos, enc_pixmap(p, t.constant_bits_per_pixel, compact)),
    ensures
        p_pixmap(d, bit_cursor(pos), t, compact) == Parsed::Done(
            read_back_pixmap(p, t.constant_bits_per_pixel),
            bit_cursor(pos + enc_pixmap(p, t.constant_bits_per_pixel, compact).len()),
        ),
{
    let bpp = pixel_depth(p, t.constant_bits_per_pixel);
    let e1 = enc_opt(p.custom_width);
    let e2 = enc_opt(p.custom_height);
    let e3 = enc_opt(p.custom_bits_per_pixel);
    let head = enc_pixmap_head(p);
    let db = data_bits(p.data, bpp, compact);
    lemma_at_bits_split(d, pos, bits_of(head), db);
    assert(at(d, pos, 0, head));
    lemma_at_split(d, pos, 0, e1, e2 + e3);
    lemma_at_split(d, pos, e1.len() as int, e2, e3);
    lemma_p_opt_at(d, pos, 0, p.custom_width);
    lemma_p_opt_at(d, pos, e1.len() as int, p.custom_height);
    lemma_p_opt_at(d, pos, (e1.len() + e2.len()) as int, p.custom_bits_per_pixel);
    assert(cursor(pos, 0) == bit_cursor(pos));
    assert(head.len() == e1.len() + e2.len() + e3.len());
    assert(cursor(pos, head.len() as int) == bit_cursor(pos + bits_of(head).len()));
    lemma_p_pixmap_data_at(
        d,
        pos + bits_of(head).len(),
        p.data,
        resolve(t.constant_width, p.custom_width).unwrap(),
        resolve(t.constant_height, p.custom_height).unwrap(),
        bpp,
        compact,
    );
}

/// Unless the layout is compact, pixmap records fill whole bytes.
proof fn lemma_pixmaps_bits_len(ps: Seq<PixmapModel>, constant: Option<u8>, compact: bool)
    ensures
        !compact ==> enc_bit_seq(ps, pixmap_encoder(constant, compact)).len() % 8 == 0,
    decreases ps.len(),
{
    let f = pixmap_encoder(constant, compact);
    lemma_enc_bit_seq_unfold(ps, f);
    if ps.len() > 0 {
        lemma_pixmaps_bits_len(ps.drop_last(), constant, compact);
        let p = ps.last();
        lemma_data_bits_len(p.data, pixel_depth(p, constant), compact);
    }
}

#[verifier::rlimit(60)]
proof fn lemma_ws_pixmaps(e: Seq<bool>, ps: Seq<PixmapModel>, t: PixmapTableModel, compact: bool)
    requires
        forall|k: int| 0 <= k < ps.len() ==> representable_pixmap(#[trigger] ps[k], t),
        !compact ==> e.len() % 8 == 0,
    ensures
        ws_pixmaps(bit_state(e), ps, t, compact) == Written::Done(
            bit_state(e + enc_bit_seq(ps, pixmap_encoder(t.constant_bits_per_pixel, compact))),
        ),
    decreases ps.len(),
{
    let f = pixmap_encoder(t.constant_bits_per_pixel, compact);
    lemma_enc_bit_seq_unfold(ps, f);
    if ps.len() == 0 {
        assert(e + enc_bit_seq(ps, f) =~= e);
    } else {
        lemma_ws_pixmaps(e, ps.drop_last(), t, compact);
        lemma_pixmaps_bits_len(ps.drop_last(), t.constant_bits_per_pixel, compact);
        assert(representable_pixmap(ps[ps.len() - 1], t));
        lemma_ws_pixmap(e + enc_bit_seq(ps.drop_last(), f), ps.last(), t, compact);
        lemma_seq_assoc(e, enc_bit_seq(ps.drop_last(), f), f(ps.last()));
    }
}

proof fn lemma_p_pixmaps_at(
    d: Seq<u8>,
    pos: int,
    ps: Seq<PixmapModel>,
    t: PixmapTableModel,
    compact: bool,
    k: int,
)
    requires
        forall|j: int| 0 <= j < ps.len() ==> representable_pixmap(#[trigger] ps[j], t),
        at_bits(d, pos, enc_bit_seq(ps, pixmap_encoder(t.constant_bits_per_pixel, compact))),
        0 <= k <= ps.len(),
    ensures
        p_pixmaps(d, bit_cursor(pos), k as nat, t, compact) == Parsed::Done(
            ps.take(k).map_values(|p: PixmapModel| read_back_pixmap(p, t.constant_bits_per_pixel)),
            bit_cursor(pos + enc_bit_seq(ps.take(k), pixmap_encoder(t.constant_bits_per_pixel, compact)).len()),
        ),
    decreases k,
{
    let f = pixmap_encoder(t.constant_bits_per_pixel, compact);
    let g = |p: PixmapModel| read_back_pixmap(p, t.constant_bits_per_pixel);
    if k == 0 {
        assert(ps.take(0) =~= Seq::<PixmapModel>::empty());
        assert(ps.take(0).map_values(g) =~= Seq::<PixmapModel>::empty());
        lemma_enc_bit_seq_unfold(ps.take(0), f);
    } else {
        lemma_p_pixmaps_at(d, pos, ps, t, compact, k - 1);
        lemma_at_bit_seq_item(d, pos, ps, f, k - 1);
        assert(representable_pixmap(ps[k - 1], t));
        lemma_p_pixmap_at(d, pos + enc_bit_seq(ps.take(k - 1), f).len(), ps[k - 1], t, compact);
        lemma_enc_bit_seq_take(ps, f, k - 1);
        assert(ps.take(k - 1).map_values(g).push(g(ps[k - 1])) =~= ps.take(k).map_values(g));
    }
}

/// The bits of a whole pixmap table, identifier byte first.
pub open spec fn enc_pixmap_table(t: PixmapTableModel, compact: bool) -> Seq<bool> {
    bits_of(seq![2u8]) + enc_pixmap_table_body(t, compact)
}

pub proof fn lemma_ws_pixmap_table(e: Seq<bool>, t: PixmapTableModel, compact: bool)
    requires
        representable_pixmap_table(t),
        !compact ==> e.len() % 8 == 0,
    ensures
        ws_pixmap_table(bit_state(e), t, compact) == Written::Done(
            bit_state(e + enc_pixmap_table(t, compact)),
        ),
{
    let b0 = Seq::<u8>::empty();
    let b1 = b0 + seq![2u8];
    let b2 = b1 + seq![0u8];
    let b3 = b2 + seq![pixmap_configuration_byte(t)];
    let b4 = b3 + enc_opt(t.constant_width);
    let b5 = b4 + enc_opt(t.constant_height);
    let b6 = b5 + enc_opt(t.constant_bits_per_pixel);
    let b7 = b6 + enc_links(t.color_table_indexes);
    let b8 = b7 + seq![t.pixmaps.len() as u8];
    assert(bits_of(b0) =~= Seq::<bool>::empty());
    assert(e + bits_of(b0) =~= e);
    lemma_ws_push(e, b0, 2);
    lemma_ws_push(e, b1, 0);
    lemma_ws_push(e, b2, pixmap_configuration_byte(t));
    lemma_ws_opt(e, b3, t.constant_width);
    lemma_ws_opt(e, b4, t.constant_height);
    lemma_ws_opt(e, b5, t.constant_bits_per_pixel);
    lemma_ws_links(e, b6, t.color_table_indexes);
    lemma_ws_push(e, b7, t.pixmaps.len() as u8);
    let e8 = e + bits_of(b8);
    assert(e8.len() == e.len() + 8 * b8.len());
    lemma_ws_pixmaps(e8, t.pixmaps, t, compact);
    assert(b8 =~= seq![2u8] + enc_pixmap_table_head(t));
    lemma_bits_of_add(seq![2u8], enc_pixmap_table_head(t));
    assert(e8 + enc_bit_seq(t.pixmaps, pixmap_encoder(t.constant_bits_per_pixel, compact)) =~= e
        + enc_pixmap_table(t, compact));
}

pub proof fn lemma_p_pixmap_table_at(d: Seq<u8>, pos: int, t: PixmapTableModel, compact: bool)
    requires
        representable_pixmap_table(t),
        at_bits(d, pos, enc_pixmap_table_body(t, compact)),
    ensures
        p_pixmap_table(d, bit_cursor(pos), compact) == Parsed::Done(
            read_back_pixmap_table(t),
            bit_cursor(pos + enc_pixmap_table_body(t, compact).len()),
        ),
{
    let hd = enc_pixmap_table_head(t);
    let e1 = seq![0u8];
    let e2 = seq![pixmap_configuration_byte(t)];
    let e3 = enc_opt(t.constant_width);
    let e4 = enc_opt(t.constant_height);
    let e5 = enc_opt(t.constant_bits_per_pixel);
    let e6 = enc_links(t.color_table_indexes);
    let e7 = seq![t.pixmaps.len() as u8];
    let ps_bits = enc_bit_seq(t.pixmaps, pixmap_encoder(t.constant_bits_per_pixel, compact));
    lemma_at_bits_split(d, pos, bits_of(hd), ps_bits);
    assert(at(d, pos, 0, hd));
    let base = pos;
    let i = 0int;
    lemma_at_split(d, base, i, e1, e2 + (e3 + (e4 + (e5 + (e6 + e7)))));
    lemma_at_split(d, base, i + 1, e2, e3 + (e4 + (e5 + (e6 + e7))));
    let j3 = i + 2;
    lemma_at_split(d, base, j3, e3, e4 + (e5 + (e6 + e7)));
    let j4 = j3 + e3.len();
    lemma_at_split(d, base, j4, e4, e5 + (e6 + e7));
    let j5 = j4 + e4.len();
    lemma_at_split(d, base, j5, e5, e6 + e7);
    let j6 = j5 + e5.len();
    lemma_at_split(d, base, j6, e6, e7);
    let j7 = j6 + e6.len();
    lemma_at_byte(d, base, i, e1);
    lemma_at_byte(d, base, i + 1, e2);
    lemma_pixmap_configuration_byte(t);
    lemma_p_opt_at(d, base, j3, t.constant_width);
    lemma_p_opt_at(d, base, j4, t.constant_height);
    lemma_p_opt_at(d, base, j5, t.constant_bits_per_pixel);
    lemma_p_links_at(d, base, j6, t.color_table_indexes);
    lemma_at_byte(d, base, j7, e7);
    assert(cursor(base, i) == bit_cursor(pos));
    assert(j7 + 1 == hd.len());
    let pos8 = pos + bits_of(hd).len();
    assert(cursor(base, j7 + 1) == bit_cursor(pos8));
    let head = pixmap_table_head(
        t.constant_width,
        t.constant_height,
        t.constant_bits_per_pixel,
        t.color_table_indexes,
    );
    assert forall|k: int| 0 <= k < t.pixmaps.len() implies representable_pixmap(
        #[trigger] t.pixmaps[k],
        head,
    ) by {
        assert(representable_pixmap(t.pixmaps[k], t));
    }
    lemma_p_pixmaps_at(d, pos8, t.pixmaps, head, compact, t.pixmaps.len() as int);
    assert(t.pixmaps.take(t.pixmaps.len() as int) =~= t.pixmaps);
    assert(PixmapTableModel {
        pixmaps: t.pixmaps.map_values(|p: PixmapModel| read_back_pixmap(p, t.constant_bits_per_pixel)),
        ..head
    } =~= read_back_pixmap_table(t));
}

// ----- font tables -----

/// A string that reads back as written: not empty, and no `'\0'` after the
/// first character (a 0 byte ends it).
pub open spec fn representable_string(s: Seq<char>) -> bool {
    &&& s.len() >= 1
    &&& forall|j: int| 1 <= j < s.len() ==> s[j] != '\0'
}

/// A font that reads back as written.
pub open spec fn representable_font(f: FontModel) -> bool {
    &&& representable_string(f.name)
    &&& representable_string(f.author)
    &&& f.linked_character_table_indexes.len() <= 255
}

/// A font table that reads back as written: its link flags are 0 (the
/// format derives them), its lists fit their one-byte lengths, and every
/// font is representable.
pub open spec fn representable_font_table(t: FontTableModel) -> bool {
    &&& t.link_flags == 0
    &&& links_ok(t.character_table_indexes)
    &&& t.fonts.len() <= 255
    &&& forall|k: int| 0 <= k < t.fonts.len() ==> representable_font(#[trigger] t.fonts[k])
}

/// The bytes of a font record.
pub open spec fn enc_font(f: FontModel) -> Seq<u8> {
    (encode_utf8(f.name) + seq![0u8]) + ((encode_utf8(f.author) + seq![0u8]) + (seq![f.version] + (
    seq![spec_font_type_byte(f.font_type)] + enc_list(f.linked_character_table_indexes))))
}

/// Encodes font records.
pub open spec fn font_encoder() -> spec_fn(FontModel) -> Seq<u8> {
    |f: FontModel| enc_font(f)
}

/// The bytes of a font table after its identifier byte.
pub open spec fn enc_font_table_body(t: FontTableModel) -> Seq<u8> {
    seq![0u8] + (seq![0u8] + (enc_links(t.character_table_indexes) + (seq![t.fonts.len() as u8]
        + enc_seq(t.fonts, font_encoder()))))
}

proof fn lemma_ws_font(e0: Seq<bool>, bytes: Seq<u8>, f: FontModel)
    requires
        representable_font(f),
    ensures
        ws_font(after(e0, bytes), f) == Written::Done(after(e0, bytes + enc_font(f))),
{
    let b1 = bytes + (encode_utf8(f.name) + seq![0u8]);
    let b2 = b1 + (encode_utf8(f.author) + seq![0u8]);
    let b3 = b2 + seq![f.version];
    let b4 = b3 + seq![spec_font_type_byte(f.font_type)];
    lemma_ws_string(e0, bytes, f.name);
    lemma_ws_string(e0, b1, f.author);
    lemma_ws_push(e0, b2, f.version);
    lemma_ws_push(e0, b3, spec_font_type_byte(f.font_type));
    lemma_ws_list(e0, b4, f.linked_character_table_indexes);
    assert(b4 + enc_list(f.linked_character_table_indexes) =~= bytes + enc_font(f));
}

proof fn lemma_p_font_at(d: Seq<u8>, base: int, i: int, f: FontModel)
    requires
        representable_font(f),
        at(d, base, i, enc_font(f)),
    ensures
        p_font(d, cursor(base, i)) == Parsed::Done(f, cursor(base, i + enc_font(f).len())),
{
    let e1 = encode_utf8(f.name) + seq![0u8];
    let e2 = encode_utf8(f.author) + seq![0u8];
    let e3 = seq![f.version];
    let e4 = seq![spec_font_type_byte(f.font_type)];
    let e5 = enc_list(f.linked_character_table_indexes);
    lemma_at_split(d, base, i, e1, e2 + (e3 + (e4 + e5)));
    lemma_at_split(d, base, i + e1.len(), e2, e3 + (e4 + e5));
    let j3 = i + e1.len() + e2.len();
    lemma_at_split(d, base, j3, e3, e4 + e5);
    lemma_at_split(d, base, j3 + 1, e4, e5);
    lemma_p_string_at(d, base, i, Seq::empty(), f.name);
    lemma_p_string_at(d, base, i + e1.len(), Seq::empty(), f.author);
    assert(Seq::<char>::empty() + f.name =~= f.name);
    assert(Seq::<char>::empty() + f.author =~= f.author);
    lemma_at_byte(d, base, j3, e3);
    lemma_at_byte(d, base, j3 + 1, e4);
    lemma_p_list_at(d, base, j3 + 2, f.linked_character_table_indexes);
}

proof fn lemma_ws_fonts(e0: Seq<bool>, bytes: Seq<u8>, fs: Seq<FontModel>)
    requires
        forall|k: int| 0 <= k < fs.len() ==> representable_font(#[trigger] fs[k]),
    ensures
        ws_fonts(after(e0, bytes), fs) == Written::Done(after(e0, bytes + enc_seq(fs, font_encoder()))),
    decreases fs.len(),
{
    lemma_enc_seq_unfold(fs, font_encoder());
    if fs.len() == 0 {
        assert(bytes + enc_seq(fs, font_encoder()) =~= bytes);
    } else {
        lemma_ws_fonts(e0, bytes, fs.drop_last());
        assert(representable_font(fs[fs.len() - 1]));
        lemma_ws_font(e0, bytes + enc_seq(fs.drop_last(), font_encoder()), fs.last());
        assert(bytes + enc_seq(fs.drop_last(), font_encoder()) + enc_font(fs.last())
            =~= bytes + enc_seq(fs, font_encoder()));
    }
}

proof fn lemma_p_fonts_at(d: Seq<u8>, base: int, i: int, fs: Seq<FontModel>, k: int)
    requires
        forall|j: int| 0 <= j < fs.len() ==> representable_font(#[trigger] fs[j]),
        at(d, base, i, enc_seq(fs, font_encoder())),
        0 <= k <= fs.len(),
    ensures
        p_fonts(d, cursor(base, i), k as nat) == Parsed::Done(
            fs.take(k),
            cursor(base, i + enc_seq(fs.take(k), font_encoder()).len()),
        ),
    decreases k,
{
    let f = font_encoder();
    if k == 0 {
        assert(fs.take(0) =~= Seq::<FontModel>::empty());
        lemma_enc_seq_unfold(fs.take(0), f);
    } else {
        lemma_p_fonts_at(d, base, i, fs, k - 1);
        lemma_at_seq_item(d, base, i, fs, f, k - 1);
        assert(representable_font(fs[k - 1]));
        lemma_p_font_at(d, base, i + enc_seq(fs.take(k - 1), f).len(), fs[k - 1]);
        lemma_enc_seq_take(fs, f, k - 1);
        assert(fs.take(k - 1).push(fs[k - 1]) =~= fs.take(k));
    }
}

pub proof fn lemma_ws_font_table(e0: Seq<bool>, bytes: Seq<u8>, t: FontTableModel)
    requires
        representable_font_table(t),
    ensures
        ws_font_table(after(e0, bytes), t) == Written::Done(
            after(e0, bytes + (seq![4u8] + enc_font_table_body(t))),
        ),
{
    let b1 = bytes + seq![4u8];
    let b2 = b1 + seq![0u8];
    let b3 = b2 + seq![0u8];
    let b4 = b3 + enc_links(t.character_table_indexes);
    let b5 = b4 + seq![t.fonts.len() as u8];
    lemma_ws_push(e0, bytes, 4);
    lemma_ws_push(e0, b1, 0);
    lemma_ws_push(e0, b2, 0);
    lemma_ws_links(e0, b3, t.character_table_indexes);
    lemma_ws_push(e0, b4, t.fonts.len() as u8);
    lemma_ws_fonts(e0, b5, t.fonts);
    assert(b5 + enc_seq(t.fonts, font_encoder()) =~= bytes + (seq![4u8] + enc_font_table_body(t)));
}

pub proof fn lemma_p_font_table_at(d: Seq<u8>, base: int, i: int, t: FontTableModel)
    requires
        representable_font_table(t),
        at(d, base, i, enc_font_table_body(t)),
    ensures
        p_font_table(d, cursor(base, i)) == Parsed::Done(t, cursor(base, i + enc_font_table_body(t).len())),
{
    let e1 = seq![0u8];
    let e2 = seq![0u8];
    let e3 = enc_links(t.character_table_indexes);
    let e4 = seq![t.fonts.len() as u8];
    let e5 = enc_seq(t.fonts, font_encoder());
    lemma_at_split(d, base, i, e1, e2 + (e3 + (e4 + e5)));
    lemma_at_split(d, base, i + 1, e2, e3 + (e4 + e5));
    lemma_at_split(d, base, i + 2, e3, e4 + e5);
    lemma_at_split(d, base, i + 2 + e3.len(), e4, e5);
    lemma_at_byte(d, base, i, e1);
    lemma_at_byte(d, base, i + 1, e2);
    lemma_p_links_at(d, base, i + 2, t.character_table_indexes);
    lemma_at_byte(d, base, i + 2 + e3.len(), e4);
    lemma_p_fonts_at(d, base, i + 3 + e3.len(), t.fonts, t.fonts.len() as int);
    assert(t.fonts.take(t.fonts.len() as int) =~= t.fonts);
}

// ----- layouts -----

/// Encodes character tables, identifier byte first.
pub open spec fn character_table_encoder() -> spec_fn(CharacterTableModel) -> Seq<u8> {
    |t: CharacterTableModel| seq![1u8] + enc_character_table_body(t)
}


/// Encodes color tables, identifier byte first.
pub open spec fn color_table_encoder() -> spec_fn(ColorTableModel) -> Seq<u8> {
    |t: ColorTableModel| seq![3u8] + enc_color_table_body(t)
}

/// Encodes font tables, identifier byte first.
pub open spec fn font_table_encoder() -> spec_fn(FontTableModel) -> Seq<u8> {
    |t: FontTableModel| seq![4u8] + enc_font_table_body(t)
}

/// Encodes pixmap tables of a layout that is compact or not.
pub open spec fn pixmap_table_encoder(compact: bool) -> spec_fn(PixmapTableModel) -> Seq<bool> {
    |t: PixmapTableModel| enc_pixmap_table(t, compact)
}

/// The bytes of a layout's signature, version and header.
pub open spec fn enc_preamble(l: LayoutModel) -> Seq<u8> {
    magic() + seq![spec_version_byte(l.version), flag(l.compact)]
}

/// The bits of a layout: signature, version, header, then its character,
/// pixmap, color and font tables.
pub open spec fn enc_layout_bits(l: LayoutModel) -> Seq<bool> {
    bits_of(enc_preamble(l) + enc_seq(l.character_tables, character_table_encoder())) + (enc_bit_seq(
        l.pixmap_tables,
        pixmap_table_encoder(l.compact),
    ) + bits_of(enc_seq(l.color_tables, color_table_encoder()) + enc_seq(
        l.font_tables,
        font_table_encoder(),
    )))
}

/// The bytes of a layout: its bits, packed.
pub open spec fn enc_layout(l: LayoutModel) -> Seq<u8> {
    pack_bits(enc_layout_bits(l))
}

/// A layout as it reads back: the pixels of every pixmap packed into bytes.
pub open spec fn read_back_layout(l: LayoutModel) -> LayoutModel {
    LayoutModel {
        pixmap_tables: l.pixmap_tables.map_values(|t: PixmapTableModel| read_back_pixmap_table(t)),
        ..l
    }
}

/// A layout that reads back: every one of its tables does.
pub open spec fn representable_layout(l: LayoutModel) -> bool {
    &&& forall|k: int| 0 <= k < l.character_tables.len() ==> representable_character_table(
        #[trigger] l.character_tables[k],
    )
    &&& forall|k: int| 0 <= k < l.pixmap_tables.len() ==> representable_pixmap_table(
        #[trigger] l.pixmap_tables[k],
    )
    &&& forall|k: int| 0 <= k < l.color_tables.len() ==> representable_color_table(
        #[trigger] l.color_tables[k],
    )
    &&& forall|k: int| 0 <= k < l.font_tables.len() ==> representable_font_table(
        #[trigger] l.font_tables[k],
    )
}

proof fn lemma_ws_character_tables(e0: Seq<bool>, bytes: Seq<u8>, ts: Seq<CharacterTableModel>)
    requires
        forall|k: int| 0 <= k < ts.len() ==> representable_character_table(#[trigger] ts[k]),
    ensures
        ws_character_tables(after(e0, bytes), ts) == Written::Done(
            after(e0, bytes + enc_seq(ts, character_table_encoder())),
        ),
    decreases ts.len(),
{
    lemma_enc_seq_unfold(ts, character_table_encoder());
    let f = character_table_encoder();
    if ts.len() == 0 {
        assert(bytes + enc_seq(ts, f) =~= bytes);
    } else {
        lemma_ws_character_tables(e0, bytes, ts.drop_last());
        assert(representable_character_table(ts[ts.len() - 1]));
        lemma_ws_character_table(e0, bytes + enc_seq(ts.drop_last(), f), ts.last());
        assert(bytes + enc_seq(ts.drop_last(), f) + f(ts.last()) =~= bytes + enc_seq(ts, f));
    }
}

/// Unless the layout is compact, pixmap tables fill whole bytes.
proof fn lemma_pixmap_tables_bits_len(ts: Seq<PixmapTableModel>, compact: bool)
    ensures
        !compact ==> enc_bit_seq(ts, pixmap_table_encoder(compact)).len() % 8 == 0,
    decreases ts.len(),
{
    let f = pixmap_table_encoder(compact);
    lemma_enc_bit_seq_unfold(ts, f);
    if ts.len() > 0 {
        lemma_pixmap_tables_bits_len(ts.drop_last(), compact);
        let t = ts.last();
        lemma_pixmaps_bits_len(t.pixmaps, t.constant_bits_per_pixel, compact);
    }
}

#[verifier::rlimit(60)]
proof fn lemma_ws_pixmap_tables(e: Seq<bool>, ts: Seq<PixmapTableModel>, compact: bool)
    requires
        forall|k: int| 0 <= k < ts.len() ==> representable_pixmap_table(#[trigger] ts[k]),
        !compact ==> e.len() % 8 == 0,
    ensures
        ws_pixmap_tables(bit_state(e), ts, compact) == Written::Done(
            bit_state(e + enc_bit_seq(ts, pixmap_table_encoder(compact))),
        ),
    decreases ts.len(),
{
    let f = pixmap_table_encoder(compact);
    lemma_enc_bit_seq_unfold(ts, f);
    if ts.len() == 0 {
        assert(e + enc_bit_seq(ts, f) =~= e);
    } else {
        lemma_ws_pixmap_tables(e, ts.drop_last(), compact);
        lemma_pixmap_tables_bits_len(ts.drop_last(), compact);
        assert(representable_pixmap_table(ts[ts.len() - 1]));
        lemma_ws_pixmap_table(e + enc_bit_seq(ts.drop_last(), f), ts.last(), compact);
        lemma_seq_assoc(e, enc_bit_seq(ts.drop_last(), f), f(ts.last()));
    }
}

proof fn lemma_ws_color_tables(e0: Seq<bool>, bytes: Seq<u8>, ts: Seq<ColorTableModel>)
    requires
        forall|k: int| 0 <= k < ts.len() ==> representable_color_table(#[trigger] ts[k]),
    ensures
        ws_color_tables(after(e0, bytes), ts) == Written::Done(
            after(e0, bytes + enc_seq(ts, color_table_encoder())),
        ),
    decreases ts.len(),
{
    lemma_enc_seq_unfold(ts, color_table_encoder());
    let f = color_table_encoder();
    if ts.len() == 0 {
        assert(bytes + enc_seq(ts, f) =~= bytes);
    } else {
        lemma_ws_color_tables(e0, bytes, ts.drop_last());
        assert(representable_color_table(ts[ts.len() - 1]));
        lemma_ws_color_table(e0, bytes + enc_seq(ts.drop_last(), f), ts.last());
        assert(bytes + enc_seq(ts.drop_last(), f) + f(ts.last()) =~= bytes + enc_seq(ts, f));
    }
}

proof fn lemma_ws_font_tables(e0: Seq<bool>, bytes: Seq<u8>, ts: Seq<FontTableModel>)
    requires
        forall|k: int| 0 <= k < ts.len() ==> representable_font_table(#[trigger] ts[k]),
    ensures
        ws_font_tables(after(e0, bytes), ts) == Written::Done(
            after(e0, bytes + enc_seq(ts, font_table_encoder())),
        ),
    decreases ts.len(),
{
    lemma_enc_seq_unfold(ts, font_table_encoder());
    let f = font_table_encoder();
    if ts.len() == 0 {
        assert(bytes + enc_seq(ts, f) =~= bytes);
    } else {
        lemma_ws_font_tables(e0, bytes, ts.drop_last());
        assert(representable_font_table(ts[ts.len() - 1]));
        lemma_ws_font_table(e0, bytes + enc_seq(ts.drop_last(), f), ts.last());
        assert(bytes + enc_seq(ts.drop_last(), f) + f(ts.last()) =~= bytes + enc_seq(ts, f));
    }
}

/// Where at least two bytes' worth of bits occur, another table follows.
proof fn lemma_more_tables_bits(d: Seq<u8>, pos: int, e: Seq<bool>)
    requires
        at_bits(d, pos, e),
        e.len() >= 16,
    ensures
        more_tables(d, bit_cursor(pos)),
        !(bit_cursor(pos).index < 0),
{
}

/// Where a table's bytes occur, another table follows: at least two bytes
/// remain.
proof fn lemma_more_tables(d: Seq<u8>, base: int, i: int, e: Seq<u8>)
    requires
        at(d, base, i, e),
        e.len() >= 2,
    ensures
        more_tables(d, cursor(base, i)),
        !(cursor(base, i).index < 0),
{
    lemma_more_tables_bits(d, base + 8 * i, bits_of(e));
}

proof fn lemma_p_character_tables_at(d: Seq<u8>, base: int, i: int, ts: Seq<CharacterTableModel>, l: LayoutModel, k: int)
    requires
        forall|j: int| 0 <= j < ts.len() ==> representable_character_table(#[trigger] ts[j]),
        at(d, base, i, enc_seq(ts, character_table_encoder())),
        0 <= k <= ts.len(),
    ensures
        p_tables(
            d,
            cursor(base, i + enc_seq(ts.take(k), character_table_encoder()).len()),
            LayoutModel { character_tables: l.character_tables + ts.take(k), ..l },
        ) == p_tables(
            d,
            cursor(base, i + enc_seq(ts, character_table_encoder()).len()),
            LayoutModel { character_tables: l.character_tables + ts, ..l },
        ),
    decreases ts.len() - k,
{
    let f = character_table_encoder();
    if k == ts.len() {
        assert(ts.take(k) =~= ts);
    } else {
        let pos = i + enc_seq(ts.take(k), f).len();
        let lk = LayoutModel { character_tables: l.character_tables + ts.take(k), ..l };
        lemma_at_seq_item(d, base, i, ts, f, k);
        assert(representable_character_table(ts[k]));
        let body = enc_character_table_body(ts[k]);
        lemma_at_split(d, base, pos, seq![1u8], body);
        lemma_at_byte(d, base, pos, seq![1u8] + body);
        lemma_more_tables(d, base, pos, seq![1u8] + body);
        lemma_p_character_table_at(d, base, pos + 1, ts[k]);
        assert(p_table(d, cursor(base, pos + 1), 1, lk) == Parsed::Done(
            add_character_table(lk, ts[k]),
            cursor(base, pos + 1 + body.len()),
        ));
        lemma_enc_seq_take(ts, f, k);
        assert(add_character_table(lk, ts[k]) =~= LayoutModel {
            character_tables: l.character_tables + ts.take(k + 1),
            ..l
        });
        lemma_p_character_tables_at(d, base, i, ts, l, k + 1);
    }
}

#[verifier::rlimit(60)]
proof fn lemma_p_pixmap_tables_at(d: Seq<u8>, pos: int, ts: Seq<PixmapTableModel>, l: LayoutModel, k: int)
    requires
        forall|j: int| 0 <= j < ts.len() ==> representable_pixmap_table(#[trigger] ts[j]),
        at_bits(d, pos, enc_bit_seq(ts, pixmap_table_encoder(l.compact))),
        0 <= k <= ts.len(),
    ensures
        p_tables(
            d,
            bit_cursor(pos + enc_bit_seq(ts.take(k), pixmap_table_encoder(l.compact)).len()),
            LayoutModel {
                pixmap_tables: l.pixmap_tables + ts.take(k).map_values(|t: PixmapTableModel| read_back_pixmap_table(t)),
                ..l
            },
        ) == p_tables(
            d,
            bit_cursor(pos + enc_bit_seq(ts, pixmap_table_encoder(l.compact)).len()),
            LayoutModel {
                pixmap_tables: l.pixmap_tables + ts.map_values(|t: PixmapTableModel| read_back_pixmap_table(t)),
                ..l
            },
        ),
    decreases ts.len() - k,
{
    let f = pixmap_table_encoder(l.compact);
    let g = |t: PixmapTableModel| read_back_pixmap_table(t);
    if k == ts.len() {
        assert(ts.take(k) =~= ts);
        assert(ts.take(k).map_values(g) =~= ts.map_values(g));
    } else {
        let p0 = pos + enc_bit_seq(ts.take(k), f).len();
        let lk = LayoutModel { pixmap_tables: l.pixmap_tables + ts.take(k).map_values(g), ..l };
        lemma_at_bit_seq_item(d, pos, ts, f, k);
        assert(representable_pixmap_table(ts[k]));
        let body = enc_pixmap_table_body(ts[k], l.compact);
        lemma_bits_of_byte_seq(2u8);
        lemma_at_bits_split(d, p0, bits_of(seq![2u8]), body);
        lemma_at_bits_byte(d, p0, 2u8);
        assert(bits_of(seq![2u8]).len() == 8);
        assert(bits_of(enc_pixmap_table_head(ts[k])).len() >= 8);
        lemma_more_tables_bits(d, p0, enc_pixmap_table(ts[k], l.compact));
        lemma_p_pixmap_table_at(d, p0 + 8, ts[k], l.compact);
        assert(bit_cursor(p0 + 8) == Cursor { index: bit_cursor(p0).index + 1, pointer: bit_cursor(p0).pointer });
        assert(p_table(d, bit_cursor(p0 + 8), 2, lk) == Parsed::Done(
            add_pixmap_table(lk, read_back_pixmap_table(ts[k])),
            bit_cursor(p0 + 8 + body.len()),
        ));
        lemma_enc_bit_seq_take(ts, f, k);
        assert(ts.take(k).map_values(g).push(g(ts[k])) =~= ts.take(k + 1).map_values(g));
        assert(add_pixmap_table(lk, read_back_pixmap_table(ts[k])) =~= LayoutModel {
            pixmap_tables: l.pixmap_tables + ts.take(k + 1).map_values(g),
            ..l
        });
        lemma_p_pixmap_tables_at(d, pos, ts, l, k + 1);
    }
}

proof fn lemma_p_color_tables_at(d: Seq<u8>, base: int, i: int, ts: Seq<ColorTableModel>, l: LayoutModel, k: int)
    requires
        forall|j: int| 0 <= j < ts.len() ==> representable_color_table(#[trigger] ts[j]),
        at(d, base, i, enc_seq(ts, color_table_encoder())),
        0 <= k <= ts.len(),
    ensures
        p_tables(
            d,
            cursor(base, i + enc_seq(ts.take(k), color_table_encoder()).len()),
            LayoutModel { color_tables: l.color_tables + ts.take(k), ..l },
        ) == p_tables(
            d,
            cursor(base, i + enc_seq(ts, color_table_encoder()).len()),
            LayoutModel { color_tables: l.color_tables + ts, ..l },
        ),
    decreases ts.len() - k,
{
    let f = color_table_encoder();
    if k == ts.len() {
        assert(ts.take(k) =~= ts);
    } else {
        let pos = i + enc_seq(ts.take(k), f).len();
        let lk = LayoutModel { color_tables: l.color_tables + ts.take(k), ..l };
        lemma_at_seq_item(d, base, i, ts, f, k);
        assert(representable_color_table(ts[k]));
        let body = enc_color_table_body(ts[k]);
        lemma_at_split(d, base, pos, seq![3u8], body);
        lemma_at_byte(d, base, pos, seq![3u8] + body);
        lemma_more_tables(d, base, pos, seq![3u8] + body);
        lemma_p_color_table_at(d, base, pos + 1, ts[k]);
        assert(p_table(d, cursor(base, pos + 1), 3, lk) == Parsed::Done(
            add_color_table(lk, ts[k]),
            cursor(base, pos + 1 + body.len()),
        ));
        lemma_enc_seq_take(ts, f, k);
        assert(add_color_table(lk, ts[k]) =~= LayoutModel {
            color_tables: l.color_tables + ts.take(k + 1),
            ..l
        });
        lemma_p_color_tables_at(d, base, i, ts, l, k + 1);
    }
}

proof fn lemma_p_font_tables_at(d: Seq<u8>, base: int, i: int, ts: Seq<FontTableModel>, l: LayoutModel, k: int)
    requires
        forall|j: int| 0 <= j < ts.len() ==> representable_font_table(#[trigger] ts[j]),
        at(d, base, i, enc_seq(ts, font_table_encoder())),
        0 <= k <= ts.len(),
    ensures
        p_tables(
            d,
            cursor(base, i + enc_seq(ts.take(k), font_table_encoder()).len()),
            LayoutModel { font_tables: l.font_tables + ts.take(k), ..l },
        ) == p_tables(
            d,
            cursor(base, i + enc_seq(ts, font_table_encoder()).len()),
            LayoutModel { font_tables: l.font_tables + ts, ..l },
        ),
    decreases ts.len() - k,
{
    let f = font_table_encoder();
    if k == ts.len() {
        assert(ts.take(k) =~= ts);
    } else {
        let pos = i + enc_seq(ts.take(k), f).len();
        let lk = LayoutModel { font_tables: l.font_tables + ts.take(k), ..l };
        lemma_at_seq_item(d, base, i, ts, f, k);
        assert(representable_font_table(ts[k]));
        let body = enc_font_table_body(ts[k]);
        lemma_at_split(d, base, pos, seq![4u8], body);
        lemma_at_byte(d, base, pos, seq![4u8] + body);
        lemma_more_tables(d, base, pos, seq![4u8] + body);
        lemma_p_font_table_at(d, base, pos + 1, ts[k]);
        assert(p_table(d, cursor(base, pos + 1), 4, lk) == Parsed::Done(
            add_font_table(lk, ts[k]),
            cursor(base, pos + 1 + body.len()),
        ));
        lemma_enc_seq_take(ts, f, k);
        assert(add_font_table(lk, ts[k]) =~= LayoutModel {
            font_tables: l.font_tables + ts.take(k + 1),
            ..l
        });
        lemma_p_font_tables_at(d, base, i, ts, l, k + 1);
    }
}


/// The writer after the bytes `s` from an empty stream is at a byte
/// boundary holding `s`.
pub(crate) proof fn lemma_after_empty(s: Seq<u8>)
    ensures
        after(Seq::<bool>::empty(), s) == aligned(s),
{
    assert(Seq::<bool>::empty() + bits_of(s) =~= bits_of(s));
    lemma_pack_bits_of(s);
}

pub proof fn lemma_ws_preamble(l: LayoutModel)
    ensures
        ws_preamble(empty_writer(), l) == Written::Done(
            aligned(magic() + seq![spec_version_byte(l.version)] + seq![flag(l.compact)]),
        ),
{
    let e0 = Seq::<bool>::empty();
    let b0 = Seq::<u8>::empty();
    let b1 = b0 + magic();
    assert(b1 =~= magic());
    lemma_after_empty(b0);
    assert(empty_writer() == aligned(b0));
    lemma_ws_bytes(e0, b0, magic());
    lemma_ws_push(e0, b1, spec_version_byte(l.version));
    lemma_ws_push(e0, b1 + seq![spec_version_byte(l.version)], flag(l.compact));
    lemma_after_empty(b1 + seq![spec_version_byte(l.version)] + seq![flag(l.compact)]);
}

proof fn lemma_ws_layout(l: LayoutModel)
    requires
        representable_layout(l),
    ensures
        ws_layout(empty_writer(), l) == Written::Done(bit_state(enc_layout_bits(l))),
{
    let none = Seq::<bool>::empty();
    let b3 = magic() + seq![spec_version_byte(l.version)] + seq![flag(l.compact)];
    assert(b3 =~= enc_preamble(l));
    let e1 = enc_seq(l.character_tables, character_table_encoder());
    let px = enc_bit_seq(l.pixmap_tables, pixmap_table_encoder(l.compact));
    let e3 = enc_seq(l.color_tables, color_table_encoder());
    let e4 = enc_seq(l.font_tables, font_table_encoder());
    lemma_ws_preamble(l);
    lemma_after_empty(b3);
    lemma_ws_character_tables(none, b3, l.character_tables);
    let big1 = none + bits_of(b3 + e1);
    assert(big1 =~= bits_of(enc_preamble(l) + e1));
    assert(big1.len() % 8 == 0);
    lemma_ws_pixmap_tables(big1, l.pixmap_tables, l.compact);
    let big2 = big1 + px;
    let b0 = Seq::<u8>::empty();
    assert(bits_of(b0) =~= none);
    assert(big2 + bits_of(b0) =~= big2);
    lemma_ws_color_tables(big2, b0, l.color_tables);
    assert(b0 + e3 =~= e3);
    lemma_ws_font_tables(big2, e3, l.font_tables);
    assert(big2 + bits_of(e3 + e4) =~= enc_layout_bits(l));
}

proof fn lemma_p_preamble_at(d: Seq<u8>, l: LayoutModel)
    requires
        at(d, 0, 0, enc_preamble(l)),
    ensures
        p_layout_at(d, Cursor { index: 0, pointer: 0 }, empty_layout(Version::FV0, false)) == p_tables(
            d,
            cursor(0, 6),
            empty_layout(l.version, l.compact),
        ),
{
    let e = enc_preamble(l);
    assert(e.len() == 6);
    assert forall|k: int| 0 <= k < 6 implies #[trigger] read8(d, k, 0) == e[k] && k < d.len() by {
        lemma_at_split(d, 0, 0, e.take(k), e.skip(k));
        assert(e.take(k) + e.skip(k) =~= e);
        assert(e.skip(k)[0] == e[k]);
        lemma_at_byte(d, 0, k, e.skip(k));
        assert(cursor(0, k) == Cursor { index: k, pointer: 0 });
    }
    assert(read8(d, 0, 0) == 127 && read8(d, 1, 0) == 102 && read8(d, 2, 0) == 115 && read8(d, 3, 0) == 70);
    assert(p_signature(d, Cursor { index: 0, pointer: 0 }) == Parsed::Done((), Cursor { index: 4, pointer: 0 }));
    assert(p_version(d, Cursor { index: 4, pointer: 0 }) == Parsed::Done(l.version, Cursor { index: 5, pointer: 0 }));
    assert(spec_get_bit(1u8, 0) && !spec_get_bit(0u8, 0)) by (bit_vector);
    assert(p_header(d, Cursor { index: 5, pointer: 0 }) == Parsed::Done(l.compact, Cursor { index: 6, pointer: 0 }));
    assert(cursor(0, 6) == Cursor { index: 6, pointer: 0 });
    assert(LayoutModel { version: l.version, compact: l.compact, ..empty_layout(Version::FV0, false) }
        == empty_layout(l.version, l.compact));
}

/// Reading every character table of `ts` where they are encoded appends
/// them to `l`.
proof fn lemma_p_character_tables(d: Seq<u8>, base: int, i: int, ts: Seq<CharacterTableModel>, l: LayoutModel)
    requires
        forall|j: int| 0 <= j < ts.len() ==> representable_character_table(#[trigger] ts[j]),
        at(d, base, i, enc_seq(ts, character_table_encoder())),
    ensures
        p_tables(d, cursor(base, i), l) == p_tables(
            d,
            cursor(base, i + enc_seq(ts, character_table_encoder()).len()),
            LayoutModel { character_tables: l.character_tables + ts, ..l },
        ),
{
    assert(ts.take(0) =~= Seq::<CharacterTableModel>::empty());
    lemma_enc_seq_unfold(ts.take(0), character_table_encoder());
    assert(LayoutModel { character_tables: l.character_tables + ts.take(0), ..l } =~= l);
    lemma_p_character_tables_at(d, base, i, ts, l, 0);
}

/// Reading every pixmap table of `ts` where they are encoded appends them,
/// as they read back, to `l`.
proof fn lemma_p_pixmap_tables(d: Seq<u8>, pos: int, ts: Seq<PixmapTableModel>, l: LayoutModel)
    requires
        forall|j: int| 0 <= j < ts.len() ==> representable_pixmap_table(#[trigger] ts[j]),
        at_bits(d, pos, enc_bit_seq(ts, pixmap_table_encoder(l.compact))),
    ensures
        p_tables(d, bit_cursor(pos), l) == p_tables(
            d,
            bit_cursor(pos + enc_bit_seq(ts, pixmap_table_encoder(l.compact)).len()),
            LayoutModel {
                pixmap_tables: l.pixmap_tables + ts.map_values(|t: PixmapTableModel| read_back_pixmap_table(t)),
                ..l
            },
        ),
{
    assert(ts.take(0) =~= Seq::<PixmapTableModel>::empty());
    lemma_enc_bit_seq_unfold(ts.take(0), pixmap_table_encoder(l.compact));
    assert(LayoutModel {
        pixmap_tables: l.pixmap_tables + ts.take(0).map_values(|t: PixmapTableModel| read_back_pixmap_table(t)),
        ..l
    } =~= l);
    lemma_p_pixmap_tables_at(d, pos, ts, l, 0);
}

/// Reading every color table of `ts` where they are encoded appends them
/// to `l`.
proof fn lemma_p_color_tables(d: Seq<u8>, base: int, i: int, ts: Seq<ColorTableModel>, l: LayoutModel)
    requires
        forall|j: int| 0 <= j < ts.len() ==> representable_color_table(#[trigger] ts[j]),
        at(d, base, i, enc_seq(ts, color_table_encoder())),
    ensures
        p_tables(d, cursor(base, i), l) == p_tables(
            d,
            cursor(base, i + enc_seq(ts, color_table_encoder()).len()),
            LayoutModel { color_tables: l.color_tables + ts, ..l },
        ),
{
    assert(ts.take(0) =~= Seq::<ColorTableModel>::empty());
    lemma_enc_seq_unfold(ts.take(0), color_table_encoder());
    assert(LayoutModel { color_tables: l.color_tables + ts.take(0), ..l } =~= l);
    lemma_p_color_tables_at(d, base, i, ts, l, 0);
}

/// Reading every font table of `ts` where they are encoded appends them to
/// `l`.
proof fn lemma_p_font_tables(d: Seq<u8>, base: int, i: int, ts: Seq<FontTableModel>, l: LayoutModel)
    requires
        forall|j: int| 0 <= j < ts.len() ==> representable_font_table(#[trigger] ts[j]),
        at(d, base, i, enc_seq(ts, font_table_encoder())),
    ensures
        p_tables(d, cursor(base, i), l) == p_tables(
            d,
            cursor(base, i + enc_seq(ts, font_table_encoder()).len()),
            LayoutModel { font_tables: l.font_tables + ts, ..l },
        ),
{
    assert(ts.take(0) =~= Seq::<FontTableModel>::empty());
    lemma_enc_seq_unfold(ts.take(0), font_table_encoder());
    assert(LayoutModel { font_tables: l.font_tables + ts.take(0), ..l } =~= l);
    lemma_p_font_tables_at(d, base, i, ts, l, 0);
}

#[verifier::rlimit(30)]
proof fn lemma_p_all_tables_at(d: Seq<u8>, l: LayoutModel)
    requires
        representable_layout(l),
        d == enc_layout(l),
    ensures
        p_tables(d, cursor(0, 6), empty_layout(l.version, l.compact)) matches Parsed::Done(l4, _)
            && l4 == read_back_layout(l),
{
    let big = enc_layout_bits(l);
    let e0 = enc_preamble(l);
    let e1 = enc_seq(l.character_tables, character_table_encoder());
    let px = enc_bit_seq(l.pixmap_tables, pixmap_table_encoder(l.compact));
    let e3 = enc_seq(l.color_tables, color_table_encoder());
    let e4 = enc_seq(l.font_tables, font_table_encoder());
    lemma_at_pack(big);
    lemma_at_bits_split(d, 0, bits_of(e0 + e1), px + bits_of(e3 + e4));
    let p2 = bits_of(e0 + e1).len() as int;
    lemma_at_bits_split(d, p2, px, bits_of(e3 + e4));
    let p3 = p2 + px.len();
    assert(at(d, 0, 0, e0 + e1));
    lemma_at_split(d, 0, 0, e0, e1);
    assert(at(d, p3, 0, e3 + e4));
    lemma_at_split(d, p3, 0, e3, e4);
    let l0 = empty_layout(l.version, l.compact);
    let l1 = LayoutModel { character_tables: l0.character_tables + l.character_tables, ..l0 };
    let l2 = LayoutModel {
        pixmap_tables: l1.pixmap_tables + l.pixmap_tables.map_values(|t: PixmapTableModel| read_back_pixmap_table(t)),
        ..l1
    };
    let l3 = LayoutModel { color_tables: l2.color_tables + l.color_tables, ..l2 };
    let l4 = LayoutModel { font_tables: l3.font_tables + l.font_tables, ..l3 };
    assert(e0.len() == 6);
    lemma_p_character_tables(d, 0, 6, l.character_tables, l0);
    assert(cursor(0, (6 + e1.len()) as int) == bit_cursor(p2));
    lemma_p_pixmap_tables(d, p2, l.pixmap_tables, l1);
    assert(bit_cursor(p3) == cursor(p3, 0));
    lemma_p_color_tables(d, p3, 0, l.color_tables, l2);
    lemma_p_font_tables(d, p3, e3.len() as int, l.font_tables, l3);
    let fin = cursor(p3, (e3.len() + e4.len()) as int);
    assert(big.len() == p3 + 8 * (e3.len() + e4.len()));
    lemma_bytes_for_bits(big.len() as int);
    lemma_pack_len(big);
    assert(!more_tables(d, fin));
    assert(l4 =~= read_back_layout(l));
}

/// Decoding the encoding of a representable layout gives the layout back,
/// with the pixels of each pixmap packed into bytes.
///
/// Writing such a layout succeeds, and reading the bytes written yields the
/// same version, packing and tables, in the same order within each kind;
/// each pixmap's data comes back as the bits of its pixels, one after
/// another, filling bytes from the least significant bit up.
pub proof fn lemma_layout_round_trip(l: LayoutModel)
    requires
        representable_layout(l),
    ensures
        spec_layout_to_data(l) == Ok::<Seq<u8>, Failure<super::SerializeError>>(enc_layout(l)),
        spec_layout_from_data(enc_layout(l)) == Ok::<LayoutModel, Failure<DeserializeError>>(
            read_back_layout(l),
        ),
{
    let d = enc_layout(l);
    lemma_ws_layout(l);
    lemma_at_pack(enc_layout_bits(l));
    let e0 = enc_preamble(l);
    let rest = enc_seq(l.character_tables, character_table_encoder());
    lemma_at_bits_split(d, 0, bits_of(e0 + rest), enc_bit_seq(l.pixmap_tables, pixmap_table_encoder(l.compact)) + bits_of(
        enc_seq(l.color_tables, color_table_encoder()) + enc_seq(l.font_tables, font_table_encoder()),
    ));
    assert(at(d, 0, 0, e0 + rest));
    lemma_at_split(d, 0, 0, e0, rest);
    lemma_p_preamble_at(d, l);
    lemma_p_all_tables_at(d, l);
}

/// Whether every pixmap of `l` has eight bits per pixel, or no pixels.
pub open spec fn whole_byte_pixels(l: LayoutModel) -> bool {
    forall|k: int, j: int|
        #![trigger l.pixmap_tables[k].pixmaps[j]]
        0 <= k < l.pixmap_tables.len() && 0 <= j < l.pixmap_tables[k].pixmaps.len() ==> (
        l.pixmap_tables[k].pixmaps[j].data.len() == 0 || pixel_depth(
            l.pixmap_tables[k].pixmaps[j],
            l.pixmap_tables[k].constant_bits_per_pixel,
        ) == 8)
}

/// Decoding the encoding of a representable layout whose pixels are whole
/// bytes gives exactly that layout back.
pub proof fn lemma_layout_round_trip_whole_bytes(l: LayoutModel)
    requires
        representable_layout(l),
        whole_byte_pixels(l),
    ensures
        spec_layout_to_data(l) == Ok::<Seq<u8>, Failure<super::SerializeError>>(enc_layout(l)),
        spec_layout_from_data(enc_layout(l)) == Ok::<LayoutModel, Failure<DeserializeError>>(l),
{
    lemma_layout_round_trip(l);
    assert forall|k: int| 0 <= k < l.pixmap_tables.len() implies #[trigger] read_back_pixmap_table(
        l.pixmap_tables[k],
    ) == l.pixmap_tables[k] by {
        let t = l.pixmap_tables[k];
        assert forall|j: int| 0 <= j < t.pixmaps.len() implies #[trigger] read_back_pixmap(
            t.pixmaps[j],
            t.constant_bits_per_pixel,
        ) == t.pixmaps[j] by {
            let p = t.pixmaps[j];
            if p.data.len() == 0 {
                lemma_packed_empty(p.data, pixel_depth(p, t.constant_bits_per_pixel));
            } else {
                lemma_packed_whole_bytes(p.data);
            }
        }
        assert(t.pixmaps.map_values(|p: PixmapModel| read_back_pixmap(p, t.constant_bits_per_pixel))
            =~= t.pixmaps);
    }
    assert(l.pixmap_tables.map_values(|t: PixmapTableModel| read_back_pixmap_table(t))
        =~= l.pixmap_tables);
    assert(read_back_layout(l) =~= l);
}

// ----- single fields read back -----

/// The writer after the bits `e` is the writer after `e` and no bytes.
pub(crate) proof fn lemma_after_nothing(e: Seq<bool>)
    ensures
        after(e, Seq::<u8>::empty()) == bit_state(e),
{
    assert(bits_of(Seq::<u8>::empty()) =~= Seq::<bool>::empty());
    assert(e + bits_of(Seq::<u8>::empty()) =~= e);
}

/// Where the bits `e` and then the bytes `s` were written, the writer's
/// bytes hold `s` right after `e`.
pub(crate) proof fn lemma_written_at(e: Seq<bool>, s: Seq<u8>)
    ensures
        at(pack_bits(e + bits_of(s)), e.len() as int, 0, s),
{
    lemma_at_pack(e + bits_of(s));
    lemma_at_bits_split(pack_bits(e + bits_of(s)), 0, e, bits_of(s));
}

/// Table links written at any bit position read back from where they were
/// written: the link flag byte (bit 0 set exactly when links are given),
/// then the links themselves, taking one byte, plus the list's length byte
/// and entries when links are given. [`ws_links`] is what the tables'
/// `push_table_links` write, and the flag byte and [`p_opt_byte_list`] what
/// their `next_table_links` read.
pub proof fn lemma_links_read_back(e: Seq<bool>, v: Option<Seq<u8>>)
    requires
        links_ok(v),
    ensures
        ({
            let written = e + bits_of(enc_links(v));
            let d = pack_bits(written);
            let pos = e.len() as int;
            &&& ws_links(bit_state(e), v) == Written::Done(bit_state(written))
            &&& p_byte(d, bit_cursor(pos)) == Parsed::Done(flag(v is Some), bit_cursor(pos + 8))
            &&& (flag(v is Some) & 1 == 1) == (v is Some)
            &&& p_opt_byte_list(d, bit_cursor(pos + 8), flag(v is Some) & 1 == 1) == Parsed::Done(
                v,
                bit_cursor(pos + 8 * enc_links(v).len()),
            )
            &&& enc_links(v).len() == 1 + (if let Some(l) = v { 1 + l.len() } else { 0 })
        }),
{
    let b0 = Seq::<u8>::empty();
    lemma_after_nothing(e);
    lemma_ws_links(e, b0, v);
    assert(b0 + enc_links(v) =~= enc_links(v));
    lemma_written_at(e, enc_links(v));
    lemma_p_links_at(pack_bits(e + bits_of(enc_links(v))), e.len() as int, 0, v);
    lemma_flag_bit0(v is Some);
}

/// The code points of a character written at any bit position read back
/// from where they were written, taking their UTF-8 bytes plus, without a
/// constant count, the 0 byte that ends them. [`ws_code_points`] is what
/// `push_grapheme_cluster` writes and [`p_code_points_from`] what
/// `next_code_points` reads.
pub proof fn lemma_code_points_read_back(e: Seq<bool>, chars: Seq<char>, constant: Option<u8>)
    requires
        representable_code_points(chars, constant),
    ensures
        ({
            let enc = encode_utf8(chars) + terminator(constant);
            let written = e + bits_of(enc);
            let pos = e.len() as int;
            &&& ws_code_points(bit_state(e), chars, constant) == Written::Done(bit_state(written))
            &&& p_code_points_from(pack_bits(written), bit_cursor(pos), constant, Seq::empty())
                == Parsed::Done(chars, bit_cursor(pos + 8 * enc.len()))
            &&& enc.len() == encode_utf8(chars).len() + (if constant is None { 1int } else { 0 })
        }),
{
    let b0 = Seq::<u8>::empty();
    let enc = encode_utf8(chars) + terminator(constant);
    lemma_after_nothing(e);
    lemma_ws_code_points(e, b0, chars, constant);
    assert(b0 + enc =~= enc);
    lemma_written_at(e, enc);
    lemma_p_code_points_at(pack_bits(e + bits_of(enc)), e.len() as int, 0, constant, Seq::empty(), chars);
    assert(Seq::<char>::empty() + chars =~= chars);
}



} // verus!
