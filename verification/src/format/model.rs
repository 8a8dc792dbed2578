//! The `.spf` format as spec functions: what reading a byte buffer yields,
//! and what writing a layout produces.
use vstd::prelude::*;
use vstd::utf8::{
    decode_first_scalar, encode_utf8, valid_first_scalar,
};
use super::byte::{
    advance, low_bits, read8, spec_get_bit, w_bits, w_push, writer_wf, WriterState,
};
use super::{
    spec_font_type_byte, spec_font_type_from, spec_version_byte, spec_version_from,
    spec_table_identifier_from, CharacterModel, CharacterTableModel, ColorModel, ColorTableModel,
    DeserializeError, FontModel, FontTableModel, LayoutModel, PixmapModel, PixmapTableModel,
    SerializeError, TableIdentifier, Version,
};

verus! {

/// A read position: `pointer` bits into byte `index`.
pub struct Cursor {
    pub index: int,
    pub pointer: u8,
}

/// Why reading or writing stopped.
pub enum Failure<E> {
    /// A format error, reported to the caller.
    Error(E),
    /// An input that the format's own code cannot process: invalid UTF-8 in
    /// a code point, an arithmetic overflow, or a missing value that the
    /// flags call for.
    Malformed,
}

/// Outcome of reading one item.
pub enum Parsed<T> {
    Done(T, Cursor),
    Failed(Failure<DeserializeError>),
}

/// Outcome of writing one item.
pub enum Written {
    Done(WriterState),
    Failed(Failure<SerializeError>),
}

pub open spec fn eof<T>() -> Parsed<T> {
    Parsed::Failed(Failure::Error(DeserializeError::UnexpectedEndOfFile))
}

/// Reading eight bits at `c`.
pub open spec fn p_byte(d: Seq<u8>, c: Cursor) -> Parsed<u8> {
    if 0 <= c.index < d.len() {
        Parsed::Done(read8(d, c.index, c.pointer), Cursor { index: c.index + 1, pointer: c.pointer })
    } else {
        eof()
    }
}

/// Reading `n` bits at `c`.
pub open spec fn p_bits(d: Seq<u8>, c: Cursor, n: u8) -> Parsed<u8> {
    if 0 <= c.index < d.len() {
        let (i, p) = advance(c.index, c.pointer, n);
        Parsed::Done(low_bits(read8(d, c.index, c.pointer), n), Cursor { index: i, pointer: p })
    } else {
        eof()
    }
}

/// Reading `n` whole bytes, one after the other.
pub open spec fn p_bytes(d: Seq<u8>, c: Cursor, n: nat) -> Parsed<Seq<u8>>
    decreases n,
{
    if n == 0 {
        Parsed::Done(Seq::empty(), c)
    } else {
        match p_bytes(d, c, (n - 1) as nat) {
            Parsed::Done(s, c1) => match p_byte(d, c1) {
                Parsed::Done(b, c2) => Parsed::Done(s.push(b), c2),
                Parsed::Failed(f) => Parsed::Failed(f),
            },
            Parsed::Failed(f) => Parsed::Failed(f),
        }
    }
}

/// Reading an optional byte that is present when `present` holds.
pub open spec fn p_opt_byte(d: Seq<u8>, c: Cursor, present: bool) -> Parsed<Option<u8>> {
    if present {
        match p_byte(d, c) {
            Parsed::Done(b, c1) => Parsed::Done(Some(b), c1),
            Parsed::Failed(f) => Parsed::Failed(f),
        }
    } else {
        Parsed::Done(None, c)
    }
}

/// Reading a length byte followed by that many bytes.
pub open spec fn p_byte_list(d: Seq<u8>, c: Cursor) -> Parsed<Seq<u8>> {
    match p_byte(d, c) {
        Parsed::Done(n, c1) => p_bytes(d, c1, n as nat),
        Parsed::Failed(f) => Parsed::Failed(f),
    }
}

/// Reading a list of table indexes that is present when `present` holds.
pub open spec fn p_opt_byte_list(d: Seq<u8>, c: Cursor, present: bool) -> Parsed<Option<Seq<u8>>> {
    if present {
        match p_byte_list(d, c) {
            Parsed::Done(s, c1) => Parsed::Done(Some(s), c1),
            Parsed::Failed(f) => Parsed::Failed(f),
        }
    } else {
        Parsed::Done(None, c)
    }
}

/// The number of bytes that a UTF-8 lead byte announces, as the format reads
/// it; 0 for a byte that announces no sequence.
pub open spec fn lead_width(b: u8) -> nat {
    if b >> 7u8 == 0 {
        1
    } else if b >> 5u8 == 6 {
        2
    } else if b >> 4u8 == 14 {
        3
    } else if b >> 3u8 == 30 {
        4
    } else {
        0
    }
}

/// Reading one code point: a lead byte and the continuation bytes it
/// announces. A byte that announces no sequence reads as `'\0'`.
pub open spec fn p_code_point(d: Seq<u8>, c: Cursor) -> Parsed<char> {
    match p_byte(d, c) {
        Parsed::Done(lead, c1) => {
            let w = lead_width(lead);
            if w == 0 {
                Parsed::Done('\0', c1)
            } else {
                match p_bytes(d, c1, (w - 1) as nat) {
                    Parsed::Done(rest, c2) => {
                        let bytes = seq![lead] + rest;
                        if valid_first_scalar(bytes) {
                            Parsed::Done(decode_first_scalar(bytes) as char, c2)
                        } else {
                            Parsed::Failed(Failure::Malformed)
                        }
                    },
                    Parsed::Failed(f) => Parsed::Failed(f),
                }
            }
        },
        Parsed::Failed(f) => Parsed::Failed(f),
    }
}

/// Reading the code points of a character that follow the `acc` already
/// read: `constant` of them when set, else up to a 0 byte, which is consumed.
/// The format counts code points in a byte, so a 256th code point cannot be
/// read.
pub open spec fn p_code_points_from(
    d: Seq<u8>,
    c: Cursor,
    constant: Option<u8>,
    acc: Seq<char>,
) -> Parsed<Seq<char>>
    decreases 256 - acc.len(),
{
    if acc.len() >= 256 {
        Parsed::Failed(Failure::Malformed)
    } else {
        match p_code_point(d, c) {
            Parsed::Done(ch, c1) => {
                let acc1 = acc.push(ch);
                if acc1.len() >= 256 {
                    Parsed::Failed(Failure::Malformed)
                } else {
                    match constant {
                        Some(k) => if acc1.len() == k {
                            Parsed::Done(acc1, c1)
                        } else {
                            p_code_points_from(d, c1, constant, acc1)
                        },
                        None => match p_byte(d, c1) {
                            Parsed::Done(next, c2) => if next == 0 {
                                Parsed::Done(acc1, c2)
                            } else {
                                p_code_points_from(d, c1, constant, acc1)
                            },
                            Parsed::Failed(f) => Parsed::Failed(f),
                        },
                    }
                }
            },
            Parsed::Failed(f) => Parsed::Failed(f),
        }
    }
}

/// Reading the code points of a character.
pub open spec fn p_code_points(d: Seq<u8>, c: Cursor, constant: Option<u8>) -> Parsed<Seq<char>> {
    p_code_points_from(d, c, constant, Seq::empty())
}


/// Reading `n` whole bytes moves the cursor `n` bytes on and yields `n` bytes.
pub proof fn lemma_p_bytes(d: Seq<u8>, c: Cursor, n: nat)
    ensures
        p_bytes(d, c, n) matches Parsed::Done(s, c1) ==> {
            &&& c1.index == c.index + n
            &&& c1.pointer == c.pointer
            &&& s.len() == n
        },
    decreases n,
{
    if n > 0 {
        lemma_p_bytes(d, c, (n - 1) as nat);
    }
}

/// Reading a code point moves the cursor at least one byte on.
pub proof fn lemma_p_code_point_advances(d: Seq<u8>, c: Cursor)
    ensures
        p_code_point(d, c) matches Parsed::Done(_, c1) ==> c1.index > c.index && c1.pointer
            == c.pointer,
{
    if let Parsed::Done(lead, c1) = p_byte(d, c) {
        let w = lead_width(lead);
        if w != 0 {
            lemma_p_bytes(d, c1, (w - 1) as nat);
        }
    }
}

/// Reading the characters of a string that follow the `acc` already read,
/// up to a 0 byte, which is consumed.
pub open spec fn p_string_from(d: Seq<u8>, c: Cursor, acc: Seq<char>) -> Parsed<Seq<char>>
    decreases d.len() - c.index,
{
    match p_code_point(d, c) {
        Parsed::Done(ch, c1) => {
            proof {
                lemma_p_code_point_advances(d, c);
            }
            let acc1 = acc.push(ch);
            match p_byte(d, c1) {
                Parsed::Done(next, c2) => if next == 0 {
                    Parsed::Done(acc1, c2)
                } else {
                    p_string_from(d, c1, acc1)
                },
                Parsed::Failed(f) => Parsed::Failed(f),
            }
        },
        Parsed::Failed(f) => Parsed::Failed(f),
    }
}

/// Reading a 0-terminated string.
pub open spec fn p_string(d: Seq<u8>, c: Cursor) -> Parsed<Seq<char>> {
    p_string_from(d, c, Seq::empty())
}

// ----- character tables -----

/// Reading one character record of a table with the given modifier flags.
pub open spec fn p_character(d: Seq<u8>, c: Cursor, modifiers: u8, constant: Option<u8>) -> Parsed<
    CharacterModel,
> {
    match p_opt_byte(d, c, modifiers & 1 == 1) {
        Parsed::Done(advance_x, c1) => match p_opt_byte(d, c1, modifiers & 2 == 2) {
            Parsed::Done(pixmap_index, c2) => match p_opt_byte(d, c2, modifiers & 4 == 4) {
                Parsed::Done(pixmap_table_index, c3) => match p_code_points(d, c3, constant) {
                    Parsed::Done(code_points, c4) => Parsed::Done(
                        CharacterModel { advance_x, pixmap_index, pixmap_table_index, code_points },
                        c4,
                    ),
                    Parsed::Failed(f) => Parsed::Failed(f),
                },
                Parsed::Failed(f) => Parsed::Failed(f),
            },
            Parsed::Failed(f) => Parsed::Failed(f),
        },
        Parsed::Failed(f) => Parsed::Failed(f),
    }
}

/// Reading `n` character records.
pub open spec fn p_characters(
    d: Seq<u8>,
    c: Cursor,
    n: nat,
    modifiers: u8,
    constant: Option<u8>,
) -> Parsed<Seq<CharacterModel>>
    decreases n,
{
    if n == 0 {
        Parsed::Done(Seq::empty(), c)
    } else {
        match p_characters(d, c, (n - 1) as nat, modifiers, constant) {
            Parsed::Done(s, c1) => match p_character(d, c1, modifiers, constant) {
                Parsed::Done(x, c2) => Parsed::Done(s.push(x), c2),
                Parsed::Failed(f) => Parsed::Failed(f),
            },
            Parsed::Failed(f) => Parsed::Failed(f),
        }
    }
}

/// Reading a character table whose identifier byte has been read.
pub open spec fn p_character_table(d: Seq<u8>, c: Cursor) -> Parsed<CharacterTableModel> {
    match p_byte(d, c) {
        Parsed::Done(modifier_flags, c1) => match p_byte(d, c1) {
            Parsed::Done(configuration_flags, c2) => match p_opt_byte(
                d,
                c2,
                configuration_flags & 1 == 1,
            ) {
                Parsed::Done(constant_code_point_count, c3) => match p_byte(d, c3) {
                    Parsed::Done(link_flags, c4) => match p_opt_byte_list(
                        d,
                        c4,
                        link_flags & 1 == 1,
                    ) {
                        Parsed::Done(pixmap_table_indexes, c5) => match p_byte(d, c5) {
                            Parsed::Done(count, c6) => match p_characters(
                                d,
                                c6,
                                count as nat,
                                modifier_flags,
                                constant_code_point_count,
                            ) {
                                Parsed::Done(characters, c7) => Parsed::Done(
                                    CharacterTableModel {
                                        modifier_flags,
                                        configuration_flags,
                                        constant_code_point_count,
                                        link_flags,
                                        pixmap_table_indexes,
                                        characters,
                                    },
                                    c7,
                                ),
                                Parsed::Failed(f) => Parsed::Failed(f),
                            },
                            Parsed::Failed(f) => Parsed::Failed(f),
                        },
                        Parsed::Failed(f) => Parsed::Failed(f),
                    },
                    Parsed::Failed(f) => Parsed::Failed(f),
                },
                Parsed::Failed(f) => Parsed::Failed(f),
            },
            Parsed::Failed(f) => Parsed::Failed(f),
        },
        Parsed::Failed(f) => Parsed::Failed(f),
    }
}

// ----- color tables -----

/// Reading one color record of a table with the given constant alpha.
pub open spec fn p_color(d: Seq<u8>, c: Cursor, constant_alpha: Option<u8>) -> Parsed<ColorModel> {
    match p_opt_byte(d, c, constant_alpha is None) {
        Parsed::Done(custom_alpha, c1) => match p_byte(d, c1) {
            Parsed::Done(red, c2) => match p_byte(d, c2) {
                Parsed::Done(green, c3) => match p_byte(d, c3) {
                    Parsed::Done(blue, c4) => Parsed::Done(
                        ColorModel { color_type: None, custom_alpha, red, green, blue },
                        c4,
                    ),
                    Parsed::Failed(f) => Parsed::Failed(f),
                },
                Parsed::Failed(f) => Parsed::Failed(f),
            },
            Parsed::Failed(f) => Parsed::Failed(f),
        },
        Parsed::Failed(f) => Parsed::Failed(f),
    }
}

/// Reading `n` color records.
pub open spec fn p_colors(d: Seq<u8>, c: Cursor, n: nat, constant_alpha: Option<u8>) -> Parsed<
    Seq<ColorModel>,
>
    decreases n,
{
    if n == 0 {
        Parsed::Done(Seq::empty(), c)
    } else {
        match p_colors(d, c, (n - 1) as nat, constant_alpha) {
            Parsed::Done(s, c1) => match p_color(d, c1, constant_alpha) {
                Parsed::Done(x, c2) => Parsed::Done(s.push(x), c2),
                Parsed::Failed(f) => Parsed::Failed(f),
            },
            Parsed::Failed(f) => Parsed::Failed(f),
        }
    }
}

/// Reading a color table whose identifier byte has been read. Its modifier
/// and link bytes are skipped.
pub open spec fn p_color_table(d: Seq<u8>, c: Cursor) -> Parsed<ColorTableModel> {
    match p_byte(d, c) {
        Parsed::Done(_modifiers, c1) => match p_byte(d, c1) {
            Parsed::Done(configuration, c2) => match p_opt_byte(d, c2, configuration & 1 == 1) {
                Parsed::Done(constant_alpha, c3) => match p_byte(d, c3) {
                    Parsed::Done(_links, c4) => match p_byte(d, c4) {
                        Parsed::Done(count, c5) => match p_colors(
                            d,
                            c5,
                            count as nat,
                            constant_alpha,
                        ) {
                            Parsed::Done(colors, c6) => Parsed::Done(
                                ColorTableModel {
                                    modifier_flags: 0,
                                    configuration_flags: 0,
                                    constant_alpha,
                                    colors,
                                },
                                c6,
                            ),
                            Parsed::Failed(f) => Parsed::Failed(f),
                        },
                        Parsed::Failed(f) => Parsed::Failed(f),
                    },
                    Parsed::Failed(f) => Parsed::Failed(f),
                },
                Parsed::Failed(f) => Parsed::Failed(f),
            },
            Parsed::Failed(f) => Parsed::Failed(f),
        },
        Parsed::Failed(f) => Parsed::Failed(f),
    }
}

// ----- pixmap tables -----

/// The byte count and trailing bit count of a pixmap's data, or `None`
/// when `width * height * bits_per_pixel` does not fit the format's 16-bit
/// size arithmetic.
pub open spec fn pixmap_size(width: u8, height: u8, bits_per_pixel: u8) -> Option<(nat, nat)> {
    let total = width * height * bits_per_pixel;
    if total > 65535 {
        None
    } else {
        Some(((total / 8) as nat, (total % 8) as nat))
    }
}

/// Reading a pixmap's data: the whole bytes it covers, then its trailing
/// bits, as a full byte or, in compact layouts, as just those bits.
pub open spec fn p_pixmap_data(
    d: Seq<u8>,
    c: Cursor,
    width: u8,
    height: u8,
    bits_per_pixel: u8,
    compact: bool,
) -> Parsed<Seq<u8>> {
    match pixmap_size(width, height, bits_per_pixel) {
        None => Parsed::Failed(Failure::Malformed),
        Some((whole, rem)) => match p_bytes(d, c, whole) {
            Parsed::Done(s, c1) => if rem == 0 {
                Parsed::Done(s, c1)
            } else if !compact {
                match p_byte(d, c1) {
                    Parsed::Done(b, c2) => Parsed::Done(s.push(b), c2),
                    Parsed::Failed(f) => Parsed::Failed(f),
                }
            } else {
                match p_bits(d, c1, rem as u8) {
                    Parsed::Done(b, c2) => Parsed::Done(s.push(b), c2),
                    Parsed::Failed(f) => Parsed::Failed(f),
                }
            },
            Parsed::Failed(f) => Parsed::Failed(f),
        },
    }
}

/// The value of an optional field that is either the table's constant or
/// the record's own value.
pub open spec fn resolve(constant: Option<u8>, custom: Option<u8>) -> Option<u8> {
    match constant {
        Some(v) => Some(v),
        None => custom,
    }
}

/// Reading one pixmap record of a table with the given constants.
pub open spec fn p_pixmap(d: Seq<u8>, c: Cursor, t: PixmapTableModel, compact: bool) -> Parsed<
    PixmapModel,
> {
    match p_opt_byte(d, c, t.constant_width is None) {
        Parsed::Done(custom_width, c1) => match p_opt_byte(d, c1, t.constant_height is None) {
            Parsed::Done(custom_height, c2) => match p_opt_byte(
                d,
                c2,
                t.constant_bits_per_pixel is None,
            ) {
                Parsed::Done(custom_bits_per_pixel, c3) => match p_pixmap_data(
                    d,
                    c3,
                    resolve(t.constant_width, custom_width).unwrap(),
                    resolve(t.constant_height, custom_height).unwrap(),
                    resolve(t.constant_bits_per_pixel, custom_bits_per_pixel).unwrap(),
                    compact,
                ) {
                    Parsed::Done(data, c4) => Parsed::Done(
                        PixmapModel { custom_width, custom_height, custom_bits_per_pixel, data },
                        c4,
                    ),
                    Parsed::Failed(f) => Parsed::Failed(f),
                },
                Parsed::Failed(f) => Parsed::Failed(f),
            },
            Parsed::Failed(f) => Parsed::Failed(f),
        },
        Parsed::Failed(f) => Parsed::Failed(f),
    }
}

/// Reading `n` pixmap records.
pub open spec fn p_pixmaps(
    d: Seq<u8>,
    c: Cursor,
    n: nat,
    t: PixmapTableModel,
    compact: bool,
) -> Parsed<Seq<PixmapModel>>
    decreases n,
{
    if n == 0 {
        Parsed::Done(Seq::empty(), c)
    } else {
        match p_pixmaps(d, c, (n - 1) as nat, t, compact) {
            Parsed::Done(s, c1) => match p_pixmap(d, c1, t, compact) {
                Parsed::Done(x, c2) => Parsed::Done(s.push(x), c2),
                Parsed::Failed(f) => Parsed::Failed(f),
            },
            Parsed::Failed(f) => Parsed::Failed(f),
        }
    }
}

/// The header of a pixmap table read so far: constants and color table
/// links; its flag bytes are not kept.
pub open spec fn pixmap_table_head(
    w: Option<u8>,
    h: Option<u8>,
    bpp: Option<u8>,
    links: Option<Seq<u8>>,
) -> PixmapTableModel {
    PixmapTableModel {
        configuration_flags: 0,
        constant_width: w,
        constant_height: h,
        constant_bits_per_pixel: bpp,
        link_flags: 0,
        color_table_indexes: links,
        pixmaps: Seq::empty(),
    }
}

/// Reading a pixmap table whose identifier byte has been read. Its modifier
/// byte is skipped.
pub open spec fn p_pixmap_table(d: Seq<u8>, c: Cursor, compact: bool) -> Parsed<PixmapTableModel> {
    match p_byte(d, c) {
        Parsed::Done(_modifiers, c1) => match p_byte(d, c1) {
            Parsed::Done(conf, c2) => match p_opt_byte(d, c2, conf & 1 == 1) {
                Parsed::Done(w, c3) => match p_opt_byte(d, c3, conf & 2 == 2) {
                    Parsed::Done(h, c4) => match p_opt_byte(d, c4, conf & 4 == 4) {
                        Parsed::Done(bpp, c5) => match p_byte(d, c5) {
                            Parsed::Done(links, c6) => match p_opt_byte_list(
                                d,
                                c6,
                                links & 1 == 1,
                            ) {
                                Parsed::Done(idx, c7) => match p_byte(d, c7) {
                                    Parsed::Done(count, c8) => {
                                        let head = pixmap_table_head(w, h, bpp, idx);
                                        match p_pixmaps(d, c8, count as nat, head, compact) {
                                            Parsed::Done(pixmaps, c9) => Parsed::Done(
                                                PixmapTableModel { pixmaps, ..head },
                                                c9,
                                            ),
                                            Parsed::Failed(f) => Parsed::Failed(f),
                                        }
                                    },
                                    Parsed::Failed(f) => Parsed::Failed(f),
                                },
                                Parsed::Failed(f) => Parsed::Failed(f),
                            },
                            Parsed::Failed(f) => Parsed::Failed(f),
                        },
                        Parsed::Failed(f) => Parsed::Failed(f),
                    },
                    Parsed::Failed(f) => Parsed::Failed(f),
                },
                Parsed::Failed(f) => Parsed::Failed(f),
            },
            Parsed::Failed(f) => Parsed::Failed(f),
        },
        Parsed::Failed(f) => Parsed::Failed(f),
    }
}

// ----- font tables -----

/// Reading one font record.
pub open spec fn p_font(d: Seq<u8>, c: Cursor) -> Parsed<FontModel> {
    match p_string(d, c) {
        Parsed::Done(name, c1) => match p_string(d, c1) {
            Parsed::Done(author, c2) => match p_byte(d, c2) {
                Parsed::Done(version, c3) => match p_byte(d, c3) {
                    Parsed::Done(ft, c4) => match spec_font_type_from(ft) {
                        Ok(font_type) => match p_byte_list(d, c4) {
                            Parsed::Done(linked_character_table_indexes, c5) => Parsed::Done(
                                FontModel {
                                    name,
                                    author,
                                    version,
                                    font_type,
                                    linked_character_table_indexes,
                                },
                                c5,
                            ),
                            Parsed::Failed(f) => Parsed::Failed(f),
                        },
                        Err(e) => Parsed::Failed(Failure::Error(e)),
                    },
                    Parsed::Failed(f) => Parsed::Failed(f),
                },
                Parsed::Failed(f) => Parsed::Failed(f),
            },
            Parsed::Failed(f) => Parsed::Failed(f),
        },
        Parsed::Failed(f) => Parsed::Failed(f),
    }
}

/// Reading `n` font records.
pub open spec fn p_fonts(d: Seq<u8>, c: Cursor, n: nat) -> Parsed<Seq<FontModel>>
    decreases n,
{
    if n == 0 {
        Parsed::Done(Seq::empty(), c)
    } else {
        match p_fonts(d, c, (n - 1) as nat) {
            Parsed::Done(s, c1) => match p_font(d, c1) {
                Parsed::Done(x, c2) => Parsed::Done(s.push(x), c2),
                Parsed::Failed(f) => Parsed::Failed(f),
            },
            Parsed::Failed(f) => Parsed::Failed(f),
        }
    }
}

/// Reading a font table whose identifier byte has been read. Its modifier
/// and configuration bytes are skipped.
pub open spec fn p_font_table(d: Seq<u8>, c: Cursor) -> Parsed<FontTableModel> {
    match p_byte(d, c) {
        Parsed::Done(_modifiers, c1) => match p_byte(d, c1) {
            Parsed::Done(_configuration, c2) => match p_byte(d, c2) {
                Parsed::Done(links, c3) => match p_opt_byte_list(d, c3, links & 1 == 1) {
                    Parsed::Done(character_table_indexes, c4) => match p_byte(d, c4) {
                        Parsed::Done(count, c5) => match p_fonts(d, c5, count as nat) {
                            Parsed::Done(fonts, c6) => Parsed::Done(
                                FontTableModel { link_flags: 0, character_table_indexes, fonts },
                                c6,
                            ),
                            Parsed::Failed(f) => Parsed::Failed(f),
                        },
                        Parsed::Failed(f) => Parsed::Failed(f),
                    },
                    Parsed::Failed(f) => Parsed::Failed(f),
                },
                Parsed::Failed(f) => Parsed::Failed(f),
            },
            Parsed::Failed(f) => Parsed::Failed(f),
        },
        Parsed::Failed(f) => Parsed::Failed(f),
    }
}


// ----- layouts -----

/// The signature that opens every `.spf` file.
pub open spec fn magic() -> Seq<u8> {
    seq![127u8, 102u8, 115u8, 70u8]
}

/// Reading the four signature bytes.
pub open spec fn p_signature(d: Seq<u8>, c: Cursor) -> Parsed<()> {
    if c.index < 0 || c.index + 4 > d.len() {
        eof()
    } else if read8(d, c.index, c.pointer) != 127 || read8(d, c.index + 1, c.pointer) != 102
        || read8(d, c.index + 2, c.pointer) != 115 || read8(d, c.index + 3, c.pointer) != 70 {
        Parsed::Failed(Failure::Error(DeserializeError::InvalidSignature))
    } else {
        Parsed::Done((), Cursor { index: c.index + 4, pointer: c.pointer })
    }
}

/// Reading the version byte.
pub open spec fn p_version(d: Seq<u8>, c: Cursor) -> Parsed<Version> {
    match p_byte(d, c) {
        Parsed::Done(b, c1) => match spec_version_from(b) {
            Ok(v) => Parsed::Done(v, c1),
            Err(e) => Parsed::Failed(Failure::Error(e)),
        },
        Parsed::Failed(f) => Parsed::Failed(f),
    }
}

/// Reading the header byte: bit 0 is the compact flag.
pub open spec fn p_header(d: Seq<u8>, c: Cursor) -> Parsed<bool> {
    match p_byte(d, c) {
        Parsed::Done(b, c1) => Parsed::Done(spec_get_bit(b, 0), c1),
        Parsed::Failed(f) => Parsed::Failed(f),
    }
}

/// `l` with `t` appended to its character tables.
pub open spec fn add_character_table(l: LayoutModel, t: CharacterTableModel) -> LayoutModel {
    LayoutModel { character_tables: l.character_tables.push(t), ..l }
}

/// `l` with `t` appended to its pixmap tables.
pub open spec fn add_pixmap_table(l: LayoutModel, t: PixmapTableModel) -> LayoutModel {
    LayoutModel { pixmap_tables: l.pixmap_tables.push(t), ..l }
}

/// `l` with `t` appended to its color tables.
pub open spec fn add_color_table(l: LayoutModel, t: ColorTableModel) -> LayoutModel {
    LayoutModel { color_tables: l.color_tables.push(t), ..l }
}

/// `l` with `t` appended to its font tables.
pub open spec fn add_font_table(l: LayoutModel, t: FontTableModel) -> LayoutModel {
    LayoutModel { font_tables: l.font_tables.push(t), ..l }
}

/// Reading one table whose identifier byte `id` has been read, and adding
/// it to `l`.
pub open spec fn p_table(d: Seq<u8>, c: Cursor, id: u8, l: LayoutModel) -> Parsed<LayoutModel> {
    match spec_table_identifier_from(id) {
        Ok(TableIdentifier::Character) => match p_character_table(d, c) {
            Parsed::Done(t, c1) => Parsed::Done(add_character_table(l, t), c1),
            Parsed::Failed(f) => Parsed::Failed(f),
        },
        Ok(TableIdentifier::Pixmap) => match p_pixmap_table(d, c, l.compact) {
            Parsed::Done(t, c1) => Parsed::Done(add_pixmap_table(l, t), c1),
            Parsed::Failed(f) => Parsed::Failed(f),
        },
        Ok(TableIdentifier::Color) => match p_color_table(d, c) {
            Parsed::Done(t, c1) => Parsed::Done(add_color_table(l, t), c1),
            Parsed::Failed(f) => Parsed::Failed(f),
        },
        Ok(TableIdentifier::Font) => match p_font_table(d, c) {
            Parsed::Done(t, c1) => Parsed::Done(add_font_table(l, t), c1),
            Parsed::Failed(f) => Parsed::Failed(f),
        },
        Err(e) => Parsed::Failed(Failure::Error(e)),
    }
}

/// Whether another table follows at `c`: at least two more bytes remain.
pub open spec fn more_tables(d: Seq<u8>, c: Cursor) -> bool {
    c.index < d.len() - 1
}

/// Number of bytes from `c` to the end of `d`.
pub open spec fn bytes_left(d: Seq<u8>, c: Cursor) -> nat {
    if c.index <= d.len() {
        (d.len() - c.index) as nat
    } else {
        0
    }
}

/// Reading tables into `l` while more follow.
pub open spec fn p_tables(d: Seq<u8>, c: Cursor, l: LayoutModel) -> Parsed<LayoutModel>
    decreases bytes_left(d, c),
{
    if !more_tables(d, c) || c.index < 0 {
        Parsed::Done(l, c)
    } else {
        let id = read8(d, c.index, c.pointer);
        let c1 = Cursor { index: c.index + 1, pointer: c.pointer };
        match p_table(d, c1, id, l) {
            Parsed::Done(l1, c2) => {
                proof {
                    lemma_p_table_advances(d, c1, id, l);
                }
                p_tables(d, c2, l1)
            },
            Parsed::Failed(f) => Parsed::Failed(f),
        }
    }
}

/// An empty layout of the given version and packing.
pub open spec fn empty_layout(version: Version, compact: bool) -> LayoutModel {
    LayoutModel {
        version,
        compact,
        character_tables: Seq::empty(),
        color_tables: Seq::empty(),
        pixmap_tables: Seq::empty(),
        font_tables: Seq::empty(),
    }
}

/// Reading a whole layout at `c` into `l`: the version and packing of `l`
/// are replaced, and the tables read are appended to those of `l`.
pub open spec fn p_layout_at(d: Seq<u8>, c: Cursor, l: LayoutModel) -> Parsed<LayoutModel> {
    match p_signature(d, c) {
        Parsed::Done(_, c1) => match p_version(d, c1) {
            Parsed::Done(version, c2) => match p_header(d, c2) {
                Parsed::Done(compact, c3) => p_tables(
                    d,
                    c3,
                    LayoutModel { version, compact, ..l },
                ),
                Parsed::Failed(f) => Parsed::Failed(f),
            },
            Parsed::Failed(f) => Parsed::Failed(f),
        },
        Parsed::Failed(f) => Parsed::Failed(f),
    }
}

/// Reading a whole layout from the start of `d`.
pub open spec fn p_layout(d: Seq<u8>) -> Parsed<LayoutModel> {
    p_layout_at(d, Cursor { index: 0, pointer: 0 }, empty_layout(Version::FV0, false))
}

/// What decoding `d` yields: the layout, a format error, or `Malformed`.
pub open spec fn spec_layout_from_data(d: Seq<u8>) -> Result<LayoutModel, Failure<DeserializeError>> {
    match p_layout(d) {
        Parsed::Done(l, _) => Ok(l),
        Parsed::Failed(f) => Err(f),
    }
}


// ----- reading never moves backwards -----

proof fn lemma_p_code_points_advances(d: Seq<u8>, c: Cursor, constant: Option<u8>, acc: Seq<char>)
    ensures
        p_code_points_from(d, c, constant, acc) matches Parsed::Done(_, c1) ==> c1.index > c.index,
    decreases 256 - acc.len(),
{
    lemma_p_code_point_advances(d, c);
    if acc.len() < 256 {
        if let Parsed::Done(ch, c1) = p_code_point(d, c) {
            lemma_p_code_points_advances(d, c1, constant, acc.push(ch));
        }
    }
}

proof fn lemma_p_string_advances(d: Seq<u8>, c: Cursor, acc: Seq<char>)
    ensures
        p_string_from(d, c, acc) matches Parsed::Done(_, c1) ==> c1.index > c.index,
    decreases d.len() - c.index,
{
    lemma_p_code_point_advances(d, c);
    if let Parsed::Done(ch, c1) = p_code_point(d, c) {
        lemma_p_string_advances(d, c1, acc.push(ch));
    }
}

proof fn lemma_p_opt_byte_list_advances(d: Seq<u8>, c: Cursor, present: bool)
    ensures
        p_opt_byte_list(d, c, present) matches Parsed::Done(_, c1) ==> c1.index >= c.index,
{
    if let Parsed::Done(n, c1) = p_byte(d, c) {
        lemma_p_bytes(d, c1, n as nat);
    }
}

proof fn lemma_p_characters_advances(
    d: Seq<u8>,
    c: Cursor,
    n: nat,
    modifiers: u8,
    constant: Option<u8>,
)
    ensures
        p_characters(d, c, n, modifiers, constant) matches Parsed::Done(_, c1) ==> c1.index
            >= c.index,
    decreases n,
{
    if n > 0 {
        lemma_p_characters_advances(d, c, (n - 1) as nat, modifiers, constant);
        if let Parsed::Done(_, c1) = p_characters(d, c, (n - 1) as nat, modifiers, constant) {
            if let Parsed::Done(a, c2) = p_opt_byte(d, c1, modifiers & 1 == 1) {
                if let Parsed::Done(b, c3) = p_opt_byte(d, c2, modifiers & 2 == 2) {
                    if let Parsed::Done(e, c4) = p_opt_byte(d, c3, modifiers & 4 == 4) {
                        lemma_p_code_points_advances(d, c4, constant, Seq::empty());
                    }
                }
            }
        }
    }
}

proof fn lemma_p_colors_advances(d: Seq<u8>, c: Cursor, n: nat, constant_alpha: Option<u8>)
    ensures
        p_colors(d, c, n, constant_alpha) matches Parsed::Done(_, c1) ==> c1.index >= c.index,
    decreases n,
{
    if n > 0 {
        lemma_p_colors_advances(d, c, (n - 1) as nat, constant_alpha);
    }
}

proof fn lemma_p_pixmaps_advances(
    d: Seq<u8>,
    c: Cursor,
    n: nat,
    t: PixmapTableModel,
    compact: bool,
)
    ensures
        p_pixmaps(d, c, n, t, compact) matches Parsed::Done(_, c1) ==> c1.index >= c.index,
    decreases n,
{
    if n > 0 {
        lemma_p_pixmaps_advances(d, c, (n - 1) as nat, t, compact);
        if let Parsed::Done(_, c1) = p_pixmaps(d, c, (n - 1) as nat, t, compact) {
            if let Parsed::Done(w, c2) = p_opt_byte(d, c1, t.constant_width is None) {
                if let Parsed::Done(h, c3) = p_opt_byte(d, c2, t.constant_height is None) {
                    if let Parsed::Done(b, c4) = p_opt_byte(
                        d,
                        c3,
                        t.constant_bits_per_pixel is None,
                    ) {
                        let ww = resolve(t.constant_width, w).unwrap();
                        let hh = resolve(t.constant_height, h).unwrap();
                        let bb = resolve(t.constant_bits_per_pixel, b).unwrap();
                        if let Some((whole, rem)) = pixmap_size(ww, hh, bb) {
                            lemma_p_bytes(d, c4, whole);
                        }
                    }
                }
            }
        }
    }
}

proof fn lemma_p_fonts_advances(d: Seq<u8>, c: Cursor, n: nat)
    ensures
        p_fonts(d, c, n) matches Parsed::Done(_, c1) ==> c1.index >= c.index,
    decreases n,
{
    if n > 0 {
        lemma_p_fonts_advances(d, c, (n - 1) as nat);
        if let Parsed::Done(_, c1) = p_fonts(d, c, (n - 1) as nat) {
            lemma_p_string_advances(d, c1, Seq::empty());
            if let Parsed::Done(_, c2) = p_string(d, c1) {
                lemma_p_string_advances(d, c2, Seq::empty());
                if let Parsed::Done(_, c3) = p_string(d, c2) {
                    if let Parsed::Done(_, c4) = p_byte(d, c3) {
                        if let Parsed::Done(_, c5) = p_byte(d, c4) {
                            lemma_p_opt_byte_list_advances(d, c5, true);
                        }
                    }
                }
            }
        }
    }
}

/// Reading a table never moves the cursor backwards.
pub proof fn lemma_p_table_advances(d: Seq<u8>, c: Cursor, id: u8, l: LayoutModel)
    ensures
        p_table(d, c, id, l) matches Parsed::Done(_, c1) ==> c1.index >= c.index,
{
    // character tables
    if let Parsed::Done(m, c1) = p_byte(d, c) {
        if let Parsed::Done(conf, c2) = p_byte(d, c1) {
            if let Parsed::Done(k, c3) = p_opt_byte(d, c2, conf & 1 == 1) {
                if let Parsed::Done(links, c4) = p_byte(d, c3) {
                    lemma_p_opt_byte_list_advances(d, c4, links & 1 == 1);
                    if let Parsed::Done(_, c5) = p_opt_byte_list(d, c4, links & 1 == 1) {
                        if let Parsed::Done(count, c6) = p_byte(d, c5) {
                            lemma_p_characters_advances(d, c6, count as nat, m, k);
                        }
                    }
                }
            }
        }
    }
    // color tables
    if let Parsed::Done(_, c1) = p_byte(d, c) {
        if let Parsed::Done(conf, c2) = p_byte(d, c1) {
            if let Parsed::Done(k, c3) = p_opt_byte(d, c2, conf & 1 == 1) {
                if let Parsed::Done(_, c4) = p_byte(d, c3) {
                    if let Parsed::Done(count, c5) = p_byte(d, c4) {
                        lemma_p_colors_advances(d, c5, count as nat, k);
                    }
                }
            }
        }
    }
    // pixmap tables
    if let Parsed::Done(_, c1) = p_byte(d, c) {
        if let Parsed::Done(conf, c2) = p_byte(d, c1) {
            if let Parsed::Done(w, c3) = p_opt_byte(d, c2, conf & 1 == 1) {
                if let Parsed::Done(h, c4) = p_opt_byte(d, c3, conf & 2 == 2) {
                    if let Parsed::Done(b, c5) = p_opt_byte(d, c4, conf & 4 == 4) {
                        if let Parsed::Done(links, c6) = p_byte(d, c5) {
                            lemma_p_opt_byte_list_advances(d, c6, links & 1 == 1);
                            if let Parsed::Done(idx, c7) = p_opt_byte_list(d, c6, links & 1 == 1) {
                                if let Parsed::Done(count, c8) = p_byte(d, c7) {
                                    lemma_p_pixmaps_advances(
                                        d,
                                        c8,
                                        count as nat,
                                        pixmap_table_head(w, h, b, idx),
                                        l.compact,
                                    );
                                }
                            }
                        }
                    }
                }
            }
        }
    }
    // font tables
    if let Parsed::Done(_, c1) = p_byte(d, c) {
        if let Parsed::Done(_, c2) = p_byte(d, c1) {
            if let Parsed::Done(links, c3) = p_byte(d, c2) {
                lemma_p_opt_byte_list_advances(d, c3, links & 1 == 1);
                if let Parsed::Done(_, c4) = p_opt_byte_list(d, c3, links & 1 == 1) {
                    if let Parsed::Done(count, c5) = p_byte(d, c4) {
                        lemma_p_fonts_advances(d, c5, count as nat);
                    }
                }
            }
        }
    }
}


// ----- writing -----

/// Writing the whole byte `b`; a writer whose bit offset has run past its
/// last byte cannot write.
pub open spec fn ws_push(st: WriterState, b: u8) -> Written {
    if writer_wf(st) {
        Written::Done(w_push(st, b))
    } else {
        Written::Failed(Failure::Malformed)
    }
}

/// Writing the low `n` bits of `b`.
pub open spec fn ws_bits(st: WriterState, b: u8, n: u8) -> Written {
    if writer_wf(st) && st.pointer + n <= 255 {
        Written::Done(w_bits(st, b, n))
    } else {
        Written::Failed(Failure::Malformed)
    }
}

/// Writing the bytes of `s`, one after the other.
pub open spec fn ws_bytes(st: WriterState, s: Seq<u8>) -> Written
    decreases s.len(),
{
    if s.len() == 0 {
        Written::Done(st)
    } else {
        match ws_bytes(st, s.drop_last()) {
            Written::Done(st1) => ws_push(st1, s.last()),
            Written::Failed(f) => Written::Failed(f),
        }
    }
}

/// Writing an optional byte that the flags call for when `present` holds;
/// a missing value cannot be written.
pub open spec fn ws_opt_byte(st: WriterState, o: Option<u8>, present: bool) -> Written {
    if present {
        match o {
            Some(b) => ws_push(st, b),
            None => Written::Failed(Failure::Malformed),
        }
    } else {
        Written::Done(st)
    }
}

/// Writing a length byte followed by the bytes of `v`.
pub open spec fn ws_byte_list(st: WriterState, v: Seq<u8>) -> Written {
    if v.len() > 255 {
        Written::Failed(Failure::Error(SerializeError::StaticVectorTooLarge))
    } else {
        match ws_push(st, v.len() as u8) {
            Written::Done(st1) => ws_bytes(st1, v),
            Written::Failed(f) => Written::Failed(f),
        }
    }
}

/// Writing a link flag byte (1 when `v` is set) and, when set, the list.
pub open spec fn ws_links(st: WriterState, v: Option<Seq<u8>>) -> Written {
    match ws_push(st, if v is Some { 1u8 } else { 0u8 }) {
        Written::Done(st1) => match v {
            Some(v) => ws_byte_list(st1, v),
            None => Written::Done(st1),
        },
        Written::Failed(f) => Written::Failed(f),
    }
}

/// Writing the UTF-8 bytes of `chars`, then a 0 byte unless the table has a
/// constant code point count.
pub open spec fn ws_code_points(st: WriterState, chars: Seq<char>, constant: Option<u8>) -> Written {
    match ws_bytes(st, encode_utf8(chars)) {
        Written::Done(st1) => if constant is None {
            ws_push(st1, 0)
        } else {
            Written::Done(st1)
        },
        Written::Failed(f) => Written::Failed(f),
    }
}

/// Writing one character record.
pub open spec fn ws_character(st: WriterState, ch: CharacterModel, t: CharacterTableModel) -> Written {
    match ws_opt_byte(st, ch.advance_x, t.modifier_flags & 1 == 1) {
        Written::Done(st1) => match ws_opt_byte(st1, ch.pixmap_index, t.modifier_flags & 2 == 2) {
            Written::Done(st2) => match ws_opt_byte(
                st2,
                ch.pixmap_table_index,
                t.modifier_flags & 4 == 4,
            ) {
                Written::Done(st3) => ws_code_points(
                    st3,
                    ch.code_points,
                    t.constant_code_point_count,
                ),
                Written::Failed(f) => Written::Failed(f),
            },
            Written::Failed(f) => Written::Failed(f),
        },
        Written::Failed(f) => Written::Failed(f),
    }
}

/// Writing the character records `cs`.
pub open spec fn ws_characters(st: WriterState, cs: Seq<CharacterModel>, t: CharacterTableModel) -> Written
    decreases cs.len(),
{
    if cs.len() == 0 {
        Written::Done(st)
    } else {
        match ws_characters(st, cs.drop_last(), t) {
            Written::Done(st1) => ws_character(st1, cs.last(), t),
            Written::Failed(f) => Written::Failed(f),
        }
    }
}

/// Writing a record count byte.
pub open spec fn ws_count(st: WriterState, n: nat) -> Written {
    if n > 255 {
        Written::Failed(Failure::Error(SerializeError::StaticVectorTooLarge))
    } else {
        ws_push(st, n as u8)
    }
}

/// Writing a character table, identifier byte first. The configuration and
/// link flag bytes are derived from which values are set.
pub open spec fn ws_character_table(st: WriterState, t: CharacterTableModel) -> Written {
    match ws_push(st, 1) {
        Written::Done(st1) => match ws_push(st1, t.modifier_flags) {
            Written::Done(st2) => match ws_push(
                st2,
                if t.constant_code_point_count is Some { 1u8 } else { 0u8 },
            ) {
                Written::Done(st3) => match ws_opt_byte(
                    st3,
                    t.constant_code_point_count,
                    t.constant_code_point_count is Some,
                ) {
                    Written::Done(st4) => match ws_links(st4, t.pixmap_table_indexes) {
                        Written::Done(st5) => match ws_count(st5, t.characters.len()) {
                            Written::Done(st6) => ws_characters(st6, t.characters, t),
                            Written::Failed(f) => Written::Failed(f),
                        },
                        Written::Failed(f) => Written::Failed(f),
                    },
                    Written::Failed(f) => Written::Failed(f),
                },
                Written::Failed(f) => Written::Failed(f),
            },
            Written::Failed(f) => Written::Failed(f),
        },
        Written::Failed(f) => Written::Failed(f),
    }
}

/// Writing one color record.
pub open spec fn ws_color(st: WriterState, c: ColorModel, constant_alpha: Option<u8>) -> Written {
    match ws_opt_byte(st, c.custom_alpha, constant_alpha is None) {
        Written::Done(st1) => match ws_push(st1, c.red) {
            Written::Done(st2) => match ws_push(st2, c.green) {
                Written::Done(st3) => ws_push(st3, c.blue),
                Written::Failed(f) => Written::Failed(f),
            },
            Written::Failed(f) => Written::Failed(f),
        },
        Written::Failed(f) => Written::Failed(f),
    }
}

/// Writing the color records `cs`.
pub open spec fn ws_colors(st: WriterState, cs: Seq<ColorModel>, constant_alpha: Option<u8>) -> Written
    decreases cs.len(),
{
    if cs.len() == 0 {
        Written::Done(st)
    } else {
        match ws_colors(st, cs.drop_last(), constant_alpha) {
            Written::Done(st1) => ws_color(st1, cs.last(), constant_alpha),
            Written::Failed(f) => Written::Failed(f),
        }
    }
}

/// Writing a color table, identifier byte first; its modifier and link
/// bytes are written as 0.
pub open spec fn ws_color_table(st: WriterState, t: ColorTableModel) -> Written {
    match ws_push(st, 3) {
        Written::Done(st1) => match ws_push(st1, 0) {
            Written::Done(st2) => match ws_push(
                st2,
                if t.constant_alpha is Some { 1u8 } else { 0u8 },
            ) {
                Written::Done(st3) => match ws_opt_byte(
                    st3,
                    t.constant_alpha,
                    t.constant_alpha is Some,
                ) {
                    Written::Done(st4) => match ws_push(st4, 0) {
                        Written::Done(st5) => match ws_count(st5, t.colors.len()) {
                            Written::Done(st6) => ws_colors(st6, t.colors, t.constant_alpha),
                            Written::Failed(f) => Written::Failed(f),
                        },
                        Written::Failed(f) => Written::Failed(f),
                    },
                    Written::Failed(f) => Written::Failed(f),
                },
                Written::Failed(f) => Written::Failed(f),
            },
            Written::Failed(f) => Written::Failed(f),
        },
        Written::Failed(f) => Written::Failed(f),
    }
}

/// Writing the pixels `px`, `bits_per_pixel` bits each.
pub open spec fn ws_pixels(st: WriterState, px: Seq<u8>, bits_per_pixel: u8) -> Written
    decreases px.len(),
{
    if px.len() == 0 {
        Written::Done(st)
    } else {
        match ws_pixels(st, px.drop_last(), bits_per_pixel) {
            Written::Done(st1) => ws_bits(st1, px.last(), bits_per_pixel),
            Written::Failed(f) => Written::Failed(f),
        }
    }
}

/// Writing a pixmap's data: each entry as one pixel of `bits_per_pixel`
/// bits; unless the layout is compact, the last byte is then padded with
/// zero bits.
pub open spec fn ws_pixmap_data(
    st: WriterState,
    data: Seq<u8>,
    width: u8,
    height: u8,
    bits_per_pixel: u8,
    compact: bool,
) -> Written {
    if data.len() > width * height {
        Written::Failed(Failure::Error(SerializeError::StaticVectorTooLarge))
    } else {
        match ws_pixels(st, data, bits_per_pixel) {
            Written::Done(st1) => if !compact && st1.pointer != 0 {
                ws_bits(st1, 0, (8 - (data.len() * bits_per_pixel) % 8) as u8)
            } else {
                Written::Done(st1)
            },
            Written::Failed(f) => Written::Failed(f),
        }
    }
}

/// Writing one pixmap record.
pub open spec fn ws_pixmap(st: WriterState, p: PixmapModel, t: PixmapTableModel, compact: bool) -> Written {
    match ws_opt_byte(st, p.custom_width, t.constant_width is None) {
        Written::Done(st1) => match ws_opt_byte(st1, p.custom_height, t.constant_height is None) {
            Written::Done(st2) => match ws_opt_byte(
                st2,
                p.custom_bits_per_pixel,
                t.constant_bits_per_pixel is None,
            ) {
                Written::Done(st3) => ws_pixmap_data(
                    st3,
                    p.data,
                    resolve(t.constant_width, p.custom_width).unwrap(),
                    resolve(t.constant_height, p.custom_height).unwrap(),
                    resolve(t.constant_bits_per_pixel, p.custom_bits_per_pixel).unwrap(),
                    compact,
                ),
                Written::Failed(f) => Written::Failed(f),
            },
            Written::Failed(f) => Written::Failed(f),
        },
        Written::Failed(f) => Written::Failed(f),
    }
}

/// Writing the pixmap records `ps`.
pub open spec fn ws_pixmaps(st: WriterState, ps: Seq<PixmapModel>, t: PixmapTableModel, compact: bool) -> Written
    decreases ps.len(),
{
    if ps.len() == 0 {
        Written::Done(st)
    } else {
        match ws_pixmaps(st, ps.drop_last(), t, compact) {
            Written::Done(st1) => ws_pixmap(st1, ps.last(), t, compact),
            Written::Failed(f) => Written::Failed(f),
        }
    }
}

/// The configuration flag byte of a pixmap table: one bit per constant that
/// is set.
pub open spec fn pixmap_configuration_byte(t: PixmapTableModel) -> u8 {
    ((if t.constant_width is Some { 1u8 } else { 0u8 }) | (if t.constant_height is Some {
        2u8
    } else {
        0u8
    }) | (if t.constant_bits_per_pixel is Some { 4u8 } else { 0u8 })) as u8
}

/// Writing a pixmap table, identifier byte first; its modifier byte is
/// written as 0.
pub open spec fn ws_pixmap_table(st: WriterState, t: PixmapTableModel, compact: bool) -> Written {
    match ws_push(st, 2) {
        Written::Done(st1) => match ws_push(st1, 0) {
            Written::Done(st2) => match ws_push(st2, pixmap_configuration_byte(t)) {
                Written::Done(st3) => match ws_opt_byte(
                    st3,
                    t.constant_width,
                    t.constant_width is Some,
                ) {
                    Written::Done(st4) => match ws_opt_byte(
                        st4,
                        t.constant_height,
                        t.constant_height is Some,
                    ) {
                        Written::Done(st5) => match ws_opt_byte(
                            st5,
                            t.constant_bits_per_pixel,
                            t.constant_bits_per_pixel is Some,
                        ) {
                            Written::Done(st6) => match ws_links(st6, t.color_table_indexes) {
                                Written::Done(st7) => match ws_count(st7, t.pixmaps.len()) {
                                    Written::Done(st8) => ws_pixmaps(st8, t.pixmaps, t, compact),
                                    Written::Failed(f) => Written::Failed(f),
                                },
                                Written::Failed(f) => Written::Failed(f),
                            },
                            Written::Failed(f) => Written::Failed(f),
                        },
                        Written::Failed(f) => Written::Failed(f),
                    },
                    Written::Failed(f) => Written::Failed(f),
                },
                Written::Failed(f) => Written::Failed(f),
            },
            Written::Failed(f) => Written::Failed(f),
        },
        Written::Failed(f) => Written::Failed(f),
    }
}

/// Writing a string: its UTF-8 bytes and a 0 byte.
pub open spec fn ws_string(st: WriterState, s: Seq<char>) -> Written {
    match ws_bytes(st, encode_utf8(s)) {
        Written::Done(st1) => ws_push(st1, 0),
        Written::Failed(f) => Written::Failed(f),
    }
}

/// Writing one font record.
pub open spec fn ws_font(st: WriterState, f: FontModel) -> Written {
    match ws_string(st, f.name) {
        Written::Done(st1) => match ws_string(st1, f.author) {
            Written::Done(st2) => match ws_push(st2, f.version) {
                Written::Done(st3) => match ws_push(st3, spec_font_type_byte(f.font_type)) {
                    Written::Done(st4) => ws_byte_list(st4, f.linked_character_table_indexes),
                    Written::Failed(e) => Written::Failed(e),
                },
                Written::Failed(e) => Written::Failed(e),
            },
            Written::Failed(e) => Written::Failed(e),
        },
        Written::Failed(e) => Written::Failed(e),
    }
}

/// Writing the font records `fs`.
pub open spec fn ws_fonts(st: WriterState, fs: Seq<FontModel>) -> Written
    decreases fs.len(),
{
    if fs.len() == 0 {
        Written::Done(st)
    } else {
        match ws_fonts(st, fs.drop_last()) {
            Written::Done(st1) => ws_font(st1, fs.last()),
            Written::Failed(f) => Written::Failed(f),
        }
    }
}

/// Writing a font table, identifier byte first; its modifier and
/// configuration bytes are written as 0.
pub open spec fn ws_font_table(st: WriterState, t: FontTableModel) -> Written {
    match ws_push(st, 4) {
        Written::Done(st1) => match ws_push(st1, 0) {
            Written::Done(st2) => match ws_push(st2, 0) {
                Written::Done(st3) => match ws_links(st3, t.character_table_indexes) {
                    Written::Done(st4) => match ws_count(st4, t.fonts.len()) {
                        Written::Done(st5) => ws_fonts(st5, t.fonts),
                        Written::Failed(f) => Written::Failed(f),
                    },
                    Written::Failed(f) => Written::Failed(f),
                },
                Written::Failed(f) => Written::Failed(f),
            },
            Written::Failed(f) => Written::Failed(f),
        },
        Written::Failed(f) => Written::Failed(f),
    }
}

/// Writing the character tables `ts`.
pub open spec fn ws_character_tables(st: WriterState, ts: Seq<CharacterTableModel>) -> Written
    decreases ts.len(),
{
    if ts.len() == 0 {
        Written::Done(st)
    } else {
        match ws_character_tables(st, ts.drop_last()) {
            Written::Done(st1) => ws_character_table(st1, ts.last()),
            Written::Failed(f) => Written::Failed(f),
        }
    }
}

/// Writing the pixmap tables `ts`.
pub open spec fn ws_pixmap_tables(st: WriterState, ts: Seq<PixmapTableModel>, compact: bool) -> Written
    decreases ts.len(),
{
    if ts.len() == 0 {
        Written::Done(st)
    } else {
        match ws_pixmap_tables(st, ts.drop_last(), compact) {
            Written::Done(st1) => ws_pixmap_table(st1, ts.last(), compact),
            Written::Failed(f) => Written::Failed(f),
        }
    }
}

/// Writing the color tables `ts`.
pub open spec fn ws_color_tables(st: WriterState, ts: Seq<ColorTableModel>) -> Written
    decreases ts.len(),
{
    if ts.len() == 0 {
        Written::Done(st)
    } else {
        match ws_color_tables(st, ts.drop_last()) {
            Written::Done(st1) => ws_color_table(st1, ts.last()),
            Written::Failed(f) => Written::Failed(f),
        }
    }
}

/// Writing the font tables `ts`.
pub open spec fn ws_font_tables(st: WriterState, ts: Seq<FontTableModel>) -> Written
    decreases ts.len(),
{
    if ts.len() == 0 {
        Written::Done(st)
    } else {
        match ws_font_tables(st, ts.drop_last()) {
            Written::Done(st1) => ws_font_table(st1, ts.last()),
            Written::Failed(f) => Written::Failed(f),
        }
    }
}

/// Writing the signature, version and header bytes of `l`.
pub open spec fn ws_preamble(st: WriterState, l: LayoutModel) -> Written {
    match ws_bytes(st, magic()) {
        Written::Done(st1) => match ws_push(st1, spec_version_byte(l.version)) {
            Written::Done(st2) => ws_push(st2, if l.compact { 1u8 } else { 0u8 }),
            Written::Failed(f) => Written::Failed(f),
        },
        Written::Failed(f) => Written::Failed(f),
    }
}

/// Writing a whole layout: preamble, then its character, pixmap, color and
/// font tables, in that order.
pub open spec fn ws_layout(st: WriterState, l: LayoutModel) -> Written {
    match ws_preamble(st, l) {
        Written::Done(st1) => match ws_character_tables(st1, l.character_tables) {
            Written::Done(st2) => match ws_pixmap_tables(st2, l.pixmap_tables, l.compact) {
                Written::Done(st3) => match ws_color_tables(st3, l.color_tables) {
                    Written::Done(st4) => ws_font_tables(st4, l.font_tables),
                    Written::Failed(f) => Written::Failed(f),
                },
                Written::Failed(f) => Written::Failed(f),
            },
            Written::Failed(f) => Written::Failed(f),
        },
        Written::Failed(f) => Written::Failed(f),
    }
}

/// The empty writer state.
pub open spec fn empty_writer() -> WriterState {
    WriterState { bytes: Seq::empty(), pointer: 0 }
}

/// What encoding `l` yields: the bytes, a format error, or `Malformed`.
pub open spec fn spec_layout_to_data(l: LayoutModel) -> Result<Seq<u8>, Failure<SerializeError>> {
    match ws_layout(empty_writer(), l) {
        Written::Done(st) => Ok(st.bytes),
        Written::Failed(f) => Err(f),
    }
}

} // verus!
