//! What every encoding begins with, and what decoding asks of the start of
//! the data.
use vstd::prelude::*;
use super::byte::{writer_wf, WriterState};
use super::model::{
    empty_writer, magic, p_layout, p_signature, p_version, resolve, spec_layout_from_data,
    spec_layout_to_data, ws_bits, ws_byte_list, ws_bytes, ws_character, ws_character_table,
    ws_character_tables, ws_characters, ws_code_points, ws_color, ws_color_table, ws_color_tables,
    ws_colors, ws_count, ws_font, ws_font_table, ws_font_tables, ws_fonts, ws_layout, ws_links,
    ws_opt_byte, ws_pixels, ws_pixmap, ws_pixmap_data, ws_pixmap_table, ws_pixmap_tables,
    ws_pixmaps, ws_preamble, ws_push, ws_string, Cursor, Failure, Parsed, Written,
};
use super::roundtrip::{aligned, flag, lemma_ws_preamble};
use super::{
    spec_version_byte, CharacterModel, CharacterTableModel, ColorModel, ColorTableModel,
    DeserializeError, FontModel, FontTableModel, LayoutModel, PixmapModel, PixmapTableModel,
    SerializeError,
};

verus! {

/// The number of leading bytes that no later write changes: all of them,
/// or all but the last while it is partly filled.
pub open spec fn settled(st: WriterState) -> int {
    if st.pointer != 0 && st.bytes.len() > 0 {
        st.bytes.len() - 1
    } else {
        st.bytes.len() as int
    }
}

/// Whether `st2` keeps the settled bytes of `st`, and settles at least as
/// many.
pub open spec fn keeps(st: WriterState, st2: WriterState) -> bool {
    &&& 0 <= settled(st) <= settled(st2) <= st2.bytes.len()
    &&& st2.bytes.take(settled(st)) == st.bytes.take(settled(st))
}

/// Whether a write from `st` that succeeds keeps its settled bytes.
pub open spec fn write_keeps(st: WriterState, w: Written) -> bool {
    w matches Written::Done(st2) ==> keeps(st, st2)
}

proof fn lemma_keeps_trans(a: WriterState, b: WriterState, c: WriterState)
    requires
        keeps(a, b),
        keeps(b, c),
    ensures
        keeps(a, c),
{
    assert(c.bytes.take(settled(a)) =~= c.bytes.take(settled(b)).take(settled(a)));
    assert(b.bytes.take(settled(a)) =~= b.bytes.take(settled(b)).take(settled(a)));
}

proof fn lemma_keeps_push(st: WriterState, b: u8)
    ensures
        write_keeps(st, ws_push(st, b)),
{
    if let Written::Done(st2) = ws_push(st, b) {
        assert(st2.bytes.take(settled(st)) =~= st.bytes.take(settled(st)));
    }
}

proof fn lemma_keeps_bits(st: WriterState, b: u8, n: u8)
    ensures
        write_keeps(st, ws_bits(st, b, n)),
{
    if let Written::Done(st2) = ws_bits(st, b, n) {
        assert(st2.bytes.take(settled(st)) =~= st.bytes.take(settled(st)));
    }
}

proof fn lemma_keeps_bytes(st: WriterState, s: Seq<u8>)
    ensures
        write_keeps(st, ws_bytes(st, s)),
    decreases s.len(),
{
    if s.len() > 0 {
        lemma_keeps_bytes(st, s.drop_last());
        if let Written::Done(st1) = ws_bytes(st, s.drop_last()) {
            lemma_keeps_push(st1, s.last());
            if let Written::Done(st2) = ws_push(st1, s.last()) {
                lemma_keeps_trans(st, st1, st2);
            }
        }
    } else {
        assert(st.bytes.take(settled(st)) =~= st.bytes.take(settled(st)));
    }
}

proof fn lemma_keeps_opt(st: WriterState, o: Option<u8>, present: bool)
    ensures
        write_keeps(st, ws_opt_byte(st, o, present)),
{
    if present {
        if let Some(b) = o {
            lemma_keeps_push(st, b);
        }
    }
}

proof fn lemma_keeps_list(st: WriterState, v: Seq<u8>)
    ensures
        write_keeps(st, ws_byte_list(st, v)),
{
    if v.len() <= 255 {
        lemma_keeps_push(st, v.len() as u8);
        if let Written::Done(st1) = ws_push(st, v.len() as u8) {
            lemma_keeps_bytes(st1, v);
            if let Written::Done(st2) = ws_bytes(st1, v) {
                lemma_keeps_trans(st, st1, st2);
            }
        }
    }
}

proof fn lemma_keeps_links(st: WriterState, v: Option<Seq<u8>>)
    ensures
        write_keeps(st, ws_links(st, v)),
{
    lemma_keeps_push(st, if v is Some { 1u8 } else { 0u8 });
    if let Written::Done(st1) = ws_push(st, if v is Some { 1u8 } else { 0u8 }) {
        if let Some(s) = v {
            lemma_keeps_list(st1, s);
            if let Written::Done(st2) = ws_byte_list(st1, s) {
                lemma_keeps_trans(st, st1, st2);
            }
        }
    }
}

proof fn lemma_keeps_count(st: WriterState, n: nat)
    ensures
        write_keeps(st, ws_count(st, n)),
{
    if n <= 255 {
        lemma_keeps_push(st, n as u8);
    }
}

proof fn lemma_keeps_code_points(st: WriterState, chars: Seq<char>, constant: Option<u8>)
    ensures
        write_keeps(st, ws_code_points(st, chars, constant)),
{
    lemma_keeps_bytes(st, vstd::utf8::encode_utf8(chars));
    if let Written::Done(st1) = ws_bytes(st, vstd::utf8::encode_utf8(chars)) {
        if constant is None {
            lemma_keeps_push(st1, 0);
            if let Written::Done(st2) = ws_push(st1, 0) {
                lemma_keeps_trans(st, st1, st2);
            }
        }
    }
}

proof fn lemma_keeps_string(st: WriterState, s: Seq<char>)
    ensures
        write_keeps(st, ws_string(st, s)),
{
    lemma_keeps_bytes(st, vstd::utf8::encode_utf8(s));
    if let Written::Done(st1) = ws_bytes(st, vstd::utf8::encode_utf8(s)) {
        lemma_keeps_push(st1, 0);
        if let Written::Done(st2) = ws_push(st1, 0) {
            lemma_keeps_trans(st, st1, st2);
        }
    }
}

proof fn lemma_keeps_character(st: WriterState, ch: CharacterModel, t: CharacterTableModel)
    ensures
        write_keeps(st, ws_character(st, ch, t)),
{
    lemma_keeps_opt(st, ch.advance_x, t.modifier_flags & 1 == 1);
    if let Written::Done(st1) = ws_opt_byte(st, ch.advance_x, t.modifier_flags & 1 == 1) {
        lemma_keeps_opt(st1, ch.pixmap_index, t.modifier_flags & 2 == 2);
        if let Written::Done(st2) = ws_opt_byte(st1, ch.pixmap_index, t.modifier_flags & 2 == 2) {
            lemma_keeps_trans(st, st1, st2);
            lemma_keeps_opt(st2, ch.pixmap_table_index, t.modifier_flags & 4 == 4);
            if let Written::Done(st3) = ws_opt_byte(
                st2,
                ch.pixmap_table_index,
                t.modifier_flags & 4 == 4,
            ) {
                lemma_keeps_trans(st, st2, st3);
                lemma_keeps_code_points(st3, ch.code_points, t.constant_code_point_count);
                if let Written::Done(st4) = ws_code_points(
                    st3,
                    ch.code_points,
                    t.constant_code_point_count,
                ) {
                    lemma_keeps_trans(st, st3, st4);
                }
            }
        }
    }
}

proof fn lemma_keeps_characters(st: WriterState, cs: Seq<CharacterModel>, t: CharacterTableModel)
    ensures
        write_keeps(st, ws_characters(st, cs, t)),
    decreases cs.len(),
{
    if cs.len() > 0 {
        lemma_keeps_characters(st, cs.drop_last(), t);
        if let Written::Done(st1) = ws_characters(st, cs.drop_last(), t) {
            lemma_keeps_character(st1, cs.last(), t);
            if let Written::Done(st2) = ws_character(st1, cs.last(), t) {
                lemma_keeps_trans(st, st1, st2);
            }
        }
    } else {
        assert(st.bytes.take(settled(st)) =~= st.bytes.take(settled(st)));
    }
}

proof fn lemma_keeps_character_table(st: WriterState, t: CharacterTableModel)
    ensures
        write_keeps(st, ws_character_table(st, t)),
{
    let conf: u8 = if t.constant_code_point_count is Some { 1u8 } else { 0u8 };
    lemma_keeps_push(st, 1);
    if let Written::Done(st1) = ws_push(st, 1) {
        lemma_keeps_push(st1, t.modifier_flags);
        if let Written::Done(st2) = ws_push(st1, t.modifier_flags) {
            lemma_keeps_trans(st, st1, st2);
            lemma_keeps_push(st2, conf);
            if let Written::Done(st3) = ws_push(st2, conf) {
                lemma_keeps_trans(st, st2, st3);
                lemma_keeps_opt(st3, t.constant_code_point_count, t.constant_code_point_count is Some);
                if let Written::Done(st4) = ws_opt_byte(
                    st3,
                    t.constant_code_point_count,
                    t.constant_code_point_count is Some,
                ) {
                    lemma_keeps_trans(st, st3, st4);
                    lemma_keeps_links(st4, t.pixmap_table_indexes);
                    if let Written::Done(st5) = ws_links(st4, t.pixmap_table_indexes) {
                        lemma_keeps_trans(st, st4, st5);
                        lemma_keeps_count(st5, t.characters.len());
                        if let Written::Done(st6) = ws_count(st5, t.characters.len()) {
                            lemma_keeps_trans(st, st5, st6);
                            lemma_keeps_characters(st6, t.characters, t);
                            if let Written::Done(st7) = ws_characters(st6, t.characters, t) {
                                lemma_keeps_trans(st, st6, st7);
                            }
                        }
                    }
                }
            }
        }
    }
}

proof fn lemma_keeps_color(st: WriterState, c: ColorModel, constant_alpha: Option<u8>)
    ensures
        write_keeps(st, ws_color(st, c, constant_alpha)),
{
    lemma_keeps_opt(st, c.custom_alpha, constant_alpha is None);
    if let Written::Done(st1) = ws_opt_byte(st, c.custom_alpha, constant_alpha is None) {
        lemma_keeps_push(st1, c.red);
        if let Written::Done(st2) = ws_push(st1, c.red) {
            lemma_keeps_trans(st, st1, st2);
            lemma_keeps_push(st2, c.green);
            if let Written::Done(st3) = ws_push(st2, c.green) {
                lemma_keeps_trans(st, st2, st3);
                lemma_keeps_push(st3, c.blue);
                if let Written::Done(st4) = ws_push(st3, c.blue) {
                    lemma_keeps_trans(st, st3, st4);
                }
            }
        }
    }
}

proof fn lemma_keeps_colors(st: WriterState, cs: Seq<ColorModel>, constant_alpha: Option<u8>)
    ensures
        write_keeps(st, ws_colors(st, cs, constant_alpha)),
    decreases cs.len(),
{
    if cs.len() > 0 {
        lemma_keeps_colors(st, cs.drop_last(), constant_alpha);
        if let Written::Done(st1) = ws_colors(st, cs.drop_last(), constant_alpha) {
            lemma_keeps_color(st1, cs.last(), constant_alpha);
            if let Written::Done(st2) = ws_color(st1, cs.last(), constant_alpha) {
                lemma_keeps_trans(st, st1, st2);
            }
        }
    } else {
        assert(st.bytes.take(settled(st)) =~= st.bytes.take(settled(st)));
    }
}

proof fn lemma_keeps_color_table(st: WriterState, t: ColorTableModel)
    ensures
        write_keeps(st, ws_color_table(st, t)),
{
    let conf: u8 = if t.constant_alpha is Some { 1u8 } else { 0u8 };
    lemma_keeps_push(st, 3);
    if let Written::Done(st1) = ws_push(st, 3) {
        lemma_keeps_push(st1, 0);
        if let Written::Done(st2) = ws_push(st1, 0) {
            lemma_keeps_trans(st, st1, st2);
            lemma_keeps_push(st2, conf);
            if let Written::Done(st3) = ws_push(st2, conf) {
                lemma_keeps_trans(st, st2, st3);
                lemma_keeps_opt(st3, t.constant_alpha, t.constant_alpha is Some);
                if let Written::Done(st4) = ws_opt_byte(st3, t.constant_alpha, t.constant_alpha is Some) {
                    lemma_keeps_trans(st, st3, st4);
                    lemma_keeps_push(st4, 0);
                    if let Written::Done(st5) = ws_push(st4, 0) {
                        lemma_keeps_trans(st, st4, st5);
                        lemma_keeps_count(st5, t.colors.len());
                        if let Written::Done(st6) = ws_count(st5, t.colors.len()) {
                            lemma_keeps_trans(st, st5, st6);
                            lemma_keeps_colors(st6, t.colors, t.constant_alpha);
                            if let Written::Done(st7) = ws_colors(st6, t.colors, t.constant_alpha) {
                                lemma_keeps_trans(st, st6, st7);
                            }
                        }
                    }
                }
            }
        }
    }
}

proof fn lemma_keeps_pixels(st: WriterState, px: Seq<u8>, n: u8)
    ensures
        write_keeps(st, ws_pixels(st, px, n)),
    decreases px.len(),
{
    if px.len() > 0 {
        lemma_keeps_pixels(st, px.drop_last(), n);
        if let Written::Done(st1) = ws_pixels(st, px.drop_last(), n) {
            lemma_keeps_bits(st1, px.last(), n);
            if let Written::Done(st2) = ws_bits(st1, px.last(), n) {
                lemma_keeps_trans(st, st1, st2);
            }
        }
    } else {
        assert(st.bytes.take(settled(st)) =~= st.bytes.take(settled(st)));
    }
}

proof fn lemma_keeps_pixmap_data(st: WriterState, data: Seq<u8>, w: u8, h: u8, bpp: u8, compact: bool)
    ensures
        write_keeps(st, ws_pixmap_data(st, data, w, h, bpp, compact)),
{
    lemma_keeps_pixels(st, data, bpp);
    if let Written::Done(st1) = ws_pixels(st, data, bpp) {
        let pad = (8 - (data.len() * bpp) % 8) as u8;
        lemma_keeps_bits(st1, 0, pad);
        if let Written::Done(st2) = ws_bits(st1, 0, pad) {
            lemma_keeps_trans(st, st1, st2);
        }
    }
}

proof fn lemma_keeps_pixmap(st: WriterState, p: PixmapModel, t: PixmapTableModel, compact: bool)
    ensures
        write_keeps(st, ws_pixmap(st, p, t, compact)),
{
    lemma_keeps_opt(st, p.custom_width, t.constant_width is None);
    if let Written::Done(st1) = ws_opt_byte(st, p.custom_width, t.constant_width is None) {
        lemma_keeps_opt(st1, p.custom_height, t.constant_height is None);
        if let Written::Done(st2) = ws_opt_byte(st1, p.custom_height, t.constant_height is None) {
            lemma_keeps_trans(st, st1, st2);
            lemma_keeps_opt(st2, p.custom_bits_per_pixel, t.constant_bits_per_pixel is None);
            if let Written::Done(st3) = ws_opt_byte(
                st2,
                p.custom_bits_per_pixel,
                t.constant_bits_per_pixel is None,
            ) {
                lemma_keeps_trans(st, st2, st3);
                let w = resolve(t.constant_width, p.custom_width).unwrap();
                let h = resolve(t.constant_height, p.custom_height).unwrap();
                let bpp = resolve(t.constant_bits_per_pixel, p.custom_bits_per_pixel).unwrap();
                lemma_keeps_pixmap_data(st3, p.data, w, h, bpp, compact);
                if let Written::Done(st4) = ws_pixmap_data(st3, p.data, w, h, bpp, compact) {
                    lemma_keeps_trans(st, st3, st4);
                }
            }
        }
    }
}

proof fn lemma_keeps_pixmaps(st: WriterState, ps: Seq<PixmapModel>, t: PixmapTableModel, compact: bool)
    ensures
        write_keeps(st, ws_pixmaps(st, ps, t, compact)),
    decreases ps.len(),
{
    if ps.len() > 0 {
        lemma_keeps_pixmaps(st, ps.drop_last(), t, compact);
        if let Written::Done(st1) = ws_pixmaps(st, ps.drop_last(), t, compact) {
            lemma_keeps_pixmap(st1, ps.last(), t, compact);
            if let Written::Done(st2) = ws_pixmap(st1, ps.last(), t, compact) {
                lemma_keeps_trans(st, st1, st2);
            }
        }
    } else {
        assert(st.bytes.take(settled(st)) =~= st.bytes.take(settled(st)));
    }
}

proof fn lemma_keeps_pixmap_table(st: WriterState, t: PixmapTableModel, compact: bool)
    ensures
        write_keeps(st, ws_pixmap_table(st, t, compact)),
{
    let conf = super::model::pixmap_configuration_byte(t);
    lemma_keeps_push(st, 2);
    if let Written::Done(st1) = ws_push(st, 2) {
        lemma_keeps_push(st1, 0);
        if let Written::Done(st2) = ws_push(st1, 0) {
            lemma_keeps_trans(st, st1, st2);
            lemma_keeps_push(st2, conf);
            if let Written::Done(st3) = ws_push(st2, conf) {
                lemma_keeps_trans(st, st2, st3);
                lemma_keeps_opt(st3, t.constant_width, t.constant_width is Some);
                if let Written::Done(st4) = ws_opt_byte(st3, t.constant_width, t.constant_width is Some) {
                    lemma_keeps_trans(st, st3, st4);
                    lemma_keeps_opt(st4, t.constant_height, t.constant_height is Some);
                    if let Written::Done(st5) = ws_opt_byte(
                        st4,
                        t.constant_height,
                        t.constant_height is Some,
                    ) {
                        lemma_keeps_trans(st, st4, st5);
                        lemma_keeps_opt(st5, t.constant_bits_per_pixel, t.constant_bits_per_pixel is Some);
                        if let Written::Done(st6) = ws_opt_byte(
                            st5,
                            t.constant_bits_per_pixel,
                            t.constant_bits_per_pixel is Some,
                        ) {
                            lemma_keeps_trans(st, st5, st6);
                            lemma_keeps_links(st6, t.color_table_indexes);
                            if let Written::Done(st7) = ws_links(st6, t.color_table_indexes) {
                                lemma_keeps_trans(st, st6, st7);
                                lemma_keeps_count(st7, t.pixmaps.len());
                                if let Written::Done(st8) = ws_count(st7, t.pixmaps.len()) {
                                    lemma_keeps_trans(st, st7, st8);
                                    lemma_keeps_pixmaps(st8, t.pixmaps, t, compact);
                                    if let Written::Done(st9) = ws_pixmaps(st8, t.pixmaps, t, compact) {
                                        lemma_keeps_trans(st, st8, st9);
                                    }
                                }
                            }
                        }
                    }
                }
            }
        }
    }
}

proof fn lemma_keeps_font(st: WriterState, f: FontModel)
    ensures
        write_keeps(st, ws_font(st, f)),
{
    lemma_keeps_string(st, f.name);
    if let Written::Done(st1) = ws_string(st, f.name) {
        lemma_keeps_string(st1, f.author);
        if let Written::Done(st2) = ws_string(st1, f.author) {
            lemma_keeps_trans(st, st1, st2);
            lemma_keeps_push(st2, f.version);
            if let Written::Done(st3) = ws_push(st2, f.version) {
                lemma_keeps_trans(st, st2, st3);
                lemma_keeps_push(st3, super::spec_font_type_byte(f.font_type));
                if let Written::Done(st4) = ws_push(st3, super::spec_font_type_byte(f.font_type)) {
                    lemma_keeps_trans(st, st3, st4);
                    lemma_keeps_list(st4, f.linked_character_table_indexes);
                    if let Written::Done(st5) = ws_byte_list(st4, f.linked_character_table_indexes) {
                        lemma_keeps_trans(st, st4, st5);
                    }
                }
            }
        }
    }
}

proof fn lemma_keeps_fonts(st: WriterState, fs: Seq<FontModel>)
    ensures
        write_keeps(st, ws_fonts(st, fs)),
    decreases fs.len(),
{
    if fs.len() > 0 {
        lemma_keeps_fonts(st, fs.drop_last());
        if let Written::Done(st1) = ws_fonts(st, fs.drop_last()) {
            lemma_keeps_font(st1, fs.last());
            if let Written::Done(st2) = ws_font(st1, fs.last()) {
                lemma_keeps_trans(st, st1, st2);
            }
        }
    } else {
        assert(st.bytes.take(settled(st)) =~= st.bytes.take(settled(st)));
    }
}

proof fn lemma_keeps_font_table(st: WriterState, t: FontTableModel)
    ensures
        write_keeps(st, ws_font_table(st, t)),
{
    lemma_keeps_push(st, 4);
    if let Written::Done(st1) = ws_push(st, 4) {
        lemma_keeps_push(st1, 0);
        if let Written::Done(st2) = ws_push(st1, 0) {
            lemma_keeps_trans(st, st1, st2);
            lemma_keeps_push(st2, 0);
            if let Written::Done(st3) = ws_push(st2, 0) {
                lemma_keeps_trans(st, st2, st3);
                lemma_keeps_links(st3, t.character_table_indexes);
                if let Written::Done(st4) = ws_links(st3, t.character_table_indexes) {
                    lemma_keeps_trans(st, st3, st4);
                    lemma_keeps_count(st4, t.fonts.len());
                    if let Written::Done(st5) = ws_count(st4, t.fonts.len()) {
                        lemma_keeps_trans(st, st4, st5);
                        lemma_keeps_fonts(st5, t.fonts);
                        if let Written::Done(st6) = ws_fonts(st5, t.fonts) {
                            lemma_keeps_trans(st, st5, st6);
                        }
                    }
                }
            }
        }
    }
}

proof fn lemma_keeps_character_tables(st: WriterState, ts: Seq<CharacterTableModel>)
    ensures
        write_keeps(st, ws_character_tables(st, ts)),
    decreases ts.len(),
{
    if ts.len() > 0 {
        lemma_keeps_character_tables(st, ts.drop_last());
        if let Written::Done(st1) = ws_character_tables(st, ts.drop_last()) {
            lemma_keeps_character_table(st1, ts.last());
            if let Written::Done(st2) = ws_character_table(st1, ts.last()) {
                lemma_keeps_trans(st, st1, st2);
            }
        }
    } else {
        assert(st.bytes.take(settled(st)) =~= st.bytes.take(settled(st)));
    }
}

proof fn lemma_keeps_pixmap_tables(st: WriterState, ts: Seq<PixmapTableModel>, compact: bool)
    ensures
        write_keeps(st, ws_pixmap_tables(st, ts, compact)),
    decreases ts.len(),
{
    if ts.len() > 0 {
        lemma_keeps_pixmap_tables(st, ts.drop_last(), compact);
        if let Written::Done(st1) = ws_pixmap_tables(st, ts.drop_last(), compact) {
            lemma_keeps_pixmap_table(st1, ts.last(), compact);
            if let Written::Done(st2) = ws_pixmap_table(st1, ts.last(), compact) {
                lemma_keeps_trans(st, st1, st2);
            }
        }
    } else {
        assert(st.bytes.take(settled(st)) =~= st.bytes.take(settled(st)));
    }
}

proof fn lemma_keeps_color_tables(st: WriterState, ts: Seq<ColorTableModel>)
    ensures
        write_keeps(st, ws_color_tables(st, ts)),
    decreases ts.len(),
{
    if ts.len() > 0 {
        lemma_keeps_color_tables(st, ts.drop_last());
        if let Written::Done(st1) = ws_color_tables(st, ts.drop_last()) {
            lemma_keeps_color_table(st1, ts.last());
            if let Written::Done(st2) = ws_color_table(st1, ts.last()) {
                lemma_keeps_trans(st, st1, st2);
            }
        }
    } else {
        assert(st.bytes.take(settled(st)) =~= st.bytes.take(settled(st)));
    }
}

proof fn lemma_keeps_font_tables(st: WriterState, ts: Seq<FontTableModel>)
    ensures
        write_keeps(st, ws_font_tables(st, ts)),
    decreases ts.len(),
{
    if ts.len() > 0 {
        lemma_keeps_font_tables(st, ts.drop_last());
        if let Written::Done(st1) = ws_font_tables(st, ts.drop_last()) {
            lemma_keeps_font_table(st1, ts.last());
            if let Written::Done(st2) = ws_font_table(st1, ts.last()) {
                lemma_keeps_trans(st, st1, st2);
            }
        }
    } else {
        assert(st.bytes.take(settled(st)) =~= st.bytes.take(settled(st)));
    }
}

/// Every encoding of a layout begins with the signature, then the
/// layout's version byte, then its header byte (1 for a compact layout, 0
/// otherwise).
pub proof fn lemma_encoding_starts_with_signature(l: LayoutModel)
    ensures
        spec_layout_to_data(l) matches Ok(d) ==> {
            &&& d.len() >= 6
            &&& d.take(4) == magic()
            &&& d[4] == spec_version_byte(l.version)
            &&& d[5] == flag(l.compact)
        },
{
    let pre = magic() + seq![spec_version_byte(l.version)] + seq![flag(l.compact)];
    lemma_ws_preamble(l);
    let st1 = aligned(pre);
    lemma_keeps_character_tables(st1, l.character_tables);
    if let Written::Done(st2) = ws_character_tables(st1, l.character_tables) {
        lemma_keeps_pixmap_tables(st2, l.pixmap_tables, l.compact);
        if let Written::Done(st3) = ws_pixmap_tables(st2, l.pixmap_tables, l.compact) {
            lemma_keeps_trans(st1, st2, st3);
            lemma_keeps_color_tables(st3, l.color_tables);
            if let Written::Done(st4) = ws_color_tables(st3, l.color_tables) {
                lemma_keeps_trans(st1, st3, st4);
                lemma_keeps_font_tables(st4, l.font_tables);
                if let Written::Done(st5) = ws_font_tables(st4, l.font_tables) {
                    lemma_keeps_trans(st1, st4, st5);
                    let d = st5.bytes;
                    assert(pre.take(6) =~= pre);
                    assert(d.take(6)[0] == d[0] && d.take(6)[1] == d[1] && d.take(6)[2] == d[2]
                        && d.take(6)[3] == d[3] && d.take(6)[4] == d[4] && d.take(6)[5] == d[5]);
                    assert(d.take(4) =~= magic());
                }
            }
        }
    }
}

/// Decoding fails on data that does not begin with the signature: with
/// `UnexpectedEndOfFile` when it is shorter than the signature, and with
/// `InvalidSignature` otherwise.
pub proof fn lemma_decoding_requires_signature(d: Seq<u8>)
    ensures
        d.len() < 4 ==> spec_layout_from_data(d) == Err::<LayoutModel, Failure<DeserializeError>>(
            Failure::Error(DeserializeError::UnexpectedEndOfFile),
        ),
        d.len() >= 4 && d.take(4) != magic() ==> spec_layout_from_data(d) == Err::<
            LayoutModel,
            Failure<DeserializeError>,
        >(Failure::Error(DeserializeError::InvalidSignature)),
{
    if d.len() >= 4 && d.take(4) != magic() {
        if d[0] == 127 && d[1] == 102 && d[2] == 115 && d[3] == 70 {
            assert(d.take(4) =~= magic());
        }
    }
}

/// Decoding data whose signature is followed by a version byte that names
/// no known version fails with `UnsupportedVersion`.
pub proof fn lemma_decoding_requires_known_version(d: Seq<u8>)
    ensures
        d.len() >= 5 && d.take(4) == magic() && d[4] != 0 ==> spec_layout_from_data(d) == Err::<
            LayoutModel,
            Failure<DeserializeError>,
        >(Failure::Error(DeserializeError::UnsupportedVersion)),
{
    if d.len() >= 5 && d.take(4) == magic() {
        assert(d[0] == d.take(4)[0] && d[1] == d.take(4)[1] && d[2] == d.take(4)[2] && d[3] == d.take(4)[3]);
    }
}

} // verus!
