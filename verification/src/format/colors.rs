//! The color records of a table as plain bytes.
use vstd::prelude::*;
use super::bits::after;
use super::model::{
    p_color, spec_layout_from_data, spec_layout_to_data, ws_character_tables, ws_color_table,
    ws_color_tables, ws_colors, ws_font_tables, ws_pixmap_tables, magic, Cursor, Failure, Parsed, Written,
};
use super::roundtrip::{
    flag, lemma_after_empty, lemma_layout_round_trip_whole_bytes, lemma_ws_preamble, lemma_ws_push,
    representable_color, representable_color_table,
};
use super::{spec_version_byte, ColorModel, DeserializeError, LayoutModel, SerializeError};

verus! {
/// The custom alpha of a color, 0 where it has none.
pub open spec fn alpha_byte(c: ColorModel) -> u8 {
    match c.custom_alpha {
        Some(a) => a,
        None => 0,
    }
}

/// Each color as four bytes: its alpha, then red, green and blue.
pub open spec fn argb_bytes(cs: Seq<ColorModel>) -> Seq<u8>
    decreases cs.len(),
{
    if cs.len() == 0 {
        Seq::empty()
    } else {
        argb_bytes(cs.drop_last()) + seq![alpha_byte(cs.last()), cs.last().red, cs.last().green, cs.last().blue]
    }
}

/// Without a constant alpha, each color is written alpha first.
proof fn lemma_ws_colors_argb(e0: Seq<bool>, bytes: Seq<u8>, cs: Seq<ColorModel>)
    requires
        forall|k: int| 0 <= k < cs.len() ==> (#[trigger] cs[k]).custom_alpha is Some,
    ensures
        ws_colors(after(e0, bytes), cs, None) == Written::Done(after(e0, bytes + argb_bytes(cs))),
    decreases cs.len(),
{
    if cs.len() == 0 {
        assert(bytes + argb_bytes(cs) =~= bytes);
    } else {
        let front = cs.drop_last();
        assert forall|k: int| 0 <= k < front.len() implies (#[trigger] front[k]).custom_alpha is Some by {
            assert(front[k] == cs[k]);
        }
        lemma_ws_colors_argb(e0, bytes, front);
        let c = cs.last();
        assert(c == cs[cs.len() - 1]);
        let b1 = bytes + argb_bytes(front);
        let b2 = b1 + seq![alpha_byte(c)];
        let b3 = b2 + seq![c.red];
        let b4 = b3 + seq![c.green];
        lemma_ws_push(e0, b1, alpha_byte(c));
        lemma_ws_push(e0, b2, c.red);
        lemma_ws_push(e0, b3, c.green);
        lemma_ws_push(e0, b4, c.blue);
        assert(b4 + seq![c.blue] =~= bytes + argb_bytes(cs));
    }
}

/// Where a color record without a constant alpha starts on a byte, reading
/// it takes four bytes: the custom alpha, then red, green and blue.
pub proof fn lemma_p_color_argb(d: Seq<u8>, i: int)
    requires
        0 <= i,
        i + 4 <= d.len(),
    ensures
        p_color(d, Cursor { index: i, pointer: 0 }, None) == Parsed::Done(
            ColorModel { color_type: None, custom_alpha: Some(d[i]), red: d[i + 1], green: d[i + 2], blue: d[i + 3] },
            Cursor { index: i + 4, pointer: 0 },
        ),
{
}

/// A layout that holds one color table without a constant alpha, and no
/// other table, is written as the signature `7F 'f' 's' 'F'`, the version
/// and packing bytes, then the table: its identifier 3, its modifier,
/// configuration and link bytes (all 0), its color count, and each color as
/// its alpha byte followed by red, green and blue. Those bytes read back as
/// the layout.
pub proof fn lemma_color_layout_bytes(l: LayoutModel)
    requires
        l.character_tables.len() == 0,
        l.pixmap_tables.len() == 0,
        l.font_tables.len() == 0,
        l.color_tables.len() == 1,
        l.color_tables[0].modifier_flags == 0,
        l.color_tables[0].configuration_flags == 0,
        l.color_tables[0].constant_alpha is None,
        l.color_tables[0].colors.len() <= 255,
        forall|k: int|
            0 <= k < l.color_tables[0].colors.len() ==> (#[trigger] l.color_tables[0].colors[k]).custom_alpha is Some
                && l.color_tables[0].colors[k].color_type is None,
    ensures
        spec_layout_to_data(l) == Ok::<Seq<u8>, Failure<SerializeError>>(
            seq![127u8, 102u8, 115u8, 70u8, spec_version_byte(l.version), flag(l.compact), 3u8, 0u8, 0u8, 0u8,
                l.color_tables[0].colors.len() as u8] + argb_bytes(l.color_tables[0].colors),
        ),
        spec_layout_from_data(
            seq![127u8, 102u8, 115u8, 70u8, spec_version_byte(l.version), flag(l.compact), 3u8, 0u8, 0u8, 0u8,
                l.color_tables[0].colors.len() as u8] + argb_bytes(l.color_tables[0].colors),
        ) == Ok::<LayoutModel, Failure<DeserializeError>>(l),
{
    let t = l.color_tables[0];
    let cs = t.colors;
    let e0 = Seq::<bool>::empty();
    let pre = magic() + seq![spec_version_byte(l.version)] + seq![flag(l.compact)];
    lemma_ws_preamble(l);
    lemma_after_empty(pre);
    let st1 = after(e0, pre);
    assert(ws_character_tables(st1, l.character_tables) == Written::Done(st1));
    assert(ws_pixmap_tables(st1, l.pixmap_tables, l.compact) == Written::Done(st1));
    assert(l.color_tables.drop_last().len() == 0);
    assert(ws_color_tables(st1, l.color_tables.drop_last()) == Written::Done(st1));
    assert(l.color_tables.last() == t);
    let b1 = pre + seq![3u8];
    let b2 = b1 + seq![0u8];
    let b3 = b2 + seq![0u8];
    let b4 = b3 + seq![0u8];
    let b5 = b4 + seq![cs.len() as u8];
    lemma_ws_push(e0, pre, 3u8);
    lemma_ws_push(e0, b1, 0u8);
    lemma_ws_push(e0, b2, 0u8);
    lemma_ws_push(e0, b3, 0u8);
    lemma_ws_push(e0, b4, cs.len() as u8);
    lemma_ws_colors_argb(e0, b5, cs);
    let all = seq![127u8, 102u8, 115u8, 70u8, spec_version_byte(l.version), flag(l.compact), 3u8, 0u8, 0u8, 0u8,
        cs.len() as u8] + argb_bytes(cs);
    assert(b5 + argb_bytes(cs) =~= all);
    assert(ws_color_table(st1, t) == Written::Done(after(e0, all)));
    assert(ws_color_tables(st1, l.color_tables) == Written::Done(after(e0, all)));
    assert(ws_font_tables(after(e0, all), l.font_tables) == Written::Done(after(e0, all)));
    lemma_after_empty(all);
    assert(spec_layout_to_data(l) == Ok::<Seq<u8>, Failure<SerializeError>>(all));
    assert forall|k: int| 0 <= k < l.color_tables.len() implies representable_color_table(
        #[trigger] l.color_tables[k],
    ) by {
        assert(k == 0);
        assert forall|j: int| 0 <= j < cs.len() implies representable_color(#[trigger] cs[j], t) by {
            assert(cs[j].custom_alpha is Some && cs[j].color_type is None);
        }
    }
    lemma_layout_round_trip_whole_bytes(l);
}

/// Each color as three bytes: red, green and blue.
pub open spec fn rgb_bytes(cs: Seq<ColorModel>) -> Seq<u8>
    decreases cs.len(),
{
    if cs.len() == 0 {
        Seq::empty()
    } else {
        rgb_bytes(cs.drop_last()) + seq![cs.last().red, cs.last().green, cs.last().blue]
    }
}

/// With a constant alpha, each color is written as red, green and blue.
proof fn lemma_ws_colors_rgb(e0: Seq<bool>, bytes: Seq<u8>, cs: Seq<ColorModel>, alpha: u8)
    requires
        forall|k: int| 0 <= k < cs.len() ==> (#[trigger] cs[k]).custom_alpha is None,
    ensures
        ws_colors(after(e0, bytes), cs, Some(alpha)) == Written::Done(after(e0, bytes + rgb_bytes(cs))),
    decreases cs.len(),
{
    if cs.len() == 0 {
        assert(bytes + rgb_bytes(cs) =~= bytes);
    } else {
        let front = cs.drop_last();
        assert forall|k: int| 0 <= k < front.len() implies (#[trigger] front[k]).custom_alpha is None by {
            assert(front[k] == cs[k]);
        }
        lemma_ws_colors_rgb(e0, bytes, front, alpha);
        let c = cs.last();
        assert(c == cs[cs.len() - 1]);
        let b1 = bytes + rgb_bytes(front);
        let b2 = b1 + seq![c.red];
        let b3 = b2 + seq![c.green];
        lemma_ws_push(e0, b1, c.red);
        lemma_ws_push(e0, b2, c.green);
        lemma_ws_push(e0, b3, c.blue);
        assert(b3 + seq![c.blue] =~= bytes + rgb_bytes(cs));
    }
}

/// Where a color record of a table with a constant alpha starts on a byte,
/// reading it takes three bytes: red, green and blue.
pub proof fn lemma_p_color_rgb(d: Seq<u8>, i: int, alpha: u8)
    requires
        0 <= i,
        i + 3 <= d.len(),
    ensures
        p_color(d, Cursor { index: i, pointer: 0 }, Some(alpha)) == Parsed::Done(
            ColorModel { color_type: None, custom_alpha: None, red: d[i], green: d[i + 1], blue: d[i + 2] },
            Cursor { index: i + 3, pointer: 0 },
        ),
{
}

/// A layout that holds one color table with a constant alpha, and no other
/// table, is written as the signature `7F 'f' 's' 'F'`, the version and
/// packing bytes, then the table: its identifier 3, its modifier byte 0,
/// its configuration byte 1, the constant alpha, its link byte 0, its color
/// count, and each color as red, green and blue. Those bytes read back as
/// the layout.
pub proof fn lemma_constant_alpha_layout_bytes(l: LayoutModel, alpha: u8)
    requires
        l.character_tables.len() == 0,
        l.pixmap_tables.len() == 0,
        l.font_tables.len() == 0,
        l.color_tables.len() == 1,
        l.color_tables[0].modifier_flags == 0,
        l.color_tables[0].configuration_flags == 0,
        l.color_tables[0].constant_alpha == Some(alpha),
        l.color_tables[0].colors.len() <= 255,
        forall|k: int|
            0 <= k < l.color_tables[0].colors.len() ==> (#[trigger] l.color_tables[0].colors[k]).custom_alpha is None
                && l.color_tables[0].colors[k].color_type is None,
    ensures
        spec_layout_to_data(l) == Ok::<Seq<u8>, Failure<SerializeError>>(
            seq![127u8, 102u8, 115u8, 70u8, spec_version_byte(l.version), flag(l.compact), 3u8, 0u8, 1u8, alpha, 0u8,
                l.color_tables[0].colors.len() as u8] + rgb_bytes(l.color_tables[0].colors),
        ),
        spec_layout_from_data(
            seq![127u8, 102u8, 115u8, 70u8, spec_version_byte(l.version), flag(l.compact), 3u8, 0u8, 1u8, alpha, 0u8,
                l.color_tables[0].colors.len() as u8] + rgb_bytes(l.color_tables[0].colors),
        ) == Ok::<LayoutModel, Failure<DeserializeError>>(l),
{
    let t = l.color_tables[0];
    let cs = t.colors;
    let e0 = Seq::<bool>::empty();
    let pre = magic() + seq![spec_version_byte(l.version)] + seq![flag(l.compact)];
    lemma_ws_preamble(l);
    lemma_after_empty(pre);
    let st1 = after(e0, pre);
    assert(ws_character_tables(st1, l.character_tables) == Written::Done(st1));
    assert(ws_pixmap_tables(st1, l.pixmap_tables, l.compact) == Written::Done(st1));
    assert(l.color_tables.drop_last().len() == 0);
    assert(ws_color_tables(st1, l.color_tables.drop_last()) == Written::Done(st1));
    assert(l.color_tables.last() == t);
    let b1 = pre + seq![3u8];
    let b2 = b1 + seq![0u8];
    let b3 = b2 + seq![1u8];
    let b4 = b3 + seq![alpha];
    let b5 = b4 + seq![0u8];
    let b6 = b5 + seq![cs.len() as u8];
    lemma_ws_push(e0, pre, 3u8);
    lemma_ws_push(e0, b1, 0u8);
    lemma_ws_push(e0, b2, 1u8);
    lemma_ws_push(e0, b3, alpha);
    lemma_ws_push(e0, b4, 0u8);
    lemma_ws_push(e0, b5, cs.len() as u8);
    lemma_ws_colors_rgb(e0, b6, cs, alpha);
    let all = seq![127u8, 102u8, 115u8, 70u8, spec_version_byte(l.version), flag(l.compact), 3u8, 0u8, 1u8, alpha,
        0u8, cs.len() as u8] + rgb_bytes(cs);
    assert(b6 + rgb_bytes(cs) =~= all);
    assert(ws_color_table(st1, t) == Written::Done(after(e0, all)));
    assert(ws_color_tables(st1, l.color_tables) == Written::Done(after(e0, all)));
    assert(ws_font_tables(after(e0, all), l.font_tables) == Written::Done(after(e0, all)));
    lemma_after_empty(all);
    assert(spec_layout_to_data(l) == Ok::<Seq<u8>, Failure<SerializeError>>(all));
    assert forall|k: int| 0 <= k < l.color_tables.len() implies representable_color_table(
        #[trigger] l.color_tables[k],
    ) by {
        assert(k == 0);
        assert forall|j: int| 0 <= j < cs.len() implies representable_color(#[trigger] cs[j], t) by {
            assert(cs[j].custom_alpha is None && cs[j].color_type is None);
        }
    }
    lemma_layout_round_trip_whole_bytes(l);
}

} // verus!
