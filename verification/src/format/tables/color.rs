//! Color tables.
use vstd::prelude::*;
use crate::format::byte::ByteReader;
use crate::format::deserialize::{take_byte, take_opt_byte, DeserializeEngine};
use crate::format::model::{
    p_byte, p_color, p_color_table, p_colors, p_opt_byte, Cursor, Failure, Parsed,
};
use crate::format::byte::{ByteWriter, WriterState};
use crate::format::model::{ws_color, ws_color_table, ws_colors, ws_opt_byte, ws_push, Written};
use crate::format::serialize::{put, put_opt_byte, wrote_as};
use crate::format::{
    SerializeError,
    Color, ColorModel, ColorTable, ColorTableConfigurationFlags, ColorTableModel,
    ColorTableModifierFlags, DeserializeError,
};

verus! {

/// Once reading `i` records succeeded and record `i + 1` fails, reading
/// `n > i` records fails the same way.
proof fn lemma_p_colors_failed(d: Seq<u8>, c: Cursor, i: nat, n: nat, constant_alpha: Option<u8>)
    requires
        i < n,
        p_colors(d, c, i, constant_alpha) matches Parsed::Done(_, c1) && p_color(
            d,
            c1,
            constant_alpha,
        ) is Failed,
    ensures
        p_colors(d, c, n, constant_alpha) matches Parsed::Failed(f) && p_colors(
            d,
            c,
            i,
            constant_alpha,
        ) matches Parsed::Done(_, c1) && p_color(d, c1, constant_alpha) == Parsed::<
            ColorModel,
        >::Failed(f),
    decreases n,
{
    if n > i + 1 {
        lemma_p_colors_failed(d, c, i, (n - 1) as nat, constant_alpha);
    }
}

/// Reads one color record of a table with the given constant alpha.
pub(crate) fn next_color<R: ByteReader>(engine: &mut DeserializeEngine<R>, constant_alpha: Option<u8>) -> (r: Result<Color, Failure<DeserializeError>>)
    requires
        old(engine).wf(),
    ensures
        final(engine).wf(),
        final(engine).data() == old(engine).data(),
        final(engine).layout == old(engine).layout,
        match p_color(old(engine).data(), old(engine).position(), constant_alpha) {
            Parsed::Done(m, c) => r matches Ok(v) && v@ == m && final(engine).position() == c,
            Parsed::Failed(f) => r == Err::<Color, Failure<DeserializeError>>(f),
        },
{
    let custom_alpha = take_opt_byte(engine, constant_alpha.is_none())?;
    let red = take_byte(engine)?;
    let green = take_byte(engine)?;
    let blue = take_byte(engine)?;
    Ok(Color { color_type: None, custom_alpha, red, green, blue })
}

impl ColorTable {
    /// A table with no flags, no constant alpha and no colors.
    pub fn empty() -> (r: Self)
        ensures
            r@ == (ColorTableModel {
                modifier_flags: 0,
                configuration_flags: 0,
                constant_alpha: None,
                colors: Seq::empty(),
            }),
    {
        let r = ColorTable {
            modifier_flags: ColorTableModifierFlags::empty(),
            configuration_flags: ColorTableConfigurationFlags::empty(),
            constant_alpha: None,
            colors: Vec::new(),
        };
        assert(r@.colors =~= Seq::<ColorModel>::empty());
        r
    }

    /// Skips the modifier flag byte.
    pub(crate) fn next_modifer_flags<R: ByteReader>(&mut self, engine: &mut DeserializeEngine<R>) -> (r: Result<(), Failure<DeserializeError>>)
        requires
            old(engine).wf(),
        ensures
            final(engine).wf(),
            final(engine).data() == old(engine).data(),
            final(engine).layout == old(engine).layout,
            *final(self) == *old(self),
            match p_byte(old(engine).data(), old(engine).position()) {
                Parsed::Done(_, c) => r is Ok && final(engine).position() == c,
                Parsed::Failed(f) => r == Err::<(), Failure<DeserializeError>>(f),
            },
    {
        let _modifier_flags = take_byte(engine)?;
        Ok(())
    }

    /// Reads the configuration flag byte and the constant alpha it calls for.
    pub(crate) fn next_configurations<R: ByteReader>(&mut self, engine: &mut DeserializeEngine<R>) -> (r: Result<(), Failure<DeserializeError>>)
        requires
            old(engine).wf(),
        ensures
            final(engine).wf(),
            final(engine).data() == old(engine).data(),
            final(engine).layout == old(engine).layout,
            match p_byte(old(engine).data(), old(engine).position()) {
                Parsed::Done(b, c1) => match p_opt_byte(old(engine).data(), c1, b & 1 == 1) {
                    Parsed::Done(k, c2) => r is Ok && final(engine).position() == c2
                        && final(self)@ == (ColorTableModel {
                            constant_alpha: if b & 1 == 1 {
                                k
                            } else {
                                old(self)@.constant_alpha
                            },
                            ..old(self)@
                        }),
                    Parsed::Failed(f) => r == Err::<(), Failure<DeserializeError>>(f),
                },
                Parsed::Failed(f) => r == Err::<(), Failure<DeserializeError>>(f),
            },
    {
        let configuration_flags = take_byte(engine)?;
        proof {
            crate::format::byte::lemma_get_bit0(configuration_flags);
        }
        if crate::format::byte::get_bit(configuration_flags, 0) {
            let alpha = take_byte(engine)?;
            self.constant_alpha = Some(alpha);
        }
        Ok(())
    }

    /// Skips the link flag byte.
    pub(crate) fn next_table_links<R: ByteReader>(&mut self, engine: &mut DeserializeEngine<R>) -> (r: Result<(), Failure<DeserializeError>>)
        requires
            old(engine).wf(),
        ensures
            final(engine).wf(),
            final(engine).data() == old(engine).data(),
            final(engine).layout == old(engine).layout,
            *final(self) == *old(self),
            match p_byte(old(engine).data(), old(engine).position()) {
                Parsed::Done(_, c) => r is Ok && final(engine).position() == c,
                Parsed::Failed(f) => r == Err::<(), Failure<DeserializeError>>(f),
            },
    {
        let _link_flags = take_byte(engine)?;
        Ok(())
    }

    /// Reads a color table whose identifier byte has been read.
    pub(crate) fn deserialize<R: ByteReader>(engine: &mut DeserializeEngine<R>) -> (r: Result<ColorTable, Failure<DeserializeError>>)
        requires
            old(engine).wf(),
        ensures
            final(engine).wf(),
            final(engine).data() == old(engine).data(),
            final(engine).layout == old(engine).layout,
            match p_color_table(old(engine).data(), old(engine).position()) {
                Parsed::Done(m, c) => r matches Ok(v) && v@ == m && final(engine).position() == c,
                Parsed::Failed(f) => r == Err::<ColorTable, Failure<DeserializeError>>(f),
            },
    {
        let ghost d = engine.data();
        let mut table = ColorTable::empty();
        table.next_modifer_flags(engine)?;
        table.next_configurations(engine)?;
        table.next_table_links(engine)?;
        let count = take_byte(engine)?;
        let constant_alpha = table.constant_alpha;
        let ghost start = engine.position();
        let ghost outer = p_color_table(d, old(engine).position());
        assert(p_colors(d, start, count as nat, constant_alpha) matches Parsed::Failed(f)
            ==> outer == Parsed::<ColorTableModel>::Failed(f));
        let mut colors: Vec<Color> = Vec::new();
        assert(colors@.map_values(|c: Color| c@) =~= Seq::<ColorModel>::empty());
        let mut i: u8 = 0;
        while i < count
            invariant
                outer == p_color_table(old(engine).data(), old(engine).position()),
                p_colors(d, start, count as nat, constant_alpha) matches Parsed::Failed(f)
                    ==> outer == Parsed::<ColorTableModel>::Failed(f),
                engine.wf(),
                engine.data() == d,
                d == old(engine).data(),
                engine.layout == old(engine).layout,
                i <= count,
                p_colors(d, start, i as nat, constant_alpha) == Parsed::Done(
                    colors@.map_values(|c: Color| c@),
                    engine.position(),
                ),
            decreases count - i,
        {
            let ghost before = colors@;
            match next_color(engine, constant_alpha) {
                Ok(c) => {
                    colors.push(c);
                    assert(colors@.map_values(|c: Color| c@) =~= before.map_values(
                        |c: Color| c@,
                    ).push(c@));
                    i = i + 1;
                },
                Err(e) => {
                    proof {
                        lemma_p_colors_failed(d, start, i as nat, count as nat, constant_alpha);
                    }
                    return Err(e);
                },
            }
        }
        table.colors = colors;
        Ok(table)
    }
}


/// Once writing the first `i` records succeeded and record `i` fails,
/// writing all of `cs` fails the same way.
proof fn lemma_ws_colors_failed(st: WriterState, cs: Seq<ColorModel>, k: Option<u8>, i: int)
    requires
        0 <= i < cs.len(),
        ws_colors(st, cs.take(i), k) matches Written::Done(st1) && ws_color(st1, cs[i], k) is Failed,
    ensures
        ws_colors(st, cs, k) matches Written::Failed(f) && ws_colors(st, cs.take(i), k) matches Written::Done(
            st1,
        ) && ws_color(st1, cs[i], k) == Written::Failed(f),
    decreases cs.len(),
{
    if i < cs.len() - 1 {
        assert(cs.drop_last().take(i) =~= cs.take(i));
        lemma_ws_colors_failed(st, cs.drop_last(), k, i);
    } else {
        assert(cs.drop_last() =~= cs.take(i));
    }
}

impl ColorTable {
    /// Writes the table identifier byte.
    pub(crate) fn push_table_identifier(&self, w: &mut ByteWriter) -> (r: Result<(), Failure<SerializeError>>)
        ensures
            wrote_as(ws_push(old(w)@, 3), r, final(w)@),
    {
        put(w, crate::format::COLOR_TABLE_ID)
    }

    /// Writes the modifier flag byte, always 0.
    pub(crate) fn push_modifier_flags(&self, w: &mut ByteWriter) -> (r: Result<(), Failure<SerializeError>>)
        ensures
            wrote_as(ws_push(old(w)@, 0), r, final(w)@),
    {
        put(w, 0b00000000)
    }

    /// Writes the configuration flag byte, derived from whether the
    /// constant alpha is set, and that alpha.
    pub(crate) fn push_configurations(&self, w: &mut ByteWriter) -> (r: Result<(), Failure<SerializeError>>)
        ensures
            match ws_push(old(w)@, if self.constant_alpha is Some { 1u8 } else { 0u8 }) {
                Written::Done(st) => wrote_as(ws_opt_byte(st, self.constant_alpha, self.constant_alpha is Some), r, final(w)@),
                Written::Failed(f) => r == Err::<(), Failure<SerializeError>>(f),
            },
    {
        let mut configuration_flags: u8 = 0;
        if self.constant_alpha.is_some() {
            configuration_flags = configuration_flags | 0b00000001;
            assert(0u8 | 1u8 == 1u8) by (bit_vector);
        }
        put(w, configuration_flags)?;
        put_opt_byte(w, self.constant_alpha, self.constant_alpha.is_some())
    }

    /// Writes the link flag byte, always 0.
    pub(crate) fn push_table_links(&self, w: &mut ByteWriter) -> (r: Result<(), Failure<SerializeError>>)
        ensures
            wrote_as(ws_push(old(w)@, 0), r, final(w)@),
    {
        put(w, 0b00000000)
    }

    /// Writes one color record.
    fn push_color(&self, w: &mut ByteWriter, color: &Color) -> (r: Result<(), Failure<SerializeError>>)
        ensures
            wrote_as(ws_color(old(w)@, color@, self.constant_alpha), r, final(w)@),
    {
        put_opt_byte(w, color.custom_alpha, self.constant_alpha.is_none())?;
        put(w, color.red)?;
        put(w, color.green)?;
        put(w, color.blue)
    }

    /// Writes the table, identifier byte first.
    pub(crate) fn serialize(&self, w: &mut ByteWriter) -> (r: Result<(), Failure<SerializeError>>)
        ensures
            wrote_as(ws_color_table(old(w)@, self@), r, final(w)@),
    {
        self.push_table_identifier(w)?;
        self.push_modifier_flags(w)?;
        self.push_configurations(w)?;
        self.push_table_links(w)?;
        if self.colors.len() > 255 {
            return Err(Failure::Error(SerializeError::StaticVectorTooLarge));
        }
        put(w, self.colors.len() as u8)?;
        let ghost st0 = w@;
        let ghost cs = self@.colors;
        let ghost outer = ws_color_table(old(w)@, self@);
        assert(ws_colors(st0, cs, self.constant_alpha) matches Written::Failed(f) ==> outer == Written::Failed(f));
        assert(cs.take(0) =~= Seq::<ColorModel>::empty());
        let mut i: usize = 0;
        while i < self.colors.len()
            invariant
                outer == ws_color_table(old(w)@, self@),
                ws_colors(st0, cs, self.constant_alpha) matches Written::Failed(f) ==> outer == Written::Failed(f),
                cs == self@.colors,
                cs.len() == self.colors@.len(),
                i <= cs.len(),
                ws_colors(st0, cs.take(i as int), self.constant_alpha) == Written::Done(w@),
            decreases cs.len() - i,
        {
            assert(cs.take(i as int + 1).drop_last() =~= cs.take(i as int));
            assert(cs[i as int] == self.colors@[i as int]@);
            match self.push_color(w, &self.colors[i]) {
                Ok(()) => {
                    i = i + 1;
                },
                Err(e) => {
                    proof {
                        lemma_ws_colors_failed(st0, cs, self.constant_alpha, i as int);
                    }
                    return Err(e);
                },
            }
        }
        assert(cs.take(cs.len() as int) =~= cs);
        Ok(())
    }
}

} // verus!
