//! Font tables.
use vstd::prelude::*;
use crate::format::byte::{get_bit, lemma_get_bit0, ByteReader};
use crate::format::deserialize::{
    next_string, take_byte, take_byte_list, take_opt_byte_list, DeserializeEngine,
};
use crate::format::model::{
    p_byte, p_font, p_font_table, p_fonts, p_opt_byte_list, Cursor, Failure, Parsed,
};
use crate::format::byte::{ByteWriter, WriterState};
use crate::format::model::{
    ws_byte_list, ws_font, ws_font_table, ws_fonts, ws_links, ws_push, ws_string, Written,
};
use crate::format::serialize::{put, put_byte_list, put_bytes, put_links, wrote_as};
use crate::format::{
    SerializeError,
    DeserializeError, Font, FontModel, FontTable, FontTableLinkFlags, FontTableModel, FontType,
};

verus! {

/// Once reading `i` records succeeded and record `i + 1` fails, reading
/// `n > i` records fails the same way.
proof fn lemma_p_fonts_failed(d: Seq<u8>, c: Cursor, i: nat, n: nat)
    requires
        i < n,
        p_fonts(d, c, i) matches Parsed::Done(_, c1) && p_font(d, c1) is Failed,
    ensures
        p_fonts(d, c, n) matches Parsed::Failed(f) && p_fonts(d, c, i) matches Parsed::Done(
            _,
            c1,
        ) && p_font(d, c1) == Parsed::<FontModel>::Failed(f),
    decreases n,
{
    if n > i + 1 {
        lemma_p_fonts_failed(d, c, i, (n - 1) as nat);
    }
}

/// Reads one font record.
pub(crate) fn next_font<R: ByteReader>(engine: &mut DeserializeEngine<R>) -> (r: Result<Font, Failure<DeserializeError>>)
    requires
        old(engine).wf(),
    ensures
        final(engine).wf(),
        final(engine).data() == old(engine).data(),
        final(engine).layout == old(engine).layout,
        match p_font(old(engine).data(), old(engine).position()) {
            Parsed::Done(m, c) => r matches Ok(v) && v@ == m && final(engine).position() == c,
            Parsed::Failed(f) => r == Err::<Font, Failure<DeserializeError>>(f),
        },
{
    let name = next_string(engine)?;
    let author = next_string(engine)?;
    let version = take_byte(engine)?;
    let font_type = take_byte(engine)?;
    let font_type = match FontType::try_from(font_type) {
        Ok(t) => t,
        Err(e) => {
            return Err(Failure::Error(e));
        },
    };
    let linked_character_table_indexes = take_byte_list(engine)?;
    Ok(Font { name, author, version, font_type, linked_character_table_indexes })
}

impl FontTable {
    /// A table with no flags, no links and no fonts.
    pub fn empty() -> (r: Self)
        ensures
            r@ == (FontTableModel {
                link_flags: 0,
                character_table_indexes: None,
                fonts: Seq::empty(),
            }),
    {
        let r = FontTable {
            link_flags: FontTableLinkFlags::empty(),
            character_table_indexes: None,
            fonts: Vec::new(),
        };
        assert(r@.fonts =~= Seq::<FontModel>::empty());
        r
    }

    /// Skips the modifier flag byte.
    pub(crate) fn next_modifer_flags<R: ByteReader>(&mut self, engine: &mut DeserializeEngine<R>) -> (r: Result<(), Failure<DeserializeError>>)
        requires
            old(engine).wf(),
        ensures
            final(engine).wf(),
            final(engine).data() == old(engine).data(),
            final(engine).layout == old(engine).layout,
            *final(self) == *old(self),
            match p_byte(old(engine).data(), old(engine).position()) {
                Parsed::Done(_, c) => r is Ok && final(engine).position() == c,
                Parsed::Failed(f) => r == Err::<(), Failure<DeserializeError>>(f),
            },
    {
        let _modifier_flags = take_byte(engine)?;
        Ok(())
    }

    /// Skips the configuration flag byte.
    pub(crate) fn next_configurations<R: ByteReader>(&mut self, engine: &mut DeserializeEngine<R>) -> (r: Result<(), Failure<DeserializeError>>)
        requires
            old(engine).wf(),
        ensures
            final(engine).wf(),
            final(engine).data() == old(engine).data(),
            final(engine).layout == old(engine).layout,
            *final(self) == *old(self),
            match p_byte(old(engine).data(), old(engine).position()) {
                Parsed::Done(_, c) => r is Ok && final(engine).position() == c,
                Parsed::Failed(f) => r == Err::<(), Failure<DeserializeError>>(f),
            },
    {
        let _configuration_flags = take_byte(engine)?;
        Ok(())
    }

    /// Reads the link flag byte and the character table links it calls for.
    pub(crate) fn next_table_links<R: ByteReader>(&mut self, engine: &mut DeserializeEngine<R>) -> (r: Result<(), Failure<DeserializeError>>)
        requires
            old(engine).wf(),
        ensures
            final(engine).wf(),
            final(engine).data() == old(engine).data(),
            final(engine).layout == old(engine).layout,
            match p_byte(old(engine).data(), old(engine).position()) {
                Parsed::Done(links, c1) => match p_opt_byte_list(old(engine).data(), c1, links & 1 == 1) {
                    Parsed::Done(v, c2) => r is Ok && final(engine).position() == c2
                        && final(self)@ == (FontTableModel {
                            character_table_indexes: v,
                            ..old(self)@
                        }),
                    Parsed::Failed(f) => r == Err::<(), Failure<DeserializeError>>(f),
                },
                Parsed::Failed(f) => r == Err::<(), Failure<DeserializeError>>(f),
            },
    {
        let link_flags = take_byte(engine)?;
        proof {
            lemma_get_bit0(link_flags);
        }
        self.character_table_indexes = take_opt_byte_list(engine, get_bit(link_flags, 0))?;
        Ok(())
    }

    /// Reads a font table whose identifier byte has been read.
    pub(crate) fn deserialize<R: ByteReader>(engine: &mut DeserializeEngine<R>) -> (r: Result<FontTable, Failure<DeserializeError>>)
        requires
            old(engine).wf(),
        ensures
            final(engine).wf(),
            final(engine).data() == old(engine).data(),
            final(engine).layout == old(engine).layout,
            match p_font_table(old(engine).data(), old(engine).position()) {
                Parsed::Done(m, c) => r matches Ok(v) && v@ == m && final(engine).position() == c,
                Parsed::Failed(f) => r == Err::<FontTable, Failure<DeserializeError>>(f),
            },
    {
        let ghost d = engine.data();
        let mut table = FontTable::empty();
        table.next_modifer_flags(engine)?;
        table.next_configurations(engine)?;
        table.next_table_links(engine)?;
        let count = take_byte(engine)?;
        let ghost start = engine.position();
        let ghost outer = p_font_table(d, old(engine).position());
        assert(p_fonts(d, start, count as nat) matches Parsed::Failed(f) ==> outer
            == Parsed::<FontTableModel>::Failed(f));
        let mut fonts: Vec<Font> = Vec::new();
        assert(fonts@.map_values(|f: Font| f@) =~= Seq::<FontModel>::empty());
        let mut i: u8 = 0;
        while i < count
            invariant
                outer == p_font_table(old(engine).data(), old(engine).position()),
                p_fonts(d, start, count as nat) matches Parsed::Failed(f) ==> outer == Parsed::<
                    FontTableModel,
                >::Failed(f),
                engine.wf(),
                engine.data() == d,
                d == old(engine).data(),
                engine.layout == old(engine).layout,
                i <= count,
                p_fonts(d, start, i as nat) == Parsed::Done(
                    fonts@.map_values(|f: Font| f@),
                    engine.position(),
                ),
            decreases count - i,
        {
            let ghost before = fonts@;
            match next_font(engine) {
                Ok(f) => {
                    fonts.push(f);
                    assert(fonts@.map_values(|f: Font| f@) =~= before.map_values(|f: Font| f@).push(
                        f@,
                    ));
                    i = i + 1;
                },
                Err(e) => {
                    proof {
                        lemma_p_fonts_failed(d, start, i as nat, count as nat);
                    }
                    return Err(e);
                },
            }
        }
        table.fonts = fonts;
        Ok(table)
    }
}


/// Writes a string: its UTF-8 bytes and a 0 byte.
pub(crate) fn push_string(w: &mut ByteWriter, string: &str) -> (r: Result<(), Failure<SerializeError>>)
    ensures
        wrote_as(ws_string(old(w)@, string@), r, final(w)@),
{
    put_bytes(w, string.as_bytes())?;
    put(w, 0)
}

/// Writes a font's name.
pub(crate) fn push_name(w: &mut ByteWriter, string: &str) -> (r: Result<(), Failure<SerializeError>>)
    ensures
        wrote_as(ws_string(old(w)@, string@), r, final(w)@),
{
    push_string(w, string)
}

/// Writes a font's author.
pub(crate) fn push_author(w: &mut ByteWriter, string: &str) -> (r: Result<(), Failure<SerializeError>>)
    ensures
        wrote_as(ws_string(old(w)@, string@), r, final(w)@),
{
    push_string(w, string)
}

/// Writes a font's version byte.
pub(crate) fn push_version(w: &mut ByteWriter, version: u8) -> (r: Result<(), Failure<SerializeError>>)
    ensures
        wrote_as(ws_push(old(w)@, version), r, final(w)@),
{
    put(w, version)
}

/// Writes a font's type byte.
pub(crate) fn push_font_type(w: &mut ByteWriter, font_type: FontType) -> (r: Result<(), Failure<SerializeError>>)
    ensures
        wrote_as(ws_push(old(w)@, crate::format::spec_font_type_byte(font_type)), r, final(w)@),
{
    put(w, font_type.to_u8())
}

/// Writes the indexes of the character tables a font uses.
pub(crate) fn push_character_table_indexes(w: &mut ByteWriter, character_table_indexes: &Vec<u8>) -> (r: Result<(), Failure<SerializeError>>)
    ensures
        wrote_as(ws_byte_list(old(w)@, character_table_indexes@), r, final(w)@),
{
    put_byte_list(w, character_table_indexes)
}

/// Writes one font record.
fn push_font(w: &mut ByteWriter, font: &Font) -> (r: Result<(), Failure<SerializeError>>)
    ensures
        wrote_as(ws_font(old(w)@, font@), r, final(w)@),
{
    push_name(w, font.name.as_str())?;
    push_author(w, font.author.as_str())?;
    push_version(w, font.version)?;
    push_font_type(w, font.font_type)?;
    push_character_table_indexes(w, &font.linked_character_table_indexes)
}

/// Once writing the first `i` records succeeded and record `i` fails,
/// writing all of `fs` fails the same way.
proof fn lemma_ws_fonts_failed(st: WriterState, fs: Seq<FontModel>, i: int)
    requires
        0 <= i < fs.len(),
        ws_fonts(st, fs.take(i)) matches Written::Done(st1) && ws_font(st1, fs[i]) is Failed,
    ensures
        ws_fonts(st, fs) matches Written::Failed(f) && ws_fonts(st, fs.take(i)) matches Written::Done(
            st1,
        ) && ws_font(st1, fs[i]) == Written::Failed(f),
    decreases fs.len(),
{
    if i < fs.len() - 1 {
        assert(fs.drop_last().take(i) =~= fs.take(i));
        lemma_ws_fonts_failed(st, fs.drop_last(), i);
    } else {
        assert(fs.drop_last() =~= fs.take(i));
    }
}

impl FontTable {
    /// Writes the table identifier byte.
    pub(crate) fn push_table_identifier(&self, w: &mut ByteWriter) -> (r: Result<(), Failure<SerializeError>>)
        ensures
            wrote_as(ws_push(old(w)@, 4), r, final(w)@),
    {
        put(w, crate::format::FONT_TABLE_ID)
    }

    /// Writes the modifier flag byte, always 0.
    pub(crate) fn push_modifier_flags(&self, w: &mut ByteWriter) -> (r: Result<(), Failure<SerializeError>>)
        ensures
            wrote_as(ws_push(old(w)@, 0), r, final(w)@),
    {
        put(w, 0b00000000)
    }

    /// Writes the configuration flag byte, always 0.
    pub(crate) fn push_configurations(&self, w: &mut ByteWriter) -> (r: Result<(), Failure<SerializeError>>)
        ensures
            wrote_as(ws_push(old(w)@, 0), r, final(w)@),
    {
        put(w, 0b00000000)
    }

    /// Writes the link flag byte, derived from whether links are set, and
    /// the links.
    pub(crate) fn push_table_links(&self, w: &mut ByteWriter) -> (r: Result<(), Failure<SerializeError>>)
        ensures
            wrote_as(ws_links(old(w)@, self@.character_table_indexes), r, final(w)@),
    {
        put_links(w, &self.character_table_indexes)
    }

    /// Writes the table, identifier byte first.
    pub(crate) fn serialize(&self, w: &mut ByteWriter) -> (r: Result<(), Failure<SerializeError>>)
        ensures
            wrote_as(ws_font_table(old(w)@, self@), r, final(w)@),
    {
        self.push_table_identifier(w)?;
        self.push_modifier_flags(w)?;
        self.push_configurations(w)?;
        self.push_table_links(w)?;
        if self.fonts.len() > 255 {
            return Err(Failure::Error(SerializeError::StaticVectorTooLarge));
        }
        put(w, self.fonts.len() as u8)?;
        let ghost st0 = w@;
        let ghost fs = self@.fonts;
        let ghost outer = ws_font_table(old(w)@, self@);
        assert(ws_fonts(st0, fs) matches Written::Failed(f) ==> outer == Written::Failed(f));
        assert(fs.take(0) =~= Seq::<FontModel>::empty());
        let mut i: usize = 0;
        while i < self.fonts.len()
            invariant
                outer == ws_font_table(old(w)@, self@),
                ws_fonts(st0, fs) matches Written::Failed(f) ==> outer == Written::Failed(f),
                fs == self@.fonts,
                fs.len() == self.fonts@.len(),
                i <= fs.len(),
                ws_fonts(st0, fs.take(i as int)) == Written::Done(w@),
            decreases fs.len() - i,
        {
            assert(fs.take(i as int + 1).drop_last() =~= fs.take(i as int));
            assert(fs[i as int] == self.fonts@[i as int]@);
            match push_font(w, &self.fonts[i]) {
                Ok(()) => {
                    i = i + 1;
                },
                Err(e) => {
                    proof {
                        lemma_ws_fonts_failed(st0, fs, i as int);
                    }
                    return Err(e);
                },
            }
        }
        assert(fs.take(fs.len() as int) =~= fs);
        Ok(())
    }
}

} // verus!
