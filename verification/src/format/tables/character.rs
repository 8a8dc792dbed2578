//! Character tables.
use vstd::prelude::*;
use crate::format::byte::ByteReader;
use crate::format::deserialize::{
    next_code_points, read_as, take_byte, take_opt_byte, take_opt_byte_list, DeserializeEngine,
};
use crate::format::model::{
    p_byte, p_character, p_character_table, p_characters, p_code_points_from, p_opt_byte,
    p_opt_byte_list, Cursor, Failure, Parsed,
};
use crate::format::byte::{ByteWriter, WriterState};
use crate::format::model::{
    ws_character, ws_character_table, ws_characters, ws_code_points, ws_count, ws_links,
    ws_opt_byte, ws_push, Written,
};
use crate::format::serialize::{put, put_bytes, put_links, put_opt_byte, wrote_as};
use crate::format::{
    Character, CharacterModel, CharacterTable, CharacterTableConfigurationFlags,
    CharacterTableLinkFlags, CharacterTableModel, CharacterTableModifierFlags, DeserializeError,
    SerializeError,
};

verus! {

/// Once reading `i` records succeeded and record `i + 1` fails, reading
/// `n > i` records fails the same way.
proof fn lemma_p_characters_failed(
    d: Seq<u8>,
    c: Cursor,
    i: nat,
    n: nat,
    modifiers: u8,
    constant: Option<u8>,
)
    requires
        i < n,
        p_characters(d, c, i, modifiers, constant) matches Parsed::Done(_, c1) && p_character(
            d,
            c1,
            modifiers,
            constant,
        ) is Failed,
    ensures
        p_characters(d, c, n, modifiers, constant) matches Parsed::Failed(f) && p_characters(
            d,
            c,
            i,
            modifiers,
            constant,
        ) matches Parsed::Done(_, c1) && p_character(d, c1, modifiers, constant)
            == Parsed::<CharacterModel>::Failed(f),
    decreases n,
{
    if n > i + 1 {
        lemma_p_characters_failed(d, c, i, (n - 1) as nat, modifiers, constant);
    }
}

/// Reads one character record of a table with the given modifier flags.
pub(crate) fn next_character<R: ByteReader>(
    engine: &mut DeserializeEngine<R>,
    modifiers: u8,
    constant: Option<u8>,
) -> (r: Result<Character, Failure<DeserializeError>>)
    requires
        old(engine).wf(),
    ensures
        final(engine).wf(),
        final(engine).data() == old(engine).data(),
        final(engine).layout == old(engine).layout,
        match p_character(old(engine).data(), old(engine).position(), modifiers, constant) {
            Parsed::Done(m, c) => r matches Ok(v) && v@ == m && final(engine).position() == c,
            Parsed::Failed(f) => r == Err::<Character, Failure<DeserializeError>>(f),
        },
{
    let advance_x = take_opt_byte(engine, modifiers & 1 == 1)?;
    let pixmap_index = take_opt_byte(engine, modifiers & 2 == 2)?;
    let pixmap_table_index = take_opt_byte(engine, modifiers & 4 == 4)?;
    let code_points = next_code_points(engine, constant)?;
    Ok(Character { advance_x, pixmap_index, pixmap_table_index, code_points })
}

impl CharacterTable {
    /// A table with no flags, no values and no characters.
    pub fn empty() -> (r: Self)
        ensures
            r@ == (CharacterTableModel {
                modifier_flags: 0,
                configuration_flags: 0,
                constant_code_point_count: None,
                link_flags: 0,
                pixmap_table_indexes: None,
                characters: Seq::empty(),
            }),
    {
        let r = CharacterTable {
            modifier_flags: CharacterTableModifierFlags::empty(),
            configuration_flags: CharacterTableConfigurationFlags::empty(),
            constant_code_point_count: None,
            link_flags: CharacterTableLinkFlags::empty(),
            pixmap_table_indexes: None,
            characters: Vec::new(),
        };
        assert(r@.characters =~= Seq::<CharacterModel>::empty());
        r
    }

    /// Reads the modifier flag byte.
    pub(crate) fn next_modifer_flags<R: ByteReader>(&mut self, engine: &mut DeserializeEngine<R>) -> (r: Result<(), Failure<DeserializeError>>)
        requires
            old(engine).wf(),
        ensures
            final(engine).wf(),
            final(engine).data() == old(engine).data(),
            final(engine).layout == old(engine).layout,
            match p_byte(old(engine).data(), old(engine).position()) {
                Parsed::Done(b, c) => r is Ok && final(engine).position() == c
                    && final(self)@ == (CharacterTableModel { modifier_flags: b, ..old(self)@ }),
                Parsed::Failed(f) => r == Err::<(), Failure<DeserializeError>>(f),
            },
    {
        let b = take_byte(engine)?;
        self.modifier_flags = CharacterTableModifierFlags::from_bits_retain(b);
        Ok(())
    }

    /// Reads the configuration flag byte and the values it calls for.
    pub(crate) fn next_configurations<R: ByteReader>(&mut self, engine: &mut DeserializeEngine<R>) -> (r: Result<(), Failure<DeserializeError>>)
        requires
            old(engine).wf(),
        ensures
            final(engine).wf(),
            final(engine).data() == old(engine).data(),
            final(engine).layout == old(engine).layout,
            match p_byte(old(engine).data(), old(engine).position()) {
                Parsed::Done(b, c1) => match p_opt_byte(old(engine).data(), c1, b & 1 == 1) {
                    Parsed::Done(k, c2) => r is Ok && final(engine).position() == c2
                        && final(self)@ == (CharacterTableModel {
                            configuration_flags: b,
                            constant_code_point_count: if b & 1 == 1 {
                                k
                            } else {
                                old(self)@.constant_code_point_count
                            },
                            ..old(self)@
                        }),
                    Parsed::Failed(f) => r == Err::<(), Failure<DeserializeError>>(f),
                },
                Parsed::Failed(f) => r == Err::<(), Failure<DeserializeError>>(f),
            },
    {
        let b = take_byte(engine)?;
        self.configuration_flags = CharacterTableConfigurationFlags::from_bits_retain(b);
        if self.configuration_flags.contains(
            CharacterTableConfigurationFlags::constant_code_point_count(),
        ) {
            let k = take_byte(engine)?;
            self.constant_code_point_count = Some(k);
        }
        Ok(())
    }

    /// Reads the link flag byte and the links it calls for.
    pub(crate) fn next_table_links<R: ByteReader>(&mut self, engine: &mut DeserializeEngine<R>) -> (r: Result<(), Failure<DeserializeError>>)
        requires
            old(engine).wf(),
        ensures
            final(engine).wf(),
            final(engine).data() == old(engine).data(),
            final(engine).layout == old(engine).layout,
            match p_byte(old(engine).data(), old(engine).position()) {
                Parsed::Done(b, c1) => match p_opt_byte_list(old(engine).data(), c1, b & 1 == 1) {
                    Parsed::Done(v, c2) => r is Ok && final(engine).position() == c2
                        && final(self)@ == (CharacterTableModel {
                            link_flags: b,
                            pixmap_table_indexes: if b & 1 == 1 {
                                v
                            } else {
                                old(self)@.pixmap_table_indexes
                            },
                            ..old(self)@
                        }),
                    Parsed::Failed(f) => r == Err::<(), Failure<DeserializeError>>(f),
                },
                Parsed::Failed(f) => r == Err::<(), Failure<DeserializeError>>(f),
            },
    {
        let b = take_byte(engine)?;
        self.link_flags = CharacterTableLinkFlags::from_bits_retain(b);
        if self.link_flags.contains(CharacterTableLinkFlags::link_pixmap_tables()) {
            let v = take_opt_byte_list(engine, true)?;
            self.pixmap_table_indexes = v;
        }
        Ok(())
    }

    /// Reads a character table whose identifier byte has been read.
    pub(crate) fn deserialize<R: ByteReader>(engine: &mut DeserializeEngine<R>) -> (r: Result<CharacterTable, Failure<DeserializeError>>)
        requires
            old(engine).wf(),
        ensures
            final(engine).wf(),
            final(engine).data() == old(engine).data(),
            final(engine).layout == old(engine).layout,
            match p_character_table(old(engine).data(), old(engine).position()) {
                Parsed::Done(m, c) => r matches Ok(v) && v@ == m && final(engine).position() == c,
                Parsed::Failed(f) => r == Err::<CharacterTable, Failure<DeserializeError>>(f),
            },
    {
        let ghost d = engine.data();
        let mut table = CharacterTable::empty();
        table.next_modifer_flags(engine)?;
        table.next_configurations(engine)?;
        table.next_table_links(engine)?;
        let count = take_byte(engine)?;
        let modifiers = table.modifier_flags.bits();
        let constant = table.constant_code_point_count;
        let ghost start = engine.position();
        let ghost outer = p_character_table(d, old(engine).position());
        assert(p_characters(d, start, count as nat, modifiers, constant) matches Parsed::Failed(f)
            ==> outer == Parsed::<CharacterTableModel>::Failed(f));
        let mut characters: Vec<Character> = Vec::new();
        assert(characters@.map_values(|c: Character| c@) =~= Seq::<CharacterModel>::empty());
        let mut i: u8 = 0;
        while i < count
            invariant
                outer == p_character_table(old(engine).data(), old(engine).position()),
                p_characters(d, start, count as nat, modifiers, constant) matches Parsed::Failed(f)
                    ==> outer == Parsed::<CharacterTableModel>::Failed(f),
                engine.wf(),
                engine.data() == d,
                d == old(engine).data(),
                engine.layout == old(engine).layout,
                i <= count,
                p_characters(d, start, i as nat, modifiers, constant) == Parsed::Done(
                    characters@.map_values(|c: Character| c@),
                    engine.position(),
                ),
            decreases count - i,
        {
            let ghost before = characters@;
            match next_character(engine, modifiers, constant) {
                Ok(ch) => {
                    characters.push(ch);
                    assert(characters@.map_values(|c: Character| c@) =~= before.map_values(
                        |c: Character| c@,
                    ).push(ch@));
                    i = i + 1;
                },
                Err(e) => {
                    proof {
                        lemma_p_characters_failed(d, start, i as nat, count as nat, modifiers, constant);
                    }
                    return Err(e);
                },
            }
        }
        table.characters = characters;
        Ok(table)
    }
}


/// Writes the UTF-8 bytes of `string`, then a 0 byte unless the table has a
/// constant code point count.
pub(crate) fn push_grapheme_cluster(w: &mut ByteWriter, constant_code_point_count: Option<u8>, string: &String) -> (r: Result<(), Failure<SerializeError>>)
    ensures
        wrote_as(ws_code_points(old(w)@, string@, constant_code_point_count), r, final(w)@),
{
    let bytes = string.as_str().as_bytes();
    put_bytes(w, bytes)?;
    if constant_code_point_count.is_none() {
        put(w, 0)?;
    }
    Ok(())
}

/// Once writing the first `i` records succeeded and record `i` fails,
/// writing all of `cs` fails the same way.
proof fn lemma_ws_characters_failed(st: WriterState, cs: Seq<CharacterModel>, t: CharacterTableModel, i: int)
    requires
        0 <= i < cs.len(),
        ws_characters(st, cs.take(i), t) matches Written::Done(st1) && ws_character(st1, cs[i], t) is Failed,
    ensures
        ws_characters(st, cs, t) matches Written::Failed(f) && ws_characters(st, cs.take(i), t) matches Written::Done(
            st1,
        ) && ws_character(st1, cs[i], t) == Written::Failed(f),
    decreases cs.len(),
{
    if i < cs.len() - 1 {
        assert(cs.drop_last().take(i) =~= cs.take(i));
        lemma_ws_characters_failed(st, cs.drop_last(), t, i);
    } else {
        assert(cs.drop_last() =~= cs.take(i));
    }
}

impl CharacterTable {
    /// Writes the table identifier byte.
    pub(crate) fn push_table_identifier(&self, w: &mut ByteWriter) -> (r: Result<(), Failure<SerializeError>>)
        ensures
            wrote_as(ws_push(old(w)@, 1), r, final(w)@),
    {
        put(w, crate::format::CHARACTER_TABLE_ID)
    }

    /// Writes the modifier flag byte.
    pub(crate) fn push_modifier_flags(&self, w: &mut ByteWriter) -> (r: Result<(), Failure<SerializeError>>)
        ensures
            wrote_as(ws_push(old(w)@, self@.modifier_flags), r, final(w)@),
    {
        put(w, self.modifier_flags.bits())
    }

    /// Writes the configuration flag byte, derived from which values are
    /// set, and those values.
    pub(crate) fn push_configurations(&self, w: &mut ByteWriter) -> (r: Result<(), Failure<SerializeError>>)
        ensures
            match ws_push(old(w)@, if self.constant_code_point_count is Some { 1u8 } else { 0u8 }) {
                Written::Done(st) => wrote_as(ws_opt_byte(st, self.constant_code_point_count, self.constant_code_point_count is Some), r, final(w)@),
                Written::Failed(f) => r == Err::<(), Failure<SerializeError>>(f),
            },
    {
        let mut configuration_flags: u8 = 0b00000000;
        if self.constant_code_point_count.is_some() {
            configuration_flags = configuration_flags | 0b00000001;
            assert(0u8 | 1u8 == 1u8) by (bit_vector);
        }
        put(w, configuration_flags)?;
        put_opt_byte(w, self.constant_code_point_count, self.constant_code_point_count.is_some())
    }

    /// Writes the link flag byte, derived from whether links are set, and
    /// the links.
    pub(crate) fn push_table_links(&self, w: &mut ByteWriter) -> (r: Result<(), Failure<SerializeError>>)
        ensures
            wrote_as(ws_links(old(w)@, self@.pixmap_table_indexes), r, final(w)@),
    {
        put_links(w, &self.pixmap_table_indexes)
    }

    /// Writes one character record.
    fn push_character(&self, w: &mut ByteWriter, character: &Character) -> (r: Result<(), Failure<SerializeError>>)
        ensures
            wrote_as(ws_character(old(w)@, character@, self@), r, final(w)@),
    {
        let modifiers = self.modifier_flags.bits();
        put_opt_byte(w, character.advance_x, modifiers & 1 == 1)?;
        put_opt_byte(w, character.pixmap_index, modifiers & 2 == 2)?;
        put_opt_byte(w, character.pixmap_table_index, modifiers & 4 == 4)?;
        push_grapheme_cluster(w, self.constant_code_point_count, &character.code_points)
    }

    /// Writes the table, identifier byte first.
    pub(crate) fn serialize(&self, w: &mut ByteWriter) -> (r: Result<(), Failure<SerializeError>>)
        ensures
            wrote_as(ws_character_table(old(w)@, self@), r, final(w)@),
    {
        self.push_table_identifier(w)?;
        self.push_modifier_flags(w)?;
        self.push_configurations(w)?;
        self.push_table_links(w)?;
        if self.characters.len() > 255 {
            return Err(Failure::Error(SerializeError::StaticVectorTooLarge));
        }
        put(w, self.characters.len() as u8)?;
        let ghost st0 = w@;
        let ghost cs = self@.characters;
        let ghost outer = ws_character_table(old(w)@, self@);
        assert(ws_characters(st0, cs, self@) matches Written::Failed(f) ==> outer == Written::Failed(f));
        assert(cs.take(0) =~= Seq::<CharacterModel>::empty());
        let mut i: usize = 0;
        while i < self.characters.len()
            invariant
                outer == ws_character_table(old(w)@, self@),
                ws_characters(st0, cs, self@) matches Written::Failed(f) ==> outer == Written::Failed(f),
                cs == self@.characters,
                cs.len() == self.characters@.len(),
                i <= cs.len(),
                ws_characters(st0, cs.take(i as int), self@) == Written::Done(w@),
            decreases cs.len() - i,
        {
            assert(cs.take(i as int + 1).drop_last() =~= cs.take(i as int));
            assert(cs[i as int] == self.characters@[i as int]@);
            match self.push_character(w, &self.characters[i]) {
                Ok(()) => {
                    i = i + 1;
                },
                Err(e) => {
                    proof {
                        lemma_ws_characters_failed(st0, cs, self@, i as int);
                    }
                    return Err(e);
                },
            }
        }
        assert(cs.take(cs.len() as int) =~= cs);
        Ok(())
    }
}

} // verus!
