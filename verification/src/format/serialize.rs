//! Writing a layout to bytes: the engine, the writing primitives, and the
//! file preamble.
use vstd::prelude::*;
use super::byte::{writer_wf, ByteWriter, WriterState};
use super::model::{
    magic, spec_layout_to_data, ws_bits, ws_byte_list, ws_bytes, ws_character_table,
    ws_character_tables, ws_color_table, ws_color_tables, ws_font_table, ws_font_tables,
    ws_layout, ws_links, ws_opt_byte, ws_pixmap_table, ws_pixmap_tables, ws_preamble, ws_push,
    Failure, Written,
};
use super::{
    CharacterTableModel, ColorTableModel, FontTableModel, Layout, PixmapTableModel,
    SerializeError, Version,
};

verus! {

/// Writes a [`Layout`] into a [`ByteWriter`].
pub struct SerializeEngine<'a> {
    /// The writer the layout is written to.
    pub bytes: ByteWriter,
    /// The [`Layout`] being serialized.
    pub layout: &'a Layout,
}

/// Whether `r` is what writing produced, given the spec outcome `w` and the
/// writer state `after` that writing left.
pub open spec fn wrote_as(w: Written, r: Result<(), Failure<SerializeError>>, after: WriterState) -> bool {
    match w {
        Written::Done(st) => r == Ok::<(), Failure<SerializeError>>(()) && after == st,
        Written::Failed(f) => r == Err::<(), Failure<SerializeError>>(f),
    }
}

impl<'a> SerializeEngine<'a> {
    /// An engine writing `layout` into an empty writer.
    pub fn from_layout(layout: &'a Layout) -> (r: Self)
        ensures
            r.bytes@ == super::model::empty_writer(),
            r.layout == layout,
    {
        SerializeEngine { bytes: ByteWriter::new(), layout }
    }

    /// The bytes written so far.
    pub fn data_owned(self) -> (r: Vec<u8>)
        ensures
            r@ == self.bytes@.bytes,
    {
        self.bytes.bytes
    }
}

/// Writes the whole byte `b`, unless the writer can no longer write.
pub(crate) fn put(w: &mut ByteWriter, b: u8) -> (r: Result<(), Failure<SerializeError>>)
    ensures
        wrote_as(ws_push(old(w)@, b), r, final(w)@),
{
    if w.pointer < 8 && (w.pointer == 0 || w.bytes.len() > 0) {
        w.push(b);
        Ok(())
    } else {
        Err(Failure::Malformed)
    }
}

/// Writes the low `n` bits of `b`, unless the writer can no longer write.
pub(crate) fn put_bits(w: &mut ByteWriter, b: u8, n: u8) -> (r: Result<(), Failure<SerializeError>>)
    ensures
        wrote_as(ws_bits(old(w)@, b, n), r, final(w)@),
{
    if w.pointer < 8 && (w.pointer == 0 || w.bytes.len() > 0) && n <= 255 - w.pointer {
        w.incomplete_push(b, n);
        Ok(())
    } else {
        Err(Failure::Malformed)
    }
}

/// Once writing a prefix of `s` fails, writing a longer prefix fails the
/// same way.
pub proof fn lemma_ws_bytes_failed(st: WriterState, s: Seq<u8>, i: int)
    requires
        0 <= i < s.len(),
        ws_bytes(st, s.take(i)) matches Written::Done(st1) && ws_push(st1, s[i]) is Failed,
    ensures
        ws_bytes(st, s) matches Written::Failed(f) && ws_bytes(st, s.take(i)) matches Written::Done(
            st1,
        ) && ws_push(st1, s[i]) == Written::Failed(f),
    decreases s.len(),
{
    if i < s.len() - 1 {
        assert(s.drop_last().take(i) =~= s.take(i));
        lemma_ws_bytes_failed(st, s.drop_last(), i);
    } else {
        assert(s.drop_last() =~= s.take(i));
    }
}

/// Writes the bytes of `s`, one after the other.
pub(crate) fn put_bytes(w: &mut ByteWriter, s: &[u8]) -> (r: Result<(), Failure<SerializeError>>)
    ensures
        wrote_as(ws_bytes(old(w)@, s@), r, final(w)@),
{
    let ghost st0 = w@;
    let mut i: usize = 0;
    assert(s@.take(0) =~= Seq::<u8>::empty());
    while i < s.len()
        invariant
            st0 == old(w)@,
            i <= s@.len(),
            ws_bytes(st0, s@.take(i as int)) == Written::Done(w@),
        decreases s@.len() - i,
    {
        let ghost before = w@;
        assert(s@.take(i as int + 1).drop_last() =~= s@.take(i as int));
        match put(w, s[i]) {
            Ok(()) => {
                i = i + 1;
            },
            Err(e) => {
                proof {
                    lemma_ws_bytes_failed(st0, s@, i as int);
                }
                return Err(e);
            },
        }
    }
    assert(s@.take(s@.len() as int) =~= s@);
    Ok(())
}

/// Writes an optional byte that the flags call for when `present` holds.
pub(crate) fn put_opt_byte(w: &mut ByteWriter, o: Option<u8>, present: bool) -> (r: Result<(), Failure<SerializeError>>)
    ensures
        wrote_as(ws_opt_byte(old(w)@, o, present), r, final(w)@),
{
    if present {
        match o {
            Some(b) => put(w, b),
            None => Err(Failure::Malformed),
        }
    } else {
        Ok(())
    }
}

/// Writes a length byte and the bytes of `v`.
pub(crate) fn put_byte_list(w: &mut ByteWriter, v: &Vec<u8>) -> (r: Result<(), Failure<SerializeError>>)
    ensures
        wrote_as(ws_byte_list(old(w)@, v@), r, final(w)@),
{
    if v.len() > 255 {
        return Err(Failure::Error(SerializeError::StaticVectorTooLarge));
    }
    put(w, v.len() as u8)?;
    put_bytes(w, v.as_slice())
}

/// Writes a link flag byte (1 when `v` is set) and, when set, the list.
pub(crate) fn put_links(w: &mut ByteWriter, v: &Option<Vec<u8>>) -> (r: Result<(), Failure<SerializeError>>)
    ensures
        wrote_as(ws_links(old(w)@, super::opt_seq(*v)), r, final(w)@),
{
    match v {
        Some(v) => {
            put(w, 1)?;
            put_byte_list(w, v)
        },
        None => put(w, 0),
    }
}

/// Writes the four signature bytes.
pub(crate) fn push_signature(w: &mut ByteWriter) -> (r: Result<(), Failure<SerializeError>>)
    ensures
        wrote_as(ws_bytes(old(w)@, magic()), r, final(w)@),
{
    let signature: [u8; 4] = [127, 102, 115, 70];
    assert(signature@ =~= magic());
    put_bytes(w, &signature)
}

/// Writes the version byte.
pub(crate) fn push_version(w: &mut ByteWriter, version: Version) -> (r: Result<(), Failure<SerializeError>>)
    ensures
        wrote_as(ws_push(old(w)@, super::spec_version_byte(version)), r, final(w)@),
{
    put(w, version.to_u8())
}

/// Writes the header byte: bit 0 is the compact flag.
pub(crate) fn push_header(w: &mut ByteWriter, compact: bool) -> (r: Result<(), Failure<SerializeError>>)
    ensures
        wrote_as(ws_push(old(w)@, if compact { 1u8 } else { 0u8 }), r, final(w)@),
{
    let mut font_properties: u8 = 0b00000000;
    if compact {
        font_properties = font_properties | 0b00000001;
        assert(0u8 | 1u8 == 1u8) by (bit_vector);
    }
    put(w, font_properties)
}

/// Once writing the first `i` tables succeeded and table `i` fails, writing
/// all of `ts` fails the same way.
proof fn lemma_ws_character_tables_failed(st: WriterState, ts: Seq<CharacterTableModel>, i: int)
    requires
        0 <= i < ts.len(),
        ws_character_tables(st, ts.take(i)) matches Written::Done(st1) && ws_character_table(st1, ts[i]) is Failed,
    ensures
        ws_character_tables(st, ts) matches Written::Failed(f) && ws_character_tables(st, ts.take(i)) matches Written::Done(
            st1,
        ) && ws_character_table(st1, ts[i]) == Written::Failed(f),
    decreases ts.len(),
{
    if i < ts.len() - 1 {
        assert(ts.drop_last().take(i) =~= ts.take(i));
        lemma_ws_character_tables_failed(st, ts.drop_last(), i);
    } else {
        assert(ts.drop_last() =~= ts.take(i));
    }
}

/// Once writing the first `i` tables succeeded and table `i` fails, writing
/// all of `ts` fails the same way.
proof fn lemma_ws_pixmap_tables_failed(st: WriterState, ts: Seq<PixmapTableModel>, compact: bool, i: int)
    requires
        0 <= i < ts.len(),
        ws_pixmap_tables(st, ts.take(i), compact) matches Written::Done(st1) && ws_pixmap_table(st1, ts[i], compact) is Failed,
    ensures
        ws_pixmap_tables(st, ts, compact) matches Written::Failed(f) && ws_pixmap_tables(st, ts.take(i), compact) matches Written::Done(
            st1,
        ) && ws_pixmap_table(st1, ts[i], compact) == Written::Failed(f),
    decreases ts.len(),
{
    if i < ts.len() - 1 {
        assert(ts.drop_last().take(i) =~= ts.take(i));
        lemma_ws_pixmap_tables_failed(st, ts.drop_last(), compact, i);
    } else {
        assert(ts.drop_last() =~= ts.take(i));
    }
}

/// Once writing the first `i` tables succeeded and table `i` fails, writing
/// all of `ts` fails the same way.
proof fn lemma_ws_color_tables_failed(st: WriterState, ts: Seq<ColorTableModel>, i: int)
    requires
        0 <= i < ts.len(),
        ws_color_tables(st, ts.take(i)) matches Written::Done(st1) && ws_color_table(st1, ts[i]) is Failed,
    ensures
        ws_color_tables(st, ts) matches Written::Failed(f) && ws_color_tables(st, ts.take(i)) matches Written::Done(
            st1,
        ) && ws_color_table(st1, ts[i]) == Written::Failed(f),
    decreases ts.len(),
{
    if i < ts.len() - 1 {
        assert(ts.drop_last().take(i) =~= ts.take(i));
        lemma_ws_color_tables_failed(st, ts.drop_last(), i);
    } else {
        assert(ts.drop_last() =~= ts.take(i));
    }
}

/// Once writing the first `i` tables succeeded and table `i` fails, writing
/// all of `ts` fails the same way.
proof fn lemma_ws_font_tables_failed(st: WriterState, ts: Seq<FontTableModel>, i: int)
    requires
        0 <= i < ts.len(),
        ws_font_tables(st, ts.take(i)) matches Written::Done(st1) && ws_font_table(st1, ts[i]) is Failed,
    ensures
        ws_font_tables(st, ts) matches Written::Failed(f) && ws_font_tables(st, ts.take(i)) matches Written::Done(
            st1,
        ) && ws_font_table(st1, ts[i]) == Written::Failed(f),
    decreases ts.len(),
{
    if i < ts.len() - 1 {
        assert(ts.drop_last().take(i) =~= ts.take(i));
        lemma_ws_font_tables_failed(st, ts.drop_last(), i);
    } else {
        assert(ts.drop_last() =~= ts.take(i));
    }
}

/// Writes the signature, version and header of `layout`.
fn push_preamble(w: &mut ByteWriter, layout: &Layout) -> (r: Result<(), Failure<SerializeError>>)
    ensures
        wrote_as(ws_preamble(old(w)@, layout@), r, final(w)@),
{
    push_signature(w)?;
    push_version(w, layout.version)?;
    push_header(w, layout.compact)
}

/// Writes every character table of `layout`.
fn push_character_tables(w: &mut ByteWriter, layout: &Layout) -> (r: Result<(), Failure<SerializeError>>)
    ensures
        wrote_as(ws_character_tables(old(w)@, layout@.character_tables), r, final(w)@),
{
    let ghost st0 = w@;
    let ghost ts = layout@.character_tables;
    assert(ts.take(0) =~= Seq::<CharacterTableModel>::empty());
    let mut i: usize = 0;
    while i < layout.character_tables.len()
        invariant
            st0 == old(w)@,
            ts == layout@.character_tables,
            ts.len() == layout.character_tables@.len(),
            i <= ts.len(),
            ws_character_tables(st0, ts.take(i as int)) == Written::Done(w@),
        decreases ts.len() - i,
    {
        assert(ts.take(i as int + 1).drop_last() =~= ts.take(i as int));
        assert(ts[i as int] == layout.character_tables@[i as int]@);
        match layout.character_tables[i].serialize(w) {
            Ok(()) => {
                i = i + 1;
            },
            Err(e) => {
                proof {
                    lemma_ws_character_tables_failed(st0, ts, i as int);
                }
                return Err(e);
            },
        }
    }
    assert(ts.take(ts.len() as int) =~= ts);
    Ok(())
}

/// Writes every pixmap table of `layout`.
fn push_pixmap_tables(w: &mut ByteWriter, layout: &Layout) -> (r: Result<(), Failure<SerializeError>>)
    ensures
        wrote_as(ws_pixmap_tables(old(w)@, layout@.pixmap_tables, layout.compact), r, final(w)@),
{
    let ghost st0 = w@;
    let ghost ts = layout@.pixmap_tables;
    assert(ts.take(0) =~= Seq::<PixmapTableModel>::empty());
    let mut i: usize = 0;
    while i < layout.pixmap_tables.len()
        invariant
            st0 == old(w)@,
            ts == layout@.pixmap_tables,
            ts.len() == layout.pixmap_tables@.len(),
            i <= ts.len(),
            ws_pixmap_tables(st0, ts.take(i as int), layout.compact) == Written::Done(w@),
        decreases ts.len() - i,
    {
        assert(ts.take(i as int + 1).drop_last() =~= ts.take(i as int));
        assert(ts[i as int] == layout.pixmap_tables@[i as int]@);
        match layout.pixmap_tables[i].serialize(w, layout.compact) {
            Ok(()) => {
                i = i + 1;
            },
            Err(e) => {
                proof {
                    lemma_ws_pixmap_tables_failed(st0, ts, layout.compact, i as int);
                }
                return Err(e);
            },
        }
    }
    assert(ts.take(ts.len() as int) =~= ts);
    Ok(())
}

/// Writes every color table of `layout`.
fn push_color_tables(w: &mut ByteWriter, layout: &Layout) -> (r: Result<(), Failure<SerializeError>>)
    ensures
        wrote_as(ws_color_tables(old(w)@, layout@.color_tables), r, final(w)@),
{
    let ghost st0 = w@;
    let ghost ts = layout@.color_tables;
    assert(ts.take(0) =~= Seq::<ColorTableModel>::empty());
    let mut i: usize = 0;
    while i < layout.color_tables.len()
        invariant
            st0 == old(w)@,
            ts == layout@.color_tables,
            ts.len() == layout.color_tables@.len(),
            i <= ts.len(),
            ws_color_tables(st0, ts.take(i as int)) == Written::Done(w@),
        decreases ts.len() - i,
    {
        assert(ts.take(i as int + 1).drop_last() =~= ts.take(i as int));
        assert(ts[i as int] == layout.color_tables@[i as int]@);
        match layout.color_tables[i].serialize(w) {
            Ok(()) => {
                i = i + 1;
            },
            Err(e) => {
                proof {
                    lemma_ws_color_tables_failed(st0, ts, i as int);
                }
                return Err(e);
            },
        }
    }
    assert(ts.take(ts.len() as int) =~= ts);
    Ok(())
}

/// Writes every font table of `layout`.
fn push_font_tables(w: &mut ByteWriter, layout: &Layout) -> (r: Result<(), Failure<SerializeError>>)
    ensures
        wrote_as(ws_font_tables(old(w)@, layout@.font_tables), r, final(w)@),
{
    let ghost st0 = w@;
    let ghost ts = layout@.font_tables;
    assert(ts.take(0) =~= Seq::<FontTableModel>::empty());
    let mut i: usize = 0;
    while i < layout.font_tables.len()
        invariant
            st0 == old(w)@,
            ts == layout@.font_tables,
            ts.len() == layout.font_tables@.len(),
            i <= ts.len(),
            ws_font_tables(st0, ts.take(i as int)) == Written::Done(w@),
        decreases ts.len() - i,
    {
        assert(ts.take(i as int + 1).drop_last() =~= ts.take(i as int));
        assert(ts[i as int] == layout.font_tables@[i as int]@);
        match layout.font_tables[i].serialize(w) {
            Ok(()) => {
                i = i + 1;
            },
            Err(e) => {
                proof {
                    lemma_ws_font_tables_failed(st0, ts, i as int);
                }
                return Err(e);
            },
        }
    }
    assert(ts.take(ts.len() as int) =~= ts);
    Ok(())
}

/// Writes the engine's whole layout: the preamble, then the character,
/// pixmap, color and font tables, in that order.
pub(crate) fn serialize_layout(engine: &mut SerializeEngine) -> (r: Result<(), Failure<SerializeError>>)
    ensures
        final(engine).layout == old(engine).layout,
        wrote_as(ws_layout(old(engine).bytes@, old(engine).layout@), r, final(engine).bytes@),
{
    let layout = engine.layout;
    push_preamble(&mut engine.bytes, layout)?;
    push_character_tables(&mut engine.bytes, layout)?;
    push_pixmap_tables(&mut engine.bytes, layout)?;
    push_color_tables(&mut engine.bytes, layout)?;
    push_font_tables(&mut engine.bytes, layout)
}

/// Writes the engine's layout after what its writer already holds.
///
/// Requires that the layout be one that the format's code can write (see
/// [`Failure::Malformed`]); [`try_serialize_with_engine`] checks this.
pub fn serialize_with_engine(engine: &mut SerializeEngine) -> (r: Result<(), SerializeError>)
    requires
        !(ws_layout(old(engine).bytes@, old(engine).layout@) matches Written::Failed(Failure::Malformed)),
    ensures
        final(engine).layout == old(engine).layout,
        match ws_layout(old(engine).bytes@, old(engine).layout@) {
            Written::Done(st) => r is Ok && final(engine).bytes@ == st,
            Written::Failed(Failure::Error(e)) => r == Err::<(), SerializeError>(e),
            Written::Failed(Failure::Malformed) => false,
        },
{
    match serialize_layout(engine) {
        Ok(()) => Ok(()),
        Err(Failure::Error(e)) => Err(e),
        Err(Failure::Malformed) => {
            assert(false);
            Err(SerializeError::StaticVectorTooLarge)
        },
    }
}

/// Like [`serialize_with_engine`], for any layout: `None` when the layout
/// holds what the format's code cannot write.
pub fn try_serialize_with_engine(engine: &mut SerializeEngine) -> (r: Option<Result<(), SerializeError>>)
    ensures
        final(engine).layout == old(engine).layout,
        match ws_layout(old(engine).bytes@, old(engine).layout@) {
            Written::Done(st) => r == Some(Ok::<(), SerializeError>(())) && final(engine).bytes@ == st,
            Written::Failed(Failure::Error(e)) => r == Some(Err::<(), SerializeError>(e)),
            Written::Failed(Failure::Malformed) => r is None,
        },
{
    match serialize_layout(engine) {
        Ok(()) => Some(Ok(())),
        Err(Failure::Error(e)) => Some(Err(e)),
        Err(Failure::Malformed) => None,
    }
}

/// Encodes `layout` into `.spf` bytes.
///
/// Requires that the layout be one that the format's code can write (see
/// [`Failure::Malformed`]); [`try_layout_to_data`] checks this.
pub fn layout_to_data(layout: &Layout) -> (r: Result<Vec<u8>, SerializeError>)
    requires
        !(spec_layout_to_data(layout@) matches Err(Failure::Malformed)),
    ensures
        match spec_layout_to_data(layout@) {
            Ok(d) => r matches Ok(v) && v@ == d,
            Err(Failure::Error(e)) => r == Err::<Vec<u8>, SerializeError>(e),
            Err(Failure::Malformed) => false,
        },
{
    let mut engine = SerializeEngine::from_layout(layout);
    serialize_with_engine(&mut engine)?;
    Ok(engine.data_owned())
}

/// Like [`layout_to_data`], for any layout: `None` when the layout holds
/// what the format's code cannot write.
pub fn try_layout_to_data(layout: &Layout) -> (r: Option<Result<Vec<u8>, SerializeError>>)
    ensures
        match spec_layout_to_data(layout@) {
            Ok(d) => r matches Some(Ok(v)) && v@ == d,
            Err(Failure::Error(e)) => r == Some(Err::<Vec<u8>, SerializeError>(e)),
            Err(Failure::Malformed) => r is None,
        },
{
    let mut engine = SerializeEngine::from_layout(layout);
    match try_serialize_with_engine(&mut engine) {
        Some(Ok(())) => Some(Ok(engine.data_owned())),
        Some(Err(e)) => Some(Err(e)),
        None => None,
    }
}

} // verus!
