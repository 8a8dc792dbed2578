//! Reading a layout from bytes: the engine, the reading primitives, and the
//! file preamble.
use vstd::prelude::*;
use super::byte::{get_bit, ByteReader, ByteReaderImpl};
use super::model::{
    lead_width, lemma_p_code_point_advances, p_byte, p_bytes, p_byte_list, p_code_point,
    p_code_points_from, p_header, p_opt_byte, p_opt_byte_list, p_signature, p_string_from,
    p_version, empty_layout, Cursor, Failure, Parsed,
};
use super::text::{char_from_u32, decode_scalar, lemma_lead_width, string_push};
use super::model::{
    add_character_table, add_color_table, add_font_table, add_pixmap_table, bytes_left,
    lemma_p_table_advances, more_tables, p_layout_at, p_table, p_tables, spec_layout_from_data,
};
use super::{
    CharacterTable, CharacterTableModel, ColorTable, ColorTableModel, DeserializeError, FontTable,
    FontTableModel, Layout, LayoutModel, PixmapTable, PixmapTableModel, TableIdentifier, Version,
};
use vstd::utf8::{char_u32_cast, decode_first_scalar};

verus! {

/// Reads a [`Layout`] from a [`ByteReader`].
pub struct DeserializeEngine<R: ByteReader> {
    /// The reader the layout is read from.
    pub bytes: R,
    /// The [`Layout`] built up so far as tables are read from `bytes`.
    pub layout: Layout,
}

/// The read position of a reader.
pub open spec fn cursor<R: ByteReader>(r: &R) -> Cursor {
    Cursor { index: r.spec_index(), pointer: r.spec_pointer() }
}

/// Whether `r` is what reading produced, given the spec outcome `p` and the
/// cursor `after` that reading left.
pub open spec fn read_as<T>(p: Parsed<T>, r: Result<T, Failure<DeserializeError>>, after: Cursor) -> bool {
    match p {
        Parsed::Done(v, c) => r == Ok::<T, Failure<DeserializeError>>(v) && after == c,
        Parsed::Failed(f) => r == Err::<T, Failure<DeserializeError>>(f),
    }
}

impl<R: ByteReader> DeserializeEngine<R> {
    /// The bytes this engine reads.
    pub open spec fn data(&self) -> Seq<u8> {
        self.bytes.data()
    }

    /// The engine's read position.
    pub open spec fn position(&self) -> Cursor {
        cursor(&self.bytes)
    }

    /// Whether the engine's reader is consistent.
    pub open spec fn wf(&self) -> bool {
        self.bytes.reader_wf()
    }

    /// An engine reading from `reader`, with an empty layout.
    pub fn from_reader(reader: R) -> (r: Self)
        requires
            reader.reader_wf(),
        ensures
            r.wf(),
            r.data() == reader.data(),
            r.position() == cursor(&reader),
            r.layout@ == empty_layout(Version::FV0, false),
    {
        DeserializeEngine { bytes: reader, layout: Layout::empty() }
    }
}

impl<'a> DeserializeEngine<ByteReaderImpl<'a>> {
    /// An engine reading `data` from its start, with an empty layout.
    pub fn from_data(data: &'a [u8]) -> (r: Self)
        ensures
            r.wf(),
            r.data() == data@,
            r.position() == (Cursor { index: 0, pointer: 0 }),
            r.layout@ == empty_layout(Version::FV0, false),
    {
        DeserializeEngine { bytes: ByteReaderImpl::from(data), layout: Layout::empty() }
    }
}

/// Reads eight bits, failing at the end of the data.
pub(crate) fn take_byte<R: ByteReader>(engine: &mut DeserializeEngine<R>) -> (r: Result<u8, Failure<DeserializeError>>)
    requires
        old(engine).wf(),
    ensures
        final(engine).wf(),
        final(engine).data() == old(engine).data(),
        final(engine).layout == old(engine).layout,
        read_as(p_byte(old(engine).data(), old(engine).position()), r, final(engine).position()),
{
    if engine.bytes.index() < engine.bytes.len() {
        Ok(engine.bytes.next())
    } else {
        Err(Failure::Error(DeserializeError::UnexpectedEndOfFile))
    }
}

/// Reads `n` bits, failing at the end of the data.
pub(crate) fn take_bits<R: ByteReader>(engine: &mut DeserializeEngine<R>, n: u8) -> (r: Result<u8, Failure<DeserializeError>>)
    requires
        old(engine).wf(),
        1 <= n <= 8,
    ensures
        final(engine).wf(),
        final(engine).data() == old(engine).data(),
        final(engine).layout == old(engine).layout,
        read_as(super::model::p_bits(old(engine).data(), old(engine).position(), n), r, final(engine).position()),
{
    if engine.bytes.index() < engine.bytes.len() {
        Ok(engine.bytes.incomplete_next(n))
    } else {
        Err(Failure::Error(DeserializeError::UnexpectedEndOfFile))
    }
}

/// Reads `n` bytes, one after the other.
pub(crate) fn take_bytes<R: ByteReader>(engine: &mut DeserializeEngine<R>, n: usize) -> (r: Result<Vec<u8>, Failure<DeserializeError>>)
    requires
        old(engine).wf(),
    ensures
        final(engine).wf(),
        final(engine).data() == old(engine).data(),
        final(engine).layout == old(engine).layout,
        match p_bytes(old(engine).data(), old(engine).position(), n as nat) {
            Parsed::Done(s, c) => r matches Ok(v) && v@ == s && final(engine).position() == c,
            Parsed::Failed(f) => r == Err::<Vec<u8>, Failure<DeserializeError>>(f),
        },
{
    let ghost d = engine.data();
    let ghost start = engine.position();
    let mut out: Vec<u8> = Vec::new();
    let mut i: usize = 0;
    while i < n
        invariant
            engine.wf(),
            engine.data() == d,
            d == old(engine).data(),
            start == old(engine).position(),
            engine.layout == old(engine).layout,
            i <= n,
            p_bytes(d, start, i as nat) == Parsed::Done(out@, engine.position()),
        decreases n - i,
    {
        let b = take_byte(engine);
        match b {
            Ok(b) => {
                out.push(b);
                i = i + 1;
            },
            Err(e) => {
                proof {
                    lemma_p_bytes_failed_prefix(d, start, i as nat, n as nat);
                }
                return Err(e);
            },
        }
    }
    Ok(out)
}

/// Once reading `i` bytes fails at byte `i`, reading `n >= i + 1` bytes
/// fails the same way.
proof fn lemma_p_bytes_failed_prefix(d: Seq<u8>, c: Cursor, i: nat, n: nat)
    requires
        i < n,
        p_bytes(d, c, i) matches Parsed::Done(_, c1) && p_byte(d, c1) is Failed,
    ensures
        p_bytes(d, c, n) is Failed && (p_bytes(d, c, n) matches Parsed::Failed(f)
            && p_bytes(d, c, i) matches Parsed::Done(_, c1) && p_byte(d, c1) == Parsed::<
            u8,
        >::Failed(f)),
    decreases n,
{
    if n > i + 1 {
        lemma_p_bytes_failed_prefix(d, c, i, (n - 1) as nat);
    }
}


/// Reads an optional byte that is present when `present` holds.
pub(crate) fn take_opt_byte<R: ByteReader>(engine: &mut DeserializeEngine<R>, present: bool) -> (r: Result<Option<u8>, Failure<DeserializeError>>)
    requires
        old(engine).wf(),
    ensures
        final(engine).wf(),
        final(engine).data() == old(engine).data(),
        final(engine).layout == old(engine).layout,
        read_as(p_opt_byte(old(engine).data(), old(engine).position(), present), r, final(engine).position()),
{
    if present {
        let b = take_byte(engine)?;
        Ok(Some(b))
    } else {
        Ok(None)
    }
}

/// Reads a length byte and that many bytes.
pub(crate) fn take_byte_list<R: ByteReader>(engine: &mut DeserializeEngine<R>) -> (r: Result<Vec<u8>, Failure<DeserializeError>>)
    requires
        old(engine).wf(),
    ensures
        final(engine).wf(),
        final(engine).data() == old(engine).data(),
        final(engine).layout == old(engine).layout,
        match p_byte_list(old(engine).data(), old(engine).position()) {
            Parsed::Done(s, c) => r matches Ok(v) && v@ == s && final(engine).position() == c,
            Parsed::Failed(f) => r == Err::<Vec<u8>, Failure<DeserializeError>>(f),
        },
{
    let n = take_byte(engine)?;
    take_bytes(engine, n as usize)
}

/// Reads a list of table indexes that is present when `present` holds.
pub(crate) fn take_opt_byte_list<R: ByteReader>(engine: &mut DeserializeEngine<R>, present: bool) -> (r: Result<Option<Vec<u8>>, Failure<DeserializeError>>)
    requires
        old(engine).wf(),
    ensures
        final(engine).wf(),
        final(engine).data() == old(engine).data(),
        final(engine).layout == old(engine).layout,
        match p_opt_byte_list(old(engine).data(), old(engine).position(), present) {
            Parsed::Done(s, c) => r matches Ok(v) && super::opt_seq(v) == s && final(engine).position() == c,
            Parsed::Failed(f) => r == Err::<Option<Vec<u8>>, Failure<DeserializeError>>(f),
        },
{
    if present {
        let v = take_byte_list(engine)?;
        Ok(Some(v))
    } else {
        Ok(None)
    }
}

/// Reads the four signature bytes.
pub(crate) fn next_signature<R: ByteReader>(engine: &mut DeserializeEngine<R>) -> (r: Result<(), Failure<DeserializeError>>)
    requires
        old(engine).wf(),
    ensures
        final(engine).wf(),
        final(engine).data() == old(engine).data(),
        final(engine).layout == old(engine).layout,
        read_as(p_signature(old(engine).data(), old(engine).position()), r, final(engine).position()),
{
    let len = engine.bytes.len();
    let index = engine.bytes.index();
    if len < 4 || index > len - 4 {
        return Err(Failure::Error(DeserializeError::UnexpectedEndOfFile));
    }
    if engine.bytes.next() != 127 {
        return Err(Failure::Error(DeserializeError::InvalidSignature));
    }
    if engine.bytes.next() != 102 {
        return Err(Failure::Error(DeserializeError::InvalidSignature));
    }
    if engine.bytes.next() != 115 {
        return Err(Failure::Error(DeserializeError::InvalidSignature));
    }
    if engine.bytes.next() != 70 {
        return Err(Failure::Error(DeserializeError::InvalidSignature));
    }
    Ok(())
}

/// Reads the version byte into the layout.
pub(crate) fn next_version<R: ByteReader>(engine: &mut DeserializeEngine<R>) -> (r: Result<(), Failure<DeserializeError>>)
    requires
        old(engine).wf(),
    ensures
        final(engine).wf(),
        final(engine).data() == old(engine).data(),
        match p_version(old(engine).data(), old(engine).position()) {
            Parsed::Done(v, c) => r is Ok && final(engine).position() == c
                && final(engine).layout@ == (LayoutModel { version: v, ..old(engine).layout@ }),
            Parsed::Failed(f) => r == Err::<(), Failure<DeserializeError>>(f),
        },
{
    let b = take_byte(engine)?;
    match Version::try_from(b) {
        Ok(v) => {
            engine.layout.version = v;
            Ok(())
        },
        Err(e) => Err(Failure::Error(e)),
    }
}

/// Reads the header byte into the layout.
pub(crate) fn next_header<R: ByteReader>(engine: &mut DeserializeEngine<R>) -> (r: Result<(), Failure<DeserializeError>>)
    requires
        old(engine).wf(),
    ensures
        final(engine).wf(),
        final(engine).data() == old(engine).data(),
        match p_header(old(engine).data(), old(engine).position()) {
            Parsed::Done(compact, c) => r is Ok && final(engine).position() == c
                && final(engine).layout@ == (LayoutModel { compact, ..old(engine).layout@ }),
            Parsed::Failed(f) => r == Err::<(), Failure<DeserializeError>>(f),
        },
{
    let b = take_byte(engine)?;
    engine.layout.compact = get_bit(b, 0);
    Ok(())
}

/// Reads one code point.
pub(crate) fn next_code_point<R: ByteReader>(engine: &mut DeserializeEngine<R>) -> (r: Result<char, Failure<DeserializeError>>)
    requires
        old(engine).wf(),
    ensures
        final(engine).wf(),
        final(engine).data() == old(engine).data(),
        final(engine).layout == old(engine).layout,
        read_as(p_code_point(old(engine).data(), old(engine).position()), r, final(engine).position()),
{
    let lead = take_byte(engine)?;
    let width: usize = if lead >> 7 == 0 {
        1
    } else if lead >> 5 == 6 {
        2
    } else if lead >> 4 == 14 {
        3
    } else if lead >> 3 == 30 {
        4
    } else {
        0
    };
    assert(width == lead_width(lead));
    if width == 0 {
        return Ok('\0');
    }
    let ghost mid = engine.position();
    let rest = take_bytes(engine, width - 1)?;
    proof {
        super::model::lemma_p_bytes(engine.data(), mid, (width - 1) as nat);
    }
    match decode_scalar(lead, &rest) {
        Some(v) => {
            let c = char_from_u32(v);
            proof {
                char_u32_cast(c.unwrap(), v);
            }
            Ok(c.unwrap())
        },
        None => Err(Failure::Malformed),
    }
}


/// Reads the code points of a character: `constant` of them when set, else
/// up to a 0 byte, which is consumed.
pub(crate) fn next_code_points<R: ByteReader>(engine: &mut DeserializeEngine<R>, constant: Option<u8>) -> (r: Result<String, Failure<DeserializeError>>)
    requires
        old(engine).wf(),
    ensures
        final(engine).wf(),
        final(engine).data() == old(engine).data(),
        final(engine).layout == old(engine).layout,
        match p_code_points_from(old(engine).data(), old(engine).position(), constant, Seq::empty()) {
            Parsed::Done(s, c) => r matches Ok(v) && v@ == s && final(engine).position() == c,
            Parsed::Failed(f) => r == Err::<String, Failure<DeserializeError>>(f),
        },
{
    let ghost d = engine.data();
    let ghost whole = p_code_points_from(d, engine.position(), constant, Seq::empty());
    let mut code_points = String::new();
    let mut count: usize = 0;
    loop
        invariant
            engine.wf(),
            engine.data() == d,
            d == old(engine).data(),
            engine.layout == old(engine).layout,
            whole == p_code_points_from(old(engine).data(), old(engine).position(), constant, Seq::empty()),
            count == code_points@.len(),
            count < 256,
            whole == p_code_points_from(d, engine.position(), constant, code_points@),
        decreases 256 - count,
    {
        let ch = next_code_point(engine)?;
        string_push(&mut code_points, ch);
        count = count + 1;
        if count >= 256 {
            return Err(Failure::Malformed);
        }
        match constant {
            Some(k) => {
                if count == k as usize {
                    return Ok(code_points);
                }
            },
            None => {
                if engine.bytes.index() >= engine.bytes.len() {
                    return Err(Failure::Error(DeserializeError::UnexpectedEndOfFile));
                }
                if engine.bytes.get() == 0 {
                    engine.bytes.next();
                    return Ok(code_points);
                }
            },
        }
    }
}

/// Reads a 0-terminated string.
pub(crate) fn next_string<R: ByteReader>(engine: &mut DeserializeEngine<R>) -> (r: Result<String, Failure<DeserializeError>>)
    requires
        old(engine).wf(),
    ensures
        final(engine).wf(),
        final(engine).data() == old(engine).data(),
        final(engine).layout == old(engine).layout,
        match p_string_from(old(engine).data(), old(engine).position(), Seq::empty()) {
            Parsed::Done(s, c) => r matches Ok(v) && v@ == s && final(engine).position() == c,
            Parsed::Failed(f) => r == Err::<String, Failure<DeserializeError>>(f),
        },
{
    let ghost d = engine.data();
    let ghost whole = p_string_from(d, engine.position(), Seq::empty());
    let mut string = String::new();
    loop
        invariant
            engine.wf(),
            engine.data() == d,
            d == old(engine).data(),
            engine.layout == old(engine).layout,
            whole == p_string_from(old(engine).data(), old(engine).position(), Seq::empty()),
            whole == p_string_from(d, engine.position(), string@),
        decreases super::model::bytes_left(d, engine.position()),
    {
        let ghost before = engine.position();
        proof {
            lemma_p_code_point_advances(d, before);
        }
        let ch = next_code_point(engine)?;
        string_push(&mut string, ch);
        if engine.bytes.index() >= engine.bytes.len() {
            return Err(Failure::Error(DeserializeError::UnexpectedEndOfFile));
        }
        if engine.bytes.get() == 0 {
            engine.bytes.next();
            return Ok(string);
        }
    }
}


/// Reads tables into the engine's layout while more follow.
fn next_tables<R: ByteReader>(engine: &mut DeserializeEngine<R>) -> (r: Result<(), Failure<DeserializeError>>)
    requires
        old(engine).wf(),
    ensures
        final(engine).wf(),
        final(engine).data() == old(engine).data(),
        match p_tables(old(engine).data(), old(engine).position(), old(engine).layout@) {
            Parsed::Done(l, c) => r is Ok && final(engine).layout@ == l && final(engine).position() == c,
            Parsed::Failed(f) => r == Err::<(), Failure<DeserializeError>>(f),
        },
{
    let ghost d = engine.data();
    let ghost whole = p_tables(d, engine.position(), engine.layout@);
    loop
        invariant
            engine.wf(),
            engine.data() == d,
            d == old(engine).data(),
            whole == p_tables(old(engine).data(), old(engine).position(), old(engine).layout@),
            whole == p_tables(d, engine.position(), engine.layout@),
        decreases bytes_left(d, engine.position()),
    {
        let len = engine.bytes.len();
        let index = engine.bytes.index();
        if !(len > 0 && index < len - 1) {
            return Ok(());
        }
        let ghost c = engine.position();
        let ghost l = engine.layout@;
        let id = engine.bytes.next();
        proof {
            lemma_p_table_advances(d, engine.position(), id, l);
        }
        match TableIdentifier::try_from(id) {
            Ok(TableIdentifier::Character) => {
                let table = CharacterTable::deserialize(engine)?;
                let ghost before = engine.layout.character_tables@;
                engine.layout.character_tables.push(table);
                assert(engine.layout.character_tables@.map_values(|t: CharacterTable| t@)
                    =~= before.map_values(|t: CharacterTable| t@).push(table@));
                assert(engine.layout@ =~= add_character_table(l, table@));
            },
            Ok(TableIdentifier::Pixmap) => {
                let table = PixmapTable::deserialize(engine)?;
                let ghost before = engine.layout.pixmap_tables@;
                engine.layout.pixmap_tables.push(table);
                assert(engine.layout.pixmap_tables@.map_values(|t: PixmapTable| t@)
                    =~= before.map_values(|t: PixmapTable| t@).push(table@));
                assert(engine.layout@ =~= add_pixmap_table(l, table@));
            },
            Ok(TableIdentifier::Color) => {
                let table = ColorTable::deserialize(engine)?;
                let ghost before = engine.layout.color_tables@;
                engine.layout.color_tables.push(table);
                assert(engine.layout.color_tables@.map_values(|t: ColorTable| t@)
                    =~= before.map_values(|t: ColorTable| t@).push(table@));
                assert(engine.layout@ =~= add_color_table(l, table@));
            },
            Ok(TableIdentifier::Font) => {
                let table = FontTable::deserialize(engine)?;
                let ghost before = engine.layout.font_tables@;
                engine.layout.font_tables.push(table);
                assert(engine.layout.font_tables@.map_values(|t: FontTable| t@)
                    =~= before.map_values(|t: FontTable| t@).push(table@));
                assert(engine.layout@ =~= add_font_table(l, table@));
            },
            Err(e) => {
                return Err(Failure::Error(e));
            },
        }
    }
}

/// Reads a whole layout into the engine's layout: the signature, version and
/// header, then every table.
pub(crate) fn deserialize_layout<R: ByteReader>(engine: &mut DeserializeEngine<R>) -> (r: Result<(), Failure<DeserializeError>>)
    requires
        old(engine).wf(),
    ensures
        final(engine).wf(),
        final(engine).data() == old(engine).data(),
        match p_layout_at(old(engine).data(), old(engine).position(), old(engine).layout@) {
            Parsed::Done(l, c) => r is Ok && final(engine).layout@ == l && final(engine).position() == c,
            Parsed::Failed(f) => r == Err::<(), Failure<DeserializeError>>(f),
        },
{
    next_signature(engine)?;
    next_version(engine)?;
    next_header(engine)?;
    next_tables(engine)
}

/// Reads a whole layout into `engine`'s [`Layout`], replacing its version and
/// packing and appending the tables read.
///
/// Requires that the data be one that the format's code can process (see
/// [`Failure::Malformed`]); [`try_deserialize_with_engine`] checks this.
pub fn deserialize_with_engine<R: ByteReader>(engine: &mut DeserializeEngine<R>) -> (r: Result<(), DeserializeError>)
    requires
        old(engine).wf(),
        !(p_layout_at(old(engine).data(), old(engine).position(), old(engine).layout@) matches Parsed::Failed(Failure::Malformed)),
    ensures
        final(engine).wf(),
        final(engine).data() == old(engine).data(),
        match p_layout_at(old(engine).data(), old(engine).position(), old(engine).layout@) {
            Parsed::Done(l, c) => r is Ok && final(engine).layout@ == l && final(engine).position() == c,
            Parsed::Failed(Failure::Error(e)) => r == Err::<(), DeserializeError>(e),
            Parsed::Failed(Failure::Malformed) => false,
        },
{
    match deserialize_layout(engine) {
        Ok(()) => Ok(()),
        Err(Failure::Error(e)) => Err(e),
        Err(Failure::Malformed) => {
            assert(false);
            Err(DeserializeError::UnexpectedEndOfFile)
        },
    }
}

/// Like [`deserialize_with_engine`], for any data: `None` when the data holds
/// what the format's code cannot process.
pub fn try_deserialize_with_engine<R: ByteReader>(engine: &mut DeserializeEngine<R>) -> (r: Option<Result<(), DeserializeError>>)
    requires
        old(engine).wf(),
    ensures
        final(engine).wf(),
        final(engine).data() == old(engine).data(),
        match p_layout_at(old(engine).data(), old(engine).position(), old(engine).layout@) {
            Parsed::Done(l, c) => r == Some(Ok::<(), DeserializeError>(())) && final(engine).layout@ == l
                && final(engine).position() == c,
            Parsed::Failed(Failure::Error(e)) => r == Some(Err::<(), DeserializeError>(e)),
            Parsed::Failed(Failure::Malformed) => r is None,
        },
{
    match deserialize_layout(engine) {
        Ok(()) => Some(Ok(())),
        Err(Failure::Error(e)) => Some(Err(e)),
        Err(Failure::Malformed) => None,
    }
}

/// Parses a `.spf` byte buffer into a [`Layout`].
///
/// Requires that the data be one that the format's code can process (see
/// [`Failure::Malformed`]); [`try_layout_from_data`] checks this.
pub fn layout_from_data(buffer: &[u8]) -> (r: Result<Layout, DeserializeError>)
    requires
        !(spec_layout_from_data(buffer@) matches Err(Failure::Malformed)),
    ensures
        match spec_layout_from_data(buffer@) {
            Ok(l) => r matches Ok(v) && v@ == l,
            Err(Failure::Error(e)) => r == Err::<Layout, DeserializeError>(e),
            Err(Failure::Malformed) => false,
        },
{
    let mut engine = DeserializeEngine::from_data(buffer);
    deserialize_with_engine(&mut engine)?;
    Ok(engine.layout)
}

/// Like [`layout_from_data`], for any data: `None` when the data holds what
/// the format's code cannot process.
pub fn try_layout_from_data(buffer: &[u8]) -> (r: Option<Result<Layout, DeserializeError>>)
    ensures
        match spec_layout_from_data(buffer@) {
            Ok(l) => r matches Some(Ok(v)) && v@ == l,
            Err(Failure::Error(e)) => r == Some(Err::<Layout, DeserializeError>(e)),
            Err(Failure::Malformed) => r is None,
        },
{
    let mut engine = DeserializeEngine::from_data(buffer);
    match try_deserialize_with_engine(&mut engine) {
        Some(Ok(())) => Some(Ok(engine.layout)),
        Some(Err(e)) => Some(Err(e)),
        None => None,
    }
}

} // verus!
