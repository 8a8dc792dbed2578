//! Pixmap tables.
use vstd::prelude::*;
use crate::format::byte::{get_bit, lemma_get_bit0, ByteReader};
use crate::format::deserialize::{
    take_bits, take_byte, take_bytes, take_opt_byte, take_opt_byte_list, DeserializeEngine,
};
use crate::format::model::{
    p_byte, p_opt_byte, p_opt_byte_list, p_pixmap, p_pixmap_data, p_pixmap_table, p_pixmaps,
    pixmap_table_head, resolve, Cursor, Failure, Parsed,
};
use crate::format::byte::{ByteWriter, WriterState};
use crate::format::model::{
    pixmap_configuration_byte, ws_bits, ws_links, ws_opt_byte, ws_pixels, ws_pixmap,
    ws_pixmap_data, ws_pixmap_table, ws_pixmaps, ws_push, Written,
};
use crate::format::serialize::{put, put_bits, put_links, put_opt_byte, wrote_as};
use crate::format::{
    DeserializeError, Pixmap, PixmapModel, PixmapTable, PixmapTableConfigurationFlags,
    PixmapTableLinkFlags, PixmapTableModel, SerializeError,
};

verus! {

/// Once reading `i` records succeeded and record `i + 1` fails, reading
/// `n > i` records fails the same way.
proof fn lemma_p_pixmaps_failed(
    d: Seq<u8>,
    c: Cursor,
    i: nat,
    n: nat,
    t: PixmapTableModel,
    compact: bool,
)
    requires
        i < n,
        p_pixmaps(d, c, i, t, compact) matches Parsed::Done(_, c1) && p_pixmap(
            d,
            c1,
            t,
            compact,
        ) is Failed,
    ensures
        p_pixmaps(d, c, n, t, compact) matches Parsed::Failed(f) && p_pixmaps(
            d,
            c,
            i,
            t,
            compact,
        ) matches Parsed::Done(_, c1) && p_pixmap(d, c1, t, compact) == Parsed::<
            PixmapModel,
        >::Failed(f),
    decreases n,
{
    if n > i + 1 {
        lemma_p_pixmaps_failed(d, c, i, (n - 1) as nat, t, compact);
    }
}

/// Reads a pixmap's custom width, present when the table has no constant width.
pub(crate) fn next_width<R: ByteReader>(engine: &mut DeserializeEngine<R>, pixmap: &mut Pixmap, constant_width: Option<u8>) -> (r: Result<(), Failure<DeserializeError>>)
    requires
        old(engine).wf(),
    ensures
        final(engine).wf(),
        final(engine).data() == old(engine).data(),
        final(engine).layout == old(engine).layout,
        match p_opt_byte(old(engine).data(), old(engine).position(), constant_width is None) {
            Parsed::Done(w, c) => r is Ok && final(engine).position() == c
                && final(pixmap)@ == (if constant_width is None {
                    PixmapModel { custom_width: w, ..old(pixmap)@ }
                } else {
                    old(pixmap)@
                }),
            Parsed::Failed(f) => r == Err::<(), Failure<DeserializeError>>(f),
        },
{
    if constant_width.is_none() {
        let w = take_byte(engine)?;
        pixmap.custom_width = Some(w);
    }
    Ok(())
}

/// Reads a pixmap's custom height, present when the table has no constant height.
pub(crate) fn next_height<R: ByteReader>(engine: &mut DeserializeEngine<R>, pixmap: &mut Pixmap, constant_height: Option<u8>) -> (r: Result<(), Failure<DeserializeError>>)
    requires
        old(engine).wf(),
    ensures
        final(engine).wf(),
        final(engine).data() == old(engine).data(),
        final(engine).layout == old(engine).layout,
        match p_opt_byte(old(engine).data(), old(engine).position(), constant_height is None) {
            Parsed::Done(h, c) => r is Ok && final(engine).position() == c
                && final(pixmap)@ == (if constant_height is None {
                    PixmapModel { custom_height: h, ..old(pixmap)@ }
                } else {
                    old(pixmap)@
                }),
            Parsed::Failed(f) => r == Err::<(), Failure<DeserializeError>>(f),
        },
{
    if constant_height.is_none() {
        let h = take_byte(engine)?;
        pixmap.custom_height = Some(h);
    }
    Ok(())
}

/// Reads a pixmap's custom bits per pixel, present when the table has none constant.
pub(crate) fn next_bits_per_pixel<R: ByteReader>(engine: &mut DeserializeEngine<R>, pixmap: &mut Pixmap, constant_bits_per_pixel: Option<u8>) -> (r: Result<(), Failure<DeserializeError>>)
    requires
        old(engine).wf(),
    ensures
        final(engine).wf(),
        final(engine).data() == old(engine).data(),
        final(engine).layout == old(engine).layout,
        match p_opt_byte(old(engine).data(), old(engine).position(), constant_bits_per_pixel is None) {
            Parsed::Done(b, c) => r is Ok && final(engine).position() == c
                && final(pixmap)@ == (if constant_bits_per_pixel is None {
                    PixmapModel { custom_bits_per_pixel: b, ..old(pixmap)@ }
                } else {
                    old(pixmap)@
                }),
            Parsed::Failed(f) => r == Err::<(), Failure<DeserializeError>>(f),
        },
{
    if constant_bits_per_pixel.is_none() {
        let b = take_byte(engine)?;
        pixmap.custom_bits_per_pixel = Some(b);
    }
    Ok(())
}

/// The table's constant if set, else the record's own value.
fn resolve_value(constant: Option<u8>, custom: Option<u8>) -> (r: Option<u8>)
    ensures
        r == resolve(constant, custom),
{
    match constant {
        Some(v) => Some(v),
        None => custom,
    }
}

/// Reads a pixmap's data: the whole bytes that its pixels cover, then their
/// trailing bits.
pub(crate) fn next_pixmap<R: ByteReader>(
    engine: &mut DeserializeEngine<R>,
    pixmap: &mut Pixmap,
    width: u8,
    height: u8,
    bits_per_pixel: u8,
) -> (r: Result<(), Failure<DeserializeError>>)
    requires
        old(engine).wf(),
    ensures
        final(engine).wf(),
        final(engine).data() == old(engine).data(),
        final(engine).layout == old(engine).layout,
        match p_pixmap_data(
            old(engine).data(),
            old(engine).position(),
            width,
            height,
            bits_per_pixel,
            old(engine).layout.compact,
        ) {
            Parsed::Done(s, c) => r is Ok && final(engine).position() == c
                && final(pixmap)@ == (PixmapModel { data: s, ..old(pixmap)@ }),
            Parsed::Failed(f) => r == Err::<(), Failure<DeserializeError>>(f),
        },
{
    proof {
        assert(width as u16 * height as u16 <= 65025) by (nonlinear_arith)
            requires
                width <= 255,
                height <= 255,
        ;
    }
    let pixels_used: u16 = width as u16 * height as u16;
    let total_bits = match pixels_used.checked_mul(bits_per_pixel as u16) {
        Some(t) => t,
        None => {
            return Err(Failure::Malformed);
        },
    };
    let complete_bytes_used = (total_bits / 8) as usize;
    let mut data = take_bytes(engine, complete_bytes_used)?;
    let remainder_bits = (total_bits % 8) as u8;
    if remainder_bits > 0 {
        if !engine.layout.compact {
            let b = take_byte(engine)?;
            data.push(b);
        } else {
            let b = take_bits(engine, remainder_bits)?;
            data.push(b);
        }
    }
    pixmap.data = data;
    Ok(())
}

/// Reads one pixmap record of a table with the given constants.
pub(crate) fn next_pixmap_record<R: ByteReader>(
    engine: &mut DeserializeEngine<R>,
    constant_width: Option<u8>,
    constant_height: Option<u8>,
    constant_bits_per_pixel: Option<u8>,
    t: Ghost<PixmapTableModel>,
) -> (r: Result<Pixmap, Failure<DeserializeError>>)
    requires
        old(engine).wf(),
        t@.constant_width == constant_width,
        t@.constant_height == constant_height,
        t@.constant_bits_per_pixel == constant_bits_per_pixel,
    ensures
        final(engine).wf(),
        final(engine).data() == old(engine).data(),
        final(engine).layout == old(engine).layout,
        match p_pixmap(old(engine).data(), old(engine).position(), t@, old(engine).layout.compact) {
            Parsed::Done(m, c) => r matches Ok(v) && v@ == m && final(engine).position() == c,
            Parsed::Failed(f) => r == Err::<Pixmap, Failure<DeserializeError>>(f),
        },
{
    let mut pixmap = Pixmap {
        custom_width: None,
        custom_height: None,
        custom_bits_per_pixel: None,
        data: Vec::new(),
    };
    next_width(engine, &mut pixmap, constant_width)?;
    next_height(engine, &mut pixmap, constant_height)?;
    next_bits_per_pixel(engine, &mut pixmap, constant_bits_per_pixel)?;
    let width = resolve_value(constant_width, pixmap.custom_width).unwrap();
    let height = resolve_value(constant_height, pixmap.custom_height).unwrap();
    let bits_per_pixel = resolve_value(constant_bits_per_pixel, pixmap.custom_bits_per_pixel).unwrap();
    next_pixmap(engine, &mut pixmap, width, height, bits_per_pixel)?;
    Ok(pixmap)
}

impl PixmapTable {
    /// A table with no flags, no constants, no links and no pixmaps.
    pub fn empty() -> (r: Self)
        ensures
            r@ == pixmap_table_head(None, None, None, None),
    {
        let r = PixmapTable {
            configuration_flags: PixmapTableConfigurationFlags::empty(),
            constant_width: None,
            constant_height: None,
            constant_bits_per_pixel: None,
            link_flags: PixmapTableLinkFlags::empty(),
            color_table_indexes: None,
            pixmaps: Vec::new(),
        };
        assert(r@.pixmaps =~= Seq::<PixmapModel>::empty());
        r
    }

    /// Skips the modifier flag byte.
    pub(crate) fn next_modifier_flags<R: ByteReader>(&mut self, engine: &mut DeserializeEngine<R>) -> (r: Result<(), Failure<DeserializeError>>)
        requires
            old(engine).wf(),
        ensures
            final(engine).wf(),
            final(engine).data() == old(engine).data(),
            final(engine).layout == old(engine).layout,
            *final(self) == *old(self),
            match p_byte(old(engine).data(), old(engine).position()) {
                Parsed::Done(_, c) => r is Ok && final(engine).position() == c,
                Parsed::Failed(f) => r == Err::<(), Failure<DeserializeError>>(f),
            },
    {
        let _modifier_flags = take_byte(engine)?;
        Ok(())
    }

    /// Reads the configuration flag byte and the constants it calls for.
    pub(crate) fn next_configurations<R: ByteReader>(&mut self, engine: &mut DeserializeEngine<R>) -> (r: Result<(), Failure<DeserializeError>>)
        requires
            old(engine).wf(),
            old(self)@ == pixmap_table_head(None, None, None, None),
        ensures
            final(engine).wf(),
            final(engine).data() == old(engine).data(),
            final(engine).layout == old(engine).layout,
            match p_byte(old(engine).data(), old(engine).position()) {
                Parsed::Done(conf, c2) => match p_opt_byte(old(engine).data(), c2, conf & 1 == 1) {
                    Parsed::Done(w, c3) => match p_opt_byte(old(engine).data(), c3, conf & 2 == 2) {
                        Parsed::Done(h, c4) => match p_opt_byte(old(engine).data(), c4, conf & 4 == 4) {
                            Parsed::Done(b, c5) => r is Ok && final(engine).position() == c5
                                && final(self)@ == pixmap_table_head(w, h, b, None),
                            Parsed::Failed(f) => r == Err::<(), Failure<DeserializeError>>(f),
                        },
                        Parsed::Failed(f) => r == Err::<(), Failure<DeserializeError>>(f),
                    },
                    Parsed::Failed(f) => r == Err::<(), Failure<DeserializeError>>(f),
                },
                Parsed::Failed(f) => r == Err::<(), Failure<DeserializeError>>(f),
            },
    {
        let configuration_flags = take_byte(engine)?;
        proof {
            lemma_get_bit0(configuration_flags);
        }
        let use_constant_width = get_bit(configuration_flags, 0);
        let use_constant_height = get_bit(configuration_flags, 1);
        let use_constant_bits_per_pixel = get_bit(configuration_flags, 2);
        self.constant_width = take_opt_byte(engine, use_constant_width)?;
        self.constant_height = take_opt_byte(engine, use_constant_height)?;
        self.constant_bits_per_pixel = take_opt_byte(engine, use_constant_bits_per_pixel)?;
        Ok(())
    }

    /// Reads the link flag byte and the color table links it calls for.
    pub(crate) fn next_table_links<R: ByteReader>(&mut self, engine: &mut DeserializeEngine<R>) -> (r: Result<(), Failure<DeserializeError>>)
        requires
            old(engine).wf(),
        ensures
            final(engine).wf(),
            final(engine).data() == old(engine).data(),
            final(engine).layout == old(engine).layout,
            match p_byte(old(engine).data(), old(engine).position()) {
                Parsed::Done(links, c1) => match p_opt_byte_list(old(engine).data(), c1, links & 1 == 1) {
                    Parsed::Done(v, c2) => r is Ok && final(engine).position() == c2
                        && final(self)@ == (PixmapTableModel {
                            color_table_indexes: v,
                            ..old(self)@
                        }),
                    Parsed::Failed(f) => r == Err::<(), Failure<DeserializeError>>(f),
                },
                Parsed::Failed(f) => r == Err::<(), Failure<DeserializeError>>(f),
            },
    {
        let link_flags = take_byte(engine)?;
        proof {
            lemma_get_bit0(link_flags);
        }
        self.color_table_indexes = take_opt_byte_list(engine, get_bit(link_flags, 0))?;
        Ok(())
    }

    /// Reads a pixmap table whose identifier byte has been read.
    pub(crate) fn deserialize<R: ByteReader>(engine: &mut DeserializeEngine<R>) -> (r: Result<PixmapTable, Failure<DeserializeError>>)
        requires
            old(engine).wf(),
        ensures
            final(engine).wf(),
            final(engine).data() == old(engine).data(),
            final(engine).layout == old(engine).layout,
            match p_pixmap_table(old(engine).data(), old(engine).position(), old(engine).layout.compact) {
                Parsed::Done(m, c) => r matches Ok(v) && v@ == m && final(engine).position() == c,
                Parsed::Failed(f) => r == Err::<PixmapTable, Failure<DeserializeError>>(f),
            },
    {
        let ghost d = engine.data();
        let ghost compact = engine.layout.compact;
        let mut table = PixmapTable::empty();
        table.next_modifier_flags(engine)?;
        table.next_configurations(engine)?;
        table.next_table_links(engine)?;
        let count = take_byte(engine)?;
        let ghost head = table@;
        let ghost start = engine.position();
        let ghost outer = p_pixmap_table(d, old(engine).position(), compact);
        assert(p_pixmaps(d, start, count as nat, head, compact) matches Parsed::Failed(f)
            ==> outer == Parsed::<PixmapTableModel>::Failed(f));
        let mut pixmaps: Vec<Pixmap> = Vec::new();
        assert(pixmaps@.map_values(|p: Pixmap| p@) =~= Seq::<PixmapModel>::empty());
        let mut i: u8 = 0;
        while i < count
            invariant
                outer == p_pixmap_table(old(engine).data(), old(engine).position(), old(engine).layout.compact),
                p_pixmaps(d, start, count as nat, head, compact) matches Parsed::Failed(f)
                    ==> outer == Parsed::<PixmapTableModel>::Failed(f),
                engine.wf(),
                engine.data() == d,
                d == old(engine).data(),
                engine.layout == old(engine).layout,
                compact == engine.layout.compact,
                table@ == head,
                i <= count,
                p_pixmaps(d, start, i as nat, head, compact) == Parsed::Done(
                    pixmaps@.map_values(|p: Pixmap| p@),
                    engine.position(),
                ),
            decreases count - i,
        {
            let ghost before = pixmaps@;
            match next_pixmap_record(
                engine,
                table.constant_width,
                table.constant_height,
                table.constant_bits_per_pixel,
                Ghost(head),
            ) {
                Ok(p) => {
                    pixmaps.push(p);
                    assert(pixmaps@.map_values(|p: Pixmap| p@) =~= before.map_values(
                        |p: Pixmap| p@,
                    ).push(p@));
                    i = i + 1;
                },
                Err(e) => {
                    proof {
                        lemma_p_pixmaps_failed(d, start, i as nat, count as nat, head, compact);
                    }
                    return Err(e);
                },
            }
        }
        table.pixmaps = pixmaps;
        Ok(table)
    }
}


/// Writes a pixmap's custom width, present when the table has no constant width.
pub(crate) fn push_width(w: &mut ByteWriter, constant_width: Option<u8>, custom_width: Option<u8>) -> (r: Result<(), Failure<SerializeError>>)
    ensures
        wrote_as(ws_opt_byte(old(w)@, custom_width, constant_width is None), r, final(w)@),
{
    put_opt_byte(w, custom_width, constant_width.is_none())
}

/// Writes a pixmap's custom height, present when the table has no constant height.
pub(crate) fn push_height(w: &mut ByteWriter, constant_height: Option<u8>, custom_height: Option<u8>) -> (r: Result<(), Failure<SerializeError>>)
    ensures
        wrote_as(ws_opt_byte(old(w)@, custom_height, constant_height is None), r, final(w)@),
{
    put_opt_byte(w, custom_height, constant_height.is_none())
}

/// Writes a pixmap's custom bits per pixel, present when the table has none constant.
pub(crate) fn push_bits_per_pixel(w: &mut ByteWriter, constant_bits_per_pixel: Option<u8>, custom_bits_per_pixel: Option<u8>) -> (r: Result<(), Failure<SerializeError>>)
    ensures
        wrote_as(ws_opt_byte(old(w)@, custom_bits_per_pixel, constant_bits_per_pixel is None), r, final(w)@),
{
    put_opt_byte(w, custom_bits_per_pixel, constant_bits_per_pixel.is_none())
}

/// Once writing the first `i` pixels succeeded and pixel `i` fails, writing
/// all of `px` fails the same way.
proof fn lemma_ws_pixels_failed(st: WriterState, px: Seq<u8>, n: u8, i: int)
    requires
        0 <= i < px.len(),
        ws_pixels(st, px.take(i), n) matches Written::Done(st1) && ws_bits(st1, px[i], n) is Failed,
    ensures
        ws_pixels(st, px, n) matches Written::Failed(f) && ws_pixels(st, px.take(i), n) matches Written::Done(
            st1,
        ) && ws_bits(st1, px[i], n) == Written::Failed(f),
    decreases px.len(),
{
    if i < px.len() - 1 {
        assert(px.drop_last().take(i) =~= px.take(i));
        lemma_ws_pixels_failed(st, px.drop_last(), n, i);
    } else {
        assert(px.drop_last() =~= px.take(i));
    }
}

/// Writes a pixmap's data, `bits_per_pixel` bits per entry, and pads the
/// last byte with zero bits unless the layout is compact.
pub(crate) fn push_pixmap(
    w: &mut ByteWriter,
    constant_width: Option<u8>,
    constant_height: Option<u8>,
    constant_bits_per_pixel: Option<u8>,
    pixmap: &Pixmap,
    compact: bool,
) -> (r: Result<(), Failure<SerializeError>>)
    requires
        resolve(constant_width, pixmap.custom_width) is Some,
        resolve(constant_height, pixmap.custom_height) is Some,
        resolve(constant_bits_per_pixel, pixmap.custom_bits_per_pixel) is Some,
    ensures
        wrote_as(
            ws_pixmap_data(
                old(w)@,
                pixmap.data@,
                resolve(constant_width, pixmap.custom_width).unwrap(),
                resolve(constant_height, pixmap.custom_height).unwrap(),
                resolve(constant_bits_per_pixel, pixmap.custom_bits_per_pixel).unwrap(),
                compact,
            ),
            r,
            final(w)@,
        ),
        r == Err::<(), Failure<SerializeError>>(Failure::Error(SerializeError::StaticVectorTooLarge))
            ==> final(w)@ == old(w)@,
{
    let bits_per_pixel = resolve_value(constant_bits_per_pixel, pixmap.custom_bits_per_pixel).unwrap();
    let width = resolve_value(constant_width, pixmap.custom_width).unwrap();
    let height = resolve_value(constant_height, pixmap.custom_height).unwrap();
    proof {
        assert(width as usize * height as usize <= 65025) by (nonlinear_arith)
            requires
                width <= 255,
                height <= 255,
        ;
    }
    if pixmap.data.len() > width as usize * height as usize {
        return Err(Failure::Error(SerializeError::StaticVectorTooLarge));
    }
    let ghost px = pixmap.data@;
    let ghost st0 = w@;
    let ghost outer = ws_pixmap_data(old(w)@, px, width, height, bits_per_pixel, compact);
    assert(ws_pixels(st0, px, bits_per_pixel) matches Written::Failed(f) ==> outer == Written::Failed(f));
    assert(px.take(0) =~= Seq::<u8>::empty());
    let mut bits_used: u64 = 0;
    let mut i: usize = 0;
    while i < pixmap.data.len()
        invariant
            outer == ws_pixmap_data(old(w)@, px, width, height, bits_per_pixel, compact),
            width == resolve(constant_width, pixmap.custom_width).unwrap(),
            height == resolve(constant_height, pixmap.custom_height).unwrap(),
            bits_per_pixel == resolve(constant_bits_per_pixel, pixmap.custom_bits_per_pixel).unwrap(),
            ws_pixels(st0, px, bits_per_pixel) matches Written::Failed(f) ==> outer == Written::Failed(f),
            px == pixmap.data@,
            px.len() <= 65025,
            i <= px.len(),
            bits_used == i * bits_per_pixel,
            ws_pixels(st0, px.take(i as int), bits_per_pixel) == Written::Done(w@),
        decreases px.len() - i,
    {
        assert(px.take(i as int + 1).drop_last() =~= px.take(i as int));
        match put_bits(w, pixmap.data[i], bits_per_pixel) {
            Ok(()) => {
                proof {
                    assert((i + 1) * bits_per_pixel == i * bits_per_pixel + bits_per_pixel
                        && (i + 1) * bits_per_pixel <= 65025 * 255) by (nonlinear_arith)
                        requires
                            i + 1 <= 65025,
                            bits_per_pixel <= 255,
                    ;
                }
                bits_used = bits_used + bits_per_pixel as u64;
                i = i + 1;
            },
            Err(e) => {
                proof {
                    lemma_ws_pixels_failed(st0, px, bits_per_pixel, i as int);
                }
                return Err(e);
            },
        }
    }
    assert(px.take(px.len() as int) =~= px);
    if !compact && w.pointer != 0 {
        let padding: u8 = 8 - (bits_used % 8) as u8;
        put_bits(w, 0, padding)
    } else {
        Ok(())
    }
}

/// Once writing the first `i` records succeeded and record `i` fails,
/// writing all of `ps` fails the same way.
proof fn lemma_ws_pixmaps_failed(st: WriterState, ps: Seq<PixmapModel>, t: PixmapTableModel, compact: bool, i: int)
    requires
        0 <= i < ps.len(),
        ws_pixmaps(st, ps.take(i), t, compact) matches Written::Done(st1) && ws_pixmap(st1, ps[i], t, compact) is Failed,
    ensures
        ws_pixmaps(st, ps, t, compact) matches Written::Failed(f) && ws_pixmaps(st, ps.take(i), t, compact) matches Written::Done(
            st1,
        ) && ws_pixmap(st1, ps[i], t, compact) == Written::Failed(f),
    decreases ps.len(),
{
    if i < ps.len() - 1 {
        assert(ps.drop_last().take(i) =~= ps.take(i));
        lemma_ws_pixmaps_failed(st, ps.drop_last(), t, compact, i);
    } else {
        assert(ps.drop_last() =~= ps.take(i));
    }
}

impl PixmapTable {
    /// Writes the table identifier byte.
    pub(crate) fn push_table_identifier(&self, w: &mut ByteWriter) -> (r: Result<(), Failure<SerializeError>>)
        ensures
            wrote_as(ws_push(old(w)@, 2), r, final(w)@),
    {
        put(w, crate::format::PIXMAP_TABLE_ID)
    }

    /// Writes the modifier flag byte, always 0.
    pub(crate) fn push_modifier_flags(&self, w: &mut ByteWriter) -> (r: Result<(), Failure<SerializeError>>)
        ensures
            wrote_as(ws_push(old(w)@, 0), r, final(w)@),
    {
        put(w, 0b00000000)
    }

    /// Writes the configuration flag byte, one bit per constant that is set,
    /// and those constants.
    pub(crate) fn push_configurations(&self, w: &mut ByteWriter) -> (r: Result<(), Failure<SerializeError>>)
        ensures
            match ws_push(old(w)@, pixmap_configuration_byte(self@)) {
                Written::Done(st1) => match ws_opt_byte(st1, self.constant_width, self.constant_width is Some) {
                    Written::Done(st2) => match ws_opt_byte(st2, self.constant_height, self.constant_height is Some) {
                        Written::Done(st3) => wrote_as(
                            ws_opt_byte(st3, self.constant_bits_per_pixel, self.constant_bits_per_pixel is Some),
                            r,
                            final(w)@,
                        ),
                        Written::Failed(f) => r == Err::<(), Failure<SerializeError>>(f),
                    },
                    Written::Failed(f) => r == Err::<(), Failure<SerializeError>>(f),
                },
                Written::Failed(f) => r == Err::<(), Failure<SerializeError>>(f),
            },
    {
        let width_bit: u8 = if self.constant_width.is_some() { 0b00000001 } else { 0 };
        let height_bit: u8 = if self.constant_height.is_some() { 0b00000010 } else { 0 };
        let bits_per_pixel_bit: u8 = if self.constant_bits_per_pixel.is_some() { 0b00000100 } else { 0 };
        let configuration_flags: u8 = width_bit | height_bit | bits_per_pixel_bit;
        put(w, configuration_flags)?;
        put_opt_byte(w, self.constant_width, self.constant_width.is_some())?;
        put_opt_byte(w, self.constant_height, self.constant_height.is_some())?;
        put_opt_byte(w, self.constant_bits_per_pixel, self.constant_bits_per_pixel.is_some())
    }

    /// Writes the link flag byte, derived from whether color table links are
    /// set, and the links.
    pub(crate) fn push_table_links(&self, w: &mut ByteWriter) -> (r: Result<(), Failure<SerializeError>>)
        ensures
            wrote_as(ws_links(old(w)@, self@.color_table_indexes), r, final(w)@),
    {
        put_links(w, &self.color_table_indexes)
    }

    /// Writes one pixmap record.
    fn push_pixmap_record(&self, w: &mut ByteWriter, pixmap: &Pixmap, compact: bool) -> (r: Result<(), Failure<SerializeError>>)
        ensures
            wrote_as(ws_pixmap(old(w)@, pixmap@, self@, compact), r, final(w)@),
    {
        push_width(w, self.constant_width, pixmap.custom_width)?;
        push_height(w, self.constant_height, pixmap.custom_height)?;
        push_bits_per_pixel(w, self.constant_bits_per_pixel, pixmap.custom_bits_per_pixel)?;
        push_pixmap(
            w,
            self.constant_width,
            self.constant_height,
            self.constant_bits_per_pixel,
            pixmap,
            compact,
        )
    }

    /// Writes the table, identifier byte first; `compact` says whether the
    /// layout packs pixmap data without padding.
    pub(crate) fn serialize(&self, w: &mut ByteWriter, compact: bool) -> (r: Result<(), Failure<SerializeError>>)
        ensures
            wrote_as(ws_pixmap_table(old(w)@, self@, compact), r, final(w)@),
    {
        self.push_table_identifier(w)?;
        self.push_modifier_flags(w)?;
        self.push_configurations(w)?;
        self.push_table_links(w)?;
        if self.pixmaps.len() > 255 {
            return Err(Failure::Error(SerializeError::StaticVectorTooLarge));
        }
        put(w, self.pixmaps.len() as u8)?;
        let ghost st0 = w@;
        let ghost ps = self@.pixmaps;
        let ghost outer = ws_pixmap_table(old(w)@, self@, compact);
        assert(ws_pixmaps(st0, ps, self@, compact) matches Written::Failed(f) ==> outer == Written::Failed(f));
        assert(ps.take(0) =~= Seq::<PixmapModel>::empty());
        let mut i: usize = 0;
        while i < self.pixmaps.len()
            invariant
                outer == ws_pixmap_table(old(w)@, self@, compact),
                ws_pixmaps(st0, ps, self@, compact) matches Written::Failed(f) ==> outer == Written::Failed(f),
                ps == self@.pixmaps,
                ps.len() == self.pixmaps@.len(),
                i <= ps.len(),
                ws_pixmaps(st0, ps.take(i as int), self@, compact) == Written::Done(w@),
            decreases ps.len() - i,
        {
            assert(ps.take(i as int + 1).drop_last() =~= ps.take(i as int));
            assert(ps[i as int] == self.pixmaps@[i as int]@);
            match self.push_pixmap_record(w, &self.pixmaps[i], compact) {
                Ok(()) => {
                    i = i + 1;
                },
                Err(e) => {
                    proof {
                        lemma_ws_pixmaps_failed(st0, ps, self@, compact, i as int);
                    }
                    return Err(e);
                },
            }
        }
        assert(ps.take(ps.len() as int) =~= ps);
        Ok(())
    }
}

} // verus!
