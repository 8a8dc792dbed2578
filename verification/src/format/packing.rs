//! How values of fewer than eight bits are packed into bytes, and read
//! back.
//!
//! A pixmap's pixels form one stream of bits: the low `bits_per_pixel` bits
//! of each pixel in turn, least significant first. The stream fills bytes
//! from bit 0 up, and the last byte is padded with zero bits.
use vstd::prelude::*;
use vstd::arithmetic::div_mod::{
    lemma_fundamental_div_mod, lemma_fundamental_div_mod_converse_div,
    lemma_fundamental_div_mod_converse_mod,
};
use super::byte::{
    advance, low_bits, partial_mask, read8, spec_get_bit, w_bits, w_push, writer_wf, WriterState,
};
use super::model::{ws_pixels, Written};
use super::bits::{
    bit_or_zero, bit_state, byte_of_bits, bytes_for_bits, fits, lemma_append_bits,
    lemma_bits_of_byte, lemma_byte_from_bits, lemma_bytes_for_bits, lemma_fits_bit,
    lemma_pack_index, lemma_pack_len, pack_bits, value_bits,
};

verus! {

/// Bit `t` of the stream of `pixels`, each `bits_per_pixel` bits long;
/// past the end of the stream every bit is clear.
pub open spec fn stream_bit(pixels: Seq<u8>, bits_per_pixel: u8, t: int) -> bool {
    &&& bits_per_pixel > 0
    &&& 0 <= t < pixels.len() * bits_per_pixel
    &&& spec_get_bit(pixels[t / (bits_per_pixel as int)], (t % (bits_per_pixel as int)) as u8)
}

/// The pixels packed into bytes.
pub open spec fn packed(pixels: Seq<u8>, bits_per_pixel: u8) -> Seq<u8> {
    Seq::new(
        bytes_for_bits(pixels.len() * bits_per_pixel) as nat,
        |k: int|
            byte_of_bits(
                stream_bit(pixels, bits_per_pixel, 8 * k),
                stream_bit(pixels, bits_per_pixel, 8 * k + 1),
                stream_bit(pixels, bits_per_pixel, 8 * k + 2),
                stream_bit(pixels, bits_per_pixel, 8 * k + 3),
                stream_bit(pixels, bits_per_pixel, 8 * k + 4),
                stream_bit(pixels, bits_per_pixel, 8 * k + 5),
                stream_bit(pixels, bits_per_pixel, 8 * k + 6),
                stream_bit(pixels, bits_per_pixel, 8 * k + 7),
            ),
    )
}

// ----- the stream -----

/// Bit `j` of byte `k` of the packed pixels is stream bit `8 * k + j`.
proof fn lemma_packed_bit(pixels: Seq<u8>, n: u8, k: int, j: u8)
    requires
        0 <= k < packed(pixels, n).len(),
        j < 8,
    ensures
        spec_get_bit(packed(pixels, n)[k], j) == stream_bit(pixels, n, 8 * k + j),
{
    lemma_bits_of_byte(
        stream_bit(pixels, n, 8 * k),
        stream_bit(pixels, n, 8 * k + 1),
        stream_bit(pixels, n, 8 * k + 2),
        stream_bit(pixels, n, 8 * k + 3),
        stream_bit(pixels, n, 8 * k + 4),
        stream_bit(pixels, n, 8 * k + 5),
        stream_bit(pixels, n, 8 * k + 6),
        stream_bit(pixels, n, 8 * k + 7),
    );
}

/// Appending a pixel keeps the stream before its old end, puts the pixel's
/// bits right after it, and leaves every later bit clear.
proof fn lemma_stream_push(pixels: Seq<u8>, n: u8, b: u8, t: int)
    requires
        0 < n <= 8,
        fits(b, n),
    ensures
        t < pixels.len() * n ==> stream_bit(pixels.push(b), n, t) == stream_bit(pixels, n, t),
        pixels.len() * n <= t ==> !stream_bit(pixels, n, t),
        pixels.len() * n <= t < pixels.len() * n + 8 ==> stream_bit(pixels.push(b), n, t)
            == spec_get_bit(b, (t - pixels.len() * n) as u8),
        pixels.len() * n + n <= t ==> !stream_bit(pixels.push(b), n, t),
{
    let m = pixels.len() as int;
    let d = n as int;
    let big = m * d;
    assert((m + 1) * d == big + d) by (nonlinear_arith)
        requires
            big == m * d,
    ;
    assert(pixels.push(b).len() == m + 1);
    if 0 <= t < big {
        lemma_fundamental_div_mod(t, d);
        let q = t / d;
        let r = t % d;
        assert(0 <= r < d);
        assert(d * q == q * d) by (nonlinear_arith);
        assert(q < m && 0 <= q) by (nonlinear_arith)
            requires
                t == q * d + r,
                0 <= r,
                t < m * d,
                0 <= t,
                d > 0,
                r < d,
        ;
        assert(pixels.push(b)[q] == pixels[q]);
    } else if big <= t < big + d {
        lemma_fundamental_div_mod_converse_div(t, d, m, t - big);
        lemma_fundamental_div_mod_converse_mod(t, d, m, t - big);
        assert(pixels.push(b)[m] == b);
    } else if big + d <= t < big + 8 {
        lemma_fits_bit(b, n, (t - big) as u8);
    }
}

/// Pixels of eight bits pack to themselves.
pub proof fn lemma_packed_whole_bytes(data: Seq<u8>)
    ensures
        packed(data, 8) == data,
{
    let q = packed(data, 8);
    assert(data.len() * 8 == 8 * data.len());
    lemma_bytes_for_bits(8 * data.len() as int);
    assert(q.len() == data.len());
    assert forall|k: int| 0 <= k < q.len() implies #[trigger] q[k] == data[k] by {
        assert forall|j: u8| j < 8 implies #[trigger] spec_get_bit(q[k], j) == spec_get_bit(
            data[k],
            j,
        ) by {
            lemma_packed_bit(data, 8, k, j);
            let t = 8 * k + j;
            lemma_fundamental_div_mod_converse_div(t, 8, k, j as int);
            lemma_fundamental_div_mod_converse_mod(t, 8, k, j as int);
            assert(t < data.len() * 8);
        }
        lemma_byte_from_bits(q[k], data[k]);
    }
    assert(q =~= data);
}

/// No pixels pack to no bytes.
pub proof fn lemma_packed_empty(data: Seq<u8>, bits_per_pixel: u8)
    requires
        data.len() == 0,
    ensures
        packed(data, bits_per_pixel) == data,
{
    assert(packed(data, bits_per_pixel) =~= data);
}

// ----- reading back one write -----

/// A writer state that can be extended and whose partly filled last byte
/// has no bit set at or above the write position.
pub open spec fn clean(st: WriterState) -> bool {
    &&& writer_wf(st)
    &&& st.pointer != 0 ==> (st.bytes.last() >> st.pointer) == 0u8
}

/// Where the next write into `st` starts: a byte index and a bit offset.
pub open spec fn write_position(st: WriterState) -> (int, u8) {
    if st.pointer == 0 {
        (st.bytes.len() as int, 0u8)
    } else {
        (st.bytes.len() - 1, st.pointer)
    }
}

/// Writing the low `n` bits of `b` (a value that fits in them) and reading
/// `n` bits where the write started gives `b` back; the reading ends where
/// the next write starts, and the writer stays clean.
pub proof fn lemma_bits_read_back(st: WriterState, b: u8, n: u8)
    requires
        clean(st),
        0 < n <= 8,
        fits(b, n),
    ensures
        ({
            let st2 = w_bits(st, b, n);
            let (i, p) = write_position(st);
            &&& clean(st2)
            &&& low_bits(read8(st2.bytes, i, p), n) == b
            &&& advance(i, p, n) == write_position(st2)
            &&& st2.bytes.take(i) == st.bytes.take(i)
        }),
{
    let st2 = w_bits(st, b, n);
    let p = st.pointer;
    let d = st.bytes;
    let d2 = st2.bytes;
    let i = write_position(st).0;
    if p == 0 {
        if n == 8 {
            assert(d2 == d.push(b));
        } else {
            assert(d2 == d.push(b));
            let s = (8 - n) as u8;
            assert(((b >> n) == 0u8 && 0 < n && n < 8 && s == 8 - n) ==> ((((b << s) as u8) >> s)
                as u8 == b)) by (bit_vector);
        }
        assert(d2.take(i) =~= d.take(i));
    } else {
        let x = d[i];
        assert(x >> p == 0u8);
        if n == 8 {
            let y = (b >> ((8 - p) as u8)) as u8;
            assert(d2 == d.update(i, x | ((b << p) as u8)).push(y));
            assert(d2[i] == x | ((b << p) as u8) && d2[i + 1] == y);
            let r = (8 - p) as u8;
            assert((0 < p && p < 8 && r == 8 - p && (x >> p) == 0u8 && y == (b >> r)) ==> (((((x | ((
                b << p) as u8)) >> p) as u8) | ((y << r) as u8)) == b && (y >> p) == 0u8))
                by (bit_vector);
        } else if p + n < 8 {
            let m = partial_mask(p, b, n);
            assert(d2 == d.update(i, x | m));
            let s = (8 - p - n) as u8;
            let sn = (8 - n) as u8;
            assert(m == ((((b << p) as u8) << s) as u8 >> s) as u8);
            assert((0 < p && 0 < n && p + n < 8 && s == 8 - p - n && sn == 8 - n && (x >> p) == 0u8
                && (b >> n) == 0u8 && m == ((((b << p) as u8) << s) as u8 >> s) as u8) ==> (((((((x
                | m) >> p) as u8) << sn) as u8) >> sn) as u8 == b && ((x | m) >> ((p + n) as u8))
                == 0u8)) by (bit_vector);
        } else {
            let m = partial_mask(p, b, n);
            assert(m == (b << p) as u8);
            let sn = (8 - n) as u8;
            let r = (8 - p) as u8;
            if p + n == 8 {
                assert(d2 == d.update(i, x | m));
                assert((0 < p && 0 < n && p + n == 8 && sn == 8 - n && (x >> p) == 0u8 && (b >> n)
                    == 0u8 && m == (b << p) as u8) ==> (((((((x | m) >> p) as u8) << sn) as u8) >> sn) as u8 == b))
                    by (bit_vector);
            } else {
                let y = (b >> r) as u8;
                assert(d2 == d.update(i, x | m).push(y));
                assert(d2[i] == x | m && d2[i + 1] == y);
                let q = (p + n - 8) as u8;
                assert((0 < p && p < 8 && 0 < n && n < 8 && p + n > 8 && sn == 8 - n && r == 8 - p
                    && q == p + n - 8 && (x >> p) == 0u8 && (b >> n) == 0u8 && m == (b << p) as u8
                    && y == (b >> r)) ==> ((((((((x | m) >> p) as u8) | ((y << r) as u8)) << sn)
                    as u8) >> sn) as u8 == b && (y >> q) == 0u8)) by (bit_vector);
            }
        }
        assert(d2.take(i) =~= d.take(i));
    }
}

/// Writing a whole byte and reading a byte where the write started gives
/// it back; the reading ends where the next write starts, and the writer
/// stays clean.
pub proof fn lemma_byte_read_back(st: WriterState, b: u8)
    requires
        clean(st),
    ensures
        ({
            let st2 = w_push(st, b);
            let (i, p) = write_position(st);
            &&& clean(st2)
            &&& read8(st2.bytes, i, p) == b
            &&& advance(i, p, 8) == write_position(st2)
            &&& st2.bytes.take(i) == st.bytes.take(i)
        }),
{
    lemma_bits_read_back(st, b, 8);
    assert(w_bits(st, b, 8) == w_push(st, b));
}

// ----- pixels as a bit stream -----

/// The stream of `pixels`, each `bits_per_pixel` bits long.
pub open spec fn pixel_bits(pixels: Seq<u8>, bits_per_pixel: u8) -> Seq<bool> {
    Seq::new(
        (pixels.len() * bits_per_pixel) as nat,
        |t: int| stream_bit(pixels, bits_per_pixel, t),
    )
}

/// The packed pixels are their stream packed into bytes.
pub proof fn lemma_packed_stream(pixels: Seq<u8>, n: u8)
    ensures
        packed(pixels, n) == pack_bits(pixel_bits(pixels, n)),
{
    let e = pixel_bits(pixels, n);
    assert(pixels.len() * n >= 0) by (nonlinear_arith);
    assert forall|t: int| #[trigger] bit_or_zero(e, t) == stream_bit(pixels, n, t) by {}
    lemma_pack_len(e);
    assert forall|k: int| 0 <= k < packed(pixels, n).len() implies #[trigger] packed(pixels, n)[k]
        == pack_bits(e)[k] by {
        lemma_pack_index(e, k);
    }
    assert(packed(pixels, n) =~= pack_bits(e));
}

/// Appending a pixel that fits appends its bits to the stream.
proof fn lemma_pixel_bits_push(pixels: Seq<u8>, n: u8, b: u8)
    requires
        0 < n <= 8,
        fits(b, n),
    ensures
        pixel_bits(pixels.push(b), n) == pixel_bits(pixels, n) + value_bits(b, n),
{
    let m = pixels.len() as int;
    let big = m * (n as int);
    assert((m + 1) * (n as int) == big + n) by (nonlinear_arith)
        requires
            big == m * (n as int),
    ;
    assert(big >= 0) by (nonlinear_arith)
        requires
            big == m * (n as int),
            m >= 0,
    ;
    let a = pixel_bits(pixels.push(b), n);
    let c = pixel_bits(pixels, n) + value_bits(b, n);
    assert forall|t: int| 0 <= t < a.len() implies #[trigger] a[t] == c[t] by {
        lemma_stream_push(pixels, n, b, t);
    }
    assert(a =~= c);
}

/// Writing pixels of `n` bits after the bits `e` appends their stream.
pub proof fn lemma_ws_pixels_bits(e: Seq<bool>, pixels: Seq<u8>, n: u8)
    requires
        0 < n <= 8,
        forall|i: int| 0 <= i < pixels.len() ==> fits(#[trigger] pixels[i], n),
    ensures
        ws_pixels(bit_state(e), pixels, n) == Written::Done(bit_state(e + pixel_bits(pixels, n))),
    decreases pixels.len(),
{
    if pixels.len() == 0 {
        assert(e + pixel_bits(pixels, n) =~= e);
    } else {
        let front = pixels.drop_last();
        lemma_ws_pixels_bits(e, front, n);
        assert(fits(pixels[pixels.len() - 1], n));
        lemma_append_bits(e + pixel_bits(front, n), pixels.last(), n);
        lemma_pixel_bits_push(front, n, pixels.last());
        assert(front.push(pixels.last()) =~= pixels);
        assert(e + pixel_bits(front, n) + value_bits(pixels.last(), n) =~= e + pixel_bits(pixels, n));
    }
}

} // verus!
