//! Byte buffers seen as streams of bits: eight bits per byte, least
//! significant first, a partly filled last byte padded with zero bits.
use vstd::prelude::*;
use super::byte::{
    advance, low_bits, partial_mask, read8, spec_get_bit,
    spec_incomplete_push, spec_push, w_bits, w_push, writer_wf, WriterState,
};
use super::model::{p_byte, p_bits, ws_bits, ws_push, Cursor, Parsed, Written};

verus! {

/// Whether `b` fits in `n` bits: no bit at or above `n` is set.
pub open spec fn fits(b: u8, n: u8) -> bool {
    n >= 8 || (b >> n) == 0u8
}

/// The byte whose bits, from the least significant up, are `b0` to `b7`.
pub open spec fn byte_of_bits(
    b0: bool,
    b1: bool,
    b2: bool,
    b3: bool,
    b4: bool,
    b5: bool,
    b6: bool,
    b7: bool,
) -> u8 {
    (if b0 { 1u8 } else { 0u8 }) | (if b1 { 2u8 } else { 0u8 }) | (if b2 { 4u8 } else { 0u8 }) | (
    if b3 { 8u8 } else { 0u8 }) | (if b4 { 16u8 } else { 0u8 }) | (if b5 { 32u8 } else { 0u8 }) | (
    if b6 { 64u8 } else { 0u8 }) | (if b7 { 128u8 } else { 0u8 })
}

/// The number of bytes that `bits` bits fill.
pub open spec fn bytes_for_bits(bits: int) -> int {
    (bits + 7) / 8
}

// ----- single bytes -----

pub(crate) proof fn lemma_bits_of_byte(b0: bool, b1: bool, b2: bool, b3: bool, b4: bool, b5: bool, b6: bool, b7: bool)
    ensures
        spec_get_bit(byte_of_bits(b0, b1, b2, b3, b4, b5, b6, b7), 0) == b0,
        spec_get_bit(byte_of_bits(b0, b1, b2, b3, b4, b5, b6, b7), 1) == b1,
        spec_get_bit(byte_of_bits(b0, b1, b2, b3, b4, b5, b6, b7), 2) == b2,
        spec_get_bit(byte_of_bits(b0, b1, b2, b3, b4, b5, b6, b7), 3) == b3,
        spec_get_bit(byte_of_bits(b0, b1, b2, b3, b4, b5, b6, b7), 4) == b4,
        spec_get_bit(byte_of_bits(b0, b1, b2, b3, b4, b5, b6, b7), 5) == b5,
        spec_get_bit(byte_of_bits(b0, b1, b2, b3, b4, b5, b6, b7), 6) == b6,
        spec_get_bit(byte_of_bits(b0, b1, b2, b3, b4, b5, b6, b7), 7) == b7,
{
    let x = byte_of_bits(b0, b1, b2, b3, b4, b5, b6, b7);
    assert(x == (if b0 { 1u8 } else { 0u8 }) | (if b1 { 2u8 } else { 0u8 }) | (if b2 { 4u8 } else {
        0u8 }) | (if b3 { 8u8 } else { 0u8 }) | (if b4 { 16u8 } else { 0u8 }) | (if b5 { 32u8 } else {
        0u8 }) | (if b6 { 64u8 } else { 0u8 }) | (if b7 { 128u8 } else { 0u8 }));
    assert(((x >> 0u8) & 1u8 == 1u8) == b0 && ((x >> 1u8) & 1u8 == 1u8) == b1 && ((x >> 2u8) & 1u8
        == 1u8) == b2 && ((x >> 3u8) & 1u8 == 1u8) == b3 && ((x >> 4u8) & 1u8 == 1u8) == b4 && ((x
        >> 5u8) & 1u8 == 1u8) == b5 && ((x >> 6u8) & 1u8 == 1u8) == b6 && ((x >> 7u8) & 1u8 == 1u8)
        == b7) by (bit_vector)
        requires
            x == (if b0 { 1u8 } else { 0u8 }) | (if b1 { 2u8 } else { 0u8 }) | (if b2 { 4u8 } else {
                0u8 }) | (if b3 { 8u8 } else { 0u8 }) | (if b4 { 16u8 } else { 0u8 }) | (if b5 {
                32u8 } else { 0u8 }) | (if b6 { 64u8 } else { 0u8 }) | (if b7 { 128u8 } else { 0u8 }),
    ;
}

/// Two bytes with the same eight bits are equal.
pub(crate) proof fn lemma_byte_from_bits(x: u8, y: u8)
    requires
        forall|j: u8| j < 8 ==> #[trigger] spec_get_bit(x, j) == spec_get_bit(y, j),
    ensures
        x == y,
{
    assert(spec_get_bit(x, 0) == spec_get_bit(y, 0));
    assert(spec_get_bit(x, 1) == spec_get_bit(y, 1));
    assert(spec_get_bit(x, 2) == spec_get_bit(y, 2));
    assert(spec_get_bit(x, 3) == spec_get_bit(y, 3));
    assert(spec_get_bit(x, 4) == spec_get_bit(y, 4));
    assert(spec_get_bit(x, 5) == spec_get_bit(y, 5));
    assert(spec_get_bit(x, 6) == spec_get_bit(y, 6));
    assert(spec_get_bit(x, 7) == spec_get_bit(y, 7));
    assert(x == y) by (bit_vector)
        requires
            ((x >> 0u8) & 1u8 == 1u8) == ((y >> 0u8) & 1u8 == 1u8),
            ((x >> 1u8) & 1u8 == 1u8) == ((y >> 1u8) & 1u8 == 1u8),
            ((x >> 2u8) & 1u8 == 1u8) == ((y >> 2u8) & 1u8 == 1u8),
            ((x >> 3u8) & 1u8 == 1u8) == ((y >> 3u8) & 1u8 == 1u8),
            ((x >> 4u8) & 1u8 == 1u8) == ((y >> 4u8) & 1u8 == 1u8),
            ((x >> 5u8) & 1u8 == 1u8) == ((y >> 5u8) & 1u8 == 1u8),
            ((x >> 6u8) & 1u8 == 1u8) == ((y >> 6u8) & 1u8 == 1u8),
            ((x >> 7u8) & 1u8 == 1u8) == ((y >> 7u8) & 1u8 == 1u8),
    ;
}

/// The bits of an OR.
pub(crate) proof fn lemma_bit_or(x: u8, y: u8, j: u8)
    requires
        j < 8,
    ensures
        spec_get_bit(x | y, j) == (spec_get_bit(x, j) || spec_get_bit(y, j)),
{
    assert((((x | y) >> j) & 1u8 == 1u8) == (((x >> j) & 1u8 == 1u8) || ((y >> j) & 1u8 == 1u8)))
        by (bit_vector)
        requires
            j < 8,
    ;
}

/// The bits of a byte shifted up by `p`.
pub(crate) proof fn lemma_bit_shl(b: u8, p: u8, j: u8)
    requires
        p < 8,
        j < 8,
    ensures
        spec_get_bit((b << p) as u8, j) == (j >= p && spec_get_bit(b, (j - p) as u8)),
{
    assert(((((b << p) as u8) >> j) & 1u8 == 1u8) == (j >= p && ((b >> ((j - p) as u8)) & 1u8
        == 1u8))) by (bit_vector)
        requires
            p < 8,
            j < 8,
    ;
}

/// The bits of a byte shifted down by `s`.
pub(crate) proof fn lemma_bit_shr(b: u8, s: u8, j: u8)
    requires
        s < 8,
        j < 8,
    ensures
        spec_get_bit((b >> s) as u8, j) == (j + s < 8 && spec_get_bit(b, (j + s) as u8)),
{
    assert(((((b >> s) as u8) >> j) & 1u8 == 1u8) == (j + s < 8 && ((b >> ((j + s) as u8)) & 1u8
        == 1u8))) by (bit_vector)
        requires
            s < 8,
            j < 8,
    ;
}

/// A byte that fits in `n` bits has no bit set at or above `n`.
pub(crate) proof fn lemma_fits_bit(b: u8, n: u8, j: u8)
    requires
        fits(b, n),
        n <= j < 8,
    ensures
        !spec_get_bit(b, j),
{
    assert(((b >> n) == 0u8 && n <= j && j < 8) ==> !((b >> j) & 1u8 == 1u8)) by (bit_vector);
}

/// The bits of the mask that a partial write ORs into the last byte.
pub(crate) proof fn lemma_bit_partial_mask(p: u8, b: u8, n: u8, j: u8)
    requires
        0 < p < 8,
        0 < n < 8,
        j < 8,
    ensures
        spec_get_bit(partial_mask(p, b, n), j) == (p <= j && j < p + n && spec_get_bit(
            b,
            (j - p) as u8,
        )),
{
    let mask = (b << p) as u8;
    if p + n < 8 {
        let shift = (8 - p - n) as u8;
        assert(((((((mask << shift) as u8) >> shift) as u8) >> j) & 1u8 == 1u8) == (j + shift < 8
            && ((mask >> j) & 1u8 == 1u8))) by (bit_vector)
            requires
                shift < 8,
                j < 8,
        ;
        assert(partial_mask(p, b, n) == (((mask << shift) as u8) >> shift) as u8);
    }
    lemma_bit_shl(b, p, j);
}

/// Every bit of 0 is clear.
pub(crate) proof fn lemma_bit_zero(j: u8)
    requires
        j < 8,
    ensures
        !spec_get_bit(0u8, j),
{
    assert(!((0u8 >> j) & 1u8 == 1u8)) by (bit_vector)
        requires
            j < 8,
    ;
}


/// The number of packed bytes, written with the bit offset of the stream's
/// end.
pub(crate) proof fn lemma_bytes_for_bits(bits: int)
    requires
        bits >= 0,
    ensures
        bits % 8 == 0 ==> bytes_for_bits(bits) == bits / 8,
        bits % 8 != 0 ==> bytes_for_bits(bits) == bits / 8 + 1,
        bits == 8 * (bits / 8) + bits % 8,
        0 <= bits % 8 < 8,
{
}


// ----- streams -----

/// Bit `t` of the bytes `s`: bit `t % 8` of byte `t / 8`.
pub open spec fn bit_at(s: Seq<u8>, t: int) -> bool {
    spec_get_bit(s[t / 8], (t % 8) as u8)
}

/// The bits of `s`, eight per byte, least significant first.
pub open spec fn bits_of(s: Seq<u8>) -> Seq<bool> {
    Seq::new(8 * s.len(), |t: int| bit_at(s, t))
}

/// The low `n` bits of `b`, least significant first.
pub open spec fn value_bits(b: u8, n: u8) -> Seq<bool> {
    Seq::new(n as nat, |j: int| spec_get_bit(b, j as u8))
}

/// Bit `t` of `e`; clear past its end.
pub open spec fn bit_or_zero(e: Seq<bool>, t: int) -> bool {
    0 <= t < e.len() && e[t]
}

/// The bits `e` packed into bytes, the last one padded with zero bits.
pub closed spec fn pack_bits(e: Seq<bool>) -> Seq<u8> {
    Seq::new(
        bytes_for_bits(e.len() as int) as nat,
        |k: int|
            byte_of_bits(
                bit_or_zero(e, 8 * k),
                bit_or_zero(e, 8 * k + 1),
                bit_or_zero(e, 8 * k + 2),
                bit_or_zero(e, 8 * k + 3),
                bit_or_zero(e, 8 * k + 4),
                bit_or_zero(e, 8 * k + 5),
                bit_or_zero(e, 8 * k + 6),
                bit_or_zero(e, 8 * k + 7),
            ),
    )
}

/// The writer state after writing the bits `e`.
pub open spec fn bit_state(e: Seq<bool>) -> WriterState {
    WriterState { bytes: pack_bits(e), pointer: (e.len() % 8) as u8 }
}

/// The writer state after writing the bits `e`, then the bytes `s`.
pub open spec fn after(e: Seq<bool>, s: Seq<u8>) -> WriterState {
    bit_state(e + bits_of(s))
}

/// Packing fills one byte per eight bits, rounded up.
pub(crate) proof fn lemma_pack_len(e: Seq<bool>)
    ensures
        pack_bits(e).len() == bytes_for_bits(e.len() as int),
{
}

/// Byte `k` of the packed bits holds bits `8 * k` to `8 * k + 7`.
pub(crate) proof fn lemma_pack_index(e: Seq<bool>, k: int)
    requires
        0 <= k < pack_bits(e).len(),
    ensures
        pack_bits(e)[k] == byte_of_bits(
            bit_or_zero(e, 8 * k),
            bit_or_zero(e, 8 * k + 1),
            bit_or_zero(e, 8 * k + 2),
            bit_or_zero(e, 8 * k + 3),
            bit_or_zero(e, 8 * k + 4),
            bit_or_zero(e, 8 * k + 5),
            bit_or_zero(e, 8 * k + 6),
            bit_or_zero(e, 8 * k + 7),
        ),
{
}

/// Bit `j` of byte `k` of the packed bits is bit `8 * k + j` of the stream.
pub(crate) proof fn lemma_pack_bit(e: Seq<bool>, k: int, j: u8)
    requires
        0 <= k < pack_bits(e).len(),
        j < 8,
    ensures
        spec_get_bit(pack_bits(e)[k], j) == bit_or_zero(e, 8 * k + j),
{
    lemma_bits_of_byte(
        bit_or_zero(e, 8 * k),
        bit_or_zero(e, 8 * k + 1),
        bit_or_zero(e, 8 * k + 2),
        bit_or_zero(e, 8 * k + 3),
        bit_or_zero(e, 8 * k + 4),
        bit_or_zero(e, 8 * k + 5),
        bit_or_zero(e, 8 * k + 6),
        bit_or_zero(e, 8 * k + 7),
    );
}

/// The bits of one byte are its eight value bits.
pub(crate) proof fn lemma_bits_of_byte_seq(b: u8)
    ensures
        bits_of(seq![b]) == value_bits(b, 8),
{
    assert forall|t: int| 0 <= t < 8 implies #[trigger] bits_of(seq![b])[t] == value_bits(b, 8)[t] by {
        assert(t / 8 == 0 && t % 8 == t);
    }
    assert(bits_of(seq![b]) =~= value_bits(b, 8));
}

/// The bits of two byte sequences one after the other.
pub(crate) proof fn lemma_bits_of_add(a: Seq<u8>, b: Seq<u8>)
    ensures
        bits_of(a + b) == bits_of(a) + bits_of(b),
{
    let l = 8 * a.len();
    assert forall|t: int| 0 <= t < bits_of(a + b).len() implies #[trigger] bits_of(a + b)[t] == (
    bits_of(a) + bits_of(b))[t] by {
        if t < l {
            assert(t / 8 < a.len());
        } else {
            assert((t - l) / 8 == t / 8 - a.len());
            assert((t - l) % 8 == t % 8);
        }
    }
    assert(bits_of(a + b) =~= bits_of(a) + bits_of(b));
}

/// Packing the bits of bytes gives the bytes.
pub(crate) proof fn lemma_pack_bits_of(s: Seq<u8>)
    ensures
        pack_bits(bits_of(s)) == s,
{
    let q = pack_bits(bits_of(s));
    lemma_bytes_for_bits(8 * s.len() as int);
    assert(q.len() == s.len());
    assert forall|k: int| 0 <= k < q.len() implies #[trigger] q[k] == s[k] by {
        assert forall|j: u8| j < 8 implies #[trigger] spec_get_bit(q[k], j) == spec_get_bit(s[k], j) by {
            lemma_pack_bit(bits_of(s), k, j);
            assert((8 * k + j) / 8 == k && (8 * k + j) % 8 == j as int);
        }
        lemma_byte_from_bits(q[k], s[k]);
    }
    assert(q =~= s);
}

/// Writing the low `n` bits of `b` (a value that fits in them) after the
/// bits `e` appends those bits.
#[verifier::rlimit(40)]
pub(crate) proof fn lemma_append_bits(e: Seq<bool>, b: u8, n: u8)
    requires
        0 < n <= 8,
        fits(b, n),
    ensures
        ws_bits(bit_state(e), b, n) == Written::Done(bit_state(e + value_bits(b, n))),
{
    let big = e.len() as int;
    let p = (big % 8) as u8;
    let pk = pack_bits(e);
    let e2 = e + value_bits(b, n);
    let qk = pack_bits(e2);
    let l = pk.len() as int;
    lemma_bytes_for_bits(big);
    lemma_bytes_for_bits(big + n);
    if p != 0 {
        assert(l > 0);
    }
    assert(writer_wf(bit_state(e)));
    let r = spec_incomplete_push(pk, p, b, n);
    assert(e2.len() == big + n);
    if n == 8 {
        assert(r == spec_push(pk, p, b));
    }
    assert(r.len() == qk.len());
    assert forall|k: int| 0 <= k < qk.len() implies #[trigger] r[k] == qk[k] by {
        assert forall|j: u8| j < 8 implies #[trigger] spec_get_bit(r[k], j) == spec_get_bit(qk[k], j) by {
            lemma_pack_bit(e2, k, j);
            let t = 8 * k + j;
            if t < big {
                assert(bit_or_zero(e2, t) == bit_or_zero(e, t));
            } else if t < big + n {
                assert(bit_or_zero(e2, t) == spec_get_bit(b, (t - big) as u8));
            } else {
                assert(!bit_or_zero(e2, t));
                if t - big < 8 {
                    lemma_fits_bit(b, n, (t - big) as u8);
                }
            }
            if p == 0 {
                if k < l {
                    assert(r[k] == pk[k]);
                    lemma_pack_bit(e, k, j);
                } else {
                    assert(k == l);
                    assert(r[k] == b);
                    assert(t - big == j);
                }
            } else {
                if n == 8 {
                    if k < l - 1 {
                        assert(r[k] == pk[k]);
                        lemma_pack_bit(e, k, j);
                    } else if k == l - 1 {
                        assert(r[k] == pk[k] | ((b << p) as u8));
                        lemma_bit_or(pk[k], (b << p) as u8, j);
                        lemma_bit_shl(b, p, j);
                        lemma_pack_bit(e, k, j);
                    } else {
                        assert(k == l);
                        assert(r[k] == (b >> ((8 - p) as u8)) as u8);
                        lemma_bit_shr(b, (8 - p) as u8, j);
                    }
                } else if k < l - 1 {
                    assert(r[k] == pk[k]);
                    lemma_pack_bit(e, k, j);
                } else if k == l - 1 {
                    assert(r[k] == pk[k] | partial_mask(p, b, n));
                    lemma_bit_or(pk[k], partial_mask(p, b, n), j);
                    lemma_bit_partial_mask(p, b, n, j);
                    lemma_pack_bit(e, k, j);
                } else {
                    assert(k == l);
                    assert(r[k] == (b >> ((8 - p) as u8)) as u8);
                    lemma_bit_shr(b, (8 - p) as u8, j);
                }
            }
        }
        lemma_byte_from_bits(r[k], qk[k]);
    }
    assert(r =~= qk);
}

/// Writing a whole byte after the bits `e` appends its eight bits.
pub(crate) proof fn lemma_append_byte(e: Seq<bool>, b: u8)
    ensures
        ws_push(bit_state(e), b) == Written::Done(bit_state(e + value_bits(b, 8))),
{
    lemma_append_bits(e, b, 8);
    lemma_bytes_for_bits(e.len() as int);
    assert(w_bits(bit_state(e), b, 8) == w_push(bit_state(e), b));
}

/// Writing a whole byte after the bits `e` and the bytes `s` appends it
/// to `s`.
pub(crate) proof fn lemma_after_push(e: Seq<bool>, s: Seq<u8>, b: u8)
    ensures
        ws_push(after(e, s), b) == Written::Done(after(e, s + seq![b])),
{
    lemma_append_byte(e + bits_of(s), b);
    lemma_bits_of_add(s, seq![b]);
    lemma_bits_of_byte_seq(b);
    assert(e + bits_of(s) + value_bits(b, 8) =~= e + bits_of(s + seq![b]));
}

// ----- reading -----

/// Whether the bits `e` occur in `d` from bit `pos` on.
pub open spec fn at_bits(d: Seq<u8>, pos: int, e: Seq<bool>) -> bool {
    &&& 0 <= pos
    &&& pos + e.len() <= 8 * d.len()
    &&& forall|j: int| 0 <= j < e.len() ==> #[trigger] bit_at(d, pos + j) == e[j]
}

/// The cursor at bit `pos`.
pub open spec fn bit_cursor(pos: int) -> Cursor {
    Cursor { index: pos / 8, pointer: (pos % 8) as u8 }
}

/// Where `a + b` occurs, `a` occurs, and `b` right after it.
pub(crate) proof fn lemma_at_bits_split(d: Seq<u8>, pos: int, a: Seq<bool>, b: Seq<bool>)
    requires
        at_bits(d, pos, a + b),
    ensures
        at_bits(d, pos, a),
        at_bits(d, pos + a.len(), b),
{
    assert forall|j: int| 0 <= j < a.len() implies #[trigger] bit_at(d, pos + j) == a[j] by {
        assert((a + b)[j] == a[j]);
    }
    assert forall|j: int| 0 <= j < b.len() implies #[trigger] bit_at(d, pos + a.len() + j) == b[j] by {
        assert((a + b)[a.len() + j] == b[j]);
        assert(pos + (a.len() + j) == pos + a.len() + j);
    }
}

/// The bits packed from `e` hold `e` from their start.
pub(crate) proof fn lemma_at_pack(e: Seq<bool>)
    ensures
        at_bits(pack_bits(e), 0, e),
{
    let d = pack_bits(e);
    lemma_bytes_for_bits(e.len() as int);
    assert forall|j: int| 0 <= j < e.len() implies #[trigger] bit_at(d, 0 + j) == e[j] by {
        lemma_pack_bit(e, j / 8, (j % 8) as u8);
        assert(8 * (j / 8) + j % 8 == j);
    }
}

/// Bit `j` of the byte read at bit `pos` is bit `pos + j` of the data, or
/// clear past its end.
pub(crate) proof fn lemma_read8_bit(d: Seq<u8>, pos: int, j: u8)
    requires
        0 <= pos,
        pos / 8 < d.len(),
        j < 8,
    ensures
        spec_get_bit(read8(d, pos / 8, (pos % 8) as u8), j) == (pos + j < 8 * d.len() && bit_at(
            d,
            pos + j,
        )),
{
    let i = pos / 8;
    let p = (pos % 8) as u8;
    let t = pos + j;
    assert(pos == 8 * i + p);
    if p == 0 {
        assert(t / 8 == i && t % 8 == j as int);
    } else {
        let low = (d[i] >> p) as u8;
        lemma_bit_shr(d[i], p, j);
        if j + p < 8 {
            assert(t / 8 == i && t % 8 == (j + p) as int);
        } else {
            assert(t / 8 == i + 1 && t % 8 == (j + p - 8) as int);
        }
        if i < d.len() - 1 {
            let high = (d[i + 1] << ((8 - p) as u8)) as u8;
            assert(read8(d, i, p) == low | high);
            lemma_bit_or(low, high, j);
            lemma_bit_shl(d[i + 1], (8 - p) as u8, j);
        } else {
            assert(read8(d, i, p) == low);
        }
    }
}

/// Reading a byte where its eight bits occur gives it.
pub(crate) proof fn lemma_at_bits_byte(d: Seq<u8>, pos: int, b: u8)
    requires
        at_bits(d, pos, value_bits(b, 8)),
    ensures
        p_byte(d, bit_cursor(pos)) == Parsed::Done(b, bit_cursor(pos + 8)),
{
    let x = read8(d, pos / 8, (pos % 8) as u8);
    assert forall|j: u8| j < 8 implies #[trigger] spec_get_bit(x, j) == spec_get_bit(b, j) by {
        lemma_read8_bit(d, pos, j);
        assert(value_bits(b, 8)[j as int] == spec_get_bit(b, j));
    }
    lemma_byte_from_bits(x, b);
    assert(bit_cursor(pos + 8) == Cursor { index: pos / 8 + 1, pointer: (pos % 8) as u8 });
}

/// The bits of `low_bits(x, n)`.
pub(crate) proof fn lemma_bit_low(x: u8, n: u8, j: u8)
    requires
        0 < n <= 8,
        j < 8,
    ensures
        spec_get_bit(low_bits(x, n), j) == (j < n && spec_get_bit(x, j)),
{
    if n < 8 {
        let s = (8 - n) as u8;
        assert((0 < n && n < 8 && s == 8 - n && j < 8) ==> ((((((x << s) as u8) >> s) as u8) >> j)
            & 1u8 == 1u8) == (j < n && ((x >> j) & 1u8 == 1u8))) by (bit_vector);
    }
}

/// Reading `n` bits where the low `n` bits of `b` occur gives `b`, when
/// `b` fits in them.
pub(crate) proof fn lemma_at_bits_value(d: Seq<u8>, pos: int, b: u8, n: u8)
    requires
        0 < n <= 8,
        fits(b, n),
        at_bits(d, pos, value_bits(b, n)),
    ensures
        p_bits(d, bit_cursor(pos), n) == Parsed::Done(b, bit_cursor(pos + n)),
{
    let x = read8(d, pos / 8, (pos % 8) as u8);
    assert forall|j: u8| j < 8 implies #[trigger] spec_get_bit(low_bits(x, n), j) == spec_get_bit(
        b,
        j,
    ) by {
        lemma_bit_low(x, n, j);
        if j < n {
            lemma_read8_bit(d, pos, j);
            assert(value_bits(b, n)[j as int] == spec_get_bit(b, j));
        } else {
            lemma_fits_bit(b, n, j);
        }
    }
    lemma_byte_from_bits(low_bits(x, n), b);
    assert(advance(pos / 8, (pos % 8) as u8, n) == (bit_cursor(pos + n).index, bit_cursor(
        pos + n,
    ).pointer));
}

/// Bits whose count is a multiple of eight are the bits of their packing.
pub(crate) proof fn lemma_bits_of_pack(e: Seq<bool>)
    requires
        e.len() % 8 == 0,
    ensures
        bits_of(pack_bits(e)) == e,
{
    let q = pack_bits(e);
    lemma_bytes_for_bits(e.len() as int);
    assert forall|t: int| 0 <= t < e.len() implies #[trigger] bits_of(q)[t] == e[t] by {
        lemma_pack_bit(e, t / 8, (t % 8) as u8);
        assert(8 * (t / 8) + t % 8 == t);
    }
    assert(bits_of(q) =~= e);
}

/// The bytes packed from `e`, with `w` whole bytes and `rem` more bits:
/// the whole bytes pack the first `8 * w` bits, and the last byte holds the
/// remaining bits, padded with zero bits.
pub(crate) proof fn lemma_pack_split(e: Seq<bool>, w: int, rem: int)
    requires
        e.len() == 8 * w + rem,
        0 <= w,
        0 < rem < 8,
    ensures
        pack_bits(e).len() == w + 1,
        pack_bits(e.take(8 * w)) == pack_bits(e).take(w),
        fits(pack_bits(e)[w], rem as u8),
        value_bits(pack_bits(e)[w], rem as u8) == e.skip(8 * w),
        value_bits(pack_bits(e)[w], 8) == e.skip(8 * w) + value_bits(0, (8 - rem) as u8),
{
    let q = pack_bits(e);
    let h = e.take(8 * w);
    lemma_bytes_for_bits(e.len() as int);
    lemma_bytes_for_bits(8 * w);
    let ph = pack_bits(h);
    assert forall|k: int| 0 <= k < w implies #[trigger] ph[k] == q[k] by {
        assert forall|j: u8| j < 8 implies #[trigger] spec_get_bit(ph[k], j) == spec_get_bit(q[k], j) by {
            lemma_pack_bit(h, k, j);
            lemma_pack_bit(e, k, j);
        }
        lemma_byte_from_bits(ph[k], q[k]);
    }
    assert(ph =~= q.take(w));
    let last = q[w];
    let r = rem as u8;
    assert forall|j: u8| r <= j < 8 implies !#[trigger] spec_get_bit(last, j) by {
        lemma_pack_bit(e, w, j);
    }
    assert(fits(last, r)) by {
        assert(((r <= 0 ==> !((last >> 0u8) & 1u8 == 1u8)) && (r <= 1 ==> !((last >> 1u8) & 1u8 == 1u8)) && (
            r <= 2 ==> !((last >> 2u8) & 1u8 == 1u8)) && (r <= 3 ==> !((last >> 3u8) & 1u8 == 1u8)) && (r
            <= 4 ==> !((last >> 4u8) & 1u8 == 1u8)) && (r <= 5 ==> !((last >> 5u8) & 1u8 == 1u8)) && (r <= 6
            ==> !((last >> 6u8) & 1u8 == 1u8)) && (r <= 7 ==> !((last >> 7u8) & 1u8 == 1u8)) && r < 8)
            ==> (last >> r) == 0u8) by (bit_vector);
        if r <= 0 { assert(!spec_get_bit(last, 0)); }
        if r <= 1 { assert(!spec_get_bit(last, 1)); }
        if r <= 2 { assert(!spec_get_bit(last, 2)); }
        if r <= 3 { assert(!spec_get_bit(last, 3)); }
        if r <= 4 { assert(!spec_get_bit(last, 4)); }
        if r <= 5 { assert(!spec_get_bit(last, 5)); }
        if r <= 6 { assert(!spec_get_bit(last, 6)); }
        if r <= 7 { assert(!spec_get_bit(last, 7)); }
    }
    assert forall|j: int| 0 <= j < rem implies #[trigger] value_bits(last, r)[j] == e.skip(8 * w)[j] by {
        lemma_pack_bit(e, w, j as u8);
    }
    assert(value_bits(last, r) =~= e.skip(8 * w));
    let z = value_bits(0, (8 - rem) as u8);
    assert forall|j: int| 0 <= j < 8 implies #[trigger] value_bits(last, 8)[j] == (e.skip(8 * w) + z)[j] by {
        lemma_pack_bit(e, w, j as u8);
        if j >= rem {
            lemma_bit_zero((j - rem) as u8);
        }
    }
    assert(value_bits(last, 8) =~= e.skip(8 * w) + z);
}

/// Where the bits `e` occur, so does every prefix of them.
pub(crate) proof fn lemma_at_bits_take(d: Seq<u8>, pos: int, e: Seq<bool>, n: int)
    requires
        at_bits(d, pos, e),
        0 <= n <= e.len(),
    ensures
        at_bits(d, pos, e.take(n)),
        at_bits(d, pos + n, e.skip(n)),
{
    assert(e.take(n) + e.skip(n) =~= e);
    lemma_at_bits_split(d, pos, e.take(n), e.skip(n));
}

// ----- runs of fields -----

/// The bits of the fields `fields`, each a value and its width, one after
/// the other.
pub open spec fn field_bits(fields: Seq<(u8, u8)>) -> Seq<bool>
    decreases fields.len(),
{
    if fields.len() == 0 {
        Seq::empty()
    } else {
        field_bits(fields.drop_last()) + value_bits(fields.last().0, fields.last().1)
    }
}

/// Writing each field's value in its width, one after the other.
pub open spec fn ws_fields(st: WriterState, fields: Seq<(u8, u8)>) -> Written
    decreases fields.len(),
{
    if fields.len() == 0 {
        Written::Done(st)
    } else {
        match ws_fields(st, fields.drop_last()) {
            Written::Done(st1) => ws_bits(st1, fields.last().0, fields.last().1),
            Written::Failed(f) => Written::Failed(f),
        }
    }
}

/// Reading values of the widths `widths`, one after the other.
pub open spec fn p_fields(d: Seq<u8>, c: Cursor, widths: Seq<u8>) -> Parsed<Seq<u8>>
    decreases widths.len(),
{
    if widths.len() == 0 {
        Parsed::Done(Seq::empty(), c)
    } else {
        match p_fields(d, c, widths.drop_last()) {
            Parsed::Done(vs, c1) => match p_bits(d, c1, widths.last()) {
                Parsed::Done(v, c2) => Parsed::Done(vs.push(v), c2),
                Parsed::Failed(f) => Parsed::Failed(f),
            },
            Parsed::Failed(f) => Parsed::Failed(f),
        }
    }
}

/// Whether every field's width is 1 to 8 and its value fits in it.
pub open spec fn fields_ok(fields: Seq<(u8, u8)>) -> bool {
    forall|i: int| 0 <= i < fields.len() ==> 0 < (#[trigger] fields[i]).1 <= 8 && fits(fields[i].0, fields[i].1)
}

proof fn lemma_ws_fields(e: Seq<bool>, fields: Seq<(u8, u8)>)
    requires
        fields_ok(fields),
    ensures
        ws_fields(bit_state(e), fields) == Written::Done(bit_state(e + field_bits(fields))),
    decreases fields.len(),
{
    if fields.len() == 0 {
        assert(e + field_bits(fields) =~= e);
    } else {
        let front = fields.drop_last();
        lemma_ws_fields(e, front);
        let last = fields.last();
        assert(fields[fields.len() - 1] == last);
        lemma_append_bits(e + field_bits(front), last.0, last.1);
        assert(e + field_bits(front) + value_bits(last.0, last.1) =~= e + field_bits(fields));
    }
}

proof fn lemma_p_fields(d: Seq<u8>, pos: int, fields: Seq<(u8, u8)>)
    requires
        fields_ok(fields),
        at_bits(d, pos, field_bits(fields)),
    ensures
        p_fields(d, bit_cursor(pos), fields.map_values(|f: (u8, u8)| f.1)) == Parsed::Done(
            fields.map_values(|f: (u8, u8)| f.0),
            bit_cursor(pos + field_bits(fields).len()),
        ),
    decreases fields.len(),
{
    let ws = fields.map_values(|f: (u8, u8)| f.1);
    let vs = fields.map_values(|f: (u8, u8)| f.0);
    if fields.len() == 0 {
        assert(ws =~= Seq::<u8>::empty());
        assert(vs =~= Seq::<u8>::empty());
    } else {
        let front = fields.drop_last();
        let last = fields.last();
        assert(fields[fields.len() - 1] == last);
        lemma_at_bits_split(d, pos, field_bits(front), value_bits(last.0, last.1));
        lemma_p_fields(d, pos, front);
        assert(ws.drop_last() =~= front.map_values(|f: (u8, u8)| f.1));
        assert(vs =~= front.map_values(|f: (u8, u8)| f.0).push(last.0));
        lemma_at_bits_value(d, pos + field_bits(front).len(), last.0, last.1);
    }
}

/// A run of fields, each a value that fits in its width of 1 to 8 bits,
/// written from an empty writer and read back from the start of the bytes
/// written, comes back value by value: each read of a field's width gives
/// that field's value, and the reads end where the writes ended. The
/// writes are a run of [`crate::format::byte::ByteWriter::incomplete_push`]
/// calls, whose contract is [`ws_bits`] when well formed, and the reads a
/// run of `incomplete_next` calls, whose contract is [`p_bits`].
pub proof fn lemma_fields_read_back(fields: Seq<(u8, u8)>)
    requires
        fields_ok(fields),
    ensures
        ws_fields(WriterState { bytes: Seq::empty(), pointer: 0 }, fields) == Written::Done(
            bit_state(field_bits(fields)),
        ),
        p_fields(
            pack_bits(field_bits(fields)),
            Cursor { index: 0, pointer: 0 },
            fields.map_values(|f: (u8, u8)| f.1),
        ) == Parsed::Done(
            fields.map_values(|f: (u8, u8)| f.0),
            bit_cursor(field_bits(fields).len() as int),
        ),
{
    let none = Seq::<bool>::empty();
    assert(pack_bits(none) =~= Seq::<u8>::empty()) by {
        lemma_pack_len(none);
    }
    assert(bit_state(none) == WriterState { bytes: Seq::empty(), pointer: 0 });
    lemma_ws_fields(none, fields);
    assert(none + field_bits(fields) =~= field_bits(fields));
    lemma_at_pack(field_bits(fields));
    lemma_p_fields(pack_bits(field_bits(fields)), 0, fields);
    assert(bit_cursor(0) == Cursor { index: 0, pointer: 0 });
}

} // verus!
