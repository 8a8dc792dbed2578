//! Bit-level reading and writing of byte buffers.
//!
//! Bits are packed least-significant first: the first bit written to a fresh
//! byte is bit 0, the next one bit 1, and so on.
use vstd::prelude::*;

verus! {

/// Returns bit `index` (0 = least significant) of `byte`.
pub fn get_bit(byte: u8, index: u8) -> (r: bool)
    requires
        index < 8,
    ensures
        r == spec_get_bit(byte, index),
{
    (byte >> index) & 0b00000001 == 1
}

/// Bit `index` (0 = least significant) of `byte`.
pub open spec fn spec_get_bit(byte: u8, index: u8) -> bool {
    (byte >> index) & 1u8 == 1u8
}

/// Bits 0, 1 and 2 of `b` as masks.
pub proof fn lemma_get_bit0(b: u8)
    ensures
        spec_get_bit(b, 0) == (b & 1 == 1),
        spec_get_bit(b, 1) == (b & 2 == 2),
        spec_get_bit(b, 2) == (b & 4 == 4),
{
    assert(((b >> 0u8) & 1u8 == 1u8) == (b & 1u8 == 1u8)) by (bit_vector);
    assert(((b >> 1u8) & 1u8 == 1u8) == (b & 2u8 == 2u8)) by (bit_vector);
    assert(((b >> 2u8) & 1u8 == 1u8) == (b & 4u8 == 4u8)) by (bit_vector);
}

/// The low `n` bits of `b` (all of `b` when `n` is 8).
pub open spec fn low_bits(b: u8, n: u8) -> u8 {
    if n >= 8 {
        b
    } else {
        ((b << ((8 - n) as u8)) >> ((8 - n) as u8)) as u8
    }
}

/// Bytes after appending the whole byte `b` to a buffer whose last byte holds
/// `pointer` used bits.
pub open spec fn spec_push(bytes: Seq<u8>, pointer: u8, b: u8) -> Seq<u8> {
    if pointer == 0 {
        bytes.push(b)
    } else {
        let last = bytes.len() - 1;
        bytes.update(last, bytes[last] | ((b << pointer) as u8)).push((b >> ((8 - pointer) as u8)) as u8)
    }
}

/// The mask that `incomplete_push` ORs into the last byte: `b` shifted to the
/// write position, cleared above the `n` written bits when they do not reach
/// the end of the byte.
pub open spec fn partial_mask(pointer: u8, b: u8, n: u8) -> u8 {
    let mask = (b << pointer) as u8;
    if pointer + n < 8 {
        let shift = (8 - pointer - n) as u8;
        ((mask << shift) >> shift) as u8
    } else {
        mask
    }
}

/// Bytes after writing the low `n` bits of `b` at bit offset `pointer` of
/// the last byte.
///
/// For `n <= 8` this appends exactly those bits when `b < 2^n`. A larger `n`
/// stores `b` and leaves the offset past the end of the byte.
pub open spec fn spec_incomplete_push(bytes: Seq<u8>, pointer: u8, b: u8, n: u8) -> Seq<u8> {
    if n == 8 {
        spec_push(bytes, pointer, b)
    } else if pointer == 0 {
        bytes.push(b)
    } else {
        let last = bytes.len() - 1;
        let merged = bytes.update(last, bytes[last] | partial_mask(pointer, b, n));
        if pointer + n >= 8 && pointer + n - 8 != 0 {
            merged.push((b >> ((8 - pointer) as u8)) as u8)
        } else {
            merged
        }
    }
}

/// Whether `incomplete_push` can write `n` bits at offset `pointer` without
/// overflowing its bit arithmetic.
pub open spec fn incomplete_push_ok(pointer: u8, n: u8) -> bool {
    pointer < 8 && pointer + n <= 255
}

/// Bit offset into the last byte after writing `n` bits at offset `pointer`.
pub open spec fn spec_incomplete_pointer(pointer: u8, n: u8) -> u8 {
    if n == 8 {
        pointer
    } else if pointer == 0 {
        n
    } else if pointer + n >= 8 {
        (pointer + n - 8) as u8
    } else {
        (pointer + n) as u8
    }
}

/// The contents of a [`ByteWriter`]: its bytes, and how many bits of the
/// last byte are in use (0 when the last byte is complete).
pub struct WriterState {
    pub bytes: Seq<u8>,
    pub pointer: u8,
}

/// Writer state after appending the whole byte `b`.
pub open spec fn w_push(st: WriterState, b: u8) -> WriterState {
    WriterState { bytes: spec_push(st.bytes, st.pointer, b), pointer: st.pointer }
}

/// Writer state after appending the low `n` bits of `b`.
pub open spec fn w_bits(st: WriterState, b: u8, n: u8) -> WriterState {
    WriterState {
        bytes: spec_incomplete_push(st.bytes, st.pointer, b, n),
        pointer: spec_incomplete_pointer(st.pointer, n),
    }
}

/// Whether a writer state can be extended: the bit offset stays inside a
/// byte, and a nonzero offset always refers to an existing last byte.
pub open spec fn writer_wf(st: WriterState) -> bool {
    &&& st.pointer < 8
    &&& st.pointer != 0 ==> st.bytes.len() > 0
}

/// Writes bytes, and parts of bytes, to a growing buffer.
pub struct ByteWriter {
    pub bytes: Vec<u8>,
    pub pointer: u8,
}

impl View for ByteWriter {
    type V = WriterState;

    open spec fn view(&self) -> WriterState {
        WriterState { bytes: self.bytes@, pointer: self.pointer }
    }
}

impl ByteWriter {
    /// Whether the writer's state is consistent.
    pub open spec fn wf(&self) -> bool {
        writer_wf(self@)
    }

    /// An empty writer.
    pub fn new() -> (w: Self)
        ensures
            w.wf(),
            w@ == (WriterState { bytes: Seq::<u8>::empty(), pointer: 0 }),
    {
        ByteWriter { bytes: Vec::new(), pointer: 0 }
    }

    /// Appends the eight bits of `byte`.
    pub fn push(&mut self, byte: u8)
        requires
            old(self).wf(),
        ensures
            final(self).wf(),
            final(self)@ == w_push(old(self)@, byte),
    {
        if self.pointer == 0 {
            self.bytes.push(byte);
        } else {
            let mask = byte << self.pointer;
            let last_index = self.bytes.len() - 1;
            let merged = self.bytes[last_index] | mask;
            self.bytes.set(last_index, merged);
            let new_byte = byte >> (8 - self.pointer);
            self.bytes.push(new_byte);
        }
    }

    /// Appends the low `number_of_bits` bits of `byte`.
    ///
    /// With more than eight bits the bit offset ends past the last byte, and
    /// the writer then refuses further writes (`wf` no longer holds).
    pub fn incomplete_push(&mut self, byte: u8, number_of_bits: u8)
        requires
            old(self).wf(),
            incomplete_push_ok(old(self).pointer, number_of_bits),
        ensures
            writer_wf(w_bits(old(self)@, byte, number_of_bits)) ==> final(self).wf(),
            number_of_bits <= 8 ==> final(self).wf(),
            final(self)@ == w_bits(old(self)@, byte, number_of_bits),
    {
        if number_of_bits == 8 {
            self.push(byte);
            return ;
        }
        if self.pointer == 0 {
            self.bytes.push(byte);
            self.pointer = number_of_bits;
            return ;
        }
        let mut mask = byte << self.pointer;
        if self.pointer + number_of_bits < 8 {
            let shift = 8 - self.pointer - number_of_bits;
            mask = (mask << shift) >> shift;
        }
        let last_index = self.bytes.len() - 1;
        let merged = self.bytes[last_index] | mask;
        self.bytes.set(last_index, merged);
        let sum: u8 = self.pointer + number_of_bits;
        if sum >= 8 {
            let rest: u8 = sum - 8;
            self.pointer = rest;
            if rest != 0 {
                let new_byte = byte >> (number_of_bits - rest);
                self.bytes.push(new_byte);
            }
        } else {
            self.pointer = sum;
        }
    }
}

/// The eight bits that start `pointer` bits into byte `index` of `data`;
/// bits past the end of `data` read as zero.
pub open spec fn read8(data: Seq<u8>, index: int, pointer: u8) -> u8 {
    if pointer == 0 {
        data[index]
    } else {
        let low = (data[index] >> pointer) as u8;
        if index < data.len() - 1 {
            (low | ((data[index + 1] << ((8 - pointer) as u8)) as u8)) as u8
        } else {
            low
        }
    }
}

/// Position (byte, bit offset) after reading `n` bits from (`index`, `pointer`).
pub open spec fn advance(index: int, pointer: u8, n: u8) -> (int, u8) {
    if pointer + n >= 8 {
        (index + 1, (pointer + n - 8) as u8)
    } else {
        (index, (pointer + n) as u8)
    }
}


/// A cursor that reads whole bytes, or parts of bytes, from a byte stream.
///
/// The stream is `data()`; the cursor sits `spec_pointer()` bits into byte
/// `spec_index()`.
pub trait ByteReader {
    /// The bytes this reader reads from.
    spec fn data(&self) -> Seq<u8>;

    /// Index of the byte the cursor is in.
    spec fn spec_index(&self) -> int;

    /// Bit offset of the cursor inside its byte.
    spec fn spec_pointer(&self) -> u8;

    /// Whether the cursor's state is consistent.
    spec fn reader_wf(&self) -> bool;

    /// The eight bits at the cursor, without moving it.
    fn get(&self) -> (r: u8)
        requires
            self.reader_wf(),
            0 <= self.spec_index() < self.data().len(),
        ensures
            r == read8(self.data(), self.spec_index(), self.spec_pointer()),
    ;

    /// The low `number_of_bits` of the eight bits at the cursor, without moving it.
    fn incomplete_get(&self, number_of_bits: u8) -> (r: u8)
        requires
            self.reader_wf(),
            0 <= self.spec_index() < self.data().len(),
            1 <= number_of_bits <= 8,
        ensures
            r == low_bits(read8(self.data(), self.spec_index(), self.spec_pointer()), number_of_bits),
    ;

    /// Reads eight bits and moves the cursor one byte on.
    fn next(&mut self) -> (r: u8)
        requires
            old(self).reader_wf(),
            0 <= old(self).spec_index() < old(self).data().len(),
        ensures
            final(self).reader_wf(),
            final(self).data() == old(self).data(),
            final(self).spec_index() == old(self).spec_index() + 1,
            final(self).spec_pointer() == old(self).spec_pointer(),
            r == read8(old(self).data(), old(self).spec_index(), old(self).spec_pointer()),
    ;

    /// Reads `number_of_bits` bits and moves the cursor past them.
    fn incomplete_next(&mut self, number_of_bits: u8) -> (r: u8)
        requires
            old(self).reader_wf(),
            0 <= old(self).spec_index() < old(self).data().len(),
            1 <= number_of_bits <= 8,
        ensures
            final(self).reader_wf(),
            final(self).data() == old(self).data(),
            (final(self).spec_index(), final(self).spec_pointer()) == advance(
                old(self).spec_index(),
                old(self).spec_pointer(),
                number_of_bits,
            ),
            r == low_bits(
                read8(old(self).data(), old(self).spec_index(), old(self).spec_pointer()),
                number_of_bits,
            ),
    ;

    /// Number of bytes in the stream.
    fn len(&self) -> (r: usize)
        requires
            self.reader_wf(),
        ensures
            r == self.data().len(),
    ;

    /// Whether the stream holds no bytes.
    fn is_empty(&self) -> (r: bool)
        requires
            self.reader_wf(),
        ensures
            r == (self.data().len() == 0),
    ;

    /// Index of the byte the cursor is in.
    fn index(&self) -> (r: usize)
        requires
            self.reader_wf(),
        ensures
            r == self.spec_index(),
    ;
}

/// A [`ByteReader`] over a byte slice.
pub struct ByteReaderImpl<'a> {
    bytes: &'a [u8],
    pointer: u8,
    index: usize,
}

impl<'a> ByteReaderImpl<'a> {
    /// A reader at the start of `bytes`.
    pub fn from(bytes: &'a [u8]) -> (r: Self)
        ensures
            r.reader_wf(),
            r.data() == bytes@,
            r.spec_index() == 0,
            r.spec_pointer() == 0,
    {
        ByteReaderImpl { bytes, pointer: 0, index: 0 }
    }
}

impl<'a> ByteReader for ByteReaderImpl<'a> {
    closed spec fn data(&self) -> Seq<u8> {
        self.bytes@
    }

    closed spec fn spec_index(&self) -> int {
        self.index as int
    }

    closed spec fn spec_pointer(&self) -> u8 {
        self.pointer
    }

    closed spec fn reader_wf(&self) -> bool {
        &&& self.pointer < 8
        &&& self.index <= self.bytes@.len()
    }

    fn get(&self) -> (r: u8) {
        if self.pointer == 0 {
            self.bytes[self.index]
        } else {
            let mut byte = self.bytes[self.index] >> self.pointer;
            if self.index < self.bytes.len() - 1 {
                let mask = self.bytes[self.index + 1] << (8 - self.pointer);
                byte = byte | mask;
            }
            byte
        }
    }

    fn incomplete_get(&self, number_of_bits: u8) -> (r: u8) {
        if number_of_bits == 8 {
            return self.get();
        }
        (self.get() << (8 - number_of_bits)) >> (8 - number_of_bits)
    }

    fn next(&mut self) -> (r: u8) {
        let byte = self.get();
        let _length = self.bytes.len();
        self.index = self.index + 1;
        byte
    }

    fn incomplete_next(&mut self, number_of_bits: u8) -> (r: u8) {
        let byte = self.incomplete_get(number_of_bits);
        let _length = self.bytes.len();
        let sum: u8 = self.pointer + number_of_bits;
        if sum >= 8 {
            self.index = self.index + 1;
            self.pointer = sum - 8;
        } else {
            self.pointer = sum;
        }
        byte
    }

    fn len(&self) -> (r: usize) {
        self.bytes.len()
    }

    fn is_empty(&self) -> (r: bool) {
        self.bytes.len() == 0
    }

    fn index(&self) -> (r: usize) {
        self.index
    }
}

} // verus!
