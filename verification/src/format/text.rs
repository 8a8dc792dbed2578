//! Characters and strings: the std operations this crate relies on, and the
//! UTF-8 decoding of single code points.
use vstd::prelude::*;
use vstd::utf8::{decode_first_scalar, is_scalar, valid_first_scalar};
use super::model::lead_width;

verus! {

/// `char::from_u32` (std): the `char` whose scalar value is `v`, or `None`
/// when `v` is not a Unicode scalar value (a surrogate, or above
/// `0x10FFFF`).
#[verifier::external_body]
pub(crate) fn char_from_u32(v: u32) -> (r: Option<char>)
    ensures
        r is Some <==> is_scalar(v),
        r matches Some(c) ==> c as u32 == v,
{
    char::from_u32(v)
}

/// `String::push` (std): appends `c` to the end of `s`.
#[verifier::external_body]
pub(crate) fn string_push(s: &mut String, c: char)
    ensures
        final(s)@ == old(s)@.push(c),
{
    s.push(c)
}

/// How a UTF-8 lead byte classifies: the width ranges as vstd's UTF-8
/// module states them.
pub proof fn lemma_lead_width(b: u8)
    ensures
        lead_width(b) == 1 <==> 0x00 <= b <= 0x7f,
        lead_width(b) == 2 <==> 0xc0 <= b <= 0xdf,
        lead_width(b) == 3 <==> 0xe0 <= b <= 0xef,
        lead_width(b) == 4 <==> 0xf0 <= b <= 0xf7,
        lead_width(b) == 0 <==> (0x80 <= b <= 0xbf || 0xf8 <= b),
{
    assert((b >> 7u8 == 0) <==> (b <= 0x7f)) by (bit_vector);
    assert((b >> 7u8 != 0) ==> ((b >> 5u8 == 6) <==> (0xc0 <= b <= 0xdf))) by (bit_vector);
    assert((b >> 7u8 != 0) && (b >> 5u8 != 6) ==> ((b >> 4u8 == 14) <==> (0xe0 <= b <= 0xef))) by (bit_vector);
    assert((b >> 7u8 != 0) && (b >> 5u8 != 6) && (b >> 4u8 != 14) ==> ((b >> 3u8 == 30) <==> (0xf0 <= b <= 0xf7))) by (bit_vector);
}

/// The scalar value that `lead` followed by `rest` encodes, when they form
/// a valid UTF-8 encoding of one scalar.
pub fn decode_scalar(lead: u8, rest: &Vec<u8>) -> (r: Option<u32>)
    requires
        lead_width(lead) >= 1,
        rest@.len() == lead_width(lead) - 1,
    ensures
        r == (if valid_first_scalar(seq![lead] + rest@) {
            Some(decode_first_scalar(seq![lead] + rest@))
        } else {
            None::<u32>
        }),
        r matches Some(v) ==> is_scalar(v),
{
    let ghost bytes = seq![lead] + rest@;
    proof {
        lemma_lead_width(lead);
        assert(bytes[0] == lead);
        assert(bytes.len() == lead_width(lead));
        assert(forall|i: int| 1 <= i < bytes.len() ==> bytes[i] == rest@[i - 1]);
    }
    if lead <= 0x7f {
        Some((lead & 0x7f) as u32)
    } else if lead <= 0xdf {
        let b1 = rest[0];
        if !(0x80 <= b1 && b1 <= 0xbf) {
            return None;
        }
        let cp: u32 = (((lead & 0x1f) as u32) << 6u32) | ((b1 & 0x3f) as u32);
        if cp < 0x80 {
            return None;
        }
        proof {
            assert(cp <= 0x7ff) by (bit_vector)
                requires
                    cp == (((lead & 0x1f) as u32) << 6u32) | ((b1 & 0x3f) as u32),
            ;
        }
        Some(cp)
    } else if lead <= 0xef {
        let b1 = rest[0];
        let b2 = rest[1];
        if !(0x80 <= b1 && b1 <= 0xbf && 0x80 <= b2 && b2 <= 0xbf) {
            return None;
        }
        let cp: u32 = (((lead & 0x0f) as u32) << 12u32) | (((b1 & 0x3f) as u32) << 6u32) | ((b2
            & 0x3f) as u32);
        if cp < 0x800 || (0xD800 <= cp && cp <= 0xDFFF) {
            return None;
        }
        proof {
            assert(cp <= 0xffff) by (bit_vector)
                requires
                    cp == (((lead & 0x0f) as u32) << 12u32) | (((b1 & 0x3f) as u32) << 6u32) | ((b2
                        & 0x3f) as u32),
            ;
        }
        Some(cp)
    } else {
        let b1 = rest[0];
        let b2 = rest[1];
        let b3 = rest[2];
        if !(0x80 <= b1 && b1 <= 0xbf && 0x80 <= b2 && b2 <= 0xbf && 0x80 <= b3 && b3 <= 0xbf) {
            return None;
        }
        let cp: u32 = (((lead & 0x07) as u32) << 18u32) | (((b1 & 0x3f) as u32) << 12u32) | (((b2
            & 0x3f) as u32) << 6u32) | ((b3 & 0x3f) as u32);
        if cp < 0x10000 || cp > 0x10ffff {
            return None;
        }
        proof {
            assert(!(0xD800 <= cp <= 0xDFFF));
        }
        Some(cp)
    }
}

} // verus!
