//! Decoding a single UTF-8 scalar from the front of a byte string.

use vstd::prelude::*;
use vstd::utf8::{
    decode_first_scalar, length_of_first_scalar, valid_first_scalar,
};

verus! {

/// The bytes of `bytes` from position `start` to the end.
pub open spec fn tail(bytes: Seq<u8>, start: int) -> Seq<u8> {
    bytes.subrange(start, bytes.len() as int)
}

/// The bytes of `bytes` from position `start` to the end.
pub open spec fn tail_from(bytes: Seq<u8>, start: usize) -> Seq<u8> {
    tail(bytes, start as int)
}

/// Skipping `k` bytes of the tail that starts at `start` gives the tail
/// that starts at `next`, where `next` is `start + k`.
pub proof fn lemma_tail_step(bytes: Seq<u8>, start: usize, k: usize, next: usize)
    requires
        next == start + k,
        next <= bytes.len(),
    ensures
        tail(tail_from(bytes, start), k as int) == tail_from(bytes, next),
        tail_from(bytes, start).len() == bytes.len() - start,
{
    assert(tail(tail_from(bytes, start), k as int) =~= tail_from(bytes, next));
}

/// True when `b` has the form `10xxxxxx`.
fn is_continuation(b: u8) -> (r: bool)
    ensures
        r == vstd::utf8::is_continuation_byte(b),
{
    0x80 <= b && b <= 0xbf
}

/// Decodes the scalar that starts at `bytes[start]`.
///
/// Returns the scalar and the number of bytes it occupies, or `None` when
/// `start` is at or beyond the end of `bytes` or the bytes at `start` are
/// not a well-formed encoding of one scalar (wrong bit pattern, cut short,
/// overlong, a surrogate, or beyond `U+10FFFF`).
pub fn next_utf8_char(bytes: &[u8], start: usize) -> (res: Option<(u32, usize)>)
    ensures
        res is Some <==> start < bytes.len() && valid_first_scalar(tail(bytes@, start as int)),
        res matches Some((scalar, len)) ==> {
            &&& scalar == decode_first_scalar(tail(bytes@, start as int))
            &&& len == length_of_first_scalar(tail(bytes@, start as int))
            &&& 1 <= len <= 4
            &&& start + len <= bytes.len()
        },
{
    if start >= bytes.len() {
        return None;
    }
    let ghost rest = tail(bytes@, start as int);
    let n: usize = bytes.len() - start;
    let b0: u8 = bytes[start];
    assert(rest[0] == b0);
    if b0 <= 0x7f {
        let scalar: u32 = (b0 & 0x7f) as u32;
        return Some((scalar, 1));
    }
    if n < 2 {
        return None;
    }
    let b1: u8 = bytes[start + 1];
    assert(rest[1] == b1);
    if !is_continuation(b1) {
        return None;
    }
    if 0xc0 <= b0 && b0 <= 0xdf {
        let scalar: u32 = (((b0 & 0x1f) as u32) << 6) | ((b1 & 0x3f) as u32);
        assert((((b0 & 0x1f) as u32) << 6) | ((b1 & 0x3f) as u32) <= 0x7ff) by (bit_vector);
        if scalar < 0x80 {
            return None;
        }
        return Some((scalar, 2));
    }
    if n < 3 {
        return None;
    }
    let b2: u8 = bytes[start + 2];
    assert(rest[2] == b2);
    if !is_continuation(b2) {
        return None;
    }
    if 0xe0 <= b0 && b0 <= 0xef {
        let scalar: u32 = (((b0 & 0x0f) as u32) << 12) | (((b1 & 0x3f) as u32) << 6) | ((b2
            & 0x3f) as u32);
        assert((((b0 & 0x0f) as u32) << 12) | (((b1 & 0x3f) as u32) << 6) | ((b2 & 0x3f) as u32)
            <= 0xffff) by (bit_vector);
        if scalar < 0x800 || (0xd800 <= scalar && scalar <= 0xdfff) {
            return None;
        }
        return Some((scalar, 3));
    }
    if n < 4 {
        return None;
    }
    let b3: u8 = bytes[start + 3];
    assert(rest[3] == b3);
    if !is_continuation(b3) {
        return None;
    }
    if 0xf0 <= b0 && b0 <= 0xf7 {
        let scalar: u32 = (((b0 & 0x07) as u32) << 18) | (((b1 & 0x3f) as u32) << 12) | (((b2
            & 0x3f) as u32) << 6) | ((b3 & 0x3f) as u32);
        if scalar < 0x10000 || scalar > 0x10ffff {
            return None;
        }
        return Some((scalar, 4));
    }
    None
}

} // verus!
