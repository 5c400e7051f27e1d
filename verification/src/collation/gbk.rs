//! The GBK collations.
//!
//! A GBK collation orders strings by the weights of their characters. The
//! weight of a character of the Basic Multilingual Plane is read from a
//! table of big-endian 16-bit entries, one per code point; every other
//! character weighs as `?`. Strings are given as bytes that should hold
//! UTF-8; a byte at which no character can be decoded either ends the
//! string or stands for `?`, as the collation prescribes.

use core::cmp::Ordering;
use core::hash::Hasher;
use std::collections::hash_map::DefaultHasher;
use vstd::prelude::*;
use vstd::utf8::{decode_first_scalar, length_of_first_scalar, valid_first_scalar, valid_utf8};
use crate::collation::utf8::{lemma_tail_step, next_utf8_char, tail, tail_from};

verus! {

/// Number of bytes in a weight table: two for each code point up to `U+FFFF`.
pub const TABLE_SIZE_FOR_GBK: usize = (0xffff + 1) * 2;

/// The byte that pads a string on the right.
pub const PADDING_SPACE: u8 = 0x20;

/// The weight that stands for `?`, the character that replaces whatever
/// has no weight of its own.
pub const REPLACEMENT_WEIGHT: u16 = 0x3f;

/// The weight that `table` gives to the code point `code`.
pub open spec fn table_weight(table: Seq<u8>, code: int) -> u16 {
    (table[2 * code] as int * 256 + table[2 * code + 1] as int) as u16
}

/// The weight of a character, given as its scalar value.
pub open spec fn scalar_weight(table: Seq<u8>, scalar: u32) -> u16 {
    if scalar > 0xffff {
        REPLACEMENT_WEIGHT
    } else {
        table_weight(table, scalar as int)
    }
}

/// `bytes` without the padding spaces at its end.
pub open spec fn trimmed(bytes: Seq<u8>) -> Seq<u8>
    decreases bytes.len(),
{
    if bytes.len() > 0 && bytes.last() == PADDING_SPACE {
        trimmed(bytes.drop_last())
    } else {
        bytes
    }
}

/// The bytes that a weight contributes to a sort key: both of its bytes,
/// high byte first, unless the high byte is zero.
pub open spec fn weight_bytes(w: u16) -> Seq<u8> {
    if w > 0xff {
        seq![(w / 256) as u8, (w % 256) as u8]
    } else {
        seq![w as u8]
    }
}

/// The sort key of `bytes`: the weight bytes of its characters in order.
///
/// Where no character can be decoded, the key ends if `truncate` is set;
/// otherwise that one byte contributes a `?` and decoding resumes behind it.
pub open spec fn sort_key(table: Seq<u8>, truncate: bool, bytes: Seq<u8>) -> Seq<u8>
    decreases bytes.len(),
{
    if bytes.len() == 0 {
        Seq::empty()
    } else if valid_first_scalar(bytes) {
        weight_bytes(scalar_weight(table, decode_first_scalar(bytes))) + sort_key(
            table,
            truncate,
            tail(bytes, length_of_first_scalar(bytes)),
        )
    } else if truncate {
        Seq::empty()
    } else {
        seq![0x3fu8] + sort_key(table, truncate, tail(bytes, 1))
    }
}

/// The weights that a hash of `bytes` is made of, in order.
///
/// Where no character can be decoded, the sequence ends if `truncate` is
/// set; otherwise that one byte contributes the weight of `?` and decoding
/// resumes behind it.
pub open spec fn hash_weights(table: Seq<u8>, truncate: bool, bytes: Seq<u8>) -> Seq<u16>
    decreases bytes.len(),
{
    if bytes.len() == 0 {
        Seq::empty()
    } else if valid_first_scalar(bytes) {
        seq![scalar_weight(table, decode_first_scalar(bytes))] + hash_weights(
            table,
            truncate,
            tail(bytes, length_of_first_scalar(bytes)),
        )
    } else if truncate {
        Seq::empty()
    } else {
        seq![scalar_weight(table, 0x3f)] + hash_weights(table, truncate, tail(bytes, 1))
    }
}

/// True when `bytes` holds the two bytes of `w`, in either byte order.
pub open spec fn holds_weight(bytes: Seq<u8>, w: u16) -> bool {
    &&& bytes.len() == 2
    &&& {
        ||| (bytes[0] == w / 256 && bytes[1] == w % 256)
        ||| (bytes[0] == w % 256 && bytes[1] == w / 256)
    }
}

/// True when `after` is `before` followed by one write for each of
/// `weights`, in order, each write holding the two bytes of its weight.
pub open spec fn hashed_after(before: Seq<Seq<u8>>, weights: Seq<u16>, after: Seq<Seq<u8>>) -> bool {
    &&& after.len() == before.len() + weights.len()
    &&& after.take(before.len() as int) == before
    &&& forall|i: int|
        0 <= i < weights.len() ==> holds_weight(#[trigger] after[before.len() + i], weights[i])
}

/// The weight that a comparison reads at the front of `bytes`: that of the
/// first character, or that of `?` where none can be decoded.
pub open spec fn front_weight(table: Seq<u8>, bytes: Seq<u8>) -> u16 {
    if valid_first_scalar(bytes) {
        scalar_weight(table, decode_first_scalar(bytes))
    } else {
        scalar_weight(table, 0x3f)
    }
}

/// The number of bytes that a comparison consumes at the front of `bytes`:
/// those of the first character, or one where none can be decoded.
pub open spec fn front_len(bytes: Seq<u8>) -> int {
    if valid_first_scalar(bytes) {
        length_of_first_scalar(bytes)
    } else {
        1
    }
}

/// The order of `a` and `b` by the weights of their characters.
///
/// The first pair of differing weights decides. Where one string ends
/// first, it is the lesser. With `truncate` set, the strings count as equal
/// from the point where, both having bytes left, one of them has no
/// character to decode.
pub open spec fn weight_order(table: Seq<u8>, truncate: bool, a: Seq<u8>, b: Seq<u8>) -> Ordering
    decreases a.len(),
{
    if a.len() == 0 || b.len() == 0 {
        if a.len() < b.len() {
            Ordering::Less
        } else if a.len() == b.len() {
            Ordering::Equal
        } else {
            Ordering::Greater
        }
    } else if truncate && !(valid_first_scalar(a) && valid_first_scalar(b)) {
        Ordering::Equal
    } else if front_weight(table, a) < front_weight(table, b) {
        Ordering::Less
    } else if front_weight(table, a) > front_weight(table, b) {
        Ordering::Greater
    } else {
        weight_order(table, truncate, tail(a, front_len(a)), tail(b, front_len(b)))
    }
}

/// `bytes` as a comparison reads it: whole, or without its padding.
pub open spec fn padded_or_trimmed(bytes: Seq<u8>, force_no_pad: bool) -> Seq<u8> {
    if force_no_pad {
        bytes
    } else {
        trimmed(bytes)
    }
}

/// The order with its sides exchanged.
pub open spec fn reversed(order: Ordering) -> Ordering {
    match order {
        Ordering::Less => Ordering::Greater,
        Ordering::Equal => Ordering::Equal,
        Ordering::Greater => Ordering::Less,
    }
}

/// Every string equals itself in the order of weights.
pub proof fn lemma_weight_order_reflexive(table: Seq<u8>, truncate: bool, a: Seq<u8>)
    ensures
        weight_order(table, truncate, a, a) == Ordering::Equal,
    decreases a.len(),
{
    if a.len() != 0 {
        lemma_weight_order_reflexive(table, truncate, tail(a, front_len(a)));
    }
}

/// Exchanging the two strings reverses their order.
pub proof fn lemma_weight_order_flips(table: Seq<u8>, truncate: bool, a: Seq<u8>, b: Seq<u8>)
    ensures
        weight_order(table, truncate, b, a) == reversed(weight_order(table, truncate, a, b)),
    decreases a.len(),
{
    if a.len() != 0 && b.len() != 0 {
        lemma_weight_order_flips(table, truncate, tail(a, front_len(a)), tail(b, front_len(b)));
    }
}

/// Where a byte that starts no character is read as `?`, the order of
/// weights is transitive.
pub proof fn lemma_weight_order_transitive(table: Seq<u8>, a: Seq<u8>, b: Seq<u8>, c: Seq<u8>)
    requires
        weight_order(table, false, a, b) != Ordering::Greater,
        weight_order(table, false, b, c) != Ordering::Greater,
    ensures
        weight_order(table, false, a, c) != Ordering::Greater,
        weight_order(table, false, a, c) == Ordering::Equal ==> weight_order(table, false, a, b)
            == Ordering::Equal && weight_order(table, false, b, c) == Ordering::Equal,
    decreases a.len(),
{
    if a.len() != 0 && b.len() != 0 && c.len() != 0 {
        if front_weight(table, a) == front_weight(table, b) && front_weight(table, b)
            == front_weight(table, c) {
            lemma_weight_order_transitive(
                table,
                tail(a, front_len(a)),
                tail(b, front_len(b)),
                tail(c, front_len(c)),
            );
        }
    }
}

/// Padding does not count: a string and the same string with one more
/// padding space at its end are the same once trimmed.
pub proof fn lemma_trimmed_ignores_padding(bytes: Seq<u8>)
    ensures
        trimmed(bytes.push(PADDING_SPACE)) == trimmed(bytes),
        trimmed(trimmed(bytes)) == trimmed(bytes),
    decreases bytes.len(),
{
    assert(bytes.push(PADDING_SPACE).drop_last() =~= bytes);
    if bytes.len() > 0 && bytes.last() == PADDING_SPACE {
        lemma_trimmed_ignores_padding(bytes.drop_last());
    }
}

/// Strings that compare equal hash alike: where two strings are equal in
/// the order of weights, the weights that their hashes are made of are the
/// same. For a collation that ends a string at the first byte that starts
/// no character, this holds of strings that are valid UTF-8.
pub proof fn lemma_equal_strings_hash_alike(table: Seq<u8>, truncate: bool, a: Seq<u8>, b: Seq<u8>)
    requires
        weight_order(table, truncate, a, b) == Ordering::Equal,
        truncate ==> valid_utf8(a) && valid_utf8(b),
    ensures
        hash_weights(table, truncate, a) == hash_weights(table, truncate, b),
    decreases a.len(),
{
    if a.len() != 0 && b.len() != 0 {
        lemma_equal_strings_hash_alike(
            table,
            truncate,
            tail(a, front_len(a)),
            tail(b, front_len(b)),
        );
    }
}

/// `tail(tail(bytes, i), k)` is `tail(bytes, i + k)`.
proof fn lemma_tail_tail(bytes: Seq<u8>, i: int, k: int)
    requires
        0 <= i,
        0 <= k,
        i + k <= bytes.len(),
    ensures
        tail(tail(bytes, i), k) =~= tail(bytes, i + k),
        tail(bytes, i).len() == bytes.len() - i,
{
}

/// A table of character weights.
pub struct GbkWeightTable {
    entries: Vec<u8>,
}

impl View for GbkWeightTable {
    type V = Seq<u8>;

    closed spec fn view(&self) -> Seq<u8> {
        self.entries@
    }
}

impl GbkWeightTable {
    #[verifier::type_invariant]
    spec fn well_formed(&self) -> bool {
        self.entries@.len() == TABLE_SIZE_FOR_GBK
    }

    /// Takes `entries` as a weight table, if it has the size of one.
    pub fn new(entries: Vec<u8>) -> (res: Option<GbkWeightTable>)
        ensures
            res is Some <==> entries@.len() == TABLE_SIZE_FOR_GBK,
            res matches Some(table) ==> table@ == entries@,
    {
        if entries.len() == TABLE_SIZE_FOR_GBK {
            Some(GbkWeightTable { entries })
        } else {
            None
        }
    }

    /// The weight of the character with scalar value `scalar`.
    pub fn weight(&self, scalar: u32) -> (w: u16)
        ensures
            w == scalar_weight(self@, scalar),
    {
        proof {
            use_type_invariant(self);
        }
        if scalar > 0xffff {
            return REPLACEMENT_WEIGHT;
        }
        let r: usize = scalar as usize;
        let hi: u16 = self.entries[r * 2] as u16;
        let lo: u16 = self.entries[r * 2 + 1] as u16;
        hi * 256 + lo
    }
}

/// The length of `bytes` without the padding spaces at its end.
pub fn trim_end_padding(bytes: &[u8]) -> (n: usize)
    ensures
        n <= bytes.len(),
        bytes@.take(n as int) == trimmed(bytes@),
{
    let mut n: usize = bytes.len();
    assert(bytes@.take(n as int) =~= bytes@);
    while n > 0 && bytes[n - 1] == PADDING_SPACE
        invariant
            n <= bytes.len(),
            trimmed(bytes@.take(n as int)) == trimmed(bytes@),
        decreases n,
    {
        assert(bytes@.take(n as int).drop_last() =~= bytes@.take(n - 1));
        n = n - 1;
    }
    n
}

/// Appends the bytes of the weight `w` to `writer`.
fn write_weight(writer: &mut Vec<u8>, w: u16)
    ensures
        final(writer)@ == old(writer)@ + weight_bytes(w),
{
    if w > 0xff {
        writer.push((w / 256) as u8);
        writer.push((w % 256) as u8);
    } else {
        writer.push(w as u8);
    }
    assert(writer@ =~= old(writer)@ + weight_bytes(w));
}

/// Appends the sort key of `bstr`, taken without its padding, to `writer`
/// and returns the number of bytes appended.
pub fn write_sort_key(
    table: &GbkWeightTable,
    truncate: bool,
    writer: &mut Vec<u8>,
    bstr: &[u8],
) -> (n: usize)
    ensures
        final(writer)@ == old(writer)@ + sort_key(table@, truncate, trimmed(bstr@)),
        n == sort_key(table@, truncate, trimmed(bstr@)).len(),
{
    let end: usize = trim_end_padding(bstr);
    let s: &[u8] = &bstr[0..end];
    assert(s@ =~= trimmed(bstr@));
    let before: usize = writer.len();
    let mut i: usize = 0;
    assert(tail(s@, 0) =~= s@);
    while i < s.len()
        invariant
            i <= s.len(),
            s@ == trimmed(bstr@),
            before == old(writer)@.len(),
            writer@.len() >= before,
            writer@ + sort_key(table@, truncate, tail(s@, i as int)) == old(writer)@ + sort_key(
                table@,
                truncate,
                s@,
            ),
        decreases s.len() - i,
    {
        let ghost rest = tail(s@, i as int);
        match next_utf8_char(s, i) {
            Some((scalar, len)) => {
                let w: u16 = table.weight(scalar);
                proof {
                    lemma_tail_tail(s@, i as int, len as int);
                    assert((writer@ + weight_bytes(w)) + sort_key(
                        table@,
                        truncate,
                        tail(s@, i + len),
                    ) =~= writer@ + sort_key(table@, truncate, rest));
                }
                write_weight(writer, w);
                i = i + len;
            },
            None => {
                if truncate {
                    proof {
                        assert(sort_key(table@, truncate, rest) =~= Seq::<u8>::empty());
                        assert(writer@ + Seq::<u8>::empty() =~= writer@);
                    }
                    return writer.len() - before;
                }
                proof {
                    lemma_tail_tail(s@, i as int, 1);
                    assert((writer@.push(0x3fu8)) + sort_key(table@, truncate, tail(s@, i + 1))
                        =~= writer@ + sort_key(table@, truncate, rest));
                }
                writer.push(0x3f);
                i = i + 1;
            },
        }
    }
    proof {
        assert(tail(s@, i as int) =~= Seq::<u8>::empty());
        assert(writer@ + Seq::<u8>::empty() =~= writer@);
    }
    writer.len() - before
}

/// The part of `bytes` that a comparison reads.
fn comparison_operand(bytes: &[u8], force_no_pad: bool) -> (s: &[u8])
    ensures
        s@ == padded_or_trimmed(bytes@, force_no_pad),
{
    if force_no_pad {
        bytes
    } else {
        let end: usize = trim_end_padding(bytes);
        let s: &[u8] = &bytes[0..end];
        assert(s@ =~= trimmed(bytes@));
        s
    }
}

/// Compares `a` and `b` by the weights of their characters, with or without
/// their padding.
pub fn sort_compare(
    table: &GbkWeightTable,
    truncate: bool,
    a: &[u8],
    b: &[u8],
    force_no_pad: bool,
) -> (res: Ordering)
    ensures
        res == weight_order(
            table@,
            truncate,
            padded_or_trimmed(a@, force_no_pad),
            padded_or_trimmed(b@, force_no_pad),
        ),
{
    let sa: &[u8] = comparison_operand(a, force_no_pad);
    let sb: &[u8] = comparison_operand(b, force_no_pad);
    let mut ia: usize = 0;
    let mut ib: usize = 0;
    assert(tail_from(sa@, 0) =~= sa@);
    assert(tail_from(sb@, 0) =~= sb@);
    while ia < sa.len() && ib < sb.len()
        invariant
            ia <= sa.len(),
            ib <= sb.len(),
            sa@ == padded_or_trimmed(a@, force_no_pad),
            sb@ == padded_or_trimmed(b@, force_no_pad),
            weight_order(table@, truncate, tail_from(sa@, ia), tail_from(sb@, ib)) == weight_order(
                table@,
                truncate,
                sa@,
                sb@,
            ),
        decreases sa.len() - ia,
    {
        proof {
            lemma_tail_step(sa@, ia, 0, ia);
            lemma_tail_step(sb@, ib, 0, ib);
        }
        let decoded_a: Option<(u32, usize)> = next_utf8_char(sa, ia);
        let decoded_b: Option<(u32, usize)> = next_utf8_char(sb, ib);
        if truncate && (decoded_a.is_none() || decoded_b.is_none()) {
            return Ordering::Equal;
        }
        let (scalar_a, len_a): (u32, usize) = match decoded_a {
            Some(found) => found,
            None => (0x3f, 1),
        };
        let (scalar_b, len_b): (u32, usize) = match decoded_b {
            Some(found) => found,
            None => (0x3f, 1),
        };
        let weight_a: u16 = table.weight(scalar_a);
        let weight_b: u16 = table.weight(scalar_b);
        if weight_a < weight_b {
            return Ordering::Less;
        }
        if weight_a > weight_b {
            return Ordering::Greater;
        }
        let next_a: usize = ia + len_a;
        let next_b: usize = ib + len_b;
        proof {
            lemma_tail_step(sa@, ia, len_a, next_a);
            lemma_tail_step(sb@, ib, len_b, next_b);
        }
        ia = next_a;
        ib = next_b;
    }
    proof {
        lemma_tail_step(sa@, ia, 0, ia);
        lemma_tail_step(sb@, ib, 0, ib);
    }
    let left: usize = sa.len() - ia;
    let right: usize = sb.len() - ib;
    if left < right {
        Ordering::Less
    } else if left == right {
        Ordering::Equal
    } else {
        Ordering::Greater
    }
}

/// The weights that a hash of `bstr`, taken without its padding, is made of.
pub fn sort_hash_weights(table: &GbkWeightTable, truncate: bool, bstr: &[u8]) -> (weights: Vec<u16>)
    ensures
        weights@ == hash_weights(table@, truncate, trimmed(bstr@)),
{
    let end: usize = trim_end_padding(bstr);
    let s: &[u8] = &bstr[0..end];
    assert(s@ =~= trimmed(bstr@));
    let mut weights: Vec<u16> = Vec::new();
    let mut i: usize = 0;
    assert(tail(s@, 0) =~= s@);
    assert(weights@ + hash_weights(table@, truncate, s@) =~= hash_weights(table@, truncate, s@));
    while i < s.len()
        invariant
            i <= s.len(),
            s@ == trimmed(bstr@),
            weights@ + hash_weights(table@, truncate, tail(s@, i as int)) == hash_weights(
                table@,
                truncate,
                s@,
            ),
        decreases s.len() - i,
    {
        let ghost rest = tail(s@, i as int);
        let (scalar, len): (u32, usize) = match next_utf8_char(s, i) {
            Some(found) => found,
            None => {
                if truncate {
                    proof {
                        assert(weights@ + Seq::<u16>::empty() =~= weights@);
                    }
                    return weights;
                }
                (0x3f, 1)
            },
        };
        let w: u16 = table.weight(scalar);
        proof {
            lemma_tail_tail(s@, i as int, len as int);
            assert(weights@.push(w) + hash_weights(table@, truncate, tail(s@, i + len))
                =~= weights@ + hash_weights(table@, truncate, rest));
        }
        weights.push(w);
        i = i + len;
    }
    proof {
        assert(tail(s@, i as int) =~= Seq::<u8>::empty());
        assert(weights@ + Seq::<u16>::empty() =~= weights@);
    }
    weights
}

/// The two bytes of `w` in the byte order of the machine:
/// `u16::to_ne_bytes`.
///
/// The standard library documents the result as the memory representation
/// of the integer in the native byte order. The contract says no more than
/// that these are the two bytes of `w`, in one order or the other.
#[verifier::external_body]
fn native_bytes(w: u16) -> (bytes: [u8; 2])
    ensures
        holds_weight(bytes@, w),
{
    w.to_ne_bytes()
}

/// Feeds the weights of `bstr`, taken without its padding, to `state`: one
/// write for each weight, of its two bytes in the byte order of the
/// machine, which is how a `u16` is hashed.
pub fn sort_hash(table: &GbkWeightTable, truncate: bool, state: &mut DefaultHasher, bstr: &[u8])
    ensures
        hashed_after(
            old(state)@,
            hash_weights(table@, truncate, trimmed(bstr@)),
            final(state)@,
        ),
{
    let weights: Vec<u16> = sort_hash_weights(table, truncate, bstr);
    let ghost before = state@;
    let mut i: usize = 0;
    assert(state@.take(before.len() as int) =~= before);
    while i < weights.len()
        invariant
            i <= weights.len(),
            hashed_after(before, weights@.take(i as int), state@),
        decreases weights.len() - i,
    {
        let ghost previous = state@;
        let bytes: [u8; 2] = native_bytes(weights[i]);
        state.write(bytes.as_slice());
        proof {
            assert(previous =~= state@.take(previous.len() as int));
            assert(state@.take(before.len() as int) =~= previous.take(before.len() as int));
            assert forall|k: int| 0 <= k < i + 1 implies holds_weight(
                #[trigger] state@[before.len() + k],
                weights@.take(i + 1)[k],
            ) by {
                if k < i {
                    assert(state@[before.len() + k] == previous[before.len() + k]);
                    assert(weights@.take(i as int)[k] == weights@.take(i + 1)[k]);
                }
            }
        }
        i = i + 1;
    }
    assert(weights@.take(i as int) =~= weights@);
}

/// The collation `gbk_bin`: strings are ordered by the GBK codes of their
/// characters, padding spaces on the right do not count, and a byte that
/// starts no character is read as `?`.
pub struct CollatorGbkBin {
    pub table: GbkWeightTable,
}

impl View for CollatorGbkBin {
    type V = Seq<u8>;

    open spec fn view(&self) -> Seq<u8> {
        self.table@
    }
}

impl CollatorGbkBin {
    /// Whether letters that differ only in case weigh the same.
    pub const IS_CASE_INSENSITIVE: bool = false;

    /// Whether a string ends at the first byte that starts no character.
    pub const NEED_TRUNCATE_INVALID_UTF8_RUNE: bool = false;

    /// The collation that reads its weights from `table`.
    pub fn new(table: GbkWeightTable) -> (res: CollatorGbkBin)
        ensures
            res@ == table@,
    {
        CollatorGbkBin { table }
    }

    /// The weight of `ch`.
    pub fn char_weight(&self, ch: char) -> (w: u16)
        ensures
            w == scalar_weight(self@, ch as u32),
    {
        self.table.weight(ch as u32)
    }

    /// Appends the sort key of `bstr` to `writer` and returns its length.
    pub fn write_sort_key(&self, writer: &mut Vec<u8>, bstr: &[u8]) -> (n: usize)
        ensures
            final(writer)@ == old(writer)@ + sort_key(self@, false, trimmed(bstr@)),
            n == sort_key(self@, false, trimmed(bstr@)).len(),
    {
        write_sort_key(&self.table, Self::NEED_TRUNCATE_INVALID_UTF8_RUNE, writer, bstr)
    }

    /// Compares `a` and `b`, with their padding if `force_no_pad` is set.
    pub fn sort_compare(&self, a: &[u8], b: &[u8], force_no_pad: bool) -> (res: Ordering)
        ensures
            res == weight_order(
                self@,
                false,
                padded_or_trimmed(a@, force_no_pad),
                padded_or_trimmed(b@, force_no_pad),
            ),
    {
        sort_compare(&self.table, Self::NEED_TRUNCATE_INVALID_UTF8_RUNE, a, b, force_no_pad)
    }

    /// Feeds the weights of the characters of `bstr` to `state`.
    pub fn sort_hash(&self, state: &mut DefaultHasher, bstr: &[u8])
        ensures
            hashed_after(old(state)@, hash_weights(self@, false, trimmed(bstr@)), final(state)@),
    {
        sort_hash(&self.table, Self::NEED_TRUNCATE_INVALID_UTF8_RUNE, state, bstr)
    }
}

/// The collation `gbk_chinese_ci`: strings are ordered by the weights that
/// the Chinese case-insensitive order gives their characters, padding
/// spaces on the right do not count, and a string ends at the first byte
/// that starts no character.
pub struct CollatorGbkChineseCi {
    pub table: GbkWeightTable,
}

impl View for CollatorGbkChineseCi {
    type V = Seq<u8>;

    open spec fn view(&self) -> Seq<u8> {
        self.table@
    }
}

impl CollatorGbkChineseCi {
    /// Whether letters that differ only in case weigh the same.
    pub const IS_CASE_INSENSITIVE: bool = true;

    /// Whether a string ends at the first byte that starts no character.
    pub const NEED_TRUNCATE_INVALID_UTF8_RUNE: bool = true;

    /// The collation that reads its weights from `table`.
    pub fn new(table: GbkWeightTable) -> (res: CollatorGbkChineseCi)
        ensures
            res@ == table@,
    {
        CollatorGbkChineseCi { table }
    }

    /// The weight of `ch`.
    pub fn char_weight(&self, ch: char) -> (w: u16)
        ensures
            w == scalar_weight(self@, ch as u32),
    {
        self.table.weight(ch as u32)
    }

    /// Appends the sort key of `bstr` to `writer` and returns its length.
    pub fn write_sort_key(&self, writer: &mut Vec<u8>, bstr: &[u8]) -> (n: usize)
        ensures
            final(writer)@ == old(writer)@ + sort_key(self@, true, trimmed(bstr@)),
            n == sort_key(self@, true, trimmed(bstr@)).len(),
    {
        write_sort_key(&self.table, Self::NEED_TRUNCATE_INVALID_UTF8_RUNE, writer, bstr)
    }

    /// Compares `a` and `b`, with their padding if `force_no_pad` is set.
    pub fn sort_compare(&self, a: &[u8], b: &[u8], force_no_pad: bool) -> (res: Ordering)
        ensures
            res == weight_order(
                self@,
                true,
                padded_or_trimmed(a@, force_no_pad),
                padded_or_trimmed(b@, force_no_pad),
            ),
    {
        sort_compare(&self.table, Self::NEED_TRUNCATE_INVALID_UTF8_RUNE, a, b, force_no_pad)
    }

    /// Feeds the weights of the characters of `bstr` to `state`.
    pub fn sort_hash(&self, state: &mut DefaultHasher, bstr: &[u8])
        ensures
            hashed_after(old(state)@, hash_weights(self@, true, trimmed(bstr@)), final(state)@),
    {
        sort_hash(&self.table, Self::NEED_TRUNCATE_INVALID_UTF8_RUNE, state, bstr)
    }
}

} // verus!
