use std::cmp::Ordering;
use std::collections::hash_map::DefaultHasher;
use std::hash::{Hash, Hasher};

use replica_read::collation::gbk::{
    trim_end_padding, CollatorGbkBin, CollatorGbkChineseCi, GbkWeightTable, TABLE_SIZE_FOR_GBK,
};
use replica_read::collation::utf8::next_utf8_char;

/// A table in which every code point up to U+FFFF weighs as itself.
fn identity_table() -> GbkWeightTable {
    let mut bytes: Vec<u8> = Vec::with_capacity(TABLE_SIZE_FOR_GBK);
    for code in 0..=0xffffu32 {
        bytes.push((code >> 8) as u8);
        bytes.push((code & 0xff) as u8);
    }
    GbkWeightTable::new(bytes).unwrap()
}

/// A table in which lower-case ASCII letters weigh as their upper-case
/// forms and every other code point weighs as itself.
fn folding_table() -> GbkWeightTable {
    let mut bytes: Vec<u8> = Vec::with_capacity(TABLE_SIZE_FOR_GBK);
    for code in 0..=0xffffu32 {
        let w = if (0x61..=0x7a).contains(&code) { code - 0x20 } else { code };
        bytes.push((w >> 8) as u8);
        bytes.push((w & 0xff) as u8);
    }
    GbkWeightTable::new(bytes).unwrap()
}

#[test]
fn table_must_have_exact_size() {
    assert!(GbkWeightTable::new(vec![0u8; TABLE_SIZE_FOR_GBK]).is_some());
    assert!(GbkWeightTable::new(vec![0u8; TABLE_SIZE_FOR_GBK - 1]).is_none());
    assert!(GbkWeightTable::new(vec![0u8; TABLE_SIZE_FOR_GBK + 1]).is_none());
    assert!(GbkWeightTable::new(Vec::new()).is_none());
    assert_eq!(TABLE_SIZE_FOR_GBK, 131072);
}

#[test]
fn decodes_scalars_of_every_width() {
    assert_eq!(next_utf8_char(b"a", 0), Some((0x61, 1)));
    assert_eq!(next_utf8_char("é".as_bytes(), 0), Some((0xe9, 2)));
    assert_eq!(next_utf8_char("中".as_bytes(), 0), Some((0x4e2d, 3)));
    assert_eq!(next_utf8_char("😀".as_bytes(), 0), Some((0x1f600, 4)));
    assert_eq!(next_utf8_char("a中".as_bytes(), 1), Some((0x4e2d, 3)));
}

#[test]
fn rejects_malformed_scalars() {
    // nothing left
    assert_eq!(next_utf8_char(b"", 0), None);
    assert_eq!(next_utf8_char(b"a", 1), None);
    // a continuation byte in front
    assert_eq!(next_utf8_char(&[0x80], 0), None);
    // cut short
    assert_eq!(next_utf8_char(&[0xe4, 0xb8], 0), None);
    // overlong encodings
    assert_eq!(next_utf8_char(&[0xc0, 0x80], 0), None);
    assert_eq!(next_utf8_char(&[0xe0, 0x80, 0x80], 0), None);
    assert_eq!(next_utf8_char(&[0xf0, 0x80, 0x80, 0x80], 0), None);
    // a surrogate
    assert_eq!(next_utf8_char(&[0xed, 0xa0, 0x80], 0), None);
    // beyond U+10FFFF
    assert_eq!(next_utf8_char(&[0xf4, 0x90, 0x80, 0x80], 0), None);
    // no leading byte has this form
    assert_eq!(next_utf8_char(&[0xff, 0x80, 0x80, 0x80], 0), None);
}

#[test]
fn decoder_agrees_with_std() {
    for s in ["", "k1", "中文", "a😀b", "é", "\u{7ff}\u{800}\u{ffff}\u{10000}\u{10ffff}"] {
        let bytes = s.as_bytes();
        let mut at = 0;
        for ch in s.chars() {
            assert_eq!(next_utf8_char(bytes, at), Some((ch as u32, ch.len_utf8())));
            at += ch.len_utf8();
        }
        assert_eq!(next_utf8_char(bytes, at), None);
    }
}

#[test]
fn trims_only_trailing_spaces() {
    assert_eq!(trim_end_padding(b""), 0);
    assert_eq!(trim_end_padding(b"   "), 0);
    assert_eq!(trim_end_padding(b"a  "), 1);
    assert_eq!(trim_end_padding(b" a b"), 4);
    assert_eq!(trim_end_padding(b" a b \t"), 6);
}

#[test]
fn char_weight_reads_table_big_endian() {
    let bin = CollatorGbkBin::new(identity_table());
    assert_eq!(bin.char_weight('a'), 0x61);
    assert_eq!(bin.char_weight('中'), 0x4e2d);
    assert_eq!(bin.char_weight('\u{ffff}'), 0xffff);
    let ci = CollatorGbkChineseCi::new(folding_table());
    assert_eq!(ci.char_weight('a'), 0x41);
    assert_eq!(ci.char_weight('A'), 0x41);
}

#[test]
fn char_weight_outside_bmp_is_question_mark() {
    let bin = CollatorGbkBin::new(identity_table());
    assert_eq!(bin.char_weight('😀'), 0x3f);
    assert_eq!(bin.char_weight('\u{10000}'), 0x3f);
}

#[test]
fn sort_key_uses_one_or_two_bytes_per_weight() {
    let bin = CollatorGbkBin::new(identity_table());
    let mut key = Vec::new();
    let n = bin.write_sort_key(&mut key, "a中b  ".as_bytes());
    assert_eq!(key, vec![0x61, 0x4e, 0x2d, 0x62]);
    assert_eq!(n, 4);
}

#[test]
fn sort_key_appends_to_writer() {
    let bin = CollatorGbkBin::new(identity_table());
    let mut key = vec![0xaa, 0xbb];
    let n = bin.write_sort_key(&mut key, b"k1");
    assert_eq!(key, vec![0xaa, 0xbb, 0x6b, 0x31]);
    assert_eq!(n, 2);
}

#[test]
fn sort_key_replaces_or_truncates_invalid_bytes() {
    let bin = CollatorGbkBin::new(identity_table());
    let mut key = Vec::new();
    let n = bin.write_sort_key(&mut key, &[0x61, 0xff, 0x62]);
    assert_eq!(key, vec![0x61, 0x3f, 0x62]);
    assert_eq!(n, 3);

    let ci = CollatorGbkChineseCi::new(folding_table());
    let mut key = Vec::new();
    let n = ci.write_sort_key(&mut key, &[0x61, 0xff, 0x62]);
    assert_eq!(key, vec![0x41]);
    assert_eq!(n, 1);
}

#[test]
fn compare_ignores_padding_unless_forced() {
    let bin = CollatorGbkBin::new(identity_table());
    assert_eq!(bin.sort_compare(b"a", b"a  ", false), Ordering::Equal);
    assert_eq!(bin.sort_compare(b"a", b"a  ", true), Ordering::Less);
    assert_eq!(bin.sort_compare(b"a  ", b"a", true), Ordering::Greater);
}

#[test]
fn compare_orders_by_weight_then_length() {
    let bin = CollatorGbkBin::new(identity_table());
    assert_eq!(bin.sort_compare(b"a", b"b", false), Ordering::Less);
    assert_eq!(bin.sort_compare(b"b", b"a", false), Ordering::Greater);
    assert_eq!(bin.sort_compare(b"ab", b"a", false), Ordering::Greater);
    assert_eq!(bin.sort_compare(b"", b"a", false), Ordering::Less);
    assert_eq!(bin.sort_compare(b"", b"", false), Ordering::Equal);
    assert_eq!(bin.sort_compare("中".as_bytes(), b"z", false), Ordering::Greater);
}

#[test]
fn compare_is_case_insensitive_with_folding_table() {
    let ci = CollatorGbkChineseCi::new(folding_table());
    assert_eq!(ci.sort_compare(b"abc", b"ABC", false), Ordering::Equal);
    assert_eq!(ci.sort_compare(b"abd", b"ABC", false), Ordering::Greater);
    let bin = CollatorGbkBin::new(identity_table());
    assert_eq!(bin.sort_compare(b"abc", b"ABC", false), Ordering::Greater);
}

#[test]
fn compare_on_invalid_bytes() {
    // Without truncation an invalid byte weighs as '?'.
    let bin = CollatorGbkBin::new(identity_table());
    assert_eq!(bin.sort_compare(&[0xff], b"?", false), Ordering::Equal);
    assert_eq!(bin.sort_compare(&[0xff, 0x61], b"?b", false), Ordering::Less);
    // With truncation the strings are equal from the invalid byte on.
    let ci = CollatorGbkChineseCi::new(folding_table());
    assert_eq!(ci.sort_compare(&[0x61, 0xff], b"ab", false), Ordering::Equal);
    assert_eq!(ci.sort_compare(b"ab", &[0x61, 0xff], false), Ordering::Equal);
    // ... unless one of them has already ended.
    assert_eq!(ci.sort_compare(&[0x61, 0xff], b"a", false), Ordering::Greater);
    assert_eq!(ci.sort_compare(b"a", &[0x61, 0xff], false), Ordering::Less);
}

#[test]
fn hash_feeds_each_weight_as_u16() {
    let bin = CollatorGbkBin::new(identity_table());
    let mut got = DefaultHasher::new();
    bin.sort_hash(&mut got, "a中 ".as_bytes());
    let mut want = DefaultHasher::new();
    0x61u16.hash(&mut want);
    0x4e2du16.hash(&mut want);
    assert_eq!(got.finish(), want.finish());
}

#[test]
fn hash_replaces_or_truncates_invalid_bytes() {
    let bin = CollatorGbkBin::new(identity_table());
    let mut got = DefaultHasher::new();
    bin.sort_hash(&mut got, &[0x61, 0xff, 0x62]);
    let mut want = DefaultHasher::new();
    0x61u16.hash(&mut want);
    0x3fu16.hash(&mut want);
    0x62u16.hash(&mut want);
    assert_eq!(got.finish(), want.finish());

    let ci = CollatorGbkChineseCi::new(folding_table());
    let mut got = DefaultHasher::new();
    ci.sort_hash(&mut got, &[0x61, 0xff, 0x62]);
    let mut want = DefaultHasher::new();
    0x41u16.hash(&mut want);
    assert_eq!(got.finish(), want.finish());
}

#[test]
fn hash_is_equal_for_strings_that_differ_in_padding() {
    let bin = CollatorGbkBin::new(identity_table());
    let mut one = DefaultHasher::new();
    bin.sort_hash(&mut one, b"k1");
    let mut two = DefaultHasher::new();
    bin.sort_hash(&mut two, b"k1   ");
    assert_eq!(one.finish(), two.finish());
}

#[test]
fn collation_flags() {
    assert!(!CollatorGbkBin::IS_CASE_INSENSITIVE);
    assert!(!CollatorGbkBin::NEED_TRUNCATE_INVALID_UTF8_RUNE);
    assert!(CollatorGbkChineseCi::IS_CASE_INSENSITIVE);
    assert!(CollatorGbkChineseCi::NEED_TRUNCATE_INVALID_UTF8_RUNE);
}
