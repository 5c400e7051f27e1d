//! Collations: orderings and sort keys for stored strings.

pub mod gbk;
pub mod utf8;
