//! Transactional locks and the keys that a read asks for.

use vstd::prelude::*;
use crate::bytes::{bytes_eq, bytes_lt, clone_bytes, lex_le, lex_lt};

verus! {

/// What the transaction that holds a lock is about to do to the key.
#[derive(Clone, Copy, Debug, PartialEq, Eq, Structural)]
pub enum LockType {
    Put,
    Delete,
    Lock,
    Pessimistic,
}

/// A lock that a transaction holds on one key until it commits or rolls
/// back.
#[derive(Debug, PartialEq, Eq)]
pub struct Lock {
    pub key: Vec<u8>,
    pub lock_type: LockType,
    pub start_ts: u64,
    pub for_update_ts: u64,
    pub ttl: u64,
    pub min_commit_ts: u64,
    pub generation: u64,
    pub is_pessimistic: bool,
    pub async_commit_keys: Vec<Vec<u8>>,
}

/// A lock as a mathematical value.
pub struct LockView {
    pub key: Seq<u8>,
    pub lock_type: LockType,
    pub start_ts: u64,
    pub for_update_ts: u64,
    pub ttl: u64,
    pub min_commit_ts: u64,
    pub generation: u64,
    pub is_pessimistic: bool,
    pub async_commit_keys: Seq<Seq<u8>>,
}

impl View for Lock {
    type V = LockView;

    open spec fn view(&self) -> LockView {
        LockView {
            key: self.key@,
            lock_type: self.lock_type,
            start_ts: self.start_ts,
            for_update_ts: self.for_update_ts,
            ttl: self.ttl,
            min_commit_ts: self.min_commit_ts,
            generation: self.generation,
            is_pessimistic: self.is_pessimistic,
            async_commit_keys: self.async_commit_keys.deep_view(),
        }
    }
}

/// A copy of a list of keys.
fn clone_keys(keys: &Vec<Vec<u8>>) -> (copy: Vec<Vec<u8>>)
    ensures
        copy.deep_view() == keys.deep_view(),
{
    let mut copy: Vec<Vec<u8>> = Vec::with_capacity(keys.len());
    let mut i: usize = 0;
    while i < keys.len()
        invariant
            i <= keys.len(),
            copy@.len() == i,
            forall|k: int| 0 <= k < i ==> copy@[k]@ == keys@[k]@,
        decreases keys.len() - i,
    {
        let key: Vec<u8> = clone_bytes(keys[i].as_slice());
        copy.push(key);
        i = i + 1;
    }
    assert(copy.deep_view() =~= keys.deep_view());
    copy
}

impl Clone for Lock {
    fn clone(&self) -> (copy: Lock)
        ensures
            copy@ == self@,
    {
        Lock {
            key: clone_bytes(self.key.as_slice()),
            lock_type: self.lock_type,
            start_ts: self.start_ts,
            for_update_ts: self.for_update_ts,
            ttl: self.ttl,
            min_commit_ts: self.min_commit_ts,
            generation: self.generation,
            is_pessimistic: self.is_pessimistic,
            async_commit_keys: clone_keys(&self.async_commit_keys),
        }
    }
}

impl LockView {
    /// True when the lock stands in the way of a read of `keys` at `ts`:
    /// it is on one of the keys, and its transaction started at or before
    /// `ts`.
    pub open spec fn blocks(self, keys: KeyOrRangeView, ts: u64) -> bool {
        keys.contains(self.key) && self.start_ts <= ts
    }
}

impl Lock {
    /// True when the lock stands in the way of a read of `keys` at `ts`.
    pub fn blocks(&self, keys: &KeyOrRange, ts: u64) -> (r: bool)
        ensures
            r == self@.blocks(keys@, ts),
    {
        self.start_ts <= ts && keys.contains(self.key.as_slice())
    }
}

/// What a read asks for: one key, or the keys from `start` up to but not
/// including `end`. An empty `end` stands for no upper bound.
#[derive(Debug, PartialEq, Eq)]
pub enum KeyOrRange {
    Key(Vec<u8>),
    Range { start: Vec<u8>, end: Vec<u8> },
}

/// The keys of a read as a mathematical value.
pub enum KeyOrRangeView {
    Key(Seq<u8>),
    Range { start: Seq<u8>, end: Seq<u8> },
}

impl View for KeyOrRange {
    type V = KeyOrRangeView;

    open spec fn view(&self) -> KeyOrRangeView {
        match self {
            KeyOrRange::Key(key) => KeyOrRangeView::Key(key@),
            KeyOrRange::Range { start, end } => KeyOrRangeView::Range { start: start@, end: end@ },
        }
    }
}

impl KeyOrRangeView {
    /// True when `key` is among the keys asked for.
    pub open spec fn contains(self, key: Seq<u8>) -> bool {
        match self {
            KeyOrRangeView::Key(k) => k == key,
            KeyOrRangeView::Range { start, end } => {
                lex_le(start, key) && (end.len() == 0 || lex_lt(key, end))
            },
        }
    }

    /// True when every key that `other` asks for is asked for here too.
    pub open spec fn covers(self, other: KeyOrRangeView) -> bool {
        forall|key: Seq<u8>| other.contains(key) ==> #[trigger] self.contains(key)
    }
}

impl KeyOrRange {
    /// True when `key` is among the keys asked for.
    pub fn contains(&self, key: &[u8]) -> (r: bool)
        ensures
            r == self@.contains(key@),
    {
        match self {
            KeyOrRange::Key(k) => bytes_eq(k.as_slice(), key),
            KeyOrRange::Range { start, end } => {
                !bytes_lt(key, start.as_slice()) && (end.len() == 0 || bytes_lt(
                    key,
                    end.as_slice(),
                ))
            },
        }
    }
}

impl Clone for KeyOrRange {
    fn clone(&self) -> (copy: KeyOrRange)
        ensures
            copy@ == self@,
    {
        match self {
            KeyOrRange::Key(k) => KeyOrRange::Key(clone_bytes(k.as_slice())),
            KeyOrRange::Range { start, end } => KeyOrRange::Range {
                start: clone_bytes(start.as_slice()),
                end: clone_bytes(end.as_slice()),
            },
        }
    }
}

} // verus!
