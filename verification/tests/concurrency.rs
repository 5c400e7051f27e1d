use replica_read::bytes::{bytes_eq, bytes_lt, clone_bytes};
use replica_read::concurrency::ConcurrencyManager;
use replica_read::lock::{KeyOrRange, Lock, LockType};
use replica_read::safe_ts::ReadIndexSafeTsCache;

fn lock_on(k: &[u8], start_ts: u64) -> Lock {
    Lock {
        key: k.to_vec(),
        lock_type: LockType::Put,
        start_ts,
        for_update_ts: 0,
        ttl: 3000,
        min_commit_ts: start_ts + 1,
        generation: 0,
        is_pessimistic: false,
        async_commit_keys: vec![b"a".to_vec(), b"b".to_vec()],
    }
}

#[test]
fn cache_get_is_zero_if_absent() {
    let cache = ReadIndexSafeTsCache::new();
    assert_eq!(cache.get(0), 0);
    assert_eq!(cache.get(u64::MAX), 0);
}

#[test]
fn cache_advance_takes_the_maximum() {
    let mut cache = ReadIndexSafeTsCache::new();
    cache.advance(1, 10);
    assert_eq!(cache.get(1), 10);
    cache.advance(1, 7);
    assert_eq!(cache.get(1), 10);
    cache.advance(1, 10);
    assert_eq!(cache.get(1), 10);
    cache.advance(1, 11);
    assert_eq!(cache.get(1), 11);
    cache.advance(1, u64::MAX);
    assert_eq!(cache.get(1), u64::MAX);
    cache.advance(2, 0);
    assert_eq!(cache.get(2), 0);
    assert_eq!(cache.get(3), 0);
}

#[test]
fn cache_reset_lowers_one_region_to_zero() {
    let mut cache = ReadIndexSafeTsCache::new();
    cache.advance(1, 10);
    cache.advance(2, 20);
    cache.reset(1);
    assert_eq!(cache.get(1), 0);
    assert_eq!(cache.get(2), 20);
    cache.reset(3);
    assert_eq!(cache.get(2), 20);
    cache.advance(1, 4);
    assert_eq!(cache.get(1), 4);
}

#[test]
fn max_ts_never_goes_down() {
    let mut cm = ConcurrencyManager::new();
    assert_eq!(cm.max_ts(), 0);
    cm.update_max_ts(10);
    assert_eq!(cm.max_ts(), 10);
    cm.update_max_ts(3);
    assert_eq!(cm.max_ts(), 10);
    cm.update_max_ts(u64::MAX);
    assert_eq!(cm.max_ts(), u64::MAX);
}

#[test]
fn lock_table_holds_one_lock_per_key() {
    let mut cm = ConcurrencyManager::new();
    assert_eq!(cm.read_lock(b"k1"), None);
    assert_eq!(cm.acquire(lock_on(b"k1", 10)), None);
    assert_eq!(cm.acquire(lock_on(b"k2", 20)), None);
    assert_eq!(cm.acquire(lock_on(b"k1", 30)), Some(lock_on(b"k1", 10)));
    assert_eq!(cm.read_lock(b"k1"), Some(lock_on(b"k1", 30)));
    assert_eq!(cm.read_lock(b"k2"), Some(lock_on(b"k2", 20)));
    assert_eq!(cm.release(b"k1"), Some(lock_on(b"k1", 30)));
    assert_eq!(cm.release(b"k1"), None);
    assert_eq!(cm.read_lock(b"k1"), None);
    assert_eq!(cm.read_lock(b"k2"), Some(lock_on(b"k2", 20)));
    assert_eq!(cm.max_ts(), 0);
}

#[test]
fn blocking_lock_is_by_start_ts_and_key() {
    let mut cm = ConcurrencyManager::new();
    cm.acquire(lock_on(b"k1", 10));
    let k1 = KeyOrRange::Key(b"k1".to_vec());
    let k2 = KeyOrRange::Key(b"k2".to_vec());
    assert_eq!(cm.blocking_lock(&k1, 9), None);
    assert_eq!(cm.blocking_lock(&k1, 10), Some(lock_on(b"k1", 10)));
    assert_eq!(cm.blocking_lock(&k1, 11), Some(lock_on(b"k1", 10)));
    assert_eq!(cm.blocking_lock(&k2, 11), None);
}

#[test]
fn blocking_lock_in_range_is_the_one_on_the_least_key() {
    let mut cm = ConcurrencyManager::new();
    for (k, ts) in [(&b"d"[..], 5u64), (b"b", 7), (b"c", 3), (b"a", 1), (b"bb", 2)] {
        cm.acquire(lock_on(k, ts));
    }
    let range = |start: &[u8], end: &[u8]| KeyOrRange::Range { start: start.to_vec(), end: end.to_vec() };
    assert_eq!(cm.blocking_lock(&range(b"b", b"d"), 10), Some(lock_on(b"b", 7)));
    assert_eq!(cm.blocking_lock(&range(b"b", b"d"), 6), Some(lock_on(b"bb", 2)));
    assert_eq!(cm.blocking_lock(&range(b"b", b"d"), 2), Some(lock_on(b"bb", 2)));
    assert_eq!(cm.blocking_lock(&range(b"b", b"d"), 1), None);
    // The end of a range is outside of it, the start inside.
    assert_eq!(cm.blocking_lock(&range(b"c", b"d"), 10), Some(lock_on(b"c", 3)));
    assert_eq!(cm.blocking_lock(&range(b"cc", b"d"), 10), None);
    // An empty end is no bound.
    assert_eq!(cm.blocking_lock(&range(b"cc", b""), 10), Some(lock_on(b"d", 5)));
    assert_eq!(cm.blocking_lock(&range(b"", b""), 10), Some(lock_on(b"a", 1)));
    // A range whose end is not beyond its start holds no key.
    assert_eq!(cm.blocking_lock(&range(b"d", b"a"), 10), None);
}

#[test]
fn key_or_range_contains() {
    let key = KeyOrRange::Key(b"k1".to_vec());
    assert!(key.contains(b"k1"));
    assert!(!key.contains(b"k"));
    assert!(!key.contains(b"k10"));
    let range = KeyOrRange::Range { start: b"k1".to_vec(), end: b"k3".to_vec() };
    assert!(range.contains(b"k1"));
    assert!(range.contains(b"k10"));
    assert!(range.contains(b"k2\xff"));
    assert!(!range.contains(b"k3"));
    assert!(!range.contains(b"k0"));
    assert!(!range.contains(b"k"));
}

#[test]
fn lock_blocks_reads_at_or_after_its_start() {
    let lock = lock_on(b"k1", 10);
    let k1 = KeyOrRange::Key(b"k1".to_vec());
    assert!(lock.blocks(&k1, 10));
    assert!(lock.blocks(&k1, u64::MAX));
    assert!(!lock.blocks(&k1, 9));
    assert!(!lock.blocks(&KeyOrRange::Key(b"k2".to_vec()), 10));
}

#[test]
fn clones_are_equal() {
    let lock = lock_on(b"k1", 10);
    assert_eq!(lock.clone(), lock);
    let range = KeyOrRange::Range { start: b"a".to_vec(), end: b"b".to_vec() };
    assert_eq!(range.clone(), range);
    assert_eq!(clone_bytes(b"abc"), b"abc".to_vec());
    assert_eq!(clone_bytes(b""), Vec::<u8>::new());
}

#[test]
fn byte_order_is_lexicographic() {
    assert!(bytes_lt(b"", b"a"));
    assert!(!bytes_lt(b"", b""));
    assert!(!bytes_lt(b"a", b""));
    assert!(bytes_lt(b"a", b"b"));
    assert!(bytes_lt(b"a", b"aa"));
    assert!(bytes_lt(b"ab", b"b"));
    assert!(!bytes_lt(b"b", b"ab"));
    assert!(!bytes_lt(b"abc", b"abc"));
    assert!(bytes_lt(&[0x7f], &[0x80]));
    assert!(bytes_eq(b"abc", b"abc"));
    assert!(bytes_eq(b"", b""));
    assert!(!bytes_eq(b"abc", b"abd"));
    assert!(!bytes_eq(b"abc", b"ab"));
    for (a, b) in [(&b"k1"[..], &b"k2"[..]), (b"", b"x"), (b"same", b"same"), (b"zz", b"z")] {
        assert_eq!(bytes_lt(a, b), a < b);
        assert_eq!(bytes_eq(a, b), a == b);
    }
}
