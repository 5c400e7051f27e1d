//! The concurrency manager of a store: the highest timestamp that the store
//! has seen, and the locks that transactions hold on its keys.

use vstd::prelude::*;
use crate::bytes::{
    bytes_eq, bytes_lt, lemma_lex_le_transitive, lemma_lex_lt_total, lex_le, lex_lt,
};
use crate::lock::{KeyOrRange, KeyOrRangeView, Lock, LockView};

verus! {

/// The lock table as a mathematical value: for each locked key, its lock.
pub type LockMap = Map<Seq<u8>, LockView>;

/// True when `lock` is in `locks`, stands in the way of a read of `keys` at
/// `ts`, and no lock that does so is on a lesser key.
pub open spec fn is_first_blocking(
    locks: LockMap,
    keys: KeyOrRangeView,
    ts: u64,
    lock: LockView,
) -> bool {
    &&& locks.contains_key(lock.key)
    &&& locks[lock.key] == lock
    &&& lock.blocks(keys, ts)
    &&& forall|k: Seq<u8>| #[trigger]
        locks.contains_key(k) && locks[k].blocks(keys, ts) ==> lex_le(lock.key, k)
}

/// The lock that stands in the way of a read of `keys` at `ts`: of those
/// that do, the one on the least key.
pub open spec fn blocking_lock(locks: LockMap, keys: KeyOrRangeView, ts: u64) -> Option<LockView> {
    if exists|lock: LockView| is_first_blocking(locks, keys, ts, lock) {
        Some(choose|lock: LockView| is_first_blocking(locks, keys, ts, lock))
    } else {
        None
    }
}

/// True when no lock stands in the way of a read of `keys` at `ts`.
pub open spec fn lock_free(locks: LockMap, keys: KeyOrRangeView, ts: u64) -> bool {
    forall|k: Seq<u8>| #[trigger] locks.contains_key(k) ==> !locks[k].blocks(keys, ts)
}

/// True when each lock in `locks` is filed under its own key.
pub open spec fn keyed_by_own_key(locks: LockMap) -> bool {
    forall|k: Seq<u8>| #[trigger] locks.contains_key(k) ==> locks[k].key == k
}

/// At most one lock is the first that blocks.
pub proof fn lemma_first_blocking_unique(
    locks: LockMap,
    keys: KeyOrRangeView,
    ts: u64,
    a: LockView,
    b: LockView,
)
    requires
        is_first_blocking(locks, keys, ts, a),
        is_first_blocking(locks, keys, ts, b),
    ensures
        a == b,
{
    assert(locks.contains_key(a.key));
    assert(locks.contains_key(b.key));
    lemma_lex_lt_total(a.key, b.key);
}

/// No lock blocks exactly when none is in the way.
pub proof fn lemma_blocking_lock_none(locks: LockMap, keys: KeyOrRangeView, ts: u64)
    requires
        keyed_by_own_key(locks),
        locks.dom().finite(),
    ensures
        blocking_lock(locks, keys, ts) is None <==> lock_free(locks, keys, ts),
    decreases locks.dom().len(),
{
    if lock_free(locks, keys, ts) {
        if exists|lock: LockView| is_first_blocking(locks, keys, ts, lock) {
            let lock = choose|lock: LockView| is_first_blocking(locks, keys, ts, lock);
            assert(locks.contains_key(lock.key));
        }
    } else {
        let k = choose|k: Seq<u8>| #[trigger] locks.contains_key(k) && locks[k].blocks(keys, ts);
        lemma_least_blocking_exists(locks, keys, ts, k);
    }
}

/// Where some lock blocks, one of them is on the least key.
proof fn lemma_least_blocking_exists(locks: LockMap, keys: KeyOrRangeView, ts: u64, k: Seq<u8>)
    requires
        keyed_by_own_key(locks),
        locks.dom().finite(),
        locks.contains_key(k),
        locks[k].blocks(keys, ts),
    ensures
        exists|lock: LockView| is_first_blocking(locks, keys, ts, lock),
    decreases locks.dom().len(),
{
    let rest = locks.remove(k);
    assert(rest.dom() =~= locks.dom().remove(k));
    if exists|j: Seq<u8>| #[trigger] rest.contains_key(j) && rest[j].blocks(keys, ts) {
        let j = choose|j: Seq<u8>| #[trigger] rest.contains_key(j) && rest[j].blocks(keys, ts);
        assert forall|x: Seq<u8>| #[trigger] rest.contains_key(x) implies rest[x].key == x by {
            assert(locks.contains_key(x));
        }
        lemma_least_blocking_exists(rest, keys, ts, j);
        let least = choose|lock: LockView| is_first_blocking(rest, keys, ts, lock);
        assert(locks.contains_key(least.key));
        lemma_lex_lt_total(least.key, k);
        if lex_lt(k, least.key) {
            assert forall|x: Seq<u8>| #[trigger]
                locks.contains_key(x) && locks[x].blocks(keys, ts) implies lex_le(k, x) by {
                if x != k {
                    assert(rest.contains_key(x));
                    lemma_lex_le_transitive(k, least.key, x);
                } else {
                    lemma_lex_lt_total(k, k);
                }
            }
            assert(is_first_blocking(locks, keys, ts, locks[k]));
        } else {
            assert forall|x: Seq<u8>| #[trigger]
                locks.contains_key(x) && locks[x].blocks(keys, ts) implies lex_le(least.key, x) by {
                if x != k {
                    assert(rest.contains_key(x));
                }
            }
            assert(is_first_blocking(locks, keys, ts, least));
        }
    } else {
        assert forall|x: Seq<u8>| #[trigger]
            locks.contains_key(x) && locks[x].blocks(keys, ts) implies lex_le(k, x) by {
            if x != k {
                assert(rest.contains_key(x));
            } else {
                lemma_lex_lt_total(k, k);
            }
        }
        assert(is_first_blocking(locks, keys, ts, locks[k]));
    }
}

/// The locks of a table, each as a mathematical value.
spec fn lock_views(table: Seq<Lock>) -> Seq<LockView> {
    table.map_values(|l: Lock| l@)
}

/// True when no two locks of `table` are on the same key.
spec fn distinct_keys(table: Seq<LockView>) -> bool {
    forall|i: int, j: int| 0 <= i < j < table.len() ==> table[i].key != table[j].key
}

/// True when some lock of `table` is on `key`.
spec fn has_key(table: Seq<LockView>, key: Seq<u8>) -> bool {
    exists|i: int| 0 <= i < table.len() && #[trigger] table[i].key == key
}

/// The map from each locked key of `table` to its lock.
spec fn locks_of(table: Seq<LockView>) -> LockMap {
    Map::new(
        |k: Seq<u8>| has_key(table, k),
        |k: Seq<u8>| table[choose|i: int| 0 <= i < table.len() && #[trigger] table[i].key == k],
    )
}

/// In a table with distinct keys, the map holds each lock under its key.
proof fn lemma_locks_of_entry(table: Seq<LockView>, i: int)
    requires
        distinct_keys(table),
        0 <= i < table.len(),
    ensures
        locks_of(table).contains_key(table[i].key),
        locks_of(table)[table[i].key] == table[i],
{
    let k = table[i].key;
    assert(has_key(table, k));
    let c = choose|c: int| 0 <= c < table.len() && #[trigger] table[c].key == k;
    assert(c == i);
}

/// What the map of a table holds, it holds under the lock's own key, and
/// there are finitely many.
proof fn lemma_locks_of_shape(table: Seq<LockView>)
    requires
        distinct_keys(table),
    ensures
        keyed_by_own_key(locks_of(table)),
        locks_of(table).dom().finite(),
    decreases table.len(),
{
    if table.len() == 0 {
        assert(locks_of(table).dom() =~= Set::<Seq<u8>>::empty());
    } else {
        let front = table.drop_last();
        lemma_locks_of_shape(front);
        assert forall|k: Seq<u8>|
            locks_of(table).dom().contains(k) <==> locks_of(front).dom().insert(
                table.last().key,
            ).contains(k) by {
            if has_key(table, k) {
                let i = choose|i: int| 0 <= i < table.len() && #[trigger] table[i].key == k;
                if i < table.len() - 1 {
                    assert(front[i].key == k);
                }
            }
            if has_key(front, k) {
                let i = choose|i: int| 0 <= i < front.len() && #[trigger] front[i].key == k;
                assert(table[i].key == k);
            }
            if k == table.last().key {
                assert(table[table.len() - 1].key == k);
            }
        }
        assert(locks_of(table).dom() =~= locks_of(front).dom().insert(table.last().key));
    }
}

/// Adding a lock on a fresh key to a table adds it to the map.
proof fn lemma_locks_of_push(table: Seq<LockView>, lock: LockView)
    requires
        distinct_keys(table),
        !has_key(table, lock.key),
    ensures
        distinct_keys(table.push(lock)),
        locks_of(table.push(lock)) == locks_of(table).insert(lock.key, lock),
{
    let grown = table.push(lock);
    assert forall|i: int, j: int| 0 <= i < j < grown.len() implies grown[i].key
        != grown[j].key by {
        if j == table.len() {
            assert(table[i].key == grown[i].key);
        }
    }
    assert forall|k: Seq<u8>| has_key(grown, k) <==> (has_key(table, k) || k == lock.key) by {
        if has_key(grown, k) {
            let i = choose|i: int| 0 <= i < grown.len() && #[trigger] grown[i].key == k;
            if i < table.len() {
                assert(table[i].key == k);
            }
        }
        if has_key(table, k) {
            let i = choose|i: int| 0 <= i < table.len() && #[trigger] table[i].key == k;
            assert(grown[i].key == k);
        }
        if k == lock.key {
            assert(grown[table.len() as int].key == k);
        }
    }
    assert forall|k: Seq<u8>| has_key(grown, k) implies #[trigger] locks_of(grown)[k]
        == locks_of(table).insert(lock.key, lock)[k] by {
        let i = choose|i: int| 0 <= i < grown.len() && #[trigger] grown[i].key == k;
        lemma_locks_of_entry(grown, i);
        if i < table.len() {
            lemma_locks_of_entry(table, i);
        }
    }
    assert(locks_of(grown) =~= locks_of(table).insert(lock.key, lock));
}

/// Taking a lock out of a table takes its key out of the map.
proof fn lemma_locks_of_remove(table: Seq<LockView>, at: int)
    requires
        distinct_keys(table),
        0 <= at < table.len(),
    ensures
        distinct_keys(table.remove(at)),
        !has_key(table.remove(at), table[at].key),
        locks_of(table.remove(at)) == locks_of(table).remove(table[at].key),
{
    let shrunk = table.remove(at);
    let gone = table[at].key;
    assert forall|i: int| 0 <= i < shrunk.len() implies #[trigger] shrunk[i] == table[if i < at {
        i
    } else {
        i + 1
    }] by {}
    assert forall|k: Seq<u8>| has_key(shrunk, k) <==> (has_key(table, k) && k != gone) by {
        if has_key(shrunk, k) {
            let i = choose|i: int| 0 <= i < shrunk.len() && #[trigger] shrunk[i].key == k;
            let j = if i < at {
                i
            } else {
                i + 1
            };
            assert(table[j].key == k);
        }
        if has_key(table, k) && k != gone {
            let j = choose|j: int| 0 <= j < table.len() && #[trigger] table[j].key == k;
            let i = if j < at {
                j
            } else {
                j - 1
            };
            assert(shrunk[i].key == k);
        }
    }
    assert forall|k: Seq<u8>| has_key(shrunk, k) implies #[trigger] locks_of(shrunk)[k]
        == locks_of(table)[k] by {
        let i = choose|i: int| 0 <= i < shrunk.len() && #[trigger] shrunk[i].key == k;
        lemma_locks_of_entry(shrunk, i);
        let j = if i < at {
            i
        } else {
            i + 1
        };
        lemma_locks_of_entry(table, j);
    }
    assert(locks_of(shrunk) =~= locks_of(table).remove(gone));
}

/// The concurrency manager as a mathematical value.
pub struct ConcurrencyView {
    /// The highest timestamp seen.
    pub max_ts: u64,
    /// The locks held, by key.
    pub locks: LockMap,
}

/// Tracks the highest timestamp that a store has seen and the locks that
/// transactions hold on its keys.
pub struct ConcurrencyManager {
    max_ts: u64,
    table: Vec<Lock>,
}

impl View for ConcurrencyManager {
    type V = ConcurrencyView;

    closed spec fn view(&self) -> ConcurrencyView {
        ConcurrencyView { max_ts: self.max_ts, locks: locks_of(lock_views(self.table@)) }
    }
}

impl ConcurrencyManager {
    /// True when no two locks of the table are on the same key.
    pub closed spec fn wf(&self) -> bool {
        distinct_keys(lock_views(self.table@))
    }

    /// Each lock is filed under its own key, and there are finitely many.
    pub proof fn lemma_locks_shape(&self)
        requires
            self.wf(),
        ensures
            keyed_by_own_key(self@.locks),
            self@.locks.dom().finite(),
    {
        lemma_locks_of_shape(lock_views(self.table@));
    }

    /// A manager that has seen no timestamp and holds no lock.
    pub fn new() -> (res: ConcurrencyManager)
        ensures
            res.wf(),
            res@.max_ts == 0,
            res@.locks == Map::<Seq<u8>, LockView>::empty(),
    {
        let res = ConcurrencyManager { max_ts: 0, table: Vec::new() };
        assert(res@.locks =~= Map::<Seq<u8>, LockView>::empty());
        res
    }

    /// The highest timestamp seen.
    pub fn max_ts(&self) -> (ts: u64)
        ensures
            ts == self@.max_ts,
    {
        self.max_ts
    }

    /// Takes note of the timestamp `ts`: the highest timestamp seen never
    /// goes down.
    pub fn update_max_ts(&mut self, ts: u64)
        requires
            old(self).wf(),
        ensures
            final(self).wf(),
            final(self)@.max_ts == if ts > old(self)@.max_ts {
                ts
            } else {
                old(self)@.max_ts
            },
            final(self)@.locks == old(self)@.locks,
    {
        if ts > self.max_ts {
            self.max_ts = ts;
        }
    }

    /// The position of the lock on `key` in the table.
    fn position(&self, key: &[u8]) -> (at: Option<usize>)
        requires
            self.wf(),
        ensures
            at matches Some(i) ==> i < self.table@.len() && self.table@[i as int]@.key == key@,
            at is None ==> !has_key(lock_views(self.table@), key@),
    {
        let mut i: usize = 0;
        while i < self.table.len()
            invariant
                i <= self.table@.len(),
                forall|j: int| 0 <= j < i ==> self.table@[j]@.key != key@,
            decreases self.table@.len() - i,
        {
            if bytes_eq(self.table[i].key.as_slice(), key) {
                return Some(i);
            }
            i = i + 1;
        }
        proof {
            let views = lock_views(self.table@);
            if has_key(views, key@) {
                let j = choose|j: int| 0 <= j < views.len() && #[trigger] views[j].key == key@;
                assert(self.table@[j]@.key == key@);
            }
        }
        None
    }

    /// The lock held on `key`, if there is one.
    pub fn read_lock(&self, key: &[u8]) -> (res: Option<Lock>)
        requires
            self.wf(),
        ensures
            res is Some <==> self@.locks.contains_key(key@),
            res matches Some(lock) ==> lock@ == self@.locks[key@],
    {
        match self.position(key) {
            Some(i) => {
                proof {
                    lemma_locks_of_entry(lock_views(self.table@), i as int);
                }
                Some(self.table[i].clone())
            },
            None => None,
        }
    }

    /// Files `lock` under its key, in place of the lock that was held on
    /// that key, and returns the lock that was replaced.
    pub fn acquire(&mut self, lock: Lock) -> (previous: Option<Lock>)
        requires
            old(self).wf(),
        ensures
            final(self).wf(),
            final(self)@.max_ts == old(self)@.max_ts,
            final(self)@.locks == old(self)@.locks.insert(lock@.key, lock@),
            previous is Some <==> old(self)@.locks.contains_key(lock@.key),
            previous matches Some(p) ==> p@ == old(self)@.locks[lock@.key],
    {
        let ghost before = lock_views(self.table@);
        let found: Option<usize> = self.position(lock.key.as_slice());
        let previous: Option<Lock> = match found {
            Some(i) => {
                proof {
                    lemma_locks_of_entry(before, i as int);
                    lemma_locks_of_remove(before, i as int);
                }
                let removed: Lock = self.table.remove(i);
                assert(lock_views(self.table@) =~= before.remove(i as int));
                Some(removed)
            },
            None => None,
        };
        let ghost between = lock_views(self.table@);
        proof {
            lemma_locks_of_push(between, lock@);
            assert(lock_views(self.table@.push(lock)) =~= between.push(lock@));
            assert(locks_of(before).remove(lock@.key).insert(lock@.key, lock@) =~= locks_of(
                before,
            ).insert(lock@.key, lock@));
        }
        self.table.push(lock);
        previous
    }

    /// Takes the lock held on `key` out of the table and returns it.
    pub fn release(&mut self, key: &[u8]) -> (previous: Option<Lock>)
        requires
            old(self).wf(),
        ensures
            final(self).wf(),
            final(self)@.max_ts == old(self)@.max_ts,
            final(self)@.locks == old(self)@.locks.remove(key@),
            previous is Some <==> old(self)@.locks.contains_key(key@),
            previous matches Some(p) ==> p@ == old(self)@.locks[key@],
    {
        let ghost before = lock_views(self.table@);
        match self.position(key) {
            Some(i) => {
                proof {
                    lemma_locks_of_entry(before, i as int);
                    lemma_locks_of_remove(before, i as int);
                }
                let removed: Lock = self.table.remove(i);
                assert(lock_views(self.table@) =~= before.remove(i as int));
                Some(removed)
            },
            None => {
                assert(locks_of(before).remove(key@) =~= locks_of(before));
                None
            },
        }
    }

    /// The lock that stands in the way of a read of `keys` at `ts`: of the
    /// locks on those keys whose transactions started at or before `ts`,
    /// the one on the least key.
    pub fn blocking_lock(&self, keys: &KeyOrRange, ts: u64) -> (res: Option<Lock>)
        requires
            self.wf(),
        ensures
            res is Some <==> blocking_lock(self@.locks, keys@, ts) is Some,
            res matches Some(lock) ==> Some(lock@) == blocking_lock(self@.locks, keys@, ts),
            res is None <==> lock_free(self@.locks, keys@, ts),
    {
        proof {
            self.lemma_locks_shape();
            lemma_blocking_lock_none(self@.locks, keys@, ts);
        }
        let ghost views = lock_views(self.table@);
        let mut best: Option<usize> = None;
        let mut i: usize = 0;
        while i < self.table.len()
            invariant
                i <= self.table@.len(),
                views == lock_views(self.table@),
                distinct_keys(views),
                best is None ==> forall|j: int| 0 <= j < i ==> !views[j].blocks(keys@, ts),
                best matches Some(b) ==> {
                    &&& b < i
                    &&& views[b as int].blocks(keys@, ts)
                    &&& forall|j: int|
                        0 <= j < i && views[j].blocks(keys@, ts) ==> lex_le(
                            views[b as int].key,
                            #[trigger] views[j].key,
                        )
                },
            decreases self.table@.len() - i,
        {
            if self.table[i].blocks(keys, ts) {
                match best {
                    None => {
                        proof {
                            lemma_lex_lt_total(views[i as int].key, views[i as int].key);
                        }
                        best = Some(i);
                    },
                    Some(b) => {
                        if bytes_lt(self.table[i].key.as_slice(), self.table[b].key.as_slice()) {
                            proof {
                                let least = views[i as int].key;
                                lemma_lex_lt_total(least, views[b as int].key);
                                lemma_lex_lt_total(least, least);
                                assert forall|j: int|
                                    0 <= j < i + 1 && views[j].blocks(keys@, ts) implies lex_le(
                                    least,
                                    #[trigger] views[j].key,
                                ) by {
                                    if j < i {
                                        lemma_lex_le_transitive(
                                            least,
                                            views[b as int].key,
                                            views[j].key,
                                        );
                                    }
                                }
                            }
                            best = Some(i);
                        }
                    },
                }
            }
            i = i + 1;
        }
        match best {
            Some(b) => {
                let found: Lock = self.table[b].clone();
                proof {
                    let locks = self@.locks;
                    lemma_locks_of_entry(views, b as int);
                    assert forall|k: Seq<u8>| #[trigger]
                        locks.contains_key(k) && locks[k].blocks(keys@, ts) implies lex_le(
                        found@.key,
                        k,
                    ) by {
                        let j = choose|j: int| 0 <= j < views.len() && #[trigger] views[j].key == k;
                        lemma_locks_of_entry(views, j);
                    }
                    assert(is_first_blocking(locks, keys@, ts, found@));
                    let chosen = choose|lock: LockView| is_first_blocking(locks, keys@, ts, lock);
                    lemma_first_blocking_unique(locks, keys@, ts, found@, chosen);
                }
                Some(found)
            },
            None => {
                proof {
                    let locks = self@.locks;
                    assert forall|k: Seq<u8>| #[trigger] locks.contains_key(k) implies !locks[k].blocks(
                        keys@,
                        ts,
                    ) by {
                        let j = choose|j: int| 0 <= j < views.len() && #[trigger] views[j].key == k;
                        lemma_locks_of_entry(views, j);
                    }
                }
                None
            },
        }
    }
}

} // verus!
