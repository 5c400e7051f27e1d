//! The safe-timestamp cache: for each region of a store, the highest
//! timestamp at which the local replica is known to answer a read without
//! asking the leader again.

use std::collections::HashMap;
use vstd::prelude::*;

verus! {

broadcast use vstd::std_specs::hash::group_hash_axioms;

/// The safe timestamp of `region` in `cache`: zero where the cache holds
/// nothing for it, which stands for "nothing is known to be safe".
pub open spec fn safe_ts(cache: Map<u64, u64>, region: u64) -> u64 {
    if cache.contains_key(region) {
        cache[region]
    } else {
        0
    }
}

/// `cache` after `candidate` was offered for `region`: the safe timestamp
/// of the region is the greater of what it was and `candidate`.
pub open spec fn advanced(cache: Map<u64, u64>, region: u64, candidate: u64) -> Map<u64, u64> {
    cache.insert(
        region,
        if candidate > safe_ts(cache, region) {
            candidate
        } else {
            safe_ts(cache, region)
        },
    )
}

/// Caches, per region, the highest timestamp that is safe to read locally.
pub struct ReadIndexSafeTsCache {
    entries: HashMap<u64, u64>,
}

impl View for ReadIndexSafeTsCache {
    type V = Map<u64, u64>;

    closed spec fn view(&self) -> Map<u64, u64> {
        self.entries@
    }
}

impl ReadIndexSafeTsCache {
    /// A cache that holds nothing.
    pub fn new() -> (res: ReadIndexSafeTsCache)
        ensures
            res@ == Map::<u64, u64>::empty(),
    {
        ReadIndexSafeTsCache { entries: HashMap::new() }
    }

    /// The safe timestamp of the region `region_id`, zero if there is none.
    pub fn get(&self, region_id: u64) -> (ts: u64)
        ensures
            ts == safe_ts(self@, region_id),
    {
        match self.entries.get(&region_id) {
            Some(ts) => *ts,
            None => 0,
        }
    }

    /// Raises the safe timestamp of the region to `candidate_ts`, unless it
    /// is there already or beyond.
    pub fn advance(&mut self, region_id: u64, candidate_ts: u64)
        ensures
            final(self)@ == advanced(old(self)@, region_id, candidate_ts),
    {
        let current: u64 = self.get(region_id);
        let raised: u64 = if candidate_ts > current {
            candidate_ts
        } else {
            current
        };
        self.entries.insert(region_id, raised);
    }

    /// Forgets what is known of the region: its safe timestamp is zero
    /// again.
    pub fn reset(&mut self, region_id: u64)
        ensures
            final(self)@ == old(self)@.remove(region_id),
    {
        self.entries.remove(&region_id);
    }
}

} // verus!
