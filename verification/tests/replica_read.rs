use replica_read::dispatcher::{ReadCompletion, ReadDispatcher};
use replica_read::error::ReadError;
use replica_read::lock::{KeyOrRange, Lock, LockType};
use replica_read::model::{ConsensusMessage, ReadProgress, ReadSource, Snapshot};
use replica_read::region::{PeerPhase, RegionEpoch, RegionReadState, Role};

const REGION: u64 = 1;
const EPOCH: RegionEpoch = RegionEpoch { version: 1, conf_version: 1 };

fn key(k: &[u8]) -> KeyOrRange {
    KeyOrRange::Key(k.to_vec())
}

fn lock_on(k: &[u8], start_ts: u64) -> Lock {
    Lock {
        key: k.to_vec(),
        lock_type: LockType::Put,
        start_ts,
        for_update_ts: 0,
        ttl: 20000,
        min_commit_ts: start_ts,
        generation: 1,
        is_pessimistic: false,
        async_commit_keys: Vec::new(),
    }
}

/// A store that holds the replica `peer_id` of `REGION` as a follower in
/// term 1 that has applied the log up to index 5.
fn follower(peer_id: u64) -> ReadDispatcher {
    let mut store = ReadDispatcher::new();
    assert!(store.create_peer(REGION, peer_id, EPOCH));
    store.on_role_change(REGION, peer_id, Role::Follower, 1);
    assert!(store.on_applied(REGION, 5).is_empty());
    store
}

fn read(store: &mut ReadDispatcher, peer_id: u64, k: &[u8], ts: u64, callback: u64) -> Result<ReadProgress, ReadError> {
    store.serve_read(REGION, peer_id, EPOCH, key(k), ts, false, callback, 0)
}

fn by_read_index(ts: u64, term: u64, commit_index: u64) -> Result<Snapshot, ReadError> {
    Ok(Snapshot {
        region_id: REGION,
        read_timestamp: ts,
        source: ReadSource::ReadIndex { term, commit_index },
    })
}

/// Reads at `ts` through a read-index round that consensus answers at once
/// for what the replica has applied.
fn read_through_round(store: &mut ReadDispatcher, peer_id: u64, k: &[u8], ts: u64) -> Vec<ReadCompletion> {
    let request_id = match read(store, peer_id, k, ts, 99) {
        Ok(ReadProgress::Waiting { propose: Some(id) }) => id,
        other => panic!("the read should have issued a round: {:?}", other),
    };
    store.on_read_index_response(REGION, request_id, 1, 5)
}

/// Reads at `ts`, through a round where the cache does not answer.
fn read_somehow(store: &mut ReadDispatcher, peer_id: u64, k: &[u8], ts: u64) {
    if store.get_safe_ts(REGION) < ts {
        let ended = read_through_round(store, peer_id, k, ts);
        assert_eq!(ended.len(), 1);
    } else {
        let hit = Ok(ReadProgress::Ready(Snapshot {
            region_id: REGION,
            read_timestamp: ts,
            source: ReadSource::Cache,
        }));
        assert_eq!(read(store, peer_id, k, ts, 99), hit);
    }
}

#[test]
fn safe_ts_is_zero_at_first() {
    let store = ReadDispatcher::new();
    assert_eq!(store.get_safe_ts(REGION), 0);
    let store = follower(2);
    for region in 0..5 {
        assert_eq!(store.get_safe_ts(region), 0);
    }
    assert_eq!(store.max_ts(), 0);
}

#[test]
fn created_replica_is_a_follower_that_applied_nothing() {
    let mut store = ReadDispatcher::new();
    assert_eq!(store.region_state(REGION), None);
    assert!(store.create_peer(REGION, 7, EPOCH));
    assert_eq!(
        store.region_state(REGION),
        Some(RegionReadState {
            region_id: REGION,
            peer_id: 7,
            epoch: EPOCH,
            role: Role::Follower,
            term: 0,
            phase: PeerPhase::Normal,
            applied_index: 0,
        })
    );
    // A store holds one replica of a region.
    assert!(!store.create_peer(REGION, 8, EPOCH));
    assert_eq!(store.region_state(REGION).unwrap().peer_id, 7);
}

#[test]
fn read_of_unknown_region_is_not_found() {
    let mut store = ReadDispatcher::new();
    assert_eq!(read(&mut store, 2, b"k1", 10, 1), Err(ReadError::RegionNotFound));
    let mut store = follower(2);
    // The region is here, the replica asked for is not.
    assert_eq!(read(&mut store, 3, b"k1", 10, 1), Err(ReadError::RegionNotFound));
    assert_eq!(store.pending_reads(REGION), 0);
}

#[test]
fn read_with_stale_epoch_learns_current_epoch() {
    let mut store = follower(2);
    let stale = RegionEpoch { version: 0, conf_version: 1 };
    let res = store.serve_read(REGION, 2, stale, key(b"k1"), 10, false, 1, 0);
    assert_eq!(res, Err(ReadError::EpochNotMatch { current_epoch: EPOCH }));
    let ahead = RegionEpoch { version: 1, conf_version: 2 };
    let res = store.serve_read(REGION, 2, ahead, key(b"k1"), 10, false, 1, 0);
    assert_eq!(res, Err(ReadError::EpochNotMatch { current_epoch: EPOCH }));
    assert_eq!(store.pending_reads(REGION), 0);
}

#[test]
fn follower_read_waits_for_a_round_and_fills_the_cache() {
    let mut store = follower(2);
    assert_eq!(read(&mut store, 2, b"k1", 2, 41), Ok(ReadProgress::Waiting { propose: Some(0) }));
    assert_eq!(store.pending_reads(REGION), 1);
    assert_eq!(store.get_safe_ts(REGION), 0);
    let ended = store.on_read_index_response(REGION, 0, 1, 5);
    assert_eq!(ended, vec![ReadCompletion { callback: 41, result: by_read_index(2, 1, 5) }]);
    assert_eq!(store.pending_reads(REGION), 0);
    assert_eq!(store.get_safe_ts(REGION), 2);
    assert_eq!(store.max_ts(), 2);
    // The next read at or below the safe timestamp needs no round.
    let hit = Ok(ReadProgress::Ready(Snapshot {
        region_id: REGION,
        read_timestamp: 2,
        source: ReadSource::Cache,
    }));
    assert_eq!(read(&mut store, 2, b"k1", 2, 42), hit);
    assert_eq!(store.pending_reads(REGION), 0);
    // A read above it does.
    assert_eq!(read(&mut store, 2, b"k1", 3, 43), Ok(ReadProgress::Waiting { propose: Some(1) }));
}

#[test]
fn read_at_timestamp_zero_hits_the_empty_cache() {
    let mut store = follower(2);
    let res = read(&mut store, 2, b"k1", 0, 1);
    assert_eq!(
        res,
        Ok(ReadProgress::Ready(Snapshot { region_id: REGION, read_timestamp: 0, source: ReadSource::Cache }))
    );
}

#[test]
fn follower_read_waits_for_apply() {
    // The leader has committed the write of k1 at index 6; the follower has
    // applied the log up to index 5 only.
    let mut store = follower(3);
    assert_eq!(read(&mut store, 3, b"k1", 10, 1), Ok(ReadProgress::Waiting { propose: Some(0) }));
    // The round ends, but the write has not been applied: the read blocks.
    assert!(store.on_read_index_response(REGION, 0, 1, 6).is_empty());
    assert_eq!(store.pending_reads(REGION), 1);
    assert_eq!(store.on_timeout(REGION, 77), None);
    assert_eq!(store.get_safe_ts(REGION), 0);
    // The hook releases the apply: the read completes at once.
    let ended = store.on_applied(REGION, 6);
    assert_eq!(ended, vec![ReadCompletion { callback: 1, result: by_read_index(10, 1, 6) }]);
    assert_eq!(store.pending_reads(REGION), 0);
    assert_eq!(store.get_safe_ts(REGION), 10);
}

#[test]
fn lock_blocks_follower_read_until_released() {
    let mut store = follower(2);
    let held = lock_on(b"k1", 10);
    assert_eq!(store.acquire_lock(held.clone()), None);
    // The read at 20 meets the lock.
    let ended = read_through_round(&mut store, 2, b"k1", 20);
    assert_eq!(
        ended,
        vec![ReadCompletion { callback: 99, result: Err(ReadError::KeyIsLocked { lock_info: held.clone() }) }]
    );
    assert_eq!(store.get_safe_ts(REGION), 0);
    assert_eq!(store.max_ts(), 20);
    // Once the lock is released, the same read succeeds and fills the cache.
    assert_eq!(store.release_lock(b"k1"), Some(held));
    let ended = read_through_round(&mut store, 2, b"k1", 20);
    assert_eq!(ended, vec![ReadCompletion { callback: 99, result: by_read_index(20, 1, 5) }]);
    assert_eq!(store.get_safe_ts(REGION), 20);
}

#[test]
fn lock_that_started_after_the_read_does_not_block() {
    let mut store = follower(2);
    store.acquire_lock(lock_on(b"k1", 31));
    let ended = read_through_round(&mut store, 2, b"k1", 30);
    assert_eq!(ended[0].result, by_read_index(30, 1, 5));
    assert_eq!(store.get_safe_ts(REGION), 30);
    // A read at the start of the lock's transaction sees the lock.
    let ended = read_through_round(&mut store, 2, b"k1", 31);
    assert_eq!(ended[0].result, Err(ReadError::KeyIsLocked { lock_info: lock_on(b"k1", 31) }));
    assert_eq!(store.get_safe_ts(REGION), 30);
}

#[test]
fn lock_on_another_key_does_not_block() {
    let mut store = follower(2);
    store.acquire_lock(lock_on(b"k2", 1));
    let ended = read_through_round(&mut store, 2, b"k1", 30);
    assert_eq!(ended[0].result, by_read_index(30, 1, 5));
}

#[test]
fn range_read_reports_the_lock_on_the_least_key() {
    let mut store = follower(2);
    store.acquire_lock(lock_on(b"k5", 3));
    store.acquire_lock(lock_on(b"k3", 4));
    store.acquire_lock(lock_on(b"k1", 50));
    store.acquire_lock(lock_on(b"k9", 1));
    let range = KeyOrRange::Range { start: b"k1".to_vec(), end: b"k9".to_vec() };
    let res = store.serve_read(REGION, 2, EPOCH, range, 10, false, 5, 0);
    assert_eq!(res, Ok(ReadProgress::Waiting { propose: Some(0) }));
    let ended = store.on_read_index_response(REGION, 0, 1, 5);
    assert_eq!(
        ended,
        vec![ReadCompletion { callback: 5, result: Err(ReadError::KeyIsLocked { lock_info: lock_on(b"k3", 4) }) }]
    );
    // Without an upper bound the range reaches the last key.
    store.release_lock(b"k3");
    store.release_lock(b"k5");
    let open = KeyOrRange::Range { start: b"k2".to_vec(), end: Vec::new() };
    store.serve_read(REGION, 2, EPOCH, open, 10, false, 6, 0).unwrap();
    let ended = store.on_read_index_response(REGION, 1, 1, 5);
    assert_eq!(ended[0].result, Err(ReadError::KeyIsLocked { lock_info: lock_on(b"k9", 1) }));
}

#[test]
fn leader_transfer_keeps_new_leader_serving() {
    // Store A holds the leader, store B a follower of the same region.
    let mut a = ReadDispatcher::new();
    a.create_peer(REGION, 1, EPOCH);
    a.on_role_change(REGION, 1, Role::Leader { lease_deadline: 100 }, 1);
    let mut b = ReadDispatcher::new();
    b.create_peer(REGION, 2, EPOCH);
    b.on_role_change(REGION, 2, Role::Follower, 1);
    b.on_applied(REGION, 5);
    // B has answered a read at 40 as a follower.
    b.serve_read(REGION, 2, EPOCH, key(b"k1"), 40, false, 1, 10).unwrap();
    b.on_read_index_response(REGION, 0, 1, 5);
    assert_eq!(b.get_safe_ts(REGION), 40);

    // Leadership moves from A to B; B learns a timestamp beyond all that A
    // has handed out.
    a.on_role_change(REGION, 1, Role::Follower, 2);
    b.on_role_change(REGION, 2, Role::Leader { lease_deadline: 200 }, 2);
    b.update_max_ts(50);
    assert_eq!(b.get_safe_ts(REGION), 0);

    // Reads of the new leader at any timestamp up to its highest are served.
    for ts in [0, 1, 40, 50] {
        let res = b.serve_read(REGION, 2, EPOCH, key(b"k1"), ts, false, 2, 110);
        assert_eq!(
            res,
            Ok(ReadProgress::Ready(Snapshot { region_id: REGION, read_timestamp: ts, source: ReadSource::Lease }))
        );
    }

    // The old leader does not answer under the lease that it had: the read
    // goes to consensus, which turns it away.
    let res = a.serve_read(REGION, 1, EPOCH, key(b"k1"), 45, false, 3, 50);
    assert_eq!(res, Ok(ReadProgress::Waiting { propose: Some(0) }));
    let ended = a.on_not_leader(REGION, 0, Some(2));
    assert_eq!(
        ended,
        vec![ReadCompletion { callback: 3, result: Err(ReadError::NotLeader { new_leader_hint: Some(2) }) }]
    );
    assert_eq!(a.pending_reads(REGION), 0);
}

#[test]
fn reads_pending_at_split_all_end() {
    let mut store = follower(2);
    for callback in 0..10u64 {
        let res = read(&mut store, 2, b"k1", 10 + callback, callback);
        let propose = if callback == 0 { Some(0) } else { None };
        assert_eq!(res, Ok(ReadProgress::Waiting { propose }));
    }
    assert_eq!(store.pending_reads(REGION), 10);
    let split_epoch = RegionEpoch { version: 2, conf_version: 1 };
    let ended = store.on_split(REGION, split_epoch, &[REGION, 1000]);
    assert_eq!(ended.len(), 10);
    for (i, end) in ended.iter().enumerate() {
        assert_eq!(end.callback, i as u64);
        assert_eq!(end.result, Err(ReadError::EpochNotMatch { current_epoch: split_epoch }));
    }
    assert_eq!(store.pending_reads(REGION), 0);
    // The answer of the round that was in flight finds nobody waiting.
    assert!(store.on_read_index_response(REGION, 0, 1, 5).is_empty());
    assert_eq!(store.get_safe_ts(REGION), 0);
}

#[test]
fn concurrent_reads_share_one_round() {
    let mut store = follower(2);
    let mut proposals = 0;
    for callback in 0..7u64 {
        match read(&mut store, 2, b"k1", 100 - callback, callback) {
            Ok(ReadProgress::Waiting { propose: Some(_) }) => proposals += 1,
            Ok(ReadProgress::Waiting { propose: None }) => {}
            other => panic!("unexpected {:?}", other),
        }
    }
    assert_eq!(proposals, 1);
    let ended = store.on_read_index_response(REGION, 0, 1, 4);
    assert_eq!(ended.len(), 7);
    for (i, end) in ended.iter().enumerate() {
        assert_eq!(end.callback, i as u64);
        assert_eq!(end.result, by_read_index(100 - i as u64, 1, 4));
    }
    assert_eq!(store.get_safe_ts(REGION), 100);
    assert_eq!(store.max_ts(), 100);
}

#[test]
fn round_after_a_finished_round_is_a_new_round() {
    let mut store = follower(2);
    assert_eq!(read(&mut store, 2, b"k1", 10, 1), Ok(ReadProgress::Waiting { propose: Some(0) }));
    // The round has ended and waits for the log: a new read needs a new one.
    assert!(store.on_read_index_response(REGION, 0, 1, 8).is_empty());
    assert_eq!(read(&mut store, 2, b"k1", 11, 2), Ok(ReadProgress::Waiting { propose: Some(1) }));
    assert!(store.on_read_index_response(REGION, 1, 1, 9).is_empty());
    assert_eq!(store.pending_reads(REGION), 2);
    let ended = store.on_applied(REGION, 8);
    assert_eq!(ended, vec![ReadCompletion { callback: 1, result: by_read_index(10, 1, 8) }]);
    let ended = store.on_applied(REGION, 9);
    assert_eq!(ended, vec![ReadCompletion { callback: 2, result: by_read_index(11, 1, 9) }]);
}

#[test]
fn answer_for_another_term_is_stale() {
    let mut store = follower(2);
    read(&mut store, 2, b"k1", 10, 1).unwrap();
    read(&mut store, 2, b"k2", 11, 2).unwrap();
    let ended = store.on_read_index_response(REGION, 0, 2, 5);
    assert_eq!(
        ended,
        vec![
            ReadCompletion { callback: 1, result: Err(ReadError::StaleCommand) },
            ReadCompletion { callback: 2, result: Err(ReadError::StaleCommand) },
        ]
    );
    assert_eq!(store.get_safe_ts(REGION), 0);
    assert_eq!(store.max_ts(), 0);
    assert_eq!(store.pending_reads(REGION), 0);
}

#[test]
fn answer_for_an_unknown_round_is_passed_over() {
    let mut store = follower(2);
    read(&mut store, 2, b"k1", 10, 1).unwrap();
    assert!(store.on_read_index_response(REGION, 5, 1, 5).is_empty());
    assert!(store.on_read_index_response(REGION + 1, 0, 1, 5).is_empty());
    assert!(store.on_not_leader(REGION, 5, None).is_empty());
    assert_eq!(store.pending_reads(REGION), 1);
}

#[test]
fn round_answered_after_role_change_still_reaches_waiters() {
    let mut store = follower(2);
    read(&mut store, 2, b"k1", 10, 1).unwrap();
    // The replica becomes a learner and a follower again, in the same term.
    store.on_role_change(REGION, 2, Role::Learner, 1);
    store.on_role_change(REGION, 2, Role::Follower, 1);
    let ended = store.on_read_index_response(REGION, 0, 1, 5);
    assert_eq!(ended, vec![ReadCompletion { callback: 1, result: by_read_index(10, 1, 5) }]);
}

#[test]
fn read_during_snapshot_fails_fast() {
    let mut store = follower(2);
    read_through_round(&mut store, 2, b"k1", 10);
    assert_eq!(store.get_safe_ts(REGION), 10);
    store.on_snapshot_applying_start(REGION);
    assert_eq!(store.region_state(REGION).unwrap().phase, PeerPhase::Applying);
    // Not even a read that the cache would answer is served.
    assert_eq!(read(&mut store, 2, b"k1", 5, 1), Err(ReadError::ApplyingSnapshot));
    assert_eq!(read(&mut store, 2, b"k1", 50, 1), Err(ReadError::ApplyingSnapshot));
    assert!(store.on_snapshot_applied(REGION, 9).is_empty());
    assert_eq!(store.region_state(REGION).unwrap().phase, PeerPhase::Normal);
    assert_eq!(store.region_state(REGION).unwrap().applied_index, 9);
    assert!(read(&mut store, 2, b"k1", 5, 1).is_ok());
}

#[test]
fn read_waits_while_snapshot_is_installed() {
    let mut store = follower(3);
    assert_eq!(read(&mut store, 3, b"k0", 10, 1), Ok(ReadProgress::Waiting { propose: Some(0) }));
    // The snapshot and the answer of the round arrive together.
    store.on_snapshot_applying_start(REGION);
    assert!(store.on_read_index_response(REGION, 0, 1, 5).is_empty());
    assert!(store.on_applied(REGION, 5).is_empty());
    assert_eq!(store.pending_reads(REGION), 1);
    assert_eq!(store.get_safe_ts(REGION), 0);
    // Once the snapshot is installed the read is answered.
    let ended = store.on_snapshot_applied(REGION, 20);
    assert_eq!(ended, vec![ReadCompletion { callback: 1, result: by_read_index(10, 1, 5) }]);
}

#[test]
fn timeout_ends_one_read_and_keeps_the_round() {
    let mut store = follower(2);
    read(&mut store, 2, b"k1", 10, 1).unwrap();
    read(&mut store, 2, b"k1", 11, 2).unwrap();
    read(&mut store, 2, b"k1", 12, 3).unwrap();
    assert_eq!(
        store.on_timeout(REGION, 2),
        Some(ReadCompletion { callback: 2, result: Err(ReadError::Timeout) })
    );
    assert_eq!(store.on_timeout(REGION, 2), None);
    assert_eq!(store.on_timeout(REGION + 1, 1), None);
    assert_eq!(store.pending_reads(REGION), 2);
    // A read that arrives now still joins the round in flight.
    assert_eq!(read(&mut store, 2, b"k1", 13, 4), Ok(ReadProgress::Waiting { propose: None }));
    let ended = store.on_read_index_response(REGION, 0, 1, 5);
    let callbacks: Vec<u64> = ended.iter().map(|e| e.callback).collect();
    assert_eq!(callbacks, vec![1, 3, 4]);
}

#[test]
fn round_survives_the_loss_of_all_its_waiters() {
    let mut store = follower(2);
    read(&mut store, 2, b"k1", 10, 1).unwrap();
    assert!(store.cancel_read(REGION, 1));
    assert!(!store.cancel_read(REGION, 1));
    assert_eq!(store.pending_reads(REGION), 0);
    // The round is still in flight: the next read proposes nothing.
    assert_eq!(read(&mut store, 2, b"k1", 11, 2), Ok(ReadProgress::Waiting { propose: None }));
    let ended = store.on_read_index_response(REGION, 0, 1, 5);
    assert_eq!(ended, vec![ReadCompletion { callback: 2, result: by_read_index(11, 1, 5) }]);
}

#[test]
fn cancel_reaches_reads_that_wait_for_apply() {
    let mut store = follower(2);
    read(&mut store, 2, b"k1", 10, 1).unwrap();
    read(&mut store, 2, b"k1", 10, 2).unwrap();
    assert!(store.on_read_index_response(REGION, 0, 1, 9).is_empty());
    assert!(store.cancel_read(REGION, 1));
    let ended = store.on_applied(REGION, 9);
    assert_eq!(ended, vec![ReadCompletion { callback: 2, result: by_read_index(10, 1, 9) }]);
}

#[test]
fn leader_reads_under_its_lease() {
    let mut store = ReadDispatcher::new();
    store.create_peer(REGION, 1, EPOCH);
    store.on_role_change(REGION, 1, Role::Leader { lease_deadline: 100 }, 1);
    let by_lease = |ts| {
        Ok(ReadProgress::Ready(Snapshot { region_id: REGION, read_timestamp: ts, source: ReadSource::Lease }))
    };
    assert_eq!(store.serve_read(REGION, 1, EPOCH, key(b"k1"), 30, false, 1, 99), by_lease(30));
    // The store has seen the timestamp; the cache is not touched.
    assert_eq!(store.max_ts(), 30);
    assert_eq!(store.get_safe_ts(REGION), 0);
    // The lease has run out at its deadline.
    assert_eq!(
        store.serve_read(REGION, 1, EPOCH, key(b"k1"), 30, false, 2, 100),
        Ok(ReadProgress::Waiting { propose: Some(0) })
    );
    // A caller who allows stale reads is not served under the lease.
    assert_eq!(
        store.serve_read(REGION, 1, EPOCH, key(b"k1"), 30, true, 3, 0),
        Ok(ReadProgress::Waiting { propose: None })
    );
}

#[test]
fn leader_read_meets_lock() {
    let mut store = ReadDispatcher::new();
    store.create_peer(REGION, 1, EPOCH);
    store.on_role_change(REGION, 1, Role::Leader { lease_deadline: 100 }, 1);
    store.acquire_lock(lock_on(b"k1", 10));
    assert_eq!(
        store.serve_read(REGION, 1, EPOCH, key(b"k1"), 20, false, 1, 0),
        Err(ReadError::KeyIsLocked { lock_info: lock_on(b"k1", 10) })
    );
    assert_eq!(store.max_ts(), 20);
    assert!(store.serve_read(REGION, 1, EPOCH, key(b"k1"), 9, false, 1, 0).is_ok());
}

#[test]
fn becoming_leader_resets_the_cache() {
    let mut store = follower(2);
    read_through_round(&mut store, 2, b"k1", 10);
    assert_eq!(store.get_safe_ts(REGION), 10);
    // A notice about another replica or from an earlier term changes nothing.
    store.on_role_change(REGION, 3, Role::Leader { lease_deadline: 9 }, 2);
    store.on_role_change(REGION, 2, Role::Leader { lease_deadline: 9 }, 0);
    assert_eq!(store.get_safe_ts(REGION), 10);
    assert_eq!(store.region_state(REGION).unwrap().role, Role::Follower);
    // Changes of role among followers do not reset it.
    store.on_role_change(REGION, 2, Role::Candidate, 2);
    store.on_role_change(REGION, 2, Role::Follower, 3);
    assert_eq!(store.get_safe_ts(REGION), 10);
    // Becoming leader does.
    store.on_role_change(REGION, 2, Role::Leader { lease_deadline: 9 }, 4);
    assert_eq!(store.get_safe_ts(REGION), 0);
    assert_eq!(store.region_state(REGION).unwrap().term, 4);
    // It stays zero when the leader steps down.
    store.on_role_change(REGION, 2, Role::Follower, 5);
    assert_eq!(store.get_safe_ts(REGION), 0);
}

#[test]
fn split_resets_parent_and_children() {
    let mut store = follower(2);
    store.create_peer(7, 2, EPOCH);
    store.on_applied(7, 5);
    read_through_round(&mut store, 2, b"k1", 10);
    store.serve_read(7, 2, EPOCH, key(b"k8"), 33, false, 1, 0).unwrap();
    store.on_read_index_response(7, 0, 0, 5);
    assert_eq!(store.get_safe_ts(REGION), 10);
    assert_eq!(store.get_safe_ts(7), 33);
    // A notice that does not move the epoch on is passed over.
    assert!(store.on_split(REGION, EPOCH, &[REGION, 7]).is_empty());
    assert_eq!(store.get_safe_ts(REGION), 10);
    assert_eq!(store.get_safe_ts(7), 33);
    let split_epoch = RegionEpoch { version: 2, conf_version: 1 };
    assert!(store.on_split(REGION, split_epoch, &[7, 8]).is_empty());
    assert_eq!(store.get_safe_ts(REGION), 0);
    assert_eq!(store.get_safe_ts(7), 0);
    assert_eq!(store.get_safe_ts(8), 0);
    assert_eq!(store.region_state(REGION).unwrap().epoch, split_epoch);
    // Reads under the old epoch are turned away.
    assert_eq!(
        read(&mut store, 2, b"k1", 5, 1),
        Err(ReadError::EpochNotMatch { current_epoch: split_epoch })
    );
}

#[test]
fn merge_resets_the_merged_region() {
    let (left, right) = (1u64, 2u64);
    let mut store = ReadDispatcher::new();
    for region in [left, right] {
        store.create_peer(region, 10 + region, EPOCH);
        store.on_role_change(region, 10 + region, Role::Follower, 1);
        store.on_applied(region, 5);
    }
    let mut read_at = |store: &mut ReadDispatcher, region: u64, epoch: RegionEpoch, k: &[u8], ts: u64| {
        match store.serve_read(region, 10 + region, epoch, key(k), ts, false, 1, 0) {
            Ok(ReadProgress::Waiting { propose: Some(id) }) => {
                store.on_read_index_response(region, id, 1, 5).remove(0).result
            }
            Ok(ReadProgress::Ready(snapshot)) => Ok(snapshot),
            other => panic!("unexpected {:?}", other),
        }
    };
    assert!(read_at(&mut store, left, EPOCH, b"k1", 20).is_ok());
    assert_eq!(store.max_ts(), 20);
    assert!(read_at(&mut store, right, EPOCH, b"k3", 30).is_ok());
    assert_eq!(store.max_ts(), 30);
    assert_eq!(store.get_safe_ts(left), 20);
    assert_eq!(store.get_safe_ts(right), 30);

    store.acquire_lock(lock_on(b"k1", 25));
    assert!(matches!(read_at(&mut store, left, EPOCH, b"k1", 30), Err(ReadError::KeyIsLocked { .. })));
    assert_eq!(store.get_safe_ts(left), 20);

    let merged = RegionEpoch { version: 2, conf_version: 1 };
    assert!(store.on_merge(left, right, merged).is_empty());
    assert_eq!(store.region_state(left), None);
    assert_eq!(store.max_ts(), 30);
    assert_eq!(store.get_safe_ts(right), 0);
    assert_eq!(store.get_safe_ts(left), 0);

    assert!(matches!(read_at(&mut store, right, merged, b"k1", 30), Err(ReadError::KeyIsLocked { .. })));
    store.release_lock(b"k1");
    store.acquire_lock(lock_on(b"k1", 31));
    assert!(read_at(&mut store, right, merged, b"k1", 30).is_ok());
    assert_eq!(store.get_safe_ts(right), 30);
    // A read beyond the safe timestamp sees the lock.
    assert!(matches!(read_at(&mut store, right, merged, b"k1", 31), Err(ReadError::KeyIsLocked { .. })));
}

#[test]
fn merge_ends_the_reads_of_both_regions() {
    let mut store = follower(2);
    store.create_peer(2, 2, EPOCH);
    read(&mut store, 2, b"k1", 10, 1).unwrap();
    store.serve_read(2, 2, EPOCH, key(b"k3"), 10, false, 2, 0).unwrap();
    let merged = RegionEpoch { version: 2, conf_version: 1 };
    // A region is not merged into itself.
    assert!(store.on_merge(2, 2, merged).is_empty());
    assert_eq!(store.pending_reads(2), 1);
    let ended = store.on_merge(REGION, 2, merged);
    assert_eq!(
        ended,
        vec![
            ReadCompletion { callback: 1, result: Err(ReadError::RegionNotFound) },
            ReadCompletion { callback: 2, result: Err(ReadError::EpochNotMatch { current_epoch: merged }) },
        ]
    );
    assert_eq!(store.pending_reads(REGION), 0);
    assert_eq!(store.pending_reads(2), 0);
    assert_eq!(read(&mut store, 2, b"k1", 10, 1), Err(ReadError::RegionNotFound));
}

#[test]
fn destroyed_replica_answers_region_not_found() {
    let mut store = follower(2);
    read_through_round(&mut store, 2, b"k1", 10);
    assert_eq!(store.get_safe_ts(REGION), 10);
    read(&mut store, 2, b"k1", 11, 1).unwrap();
    assert!(store.on_read_index_response(REGION, 1, 1, 6).is_empty());
    read(&mut store, 2, b"k1", 12, 2).unwrap();
    let ended = store.destroy_peer(REGION);
    assert_eq!(
        ended,
        vec![
            ReadCompletion { callback: 1, result: Err(ReadError::RegionNotFound) },
            ReadCompletion { callback: 2, result: Err(ReadError::RegionNotFound) },
        ]
    );
    assert_eq!(store.get_safe_ts(REGION), 0);
    // Not even a read that the cache would have answered is served.
    assert_eq!(read(&mut store, 2, b"k1", 5, 3), Err(ReadError::RegionNotFound));
    assert!(store.destroy_peer(REGION).is_empty());
}

#[test]
fn invalidate_resets_one_region() {
    let mut store = follower(2);
    store.create_peer(2, 2, EPOCH);
    read_through_round(&mut store, 2, b"k1", 10);
    store.serve_read(2, 2, EPOCH, key(b"k3"), 12, false, 1, 0).unwrap();
    store.on_read_index_response(2, 0, 0, 0);
    store.invalidate_region(REGION);
    assert_eq!(store.get_safe_ts(REGION), 0);
    assert_eq!(store.get_safe_ts(2), 12);
}

#[test]
fn safe_ts_never_goes_down_without_reset() {
    let mut store = follower(2);
    let mut last = 0;
    for ts in [5u64, 3, 9, 9, 1, 20, 7] {
        read_somehow(&mut store, 2, b"k1", ts);
        let now = store.get_safe_ts(REGION);
        assert!(now >= last);
        assert!(now >= ts);
        last = now;
        store.on_applied(REGION, ts);
        store.acquire_lock(lock_on(b"other", 1000 + ts));
        store.update_max_ts(ts + 100);
        store.on_role_change(REGION, 2, Role::Learner, 1);
        store.on_role_change(REGION, 2, Role::Follower, 1);
        store.on_snapshot_applying_start(REGION);
        store.on_snapshot_applied(REGION, ts);
        store.cancel_read(REGION, 99);
        assert_eq!(store.get_safe_ts(REGION), last);
    }
    assert_eq!(last, 20);
}

#[test]
fn safe_ts_stays_within_max_ts() {
    let mut store = follower(2);
    for ts in [5u64, 3, 900, 1] {
        read_somehow(&mut store, 2, b"k1", ts);
        assert!(store.get_safe_ts(REGION) <= store.max_ts());
    }
    assert_eq!(store.max_ts(), 900);
    store.update_max_ts(10);
    assert_eq!(store.max_ts(), 900);
    store.update_max_ts(901);
    assert_eq!(store.max_ts(), 901);
}

#[test]
fn blocked_read_in_a_round_does_not_stop_the_others() {
    let mut store = follower(2);
    store.acquire_lock(lock_on(b"k2", 5));
    read(&mut store, 2, b"k1", 10, 1).unwrap();
    read(&mut store, 2, b"k2", 30, 2).unwrap();
    read(&mut store, 2, b"k3", 20, 3).unwrap();
    let ended = store.on_read_index_response(REGION, 0, 1, 5);
    assert_eq!(ended[0].result, by_read_index(10, 1, 5));
    assert_eq!(ended[1].result, Err(ReadError::KeyIsLocked { lock_info: lock_on(b"k2", 5) }));
    assert_eq!(ended[2].result, by_read_index(20, 1, 5));
    // The blocked read raised nothing, but the store has seen its timestamp.
    assert_eq!(store.get_safe_ts(REGION), 20);
    assert_eq!(store.max_ts(), 30);
}

#[test]
fn locks_can_be_read_and_replaced() {
    let mut store = ReadDispatcher::new();
    assert_eq!(store.read_lock(b"k1"), None);
    assert_eq!(store.acquire_lock(lock_on(b"k1", 10)), None);
    assert_eq!(store.read_lock(b"k1"), Some(lock_on(b"k1", 10)));
    assert_eq!(store.acquire_lock(lock_on(b"k1", 12)), Some(lock_on(b"k1", 10)));
    assert_eq!(store.read_lock(b"k1"), Some(lock_on(b"k1", 12)));
    assert_eq!(store.release_lock(b"k2"), None);
    assert_eq!(store.release_lock(b"k1"), Some(lock_on(b"k1", 12)));
    assert_eq!(store.read_lock(b"k1"), None);
}

#[test]
fn transient_errors() {
    assert!(ReadError::Timeout.is_transient());
    assert!(ReadError::ApplyingSnapshot.is_transient());
    assert!(ReadError::StaleCommand.is_transient());
    assert!(!ReadError::RegionNotFound.is_transient());
    assert!(!ReadError::NotLeader { new_leader_hint: None }.is_transient());
    assert!(!ReadError::EpochNotMatch { current_epoch: EPOCH }.is_transient());
    assert!(!ReadError::KeyIsLocked { lock_info: lock_on(b"k", 1) }.is_transient());
}

#[test]
fn batch_is_taken_in_before_reads_are_answered() {
    // The answer of the round and a snapshot arrive in one tick: the read
    // is not answered on data that is about to be replaced.
    let mut store = follower(3);
    read(&mut store, 3, b"k0", 10, 1).unwrap();
    let batch = [
        ConsensusMessage::Heartbeat,
        ConsensusMessage::ReadIndexResponse { request_id: 0, term: 1, commit_index: 5 },
        ConsensusMessage::Snapshot,
    ];
    assert!(store.on_messages(REGION, &batch).is_empty());
    assert_eq!(store.pending_reads(REGION), 1);
    assert_eq!(store.region_state(REGION).unwrap().phase, PeerPhase::Applying);
    let ended = store.on_snapshot_applied(REGION, 8);
    assert_eq!(ended, vec![ReadCompletion { callback: 1, result: by_read_index(10, 1, 5) }]);
}

#[test]
fn batch_answers_the_rounds_it_ends() {
    let mut store = follower(2);
    read(&mut store, 2, b"k1", 10, 1).unwrap();
    read(&mut store, 2, b"k1", 12, 2).unwrap();
    let batch = [
        ConsensusMessage::AppendResponse,
        ConsensusMessage::ReadIndexResponse { request_id: 0, term: 1, commit_index: 5 },
        ConsensusMessage::HeartbeatResponse,
    ];
    let ended = store.on_messages(REGION, &batch);
    assert_eq!(
        ended,
        vec![
            ReadCompletion { callback: 1, result: by_read_index(10, 1, 5) },
            ReadCompletion { callback: 2, result: by_read_index(12, 1, 5) },
        ]
    );
    assert_eq!(store.get_safe_ts(REGION), 12);
}

#[test]
fn batch_turns_away_stale_answers_first() {
    let mut store = follower(2);
    read(&mut store, 2, b"k1", 10, 1).unwrap();
    assert!(store.on_read_index_response(REGION, 0, 1, 5).len() == 1);
    read(&mut store, 2, b"k1", 20, 2).unwrap();
    assert!(store.on_read_index_response(REGION, 1, 1, 9).is_empty());
    read(&mut store, 2, b"k1", 30, 3).unwrap();
    // The round of read 3 is answered for another term; read 2 waits for
    // index 9, which the batch does not bring.
    let batch = [ConsensusMessage::ReadIndexResponse { request_id: 2, term: 7, commit_index: 9 }];
    let ended = store.on_messages(REGION, &batch);
    assert_eq!(ended, vec![ReadCompletion { callback: 3, result: Err(ReadError::StaleCommand) }]);
    assert_eq!(store.pending_reads(REGION), 1);
}

#[test]
fn messages_without_bearing_on_reads_change_nothing() {
    let mut store = follower(2);
    read(&mut store, 2, b"k1", 10, 1).unwrap();
    let before = store.region_state(REGION);
    let batch = [
        ConsensusMessage::ReadIndex,
        ConsensusMessage::Heartbeat,
        ConsensusMessage::HeartbeatResponse,
        ConsensusMessage::AppendResponse,
        ConsensusMessage::TransferLeader,
        ConsensusMessage::TimeoutNow,
        ConsensusMessage::Vote,
        ConsensusMessage::PreVote,
    ];
    assert!(store.on_messages(REGION, &batch).is_empty());
    assert!(store.on_messages(REGION, &[]).is_empty());
    assert!(store.on_messages(REGION + 1, &batch).is_empty());
    assert_eq!(store.region_state(REGION), before);
    assert_eq!(store.pending_reads(REGION), 1);
    assert_eq!(store.get_safe_ts(REGION), 0);
}

#[test]
fn read_within_safe_ts_skips_round_and_lock_table() {
    let mut store = follower(2);
    read_through_round(&mut store, 2, b"k1", 30);
    assert_eq!(store.get_safe_ts(REGION), 30);
    // A lock of a transaction that started after everything the store has
    // seen does not concern a read at or below the safe timestamp.
    store.acquire_lock(lock_on(b"k1", 31));
    for ts in [0u64, 29, 30] {
        let hit = Ok(ReadProgress::Ready(Snapshot {
            region_id: REGION,
            read_timestamp: ts,
            source: ReadSource::Cache,
        }));
        assert_eq!(read(&mut store, 2, b"k1", ts, 1), hit);
    }
    assert_eq!(store.pending_reads(REGION), 0);
    assert_eq!(store.max_ts(), 30);
}

#[test]
fn membership_change_moves_the_epoch_and_disturbs_no_read() {
    let mut store = follower(2);
    read_through_round(&mut store, 2, b"k1", 10);
    read(&mut store, 2, b"k1", 20, 1).unwrap();
    let changed = RegionEpoch { version: 1, conf_version: 2 };
    assert!(!store.on_conf_change(REGION, EPOCH));
    assert!(!store.on_conf_change(REGION + 1, changed));
    assert!(store.on_conf_change(REGION, changed));
    assert!(!store.on_conf_change(REGION, changed));
    assert_eq!(store.region_state(REGION).unwrap().epoch, changed);
    assert_eq!(store.get_safe_ts(REGION), 10);
    assert_eq!(store.pending_reads(REGION), 1);
    // The read that waits still ends; new reads need the new epoch.
    let ended = store.on_read_index_response(REGION, 1, 1, 5);
    assert_eq!(ended, vec![ReadCompletion { callback: 1, result: by_read_index(20, 1, 5) }]);
    assert_eq!(
        read(&mut store, 2, b"k1", 5, 2),
        Err(ReadError::EpochNotMatch { current_epoch: changed })
    );
    assert!(store.serve_read(REGION, 2, changed, key(b"k1"), 5, false, 2, 0).is_ok());
}

#[test]
fn epoch_is_newer_when_no_counter_is_behind_and_one_is_ahead() {
    let base = RegionEpoch { version: 3, conf_version: 3 };
    assert!(RegionEpoch { version: 4, conf_version: 3 }.is_newer_than(&base));
    assert!(RegionEpoch { version: 3, conf_version: 4 }.is_newer_than(&base));
    assert!(RegionEpoch { version: 4, conf_version: 4 }.is_newer_than(&base));
    assert!(!base.is_newer_than(&base));
    assert!(!RegionEpoch { version: 4, conf_version: 2 }.is_newer_than(&base));
    assert!(!RegionEpoch { version: 2, conf_version: 4 }.is_newer_than(&base));
    assert!(!RegionEpoch { version: 2, conf_version: 3 }.is_newer_than(&base));
}

#[test]
fn cache_answers_for_the_region_but_locks_are_checked_for_the_keys_asked() {
    let mut store = follower(2);
    store.acquire_lock(lock_on(b"k2", 5));
    // The read of k1 does not meet the lock on k2 and raises the safe
    // timestamp of the region.
    let ended = read_through_round(&mut store, 2, b"k1", 10);
    assert_eq!(ended[0].result, by_read_index(10, 1, 5));
    assert_eq!(store.get_safe_ts(REGION), 10);
    // From then on a read of k2 at that timestamp is answered from the
    // cache, lock or no lock.
    let hit = Ok(ReadProgress::Ready(Snapshot {
        region_id: REGION,
        read_timestamp: 10,
        source: ReadSource::Cache,
    }));
    assert_eq!(read(&mut store, 2, b"k2", 10, 1), hit);

    // A read that asks for a range meets every lock in the range, so a
    // caller who reads by ranges that span the region is safe.
    let mut store = follower(2);
    store.acquire_lock(lock_on(b"k2", 5));
    let whole = KeyOrRange::Range { start: Vec::new(), end: Vec::new() };
    store.serve_read(REGION, 2, EPOCH, whole, 10, false, 1, 0).unwrap();
    let ended = store.on_read_index_response(REGION, 0, 1, 5);
    assert_eq!(ended[0].result, Err(ReadError::KeyIsLocked { lock_info: lock_on(b"k2", 5) }));
    assert_eq!(store.get_safe_ts(REGION), 0);
}
