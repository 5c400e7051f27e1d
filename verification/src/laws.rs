//! What holds of every store, whatever happens to it.

use vstd::prelude::*;
use crate::concurrency::{
    blocking_lock, keyed_by_own_key, lemma_blocking_lock_none, lock_free, LockMap,
};
use crate::error::ReadErrorView;
use crate::history::{answered, answering_region, resets, run, served, step, Event};
use crate::lock::KeyOrRangeView;
use crate::model::{
    later, lemma_receive_all_keeps, lemma_without_regions, observed, read_result, validated,
    without_regions, DispatcherView, ReadProgress, ReadSource, Snapshot,
};
use crate::read_index::{
    committed, is_applied, is_not_applied, CommittedReadView, CoordinatorView,
    ReadIndexRequestView, ReadWaiterView,
};
use crate::region::{PeerPhase, RegionEpoch};
use crate::safe_ts::{advanced, safe_ts};

verus! {

/// Answering reads lowers no safe timestamp, and raises none but that of
/// the region whose reads are answered.
pub proof fn lemma_validated_raises(
    locks: LockMap,
    cache: Map<u64, u64>,
    region_id: u64,
    reads: Seq<CommittedReadView>,
)
    ensures
        forall|r: u64| #[trigger]
            safe_ts(validated(locks, cache, region_id, reads), r) >= safe_ts(cache, r),
        forall|r: u64|
            r != region_id ==> #[trigger] safe_ts(validated(locks, cache, region_id, reads), r)
                == safe_ts(cache, r),
    decreases reads.len(),
{
    if reads.len() > 0 {
        lemma_validated_raises(locks, cache, region_id, reads.drop_last());
        let before = validated(locks, cache, region_id, reads.drop_last());
        assert forall|r: u64| #[trigger]
            safe_ts(validated(locks, cache, region_id, reads), r) >= safe_ts(cache, r) by {
            assert(safe_ts(before, r) >= safe_ts(cache, r));
        }
        assert forall|r: u64| r != region_id implies #[trigger] safe_ts(
            validated(locks, cache, region_id, reads),
            r,
        ) == safe_ts(cache, r) by {
            assert(safe_ts(before, r) == safe_ts(cache, r));
        }
    }
}

/// The highest timestamp among `reads`, zero if there are none.
pub open spec fn highest_read(reads: Seq<CommittedReadView>) -> u64
    decreases reads.len(),
{
    if reads.len() == 0 {
        0
    } else {
        later(highest_read(reads.drop_last()), reads.last().waiter.read_timestamp)
    }
}

/// The highest timestamp among those of `reads` that no lock of `locks`
/// blocks, zero if there are none.
pub open spec fn highest_unblocked_read(locks: LockMap, reads: Seq<CommittedReadView>) -> u64
    decreases reads.len(),
{
    if reads.len() == 0 {
        0
    } else {
        let read = reads.last().waiter;
        let before = highest_unblocked_read(locks, reads.drop_last());
        if blocking_lock(locks, read.keys, read.read_timestamp) is None {
            later(before, read.read_timestamp)
        } else {
            before
        }
    }
}

/// What answering reads comes to: the store has seen the highest of their
/// timestamps, and the safe timestamp of their region has risen to the
/// highest timestamp among the reads that no lock blocks, if it was below.
pub proof fn lemma_answering_reads_in_sum(
    locks: LockMap,
    cache: Map<u64, u64>,
    max_ts: u64,
    region_id: u64,
    reads: Seq<CommittedReadView>,
)
    ensures
        observed(max_ts, reads) == later(max_ts, highest_read(reads)),
        safe_ts(validated(locks, cache, region_id, reads), region_id) == later(
            safe_ts(cache, region_id),
            highest_unblocked_read(locks, reads),
        ),
        highest_unblocked_read(locks, reads) <= highest_read(reads),
    decreases reads.len(),
{
    if reads.len() > 0 {
        lemma_answering_reads_in_sum(locks, cache, max_ts, region_id, reads.drop_last());
    }
}

/// Answering reads raises no safe timestamp beyond the highest timestamp
/// that the store has seen by then.
pub proof fn lemma_validated_bounded(
    locks: LockMap,
    cache: Map<u64, u64>,
    region_id: u64,
    reads: Seq<CommittedReadView>,
    max_ts: u64,
)
    requires
        forall|r: u64| #[trigger] safe_ts(cache, r) <= max_ts,
    ensures
        observed(max_ts, reads) >= max_ts,
        forall|r: u64| #[trigger]
            safe_ts(validated(locks, cache, region_id, reads), r) <= observed(max_ts, reads),
    decreases reads.len(),
{
    if reads.len() > 0 {
        lemma_validated_bounded(locks, cache, region_id, reads.drop_last(), max_ts);
        let before = validated(locks, cache, region_id, reads.drop_last());
        assert forall|r: u64| #[trigger]
            safe_ts(validated(locks, cache, region_id, reads), r) <= observed(max_ts, reads) by {
            assert(safe_ts(before, r) <= observed(max_ts, reads.drop_last()));
        }
    }
}

/// An event that does not reset the safe timestamp of a region does not
/// lower it.
pub proof fn lemma_step_keeps_safe_ts(v: DispatcherView, event: Event, region: u64)
    requires
        !resets(v, event, region),
    ensures
        step(v, event).safe_ts_of(region) >= v.safe_ts_of(region),
{
    reveal(step);
    match event {
        Event::ReadIndexResponse { region_id, request_id, term, commit_index } => {
            let mid = v.respond(region_id, request_id, term, commit_index);
            lemma_validated_raises(mid.locks, mid.safe_ts, region_id, mid.answerable(region_id));
        },
        Event::Messages { region_id, batch } => {
            let mid = v.receive_all(region_id, batch);
            lemma_receive_all_keeps(v, region_id, batch);
            lemma_validated_raises(mid.locks, mid.safe_ts, region_id, mid.answerable(region_id));
        },
        Event::Applied { region_id, applied_index } => {
            let mid = v.applied(region_id, applied_index);
            lemma_validated_raises(mid.locks, mid.safe_ts, region_id, mid.answerable(region_id));
        },
        Event::SnapshotApplied { region_id, snapshot_index } => {
            let mid = v.snapshot_applied(region_id, snapshot_index);
            lemma_validated_raises(mid.locks, mid.safe_ts, region_id, mid.answerable(region_id));
        },
        Event::Split { region_id, epoch, children } => {
            lemma_without_regions(v.safe_ts.remove(region_id), children);
        },
        _ => {},
    }
}

/// Safe timestamps only rise: of the values that the safe timestamp of a
/// region takes in the course of a history, a later one is not below an
/// earlier one, unless an event between the two reset it.
pub proof fn lemma_safe_ts_is_monotone(
    v: DispatcherView,
    events: Seq<Event>,
    region: u64,
    earlier: int,
    later: int,
)
    requires
        0 <= earlier <= later <= events.len(),
        forall|k: int|
            earlier <= k < later ==> !resets(run(v, events.take(k)), #[trigger] events[k], region),
    ensures
        run(v, events.take(earlier)).safe_ts_of(region) <= run(v, events.take(later)).safe_ts_of(
            region,
        ),
    decreases later - earlier,
{
    if earlier < later {
        lemma_safe_ts_is_monotone(v, events, region, earlier, later - 1);
        assert(events.take(later).drop_last() =~= events.take(later - 1));
        assert(events.take(later).last() == events[later - 1]);
        lemma_step_keeps_safe_ts(run(v, events.take(later - 1)), events[later - 1], region);
    }
}

/// True when each lock of the store is filed under its own key and there
/// are finitely many: what holds of the lock table of every dispatcher.
pub open spec fn lock_table_in_order(v: DispatcherView) -> bool {
    keyed_by_own_key(v.locks) && v.locks.dom().finite()
}

/// True when no transaction that started at or before the safe timestamp of
/// `region` holds a lock on one of `keys`.
pub open spec fn guarded(v: DispatcherView, region: u64, keys: KeyOrRangeView) -> bool {
    lock_free(v.locks, keys, v.safe_ts_of(region))
}

/// True when the read `read` asks for all of `keys`, or a lock of `locks`
/// blocks it.
pub open spec fn covers_or_blocked(locks: LockMap, read: CommittedReadView, keys: KeyOrRangeView) -> bool {
    blocking_lock(locks, read.waiter.keys, read.waiter.read_timestamp) is None
        ==> read.waiter.keys.covers(keys)
}

/// True when `event`, reaching the store `v`, keeps to the two rules on
/// which the safety of reading `keys` of `region` from the cache rests.
///
/// A transaction that acquires a lock on one of the keys has started after
/// every timestamp that the store has seen: timestamps are handed out in
/// rising order, and the store sees each before it is used. And a read of
/// the region that is answered after a read-index round, and that no lock
/// blocks, has asked for all of the keys: the lock table is searched for
/// the keys that a read asks for, not for the whole region.
pub open spec fn keeps_rules(
    v: DispatcherView,
    event: Event,
    region: u64,
    keys: KeyOrRangeView,
) -> bool {
    match event {
        Event::Acquire { lock } => keys.contains(lock.key) ==> lock.start_ts > v.max_ts,
        _ => answering_region(event) == Some(region) ==> forall|i: int|
            0 <= i < answered(v, event).len() ==> covers_or_blocked(
                v.locks,
                #[trigger] answered(v, event)[i],
                keys,
            ),
    }
}

/// Where no lock stands in the way of a read at a timestamp, none stands
/// in the way of a read of the same keys at an earlier one.
pub proof fn lemma_lock_free_earlier(locks: LockMap, keys: KeyOrRangeView, ts: u64, earlier: u64)
    requires
        lock_free(locks, keys, ts),
        earlier <= ts,
    ensures
        lock_free(locks, keys, earlier),
{
    assert forall|k: Seq<u8>| #[trigger] locks.contains_key(k) implies !locks[k].blocks(
        keys,
        earlier,
    ) by {
        assert(!locks[k].blocks(keys, ts));
    }
}

/// Answering reads, of which those that no lock blocks ask for all of
/// `keys`, raises the safe timestamp of their region to no timestamp at
/// which a lock stands in the way of a read of `keys`.
pub proof fn lemma_validated_guarded(
    locks: LockMap,
    cache: Map<u64, u64>,
    region_id: u64,
    reads: Seq<CommittedReadView>,
    keys: KeyOrRangeView,
)
    requires
        keyed_by_own_key(locks),
        locks.dom().finite(),
        lock_free(locks, keys, safe_ts(cache, region_id)),
        forall|i: int| 0 <= i < reads.len() ==> covers_or_blocked(locks, #[trigger] reads[i], keys),
    ensures
        lock_free(locks, keys, safe_ts(validated(locks, cache, region_id, reads), region_id)),
    decreases reads.len(),
{
    if reads.len() > 0 {
        let front = reads.drop_last();
        assert forall|i: int| 0 <= i < front.len() implies covers_or_blocked(
            locks,
            #[trigger] front[i],
            keys,
        ) by {
            assert(front[i] == reads[i]);
        }
        lemma_validated_guarded(locks, cache, region_id, front, keys);
        let read = reads.last().waiter;
        assert(reads[reads.len() - 1] == reads.last());
        if blocking_lock(locks, read.keys, read.read_timestamp) is None {
            assert(covers_or_blocked(locks, reads[reads.len() - 1], keys));
            lemma_blocking_lock_none(locks, read.keys, read.read_timestamp);
            assert forall|k: Seq<u8>| #[trigger] locks.contains_key(k) implies !locks[k].blocks(
                keys,
                read.read_timestamp,
            ) by {
                assert(!locks[k].blocks(read.keys, read.read_timestamp));
                if keys.contains(locks[k].key) {
                    assert(read.keys.contains(locks[k].key));
                }
            }
        }
    }
}

/// An event that keeps to the rules leaves the keys guarded, no safe
/// timestamp beyond the highest timestamp that the store has seen, and the
/// lock table in order.
pub proof fn lemma_step_keeps_guard(
    v: DispatcherView,
    event: Event,
    region: u64,
    keys: KeyOrRangeView,
)
    requires
        lock_table_in_order(v),
        v.bounded(),
        guarded(v, region, keys),
        keeps_rules(v, event, region, keys),
    ensures
        lock_table_in_order(step(v, event)),
        step(v, event).bounded(),
        guarded(step(v, event), region, keys),
{
    reveal(step);
    let w = step(v, event);
    match event {
        Event::Acquire { lock } => {
            assert(w.locks.dom() =~= v.locks.dom().insert(lock.key));
            assert(safe_ts(v.safe_ts, region) <= v.max_ts);
            assert forall|k: Seq<u8>| #[trigger] w.locks.contains_key(k) implies !w.locks[k].blocks(
                keys,
                w.safe_ts_of(region),
            ) by {
                if k != lock.key {
                    assert(v.locks.contains_key(k));
                }
            }
            assert forall|k: Seq<u8>| #[trigger] w.locks.contains_key(k) implies w.locks[k].key
                == k by {
                if k != lock.key {
                    assert(v.locks.contains_key(k));
                }
            }
        },
        Event::Release { key } => {
            assert(w.locks.dom() =~= v.locks.dom().remove(key));
            assert forall|k: Seq<u8>| #[trigger] w.locks.contains_key(k) implies !w.locks[k].blocks(
                keys,
                w.safe_ts_of(region),
            ) by {
                assert(v.locks.contains_key(k));
            }
            assert forall|k: Seq<u8>| #[trigger] w.locks.contains_key(k) implies w.locks[k].key
                == k by {
                assert(v.locks.contains_key(k));
            }
        },
        Event::ReadIndexResponse { region_id, request_id, term, commit_index } => {
            let mid = v.respond(region_id, request_id, term, commit_index);
            assert(mid.locks == v.locks);
            assert(answered(v, event) == mid.answerable(region_id));
            lemma_answer_keeps_guard(mid, region_id, region, keys);
        },
        Event::Messages { region_id, batch } => {
            let mid = v.receive_all(region_id, batch);
            lemma_receive_all_keeps(v, region_id, batch);
            assert(answered(v, event) == mid.answerable(region_id));
            lemma_answer_keeps_guard(mid, region_id, region, keys);
        },
        Event::Applied { region_id, applied_index } => {
            let mid = v.applied(region_id, applied_index);
            assert(mid.locks == v.locks);
            assert(answered(v, event) == mid.answerable(region_id));
            lemma_answer_keeps_guard(mid, region_id, region, keys);
        },
        Event::SnapshotApplied { region_id, snapshot_index } => {
            let mid = v.snapshot_applied(region_id, snapshot_index);
            assert(mid.locks == v.locks);
            assert(answered(v, event) == mid.answerable(region_id));
            lemma_answer_keeps_guard(mid, region_id, region, keys);
        },
        Event::Split { region_id, epoch, children } => {
            lemma_without_regions(v.safe_ts.remove(region_id), children);
            lemma_lowered_keeps_guard(v, w, region, keys);
        },
        _ => {
            lemma_lowered_keeps_guard(v, w, region, keys);
        },
    }
}

/// A store whose locks are those of a guarded store, which has seen no
/// less, and whose safe timestamps are no higher, is guarded too.
proof fn lemma_lowered_keeps_guard(
    v: DispatcherView,
    w: DispatcherView,
    region: u64,
    keys: KeyOrRangeView,
)
    requires
        v.bounded(),
        guarded(v, region, keys),
        w.locks == v.locks,
        w.max_ts >= v.max_ts,
        forall|r: u64| #[trigger] safe_ts(w.safe_ts, r) <= safe_ts(v.safe_ts, r),
    ensures
        w.bounded(),
        guarded(w, region, keys),
{
    assert forall|r: u64| #[trigger] safe_ts(w.safe_ts, r) <= w.max_ts by {
        assert(safe_ts(v.safe_ts, r) <= v.max_ts);
    }
    assert(safe_ts(w.safe_ts, region) <= safe_ts(v.safe_ts, region));
    lemma_lock_free_earlier(v.locks, keys, v.safe_ts_of(region), w.safe_ts_of(region));
}

/// Answering the reads of `answering` that may be answered keeps `keys` of
/// `region` guarded, if every one of those reads that no lock blocks asks
/// for all of the keys, or the two regions differ.
proof fn lemma_answer_keeps_guard(
    mid: DispatcherView,
    answering: u64,
    region: u64,
    keys: KeyOrRangeView,
)
    requires
        lock_table_in_order(mid),
        mid.bounded(),
        guarded(mid, region, keys),
        answering == region ==> forall|i: int|
            0 <= i < mid.answerable(answering).len() ==> covers_or_blocked(
                mid.locks,
                #[trigger] mid.answerable(answering)[i],
                keys,
            ),
    ensures
        lock_table_in_order(mid.answer(answering)),
        mid.answer(answering).bounded(),
        guarded(mid.answer(answering), region, keys),
{
    let reads = mid.answerable(answering);
    lemma_validated_bounded(mid.locks, mid.safe_ts, answering, reads, mid.max_ts);
    lemma_validated_raises(mid.locks, mid.safe_ts, answering, reads);
    if answering == region {
        lemma_validated_guarded(mid.locks, mid.safe_ts, answering, reads, keys);
    }
}

/// The cache can be trusted: in a history that keeps to the rules, `keys`
/// of `region` stay guarded. Whenever the safe timestamp of the region has
/// reached a timestamp, no transaction that started at or before that
/// timestamp holds a lock on one of the keys, so that a read of the keys
/// at that timestamp, answered from the cache without a look at the lock
/// table, meets no lock that it would have had to wait for.
pub proof fn lemma_cache_is_sound(
    v: DispatcherView,
    events: Seq<Event>,
    region: u64,
    keys: KeyOrRangeView,
)
    requires
        lock_table_in_order(v),
        v.bounded(),
        guarded(v, region, keys),
        forall|k: int|
            0 <= k < events.len() ==> keeps_rules(
                run(v, events.take(k)),
                #[trigger] events[k],
                region,
                keys,
            ),
    ensures
        lock_table_in_order(run(v, events)),
        run(v, events).bounded(),
        guarded(run(v, events), region, keys),
        forall|t: u64|
            t <= run(v, events).safe_ts_of(region) ==> #[trigger] lock_free(
                run(v, events).locks,
                keys,
                t,
            ),
    decreases events.len(),
{
    if events.len() > 0 {
        let front = events.drop_last();
        assert forall|k: int| 0 <= k < front.len() implies keeps_rules(
            run(v, front.take(k)),
            #[trigger] front[k],
            region,
            keys,
        ) by {
            assert(front.take(k) =~= events.take(k));
            assert(front[k] == events[k]);
        }
        lemma_cache_is_sound(v, front, region, keys);
        assert(events.take(events.len() - 1) =~= front);
        assert(events[events.len() - 1] == events.last());
        lemma_step_keeps_guard(run(v, front), events.last(), region, keys);
    }
    let w = run(v, events);
    assert forall|t: u64| t <= w.safe_ts_of(region) implies #[trigger] lock_free(
        w.locks,
        keys,
        t,
    ) by {
        lemma_lock_free_earlier(w.locks, keys, w.safe_ts_of(region), t);
    }
}

/// A store that holds nothing is in order, and all keys of all regions are
/// guarded in it.
pub proof fn lemma_empty_store_is_guarded(region: u64, keys: KeyOrRangeView)
    ensures
        lock_table_in_order(DispatcherView::empty()),
        DispatcherView::empty().bounded(),
        guarded(DispatcherView::empty(), region, keys),
{
    assert(DispatcherView::empty().locks.dom() =~= Set::<Seq<u8>>::empty());
}

/// Once a region is split, its safe timestamp and the safe timestamp of
/// each child are zero, whatever that of the region was.
pub proof fn lemma_split_resets(
    v: DispatcherView,
    region_id: u64,
    epoch: RegionEpoch,
    children: Seq<u64>,
)
    requires
        v.epoch_moves(region_id, epoch),
    ensures
        v.split(region_id, epoch, children).safe_ts_of(region_id) == 0,
        forall|i: int|
            0 <= i < children.len() ==> v.split(region_id, epoch, children).safe_ts_of(
                #[trigger] children[i],
            ) == 0,
{
    lemma_without_regions(v.safe_ts.remove(region_id), children);
    assert forall|i: int| 0 <= i < children.len() implies v.split(
        region_id,
        epoch,
        children,
    ).safe_ts_of(#[trigger] children[i]) == 0 by {
        assert(children.contains(children[i]));
    }
    if !children.contains(region_id) {
        assert(safe_ts(without_regions(v.safe_ts.remove(region_id), children), region_id)
            == safe_ts(v.safe_ts.remove(region_id), region_id));
    }
}

/// Once a region is merged into another, the safe timestamps of both are
/// zero, whatever they were.
pub proof fn lemma_merge_resets(
    v: DispatcherView,
    source_id: u64,
    target_id: u64,
    epoch: RegionEpoch,
)
    requires
        v.merges(source_id, target_id, epoch),
    ensures
        v.merge(source_id, target_id, epoch).safe_ts_of(target_id) == 0,
        v.merge(source_id, target_id, epoch).safe_ts_of(source_id) == 0,
{
}

/// After an event that resets the safe timestamp of a region, that safe
/// timestamp is zero: so for a replica that has just been created or has
/// just become leader, and for a region that was split or merged.
pub proof fn lemma_reset_leaves_zero(v: DispatcherView, event: Event, region: u64)
    requires
        resets(v, event, region),
    ensures
        step(v, event).safe_ts_of(region) == 0,
{
    reveal(step);
    match event {
        Event::Split { region_id, epoch, children } => {
            lemma_split_resets(v, region_id, epoch, children);
            if children.contains(region) {
                let i = choose|i: int| 0 <= i < children.len() && children[i] == region;
                assert(step(v, event).safe_ts_of(children[i]) == 0);
            }
        },
        _ => {},
    }
}

/// True when `event` is the arrival of a read of `region` that has to wait
/// for a read-index round in the store `v`.
pub open spec fn is_waiting_read(v: DispatcherView, event: Event, region: u64) -> bool {
    &&& event matches Event::ServeRead { region_id, .. }
    &&& region_id == region
    &&& served(v, event) matches Some(Ok(ReadProgress::Waiting { .. }))
}

/// The read that arrives with `event`, as the coordinator keeps it.
pub open spec fn waiter_of(event: Event) -> ReadWaiterView {
    match event {
        Event::ServeRead { keys, read_timestamp, callback, .. } => ReadWaiterView {
            callback,
            keys,
            read_timestamp,
        },
        _ => arbitrary(),
    }
}

/// The highest timestamp among `waiters`.
pub open spec fn highest_timestamp(waiters: Seq<ReadWaiterView>) -> u64
    decreases waiters.len(),
{
    if waiters.len() == 0 {
        0
    } else {
        later(highest_timestamp(waiters.drop_last()), waiters.last().read_timestamp)
    }
}

/// A read that has to wait changes nothing in the store but the round in
/// flight for its replica: it joins the round, or a round is issued for
/// it.
pub proof fn lemma_waiting_read_joins_round(v: DispatcherView, event: Event, region: u64)
    requires
        is_waiting_read(v, event, region),
    ensures
        v.peers.contains_key(region),
        served(v, event) == Some(
            Ok::<ReadProgress, ReadErrorView>(
                ReadProgress::Waiting { propose: v.peers[region].coordinator.round_to_issue() },
            ),
        ),
        step(v, event) == v.with_coordinator(
            region,
            v.peers[region].coordinator.enqueue(v.peers[region].state.term, waiter_of(event)),
        ),
{
    reveal(step);
    match event {
        Event::ServeRead {
            region_id,
            peer_id,
            epoch,
            keys,
            read_timestamp,
            allow_stale,
            callback,
            now,
        } => {
            let result = v.serve_result(
                region_id,
                peer_id,
                epoch,
                keys,
                read_timestamp,
                allow_stale,
                now,
            );
            assert(result is Ok);
            assert(v.peers.contains_key(region));
            assert(v.peers[region].state.refusal(peer_id, epoch) is None);
            if v.serves_by_lease(region_id, allow_stale, now) {
                assert(!(result matches Ok(ReadProgress::Waiting { .. })));
            }
        },
        _ => {},
    }
}

/// The round that is in flight after the reads `waiters` arrived in `term`
/// while none was in flight, the first of them making the coordinator
/// issue the round `request_id`.
pub open spec fn shared_round(request_id: u64, term: u64, waiters: Seq<ReadWaiterView>) -> ReadIndexRequestView {
    ReadIndexRequestView {
        request_id,
        term,
        read_timestamp: highest_timestamp(waiters),
        waiters,
    }
}

/// The reads that arrive with `events`, as the coordinator keeps them.
pub open spec fn waiters_of(events: Seq<Event>) -> Seq<ReadWaiterView> {
    events.map_values(|e: Event| waiter_of(e))
}

/// The coordinator after the reads `waiters` arrived in `term`, in order.
pub open spec fn enqueue_all(c: CoordinatorView, term: u64, waiters: Seq<ReadWaiterView>) -> CoordinatorView
    decreases waiters.len(),
{
    if waiters.len() == 0 {
        c
    } else {
        enqueue_all(c, term, waiters.drop_last()).enqueue(term, waiters.last())
    }
}

/// Reads that arrive while no round is in flight share the round that is
/// issued for the first of them.
pub proof fn lemma_enqueue_all_shares_round(c: CoordinatorView, term: u64, waiters: Seq<ReadWaiterView>)
    requires
        c.in_flight is None,
        waiters.len() > 0,
    ensures
        enqueue_all(c, term, waiters) == (CoordinatorView {
            next_request_id: c.enqueue(term, waiters[0]).next_request_id,
            in_flight: Some(shared_round(c.next_request_id, term, waiters)),
            awaiting_apply: c.awaiting_apply,
        }),
        enqueue_all(c, term, waiters).round_to_issue() is None,
    decreases waiters.len(),
{
    let front = waiters.drop_last();
    if waiters.len() == 1 {
        assert(front =~= Seq::<ReadWaiterView>::empty());
        assert(enqueue_all(c, term, front) == c);
        assert(waiters =~= seq![waiters.last()]);
        assert(highest_timestamp(front) == 0);
    } else {
        lemma_enqueue_all_shares_round(c, term, front);
        assert(front[0] == waiters[0]);
        assert(front.push(waiters.last()) =~= waiters);
    }
}

/// Reads that have to wait, arriving one after another with nothing in
/// between, leave the store as it was but for the coordinator of their
/// replica, which has taken them in.
pub proof fn lemma_waiting_reads_enqueue(v: DispatcherView, events: Seq<Event>, region: u64)
    requires
        v.peers.contains_key(region),
        forall|k: int|
            0 <= k < events.len() ==> is_waiting_read(
                run(v, events.take(k)),
                #[trigger] events[k],
                region,
            ),
    ensures
        run(v, events) == v.with_coordinator(
            region,
            enqueue_all(
                v.peers[region].coordinator,
                v.peers[region].state.term,
                waiters_of(events),
            ),
        ),
    decreases events.len(),
{
    let c = v.peers[region].coordinator;
    let term = v.peers[region].state.term;
    if events.len() == 0 {
        assert(v.with_coordinator(region, c).peers =~= v.peers);
    } else {
        let front = events.drop_last();
        let last = events.last();
        assert(events[events.len() - 1] == last);
        assert(events.take(events.len() - 1) =~= front);
        assert forall|k: int| 0 <= k < front.len() implies is_waiting_read(
            run(v, front.take(k)),
            #[trigger] front[k],
            region,
        ) by {
            assert(front.take(k) =~= events.take(k));
            assert(front[k] == events[k]);
        }
        lemma_waiting_reads_enqueue(v, front, region);
        let mid = run(v, front);
        let mid_c = enqueue_all(c, term, waiters_of(front));
        assert(mid == v.with_coordinator(region, mid_c));
        assert(is_waiting_read(mid, last, region));
        lemma_waiting_read_joins_round(mid, last, region);
        assert(waiters_of(events).drop_last() =~= waiters_of(front));
        assert(waiters_of(events).last() == waiter_of(last));
        let grown = mid_c.enqueue(term, waiter_of(last));
        assert(enqueue_all(c, term, waiters_of(events)) == grown);
        assert(mid.with_coordinator(region, grown).peers =~= v.with_coordinator(
            region,
            grown,
        ).peers);
    }
}

/// Reads of one region that arrive one after another, each of which has
/// to wait, while no round is in flight when the first arrives and nothing
/// else happens in between, make the store issue exactly one read-index
/// round. The first read is told to propose it; the
/// others are told to propose nothing. All of them wait for that round, in
/// the order in which they arrived, and nothing else in the store has
/// changed.
pub proof fn lemma_concurrent_reads_share_one_round(
    v: DispatcherView,
    events: Seq<Event>,
    region: u64,
)
    requires
        events.len() > 0,
        v.peers.contains_key(region),
        v.peers[region].coordinator.in_flight is None,
        forall|k: int|
            0 <= k < events.len() ==> is_waiting_read(
                run(v, events.take(k)),
                #[trigger] events[k],
                region,
            ),
    ensures
        served(v, events[0]) == Some(
            Ok::<ReadProgress, ReadErrorView>(
                ReadProgress::Waiting {
                    propose: Some(v.peers[region].coordinator.next_request_id),
                },
            ),
        ),
        forall|k: int|
            0 < k < events.len() ==> served(run(v, events.take(k)), #[trigger] events[k]) == Some(
                Ok::<ReadProgress, ReadErrorView>(ReadProgress::Waiting { propose: None }),
            ),
        run(v, events) == v.with_coordinator(
            region,
            CoordinatorView {
                next_request_id: v.peers[region].coordinator.enqueue(
                    v.peers[region].state.term,
                    waiter_of(events[0]),
                ).next_request_id,
                in_flight: Some(
                    shared_round(
                        v.peers[region].coordinator.next_request_id,
                        v.peers[region].state.term,
                        waiters_of(events),
                    ),
                ),
                awaiting_apply: v.peers[region].coordinator.awaiting_apply,
            },
        ),
{
    let c = v.peers[region].coordinator;
    let term = v.peers[region].state.term;
    assert(events.take(0) =~= Seq::<Event>::empty());
    assert(run(v, events.take(0)) == v);
    assert(is_waiting_read(run(v, events.take(0)), events[0], region));
    lemma_waiting_read_joins_round(v, events[0], region);
    lemma_waiting_reads_enqueue(v, events, region);
    lemma_enqueue_all_shares_round(c, term, waiters_of(events));
    assert forall|k: int| 0 < k < events.len() implies served(
        run(v, events.take(k)),
        #[trigger] events[k],
    ) == Some(Ok::<ReadProgress, ReadErrorView>(ReadProgress::Waiting { propose: None })) by {
        let before = events.take(k);
        assert forall|j: int| 0 <= j < before.len() implies is_waiting_read(
            run(v, before.take(j)),
            #[trigger] before[j],
            region,
        ) by {
            assert(before.take(j) =~= events.take(j));
            assert(before[j] == events[j]);
        }
        lemma_waiting_reads_enqueue(v, before, region);
        lemma_enqueue_all_shares_round(c, term, waiters_of(before));
        let mid = run(v, before);
        assert(mid.peers[region].coordinator == enqueue_all(c, term, waiters_of(before)));
        assert(is_waiting_read(mid, events[k], region));
        lemma_waiting_read_joins_round(mid, events[k], region);
    }
}

/// Every read of a sequence of reads with one answer is applied once the
/// replica has applied the log up to the commit index of the answer.
proof fn lemma_committed_all_applied(
    waiters: Seq<ReadWaiterView>,
    term: u64,
    commit_index: u64,
    applied_index: u64,
)
    requires
        commit_index <= applied_index,
    ensures
        committed(waiters, term, commit_index).filter(is_applied(applied_index)) == committed(
            waiters,
            term,
            commit_index,
        ),
        committed(waiters, term, commit_index).filter(is_not_applied(applied_index)) == Seq::<
            CommittedReadView,
        >::empty(),
    decreases waiters.len(),
{
    reveal(Seq::filter);
    let all = committed(waiters, term, commit_index);
    if waiters.len() > 0 {
        lemma_committed_all_applied(waiters.drop_last(), term, commit_index, applied_index);
        assert(all.drop_last() =~= committed(waiters.drop_last(), term, commit_index));
        assert(all.drop_last().push(all.last()) =~= all);
    } else {
        assert(all =~= Seq::<CommittedReadView>::empty());
    }
}

/// No read of a sequence of reads with one answer is applied while the
/// replica has not applied the log up to the commit index of the answer.
proof fn lemma_committed_none_applied(
    waiters: Seq<ReadWaiterView>,
    term: u64,
    commit_index: u64,
    applied_index: u64,
)
    requires
        commit_index > applied_index,
    ensures
        committed(waiters, term, commit_index).filter(is_not_applied(applied_index)) == committed(
            waiters,
            term,
            commit_index,
        ),
        committed(waiters, term, commit_index).filter(is_applied(applied_index)) == Seq::<
            CommittedReadView,
        >::empty(),
    decreases waiters.len(),
{
    reveal(Seq::filter);
    let all = committed(waiters, term, commit_index);
    if waiters.len() > 0 {
        lemma_committed_none_applied(waiters.drop_last(), term, commit_index, applied_index);
        assert(all.drop_last() =~= committed(waiters.drop_last(), term, commit_index));
        assert(all.drop_last().push(all.last()) =~= all);
    } else {
        assert(all =~= Seq::<CommittedReadView>::empty());
    }
}

/// True when the round `request_id` is in flight for the coordinator `c`,
/// issued in `term`, and no other read waits.
pub open spec fn only_round(c: CoordinatorView, request_id: u64, term: u64) -> bool {
    &&& c.in_flight matches Some(round)
    &&& round.request_id == request_id
    &&& round.term == term
    &&& c.awaiting_apply.len() == 0
}

/// The answer for the term of the only round makes all its reads ready if
/// the log is applied up to its commit index, and none of them if not.
proof fn lemma_only_round_answered(
    c: CoordinatorView,
    request_id: u64,
    term: u64,
    commit_index: u64,
    applied_index: u64,
)
    requires
        only_round(c, request_id, term),
    ensures
        c.rejected_by(request_id, term) == Seq::<ReadWaiterView>::empty(),
        c.respond(request_id, term, commit_index).in_flight is None,
        c.respond(request_id, term, commit_index).awaiting_apply == committed(
            c.in_flight->0.waiters,
            term,
            commit_index,
        ),
        commit_index <= applied_index ==> {
            &&& c.respond(request_id, term, commit_index).ready(applied_index) == committed(
                c.in_flight->0.waiters,
                term,
                commit_index,
            )
            &&& c.respond(request_id, term, commit_index).without_ready(
                applied_index,
            ).all_waiters() == Seq::<ReadWaiterView>::empty()
        },
        commit_index > applied_index ==> {
            &&& c.respond(request_id, term, commit_index).ready(applied_index) == Seq::<
                CommittedReadView,
            >::empty()
            &&& c.respond(request_id, term, commit_index).without_ready(applied_index)
                == c.respond(request_id, term, commit_index)
        },
{
    let waiters = c.in_flight->0.waiters;
    let after = c.respond(request_id, term, commit_index);
    assert(c.awaiting_apply =~= Seq::<CommittedReadView>::empty());
    assert(c.awaiting_apply + committed(waiters, term, commit_index) =~= committed(
        waiters,
        term,
        commit_index,
    ));
    if commit_index <= applied_index {
        lemma_committed_all_applied(waiters, term, commit_index, applied_index);
        assert(after.without_ready(applied_index).all_waiters() =~= Seq::<ReadWaiterView>::empty());
    } else {
        lemma_committed_none_applied(waiters, term, commit_index, applied_index);
    }
}

/// True when, in the store `v`, the round `request_id` is in flight for
/// the replica of `region`, issued in `term`, and no other read of the
/// replica waits.
pub open spec fn only_round_in_flight(
    v: DispatcherView,
    region: u64,
    request_id: u64,
    term: u64,
) -> bool {
    v.peers.contains_key(region) && only_round(v.peers[region].coordinator, request_id, term)
}

/// One answer for all: when consensus answers the round in flight for the
/// term in which it was issued, and the replica has applied the log up to
/// the commit index of the answer and installs no snapshot, every read
/// that waited for the round ends at once, in the order of arrival. Each
/// ends with the first lock that blocks it or with the permission to read,
/// and every permission names the term and the commit index of the answer.
/// No read of the replica waits any longer.
pub proof fn lemma_answer_reaches_every_waiter(
    v: DispatcherView,
    region: u64,
    request_id: u64,
    term: u64,
    commit_index: u64,
)
    requires
        only_round_in_flight(v, region, request_id, term),
        v.peers[region].state.phase == PeerPhase::Normal,
        commit_index <= v.peers[region].state.applied_index,
    ensures
        ({
            let waiters = v.peers[region].coordinator.in_flight->0.waiters;
            let after = v.respond(region, request_id, term, commit_index);
            let ended = after.answers(region);
            &&& v.rejected_by(region, request_id, term).len() == 0
            &&& ended.len() == waiters.len()
            &&& forall|i: int|
                0 <= i < waiters.len() ==> {
                    &&& (#[trigger] ended[i]).callback == waiters[i].callback
                    &&& ended[i].result == read_result(
                        v.locks,
                        region,
                        CommittedReadView { waiter: waiters[i], term, commit_index },
                    )
                    &&& ended[i].result matches Ok(snapshot) ==> snapshot == (Snapshot {
                        region_id: region,
                        read_timestamp: waiters[i].read_timestamp,
                        source: ReadSource::ReadIndex { term, commit_index },
                    })
                }
            &&& after.answer(region).pending(region) == 0
        }),
{
    let c = v.peers[region].coordinator;
    let applied_index = v.peers[region].state.applied_index;
    lemma_only_round_answered(c, request_id, term, commit_index, applied_index);
    let after = v.respond(region, request_id, term, commit_index);
    assert(after.peers[region].coordinator == c.respond(request_id, term, commit_index));
    assert(after.peers[region].state == v.peers[region].state);
    assert(after.answerable(region) == committed(c.in_flight->0.waiters, term, commit_index));
    assert(after.answer(region).peers[region].coordinator == c.respond(
        request_id,
        term,
        commit_index,
    ).without_ready(applied_index));
}

/// Nothing before the log is applied: when consensus answers the round in
/// flight with a commit index that the replica has not applied yet, no
/// read ends. Every read that waited for the round goes on waiting, and
/// no safe timestamp changes.
pub proof fn lemma_unapplied_answer_ends_no_read(
    v: DispatcherView,
    region: u64,
    request_id: u64,
    term: u64,
    commit_index: u64,
)
    requires
        only_round_in_flight(v, region, request_id, term),
        commit_index > v.peers[region].state.applied_index,
    ensures
        ({
            let waiters = v.peers[region].coordinator.in_flight->0.waiters;
            let after = v.respond(region, request_id, term, commit_index);
            &&& v.rejected_by(region, request_id, term).len() == 0
            &&& after.answers(region).len() == 0
            &&& after.answer(region).peers[region].coordinator.awaiting_apply == committed(
                waiters,
                term,
                commit_index,
            )
            &&& after.answer(region).safe_ts == v.safe_ts
        }),
{
    let c = v.peers[region].coordinator;
    let applied_index = v.peers[region].state.applied_index;
    lemma_only_round_answered(c, request_id, term, commit_index, applied_index);
    let after = v.respond(region, request_id, term, commit_index);
    assert(after.peers[region].coordinator == c.respond(request_id, term, commit_index));
    assert(after.peers[region].state == v.peers[region].state);
    assert(after.answerable(region) =~= Seq::<CommittedReadView>::empty());
}

/// Term safety: an answer for another term than the round in flight was
/// issued in serves no read. Every read of the round ends with
/// `StaleCommand`, and no safe timestamp changes on account of the round.
pub proof fn lemma_answer_for_other_term_serves_nothing(
    v: DispatcherView,
    region: u64,
    request_id: u64,
    term: u64,
    commit_index: u64,
)
    requires
        v.peers.contains_key(region),
        v.peers[region].coordinator.in_flight matches Some(round) && round.request_id == request_id
            && round.term != term,
    ensures
        v.rejected_by(region, request_id, term) == v.peers[region].coordinator.in_flight->0.waiters,
        v.respond(region, request_id, term, commit_index).peers[region].coordinator.awaiting_apply
            == v.peers[region].coordinator.awaiting_apply,
        v.respond(region, request_id, term, commit_index).peers[region].coordinator.in_flight is None,
{
}

/// No read during a snapshot: while a replica installs a snapshot, a read
/// addressed to it is turned away, whatever the safe timestamp of its
/// region, and no read that waited is answered.
pub proof fn lemma_applying_replica_serves_nothing(
    v: DispatcherView,
    region_id: u64,
    peer_id: u64,
    epoch: RegionEpoch,
    keys: KeyOrRangeView,
    read_timestamp: u64,
    allow_stale: bool,
    now: u64,
)
    requires
        v.peers.contains_key(region_id),
        v.peers[region_id].state.phase == PeerPhase::Applying,
    ensures
        v.serve_result(region_id, peer_id, epoch, keys, read_timestamp, allow_stale, now) is Err,
        v.answers(region_id).len() == 0,
        v.answer(region_id) == v,
{
}

/// No read is lost in a split: when a region is split, every read that
/// waited for its replica ends, and none waits afterwards.
pub proof fn lemma_split_ends_every_read(
    v: DispatcherView,
    region_id: u64,
    epoch: RegionEpoch,
    children: Seq<u64>,
)
    requires
        v.epoch_moves(region_id, epoch),
    ensures
        v.split_orphans(region_id, epoch).len() == v.pending(region_id),
        v.split(region_id, epoch, children).pending(region_id) == 0,
{
    let after = v.split(region_id, epoch, children).peers[region_id].coordinator;
    assert(after.all_waiters() =~= Seq::<ReadWaiterView>::empty());
}

/// A leader within its lease serves: a read that is addressed to the
/// replica under the epoch of its region, while the replica leads with a
/// lease that has not run out and installs no snapshot, is answered at
/// once unless a lock stands in its way. That the replica has only just
/// become leader is no ground to turn the read away.
pub proof fn lemma_leader_within_lease_serves(
    v: DispatcherView,
    region_id: u64,
    keys: KeyOrRangeView,
    read_timestamp: u64,
    now: u64,
)
    requires
        lock_table_in_order(v),
        v.peers.contains_key(region_id),
        v.peers[region_id].state.leads_with_lease(now),
        v.peers[region_id].state.phase == PeerPhase::Normal,
        lock_free(v.locks, keys, read_timestamp),
    ensures
        v.serve_result(
            region_id,
            v.peers[region_id].state.peer_id,
            v.peers[region_id].state.epoch,
            keys,
            read_timestamp,
            false,
            now,
        ) == Ok::<ReadProgress, ReadErrorView>(
            ReadProgress::Ready(Snapshot { region_id, read_timestamp, source: ReadSource::Lease }),
        ),
{
    lemma_blocking_lock_none(v.locks, keys, read_timestamp);
}

/// No lease, no lease read: a replica that does not lead, or whose lease
/// has run out, answers no read on the strength of a lease.
pub proof fn lemma_no_lease_read_without_lease(
    v: DispatcherView,
    region_id: u64,
    peer_id: u64,
    epoch: RegionEpoch,
    keys: KeyOrRangeView,
    read_timestamp: u64,
    allow_stale: bool,
    now: u64,
)
    requires
        !(v.peers.contains_key(region_id) && v.peers[region_id].state.leads_with_lease(now)),
    ensures
        !(v.serve_result(region_id, peer_id, epoch, keys, read_timestamp, allow_stale, now) matches Ok(
            ReadProgress::Ready(snapshot),
        ) && snapshot.source == ReadSource::Lease),
{
}

/// The cache takes the maximum: after `candidate` was offered for a
/// region, the safe timestamp of the region is the greater of what it was
/// and `candidate`, and no other safe timestamp has changed.
pub proof fn lemma_advance_takes_maximum(cache: Map<u64, u64>, region: u64, candidate: u64)
    ensures
        safe_ts(advanced(cache, region, candidate), region) == later(
            safe_ts(cache, region),
            candidate,
        ),
        forall|r: u64|
            r != region ==> #[trigger] safe_ts(advanced(cache, region, candidate), r) == safe_ts(
                cache,
                r,
            ),
{
}

/// Offers to the cache do not race: in whichever order two timestamps are
/// offered, for the same region or for two, the cache is the same
/// afterwards.
pub proof fn lemma_advances_commute(
    cache: Map<u64, u64>,
    region_a: u64,
    a: u64,
    region_b: u64,
    b: u64,
)
    ensures
        advanced(advanced(cache, region_a, a), region_b, b) == advanced(
            advanced(cache, region_b, b),
            region_a,
            a,
        ),
{
    assert(advanced(advanced(cache, region_a, a), region_b, b) =~= advanced(
        advanced(cache, region_b, b),
        region_a,
        a,
    ));
}

/// Letting go of a read calls no round off: the round that was in flight
/// for the replica is in flight afterwards, under the same context and
/// for the same term, and the next read to arrive joins it.
pub proof fn lemma_cancel_keeps_round(v: DispatcherView, region_id: u64, callback: u64)
    requires
        v.peers.contains_key(region_id),
    ensures
        ({
            let before = v.peers[region_id].coordinator;
            let after = v.cancel(region_id, callback).peers[region_id].coordinator;
            &&& after.in_flight is Some <==> before.in_flight is Some
            &&& before.in_flight matches Some(round) ==> {
                &&& after.in_flight->0.request_id == round.request_id
                &&& after.in_flight->0.term == round.term
            }
            &&& after.round_to_issue() is None <==> before.round_to_issue() is None
            &&& after.next_request_id == before.next_request_id
        }),
{
}

} // verus!
