//! No read is lost: a read that waits goes on waiting until it is handed
//! out with its end or its caller lets go of it.

use vstd::prelude::*;
use crate::error::ReadErrorView;
use crate::history::{handed_out, step, Event};
use crate::model::{
    completions, failures, lemma_receive_all_keeps, ConsensusMessage, DispatcherView,
    ReadCompletionView,
};
use crate::read_index::{
    committed, is_applied, is_not_applied, is_other_read, is_other_waiter, uncommitted,
    CommittedReadView, CoordinatorView, ReadWaiterView,
};

verus! {

/// True when one of `waiters` is behind `callback`.
pub open spec fn among_waiters(waiters: Seq<ReadWaiterView>, callback: u64) -> bool {
    exists|i: int| 0 <= i < waiters.len() && (#[trigger] waiters[i]).callback == callback
}

/// True when one of `reads` is behind `callback`.
pub open spec fn among_reads(reads: Seq<CommittedReadView>, callback: u64) -> bool {
    exists|i: int| 0 <= i < reads.len() && (#[trigger] reads[i]).waiter.callback == callback
}

/// True when one of `ends` is the end of a read behind `callback`.
pub open spec fn among_ended(ends: Seq<ReadCompletionView>, callback: u64) -> bool {
    exists|i: int| 0 <= i < ends.len() && (#[trigger] ends[i]).callback == callback
}

/// A read that is among the first or the second of two sequences is among
/// the two put together, and the other way round.
proof fn lemma_among_ended_concat(a: Seq<ReadCompletionView>, b: Seq<ReadCompletionView>, callback: u64)
    ensures
        among_ended(a + b, callback) <==> among_ended(a, callback) || among_ended(b, callback),
{
    if among_ended(a, callback) {
        let i = choose|i: int| 0 <= i < a.len() && (#[trigger] a[i]).callback == callback;
        assert((a + b)[i].callback == callback);
    }
    if among_ended(b, callback) {
        let i = choose|i: int| 0 <= i < b.len() && (#[trigger] b[i]).callback == callback;
        assert((a + b)[a.len() + i].callback == callback);
    }
    if among_ended(a + b, callback) {
        let i = choose|i: int| 0 <= i < (a + b).len() && (#[trigger] (a + b)[i]).callback == callback;
        if i < a.len() {
            assert(a[i].callback == callback);
        } else {
            assert(b[i - a.len()].callback == callback);
        }
    }
}

/// The reads that fail are the reads that are handed out as failures.
proof fn lemma_among_failures(waiters: Seq<ReadWaiterView>, error: ReadErrorView, callback: u64)
    ensures
        among_ended(failures(waiters, error), callback) <==> among_waiters(waiters, callback),
{
    let ends = failures(waiters, error);
    if among_waiters(waiters, callback) {
        let i = choose|i: int| 0 <= i < waiters.len() && (#[trigger] waiters[i]).callback == callback;
        assert(ends[i].callback == callback);
    }
    if among_ended(ends, callback) {
        let i = choose|i: int| 0 <= i < ends.len() && (#[trigger] ends[i]).callback == callback;
        assert(waiters[i].callback == callback);
    }
}

/// The reads that are answered are the reads that are handed out with
/// their ends.
proof fn lemma_among_completions(
    locks: crate::concurrency::LockMap,
    region_id: u64,
    reads: Seq<CommittedReadView>,
    callback: u64,
)
    ensures
        among_ended(completions(locks, region_id, reads), callback) <==> among_reads(reads, callback),
{
    let ends = completions(locks, region_id, reads);
    if among_reads(reads, callback) {
        let i = choose|i: int| 0 <= i < reads.len() && (#[trigger] reads[i]).waiter.callback == callback;
        assert(ends[i].callback == callback);
    }
    if among_ended(ends, callback) {
        let i = choose|i: int| 0 <= i < ends.len() && (#[trigger] ends[i]).callback == callback;
        assert(reads[i].waiter.callback == callback);
    }
}

/// A read waits with a coordinator exactly when it is among the reads
/// that wait for the log to be applied or among those of the round in
/// flight.
proof fn lemma_holds_unfolded(c: CoordinatorView, callback: u64)
    ensures
        c.holds(callback) <==> among_reads(c.awaiting_apply, callback) || (c.in_flight is Some
            && among_waiters(c.in_flight->0.waiters, callback)),
        c.holds(callback) <==> among_waiters(c.all_waiters(), callback),
{
    let awaiting = uncommitted(c.awaiting_apply);
    let flying = match c.in_flight {
        Some(round) => round.waiters,
        None => Seq::empty(),
    };
    let all = c.all_waiters();
    if among_reads(c.awaiting_apply, callback) {
        let i = choose|i: int|
            0 <= i < c.awaiting_apply.len() && (#[trigger] c.awaiting_apply[i]).waiter.callback
                == callback;
        assert(all[i].callback == callback);
    }
    if c.in_flight is Some && among_waiters(flying, callback) {
        let i = choose|i: int| 0 <= i < flying.len() && (#[trigger] flying[i]).callback == callback;
        assert(all[awaiting.len() + i].callback == callback);
    }
    if among_waiters(all, callback) {
        let i = choose|i: int| 0 <= i < all.len() && (#[trigger] all[i]).callback == callback;
        if i < awaiting.len() {
            assert(c.awaiting_apply[i].waiter.callback == callback);
        } else {
            assert(flying[i - awaiting.len()].callback == callback);
        }
    }
}

/// A read that passes a test is among the reads that a filter by that
/// test keeps.
proof fn lemma_kept_by_filter(
    reads: Seq<CommittedReadView>,
    test: spec_fn(CommittedReadView) -> bool,
    i: int,
)
    requires
        0 <= i < reads.len(),
        test(reads[i]),
    ensures
        among_reads(reads.filter(test), reads[i].waiter.callback),
{
    reads.lemma_filter_contains(test, i);
    let kept = reads.filter(test);
    let j = choose|j: int| 0 <= j < kept.len() && kept[j] == reads[i];
    assert(kept[j].waiter.callback == reads[i].waiter.callback);
}

/// A waiting read that passes a test is among the waiting reads that a
/// filter by that test keeps.
proof fn lemma_waiter_kept_by_filter(
    waiters: Seq<ReadWaiterView>,
    test: spec_fn(ReadWaiterView) -> bool,
    i: int,
)
    requires
        0 <= i < waiters.len(),
        test(waiters[i]),
    ensures
        among_waiters(waiters.filter(test), waiters[i].callback),
{
    waiters.lemma_filter_contains(test, i);
    let kept = waiters.filter(test);
    let j = choose|j: int| 0 <= j < kept.len() && kept[j] == waiters[i];
    assert(kept[j].callback == waiters[i].callback);
}

/// A read that waits when another arrives goes on waiting.
proof fn lemma_enqueue_keeps(c: CoordinatorView, term: u64, waiter: ReadWaiterView, callback: u64)
    requires
        c.holds(callback),
    ensures
        c.enqueue(term, waiter).holds(callback),
{
    lemma_holds_unfolded(c, callback);
    let after = c.enqueue(term, waiter);
    lemma_holds_unfolded(after, callback);
    if c.in_flight is Some && among_waiters(c.in_flight->0.waiters, callback) {
        let waiters = c.in_flight->0.waiters;
        let i = choose|i: int| 0 <= i < waiters.len() && (#[trigger] waiters[i]).callback == callback;
        assert(after.in_flight->0.waiters[i].callback == callback);
    }
}

/// A read that waits when consensus answers a round goes on waiting or is
/// turned away by the answer.
proof fn lemma_respond_keeps(
    c: CoordinatorView,
    request_id: u64,
    term: u64,
    commit_index: u64,
    callback: u64,
)
    requires
        c.holds(callback),
    ensures
        c.respond(request_id, term, commit_index).holds(callback) || among_waiters(
            c.rejected_by(request_id, term),
            callback,
        ),
{
    lemma_holds_unfolded(c, callback);
    let after = c.respond(request_id, term, commit_index);
    lemma_holds_unfolded(after, callback);
    if among_reads(c.awaiting_apply, callback) {
        let i = choose|i: int|
            0 <= i < c.awaiting_apply.len() && (#[trigger] c.awaiting_apply[i]).waiter.callback
                == callback;
        assert(after.awaiting_apply[i].waiter.callback == callback);
    } else if c.answers_round(request_id) && c.in_flight->0.term == term {
        let waiters = c.in_flight->0.waiters;
        let i = choose|i: int| 0 <= i < waiters.len() && (#[trigger] waiters[i]).callback == callback;
        let moved = committed(waiters, term, commit_index);
        assert(moved[i].waiter.callback == callback);
        assert(after.awaiting_apply[c.awaiting_apply.len() + i].waiter.callback == callback);
    }
}

/// A read that waits when consensus gives up a round goes on waiting or
/// is handed out with the round.
proof fn lemma_abandon_keeps(c: CoordinatorView, request_id: u64, callback: u64)
    requires
        c.holds(callback),
    ensures
        c.abandon(request_id).holds(callback) || among_waiters(c.abandoned_by(request_id), callback),
{
    lemma_holds_unfolded(c, callback);
    lemma_holds_unfolded(c.abandon(request_id), callback);
}

/// A read that waits when the reads that are ready are handed out goes on
/// waiting or is one of them.
proof fn lemma_ready_keeps(c: CoordinatorView, applied_index: u64, callback: u64)
    requires
        c.holds(callback),
    ensures
        c.without_ready(applied_index).holds(callback) || among_reads(
            c.ready(applied_index),
            callback,
        ),
{
    lemma_holds_unfolded(c, callback);
    let after = c.without_ready(applied_index);
    lemma_holds_unfolded(after, callback);
    if among_reads(c.awaiting_apply, callback) {
        let i = choose|i: int|
            0 <= i < c.awaiting_apply.len() && (#[trigger] c.awaiting_apply[i]).waiter.callback
                == callback;
        if c.awaiting_apply[i].commit_index <= applied_index {
            lemma_kept_by_filter(c.awaiting_apply, is_applied(applied_index), i);
        } else {
            lemma_kept_by_filter(c.awaiting_apply, is_not_applied(applied_index), i);
        }
    }
}

/// A read that waits when the caller of another lets go goes on waiting.
proof fn lemma_cancel_keeps(c: CoordinatorView, cancelled: u64, callback: u64)
    requires
        c.holds(callback),
        callback != cancelled,
    ensures
        c.without(cancelled).holds(callback),
{
    lemma_holds_unfolded(c, callback);
    let after = c.without(cancelled);
    lemma_holds_unfolded(after, callback);
    if among_reads(c.awaiting_apply, callback) {
        let i = choose|i: int|
            0 <= i < c.awaiting_apply.len() && (#[trigger] c.awaiting_apply[i]).waiter.callback
                == callback;
        lemma_kept_by_filter(c.awaiting_apply, is_other_read(cancelled), i);
    } else {
        let waiters = c.in_flight->0.waiters;
        let i = choose|i: int| 0 <= i < waiters.len() && (#[trigger] waiters[i]).callback == callback;
        lemma_waiter_kept_by_filter(waiters, is_other_waiter(cancelled), i);
    }
}

/// A read that waits when the reads that may be answered are answered
/// goes on waiting or is handed out with its end.
proof fn lemma_answer_keeps(v: DispatcherView, region: u64, callback: u64)
    requires
        v.holds(region, callback),
    ensures
        v.answer(region).holds(region, callback) || among_ended(v.answers(region), callback),
{
    let peer = v.peers[region];
    if peer.state.phase == crate::region::PeerPhase::Normal {
        lemma_ready_keeps(peer.coordinator, peer.state.applied_index, callback);
        lemma_among_completions(v.locks, region, v.answerable(region), callback);
    }
}

/// A read that waits when a batch of messages is taken in goes on waiting
/// or is turned away by one of the messages.
proof fn lemma_receive_all_keeps_reads(
    v: DispatcherView,
    region: u64,
    batch: Seq<ConsensusMessage>,
    callback: u64,
)
    requires
        v.holds(region, callback),
    ensures
        v.receive_all(region, batch).holds(region, callback) || among_waiters(
            v.turned_away_by_all(region, batch),
            callback,
        ),
    decreases batch.len(),
{
    if batch.len() > 0 {
        let front = batch.drop_last();
        let before = v.receive_all(region, front);
        let turned = v.turned_away_by_all(region, front);
        let last_turned = before.turned_away_by(region, batch.last());
        lemma_receive_all_keeps_reads(v, region, front, callback);
        lemma_receive_all_keeps(v, region, front);
        if among_waiters(turned, callback) {
            let i = choose|i: int| 0 <= i < turned.len() && (#[trigger] turned[i]).callback == callback;
            assert((turned + last_turned)[i].callback == callback);
        } else {
            assert(before.holds(region, callback));
            match batch.last() {
                ConsensusMessage::ReadIndexResponse { request_id, term, commit_index } => {
                    lemma_respond_keeps(
                        before.peers[region].coordinator,
                        request_id,
                        term,
                        commit_index,
                        callback,
                    );
                    if among_waiters(last_turned, callback) {
                        let i = choose|i: int|
                            0 <= i < last_turned.len() && (#[trigger] last_turned[i]).callback
                                == callback;
                        assert((turned + last_turned)[turned.len() + i].callback == callback);
                    }
                },
                _ => {},
            }
        }
    }
}

/// No read is lost: a read that waits for a replica when something
/// happens to the store waits for it afterwards, or is among the reads
/// that are handed out with their ends, or is the read whose caller has
/// just let go of it.
pub proof fn lemma_no_read_is_lost(v: DispatcherView, event: Event, region: u64, callback: u64)
    requires
        v.holds(region, callback),
    ensures
        ({
            ||| step(v, event).holds(region, callback)
            ||| among_ended(handed_out(v, event), callback)
            ||| event == (Event::Cancel { region_id: region, callback })
        }),
{
    reveal(step);
    let c = v.peers[region].coordinator;
    match event {
        Event::DestroyPeer { region_id } => {
            if region_id == region {
                lemma_holds_unfolded(c, callback);
                lemma_among_failures(v.orphans(region), ReadErrorView::RegionNotFound, callback);
            }
        },
        Event::ServeRead {
            region_id,
            peer_id,
            epoch,
            keys,
            read_timestamp,
            allow_stale,
            callback: arriving,
            now,
        } => {
            if region_id == region {
                lemma_enqueue_keeps(
                    c,
                    v.peers[region].state.term,
                    ReadWaiterView { callback: arriving, keys, read_timestamp },
                    callback,
                );
            }
        },
        Event::ReadIndexResponse { region_id, request_id, term, commit_index } => {
            if region_id == region {
                let mid = v.respond(region, request_id, term, commit_index);
                let turned = failures(
                    v.rejected_by(region, request_id, term),
                    ReadErrorView::StaleCommand,
                );
                lemma_respond_keeps(c, request_id, term, commit_index, callback);
                lemma_among_failures(
                    v.rejected_by(region, request_id, term),
                    ReadErrorView::StaleCommand,
                    callback,
                );
                lemma_among_ended_concat(turned, mid.answers(region), callback);
                if mid.holds(region, callback) {
                    lemma_answer_keeps(mid, region, callback);
                }
            } else {
                lemma_other_region_answers(
                    v.respond(region_id, request_id, term, commit_index),
                    v,
                    region_id,
                    region,
                    callback,
                );
            }
        },
        Event::Messages { region_id, batch } => {
            let mid = v.receive_all(region_id, batch);
            if region_id == region {
                let turned = failures(
                    v.turned_away_by_all(region, batch),
                    ReadErrorView::StaleCommand,
                );
                lemma_receive_all_keeps_reads(v, region, batch, callback);
                lemma_among_failures(
                    v.turned_away_by_all(region, batch),
                    ReadErrorView::StaleCommand,
                    callback,
                );
                lemma_among_ended_concat(turned, mid.answers(region), callback);
                if mid.holds(region, callback) {
                    lemma_answer_keeps(mid, region, callback);
                }
            } else {
                lemma_receive_all_elsewhere(v, region_id, batch, region);
                lemma_other_region_answers(mid, v, region_id, region, callback);
            }
        },
        Event::NotLeader { region_id, request_id, new_leader_hint } => {
            if region_id == region {
                lemma_abandon_keeps(c, request_id, callback);
                lemma_among_failures(
                    v.abandoned_by(region, request_id),
                    ReadErrorView::NotLeader { new_leader_hint },
                    callback,
                );
            }
        },
        Event::Applied { region_id, applied_index } => {
            let mid = v.applied(region_id, applied_index);
            if region_id == region {
                lemma_answer_keeps(mid, region, callback);
            } else {
                lemma_other_region_answers(mid, v, region_id, region, callback);
            }
        },
        Event::SnapshotApplied { region_id, snapshot_index } => {
            let mid = v.snapshot_applied(region_id, snapshot_index);
            if region_id == region {
                lemma_answer_keeps(mid, region, callback);
            } else {
                lemma_other_region_answers(mid, v, region_id, region, callback);
            }
        },
        Event::Split { region_id, epoch, children } => {
            if region_id == region && v.epoch_moves(region_id, epoch) {
                lemma_holds_unfolded(c, callback);
                lemma_among_failures(
                    v.split_orphans(region, epoch),
                    ReadErrorView::EpochNotMatch { current_epoch: epoch },
                    callback,
                );
            }
        },
        Event::Merge { source_id, target_id, epoch } => {
            if v.merges(source_id, target_id, epoch) && (source_id == region || target_id
                == region) {
                let source_ends = failures(
                    v.merge_source_orphans(source_id, target_id, epoch),
                    ReadErrorView::RegionNotFound,
                );
                let target_ends = failures(
                    v.merge_target_orphans(source_id, target_id, epoch),
                    ReadErrorView::EpochNotMatch { current_epoch: epoch },
                );
                lemma_holds_unfolded(c, callback);
                lemma_among_failures(
                    v.merge_source_orphans(source_id, target_id, epoch),
                    ReadErrorView::RegionNotFound,
                    callback,
                );
                lemma_among_failures(
                    v.merge_target_orphans(source_id, target_id, epoch),
                    ReadErrorView::EpochNotMatch { current_epoch: epoch },
                    callback,
                );
                lemma_among_ended_concat(source_ends, target_ends, callback);
            }
        },
        Event::Cancel { region_id, callback: cancelled } => {
            if region_id == region && cancelled != callback {
                lemma_cancel_keeps(c, cancelled, callback);
            }
        },
        _ => {},
    }
}

/// Messages for one replica leave the other replicas as they are.
proof fn lemma_receive_all_elsewhere(
    v: DispatcherView,
    region_id: u64,
    batch: Seq<ConsensusMessage>,
    other: u64,
)
    requires
        other != region_id,
    ensures
        v.receive_all(region_id, batch).peers.contains_key(other) == v.peers.contains_key(other),
        v.receive_all(region_id, batch).peers[other] == v.peers[other],
    decreases batch.len(),
{
    if batch.len() > 0 {
        lemma_receive_all_elsewhere(v, region_id, batch.drop_last(), other);
    }
}

/// Answering the reads of one replica leaves the reads of another where
/// they are.
proof fn lemma_other_region_answers(
    mid: DispatcherView,
    v: DispatcherView,
    answering: u64,
    region: u64,
    callback: u64,
)
    requires
        answering != region,
        v.holds(region, callback),
        mid.peers.contains_key(region) == v.peers.contains_key(region),
        mid.peers[region] == v.peers[region],
    ensures
        mid.answer(answering).holds(region, callback),
{
}

} // verus!
