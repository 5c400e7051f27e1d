//! Histories of a store: the events that reach it, one after another.
//!
//! Each event stands for one call of the dispatcher. The contract of the
//! call says that it takes the store from what it was to `step` of that,
//! and that it returns what `handed_out` or `served` says.

use vstd::prelude::*;
use crate::error::ReadErrorView;
use crate::lock::{KeyOrRangeView, LockView};
use crate::model::{failures, ConsensusMessage, DispatcherView, ReadCompletionView, ReadProgress};
use crate::read_index::CommittedReadView;
use crate::region::{RegionEpoch, Role};

verus! {

/// Something that happens to a store.
pub enum Event {
    /// A replica is created.
    CreatePeer { region_id: u64, peer_id: u64, epoch: RegionEpoch },
    /// A replica is destroyed.
    DestroyPeer { region_id: u64 },
    /// The safe timestamp of a region is reset by force.
    Invalidate { region_id: u64 },
    /// The store sees a timestamp.
    Observe { ts: u64 },
    /// A transaction acquires a lock.
    Acquire { lock: LockView },
    /// A lock is released.
    Release { key: Seq<u8> },
    /// A read arrives.
    ServeRead {
        region_id: u64,
        peer_id: u64,
        epoch: RegionEpoch,
        keys: KeyOrRangeView,
        read_timestamp: u64,
        allow_stale: bool,
        callback: u64,
        now: u64,
    },
    /// Consensus answers a read-index round.
    ReadIndexResponse { region_id: u64, request_id: u64, term: u64, commit_index: u64 },
    /// Consensus delivers a batch of messages.
    Messages { region_id: u64, batch: Seq<ConsensusMessage> },
    /// Consensus reports that a read-index round found no leader.
    NotLeader { region_id: u64, request_id: u64, new_leader_hint: Option<u64> },
    /// A replica has applied more of the log.
    Applied { region_id: u64, applied_index: u64 },
    /// A replica starts to install a snapshot.
    SnapshotStart { region_id: u64 },
    /// A replica has installed a snapshot.
    SnapshotApplied { region_id: u64, snapshot_index: u64 },
    /// Consensus gives notice of the role of a replica.
    RoleChange { region_id: u64, peer_id: u64, role: Role, term: u64 },
    /// The membership of a region changes.
    ConfChange { region_id: u64, epoch: RegionEpoch },
    /// A region is split.
    Split { region_id: u64, epoch: RegionEpoch, children: Seq<u64> },
    /// A region is merged into another.
    Merge { source_id: u64, target_id: u64, epoch: RegionEpoch },
    /// A caller lets go of a read that waits, or runs out of patience.
    Cancel { region_id: u64, callback: u64 },
}

/// The store after `event`.
#[verifier::opaque]
pub open spec fn step(v: DispatcherView, event: Event) -> DispatcherView {
    match event {
        Event::CreatePeer { region_id, peer_id, epoch } => v.create_peer(region_id, peer_id, epoch),
        Event::DestroyPeer { region_id } => v.destroy_peer(region_id),
        Event::Invalidate { region_id } => v.invalidate(region_id),
        Event::Observe { ts } => v.observe(ts),
        Event::Acquire { lock } => v.acquire(lock),
        Event::Release { key } => v.release(key),
        Event::ServeRead {
            region_id,
            peer_id,
            epoch,
            keys,
            read_timestamp,
            allow_stale,
            callback,
            now,
        } => v.serve(region_id, peer_id, epoch, keys, read_timestamp, allow_stale, callback, now),
        Event::ReadIndexResponse { region_id, request_id, term, commit_index } => v.respond(
            region_id,
            request_id,
            term,
            commit_index,
        ).answer(region_id),
        Event::Messages { region_id, batch } => v.receive_all(region_id, batch).answer(region_id),
        Event::NotLeader { region_id, request_id, .. } => v.round_abandoned(region_id, request_id),
        Event::Applied { region_id, applied_index } => v.applied(region_id, applied_index).answer(
            region_id,
        ),
        Event::SnapshotStart { region_id } => v.snapshot_started(region_id),
        Event::SnapshotApplied { region_id, snapshot_index } => v.snapshot_applied(
            region_id,
            snapshot_index,
        ).answer(region_id),
        Event::RoleChange { region_id, peer_id, role, term } => v.role_changed(
            region_id,
            peer_id,
            role,
            term,
        ),
        Event::ConfChange { region_id, epoch } => v.membership_changed(region_id, epoch),
        Event::Split { region_id, epoch, children } => v.split(region_id, epoch, children),
        Event::Merge { source_id, target_id, epoch } => v.merge(source_id, target_id, epoch),
        Event::Cancel { region_id, callback } => v.cancel(region_id, callback),
    }
}

/// The store after the events of `events`, in order.
pub open spec fn run(v: DispatcherView, events: Seq<Event>) -> DispatcherView
    decreases events.len(),
{
    if events.len() == 0 {
        v
    } else {
        step(run(v, events.drop_last()), events.last())
    }
}

/// True when `event`, reaching the store `v`, resets the safe timestamp of
/// `region`: the replica is created or destroyed, becomes leader, the
/// region is invalidated by force, or it takes part in a split or a merge.
pub open spec fn resets(v: DispatcherView, event: Event, region: u64) -> bool {
    match event {
        Event::CreatePeer { region_id, .. } => region_id == region && !v.peers.contains_key(
            region_id,
        ),
        Event::DestroyPeer { region_id } => region_id == region,
        Event::Invalidate { region_id } => region_id == region,
        Event::RoleChange { region_id, peer_id, role, term } => region_id == region
            && v.role_resets(region_id, peer_id, role, term),
        Event::Split { region_id, epoch, children } => v.epoch_moves(region_id, epoch) && (region_id
            == region || children.contains(region)),
        Event::Merge { source_id, target_id, epoch } => v.merges(source_id, target_id, epoch) && (
        source_id == region || target_id == region),
        _ => false,
    }
}

/// The reads that `event`, reaching the store `v`, answers after a
/// read-index round: those of its region whose round has ended and whose
/// log entries are applied.
pub open spec fn answered(v: DispatcherView, event: Event) -> Seq<CommittedReadView> {
    match event {
        Event::ReadIndexResponse { region_id, request_id, term, commit_index } => v.respond(
            region_id,
            request_id,
            term,
            commit_index,
        ).answerable(region_id),
        Event::Messages { region_id, batch } => v.receive_all(region_id, batch).answerable(
            region_id,
        ),
        Event::Applied { region_id, applied_index } => v.applied(
            region_id,
            applied_index,
        ).answerable(region_id),
        Event::SnapshotApplied { region_id, snapshot_index } => v.snapshot_applied(
            region_id,
            snapshot_index,
        ).answerable(region_id),
        _ => Seq::empty(),
    }
}

/// The region whose reads `event` answers after a read-index round.
pub open spec fn answering_region(event: Event) -> Option<u64> {
    match event {
        Event::ReadIndexResponse { region_id, .. } => Some(region_id),
        Event::Messages { region_id, .. } => Some(region_id),
        Event::Applied { region_id, .. } => Some(region_id),
        Event::SnapshotApplied { region_id, .. } => Some(region_id),
        _ => None,
    }
}

/// The ends of the reads that `event`, reaching the store `v`, hands out:
/// what the call of the dispatcher that the event stands for returns.
pub open spec fn handed_out(v: DispatcherView, event: Event) -> Seq<ReadCompletionView> {
    match event {
        Event::DestroyPeer { region_id } => failures(
            v.orphans(region_id),
            ReadErrorView::RegionNotFound,
        ),
        Event::ReadIndexResponse { region_id, request_id, term, commit_index } => failures(
            v.rejected_by(region_id, request_id, term),
            ReadErrorView::StaleCommand,
        ) + v.respond(region_id, request_id, term, commit_index).answers(region_id),
        Event::Messages { region_id, batch } => failures(
            v.turned_away_by_all(region_id, batch),
            ReadErrorView::StaleCommand,
        ) + v.receive_all(region_id, batch).answers(region_id),
        Event::NotLeader { region_id, request_id, new_leader_hint } => failures(
            v.abandoned_by(region_id, request_id),
            ReadErrorView::NotLeader { new_leader_hint },
        ),
        Event::Applied { region_id, applied_index } => v.applied(region_id, applied_index).answers(
            region_id,
        ),
        Event::SnapshotApplied { region_id, snapshot_index } => v.snapshot_applied(
            region_id,
            snapshot_index,
        ).answers(region_id),
        Event::Split { region_id, epoch, .. } => failures(
            v.split_orphans(region_id, epoch),
            ReadErrorView::EpochNotMatch { current_epoch: epoch },
        ),
        Event::Merge { source_id, target_id, epoch } => failures(
            v.merge_source_orphans(source_id, target_id, epoch),
            ReadErrorView::RegionNotFound,
        ) + failures(
            v.merge_target_orphans(source_id, target_id, epoch),
            ReadErrorView::EpochNotMatch { current_epoch: epoch },
        ),
        _ => Seq::empty(),
    }
}

/// What `serve_read` returns for `event`, if it is the arrival of a read.
pub open spec fn served(v: DispatcherView, event: Event) -> Option<
    Result<ReadProgress, ReadErrorView>,
> {
    match event {
        Event::ServeRead {
            region_id,
            peer_id,
            epoch,
            keys,
            read_timestamp,
            allow_stale,
            callback,
            now,
        } => Some(
            v.serve_result(region_id, peer_id, epoch, keys, read_timestamp, allow_stale, now),
        ),
        _ => None,
    }
}

} // verus!
