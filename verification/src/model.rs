//! The store as a mathematical value, and what each event makes of it.
//!
//! The dispatcher's contracts are stated over this model: every function
//! that changes the dispatcher says which of the transitions below it
//! performs.

use vstd::prelude::*;
use crate::concurrency::{blocking_lock, LockMap};
use crate::error::ReadErrorView;
use crate::lock::{KeyOrRangeView, LockView};
use crate::read_index::{CommittedReadView, CoordinatorView, ReadWaiterView};
use crate::region::{PeerPhase, RegionEpoch, RegionReadState, Role};
use crate::safe_ts::{advanced, safe_ts};

verus! {

/// Where the right to answer a read came from.
#[derive(Clone, Copy, Debug, PartialEq, Eq, Structural)]
pub enum ReadSource {
    /// The replica leads and its lease had not run out.
    Lease,
    /// The safe timestamp of the region had reached the read's timestamp.
    Cache,
    /// A read-index round confirmed `commit_index` for `term`, and the
    /// replica has applied the log that far.
    ReadIndex { term: u64, commit_index: u64 },
}

/// The permission to read the storage of a region at a timestamp.
#[derive(Clone, Copy, Debug, PartialEq, Eq, Structural)]
pub struct Snapshot {
    pub region_id: u64,
    pub read_timestamp: u64,
    pub source: ReadSource,
}

/// How far a read has got when `serve_read` returns.
#[derive(Clone, Copy, Debug, PartialEq, Eq, Structural)]
pub enum ReadProgress {
    /// The read may be answered now.
    Ready(Snapshot),
    /// The read waits for a read-index round. Where `propose` holds a
    /// context, the round is new and the caller is to hand that context to
    /// consensus; where it holds none, the read has joined the round in
    /// flight.
    Waiting { propose: Option<u64> },
}

/// What consensus delivers to a replica, by kind. Only two kinds bear on
/// reads: the answer to a read-index round, and a snapshot to install.
/// The others pass through the dispatcher without a trace.
#[derive(Clone, Copy, Debug, PartialEq, Eq, Structural)]
pub enum ConsensusMessage {
    /// A request for a read-index round.
    ReadIndex,
    /// The answer to the round `request_id`: `commit_index`, confirmed for
    /// `term`.
    ReadIndexResponse { request_id: u64, term: u64, commit_index: u64 },
    Heartbeat,
    HeartbeatResponse,
    AppendResponse,
    TransferLeader,
    /// A snapshot that the replica starts to install.
    Snapshot,
    TimeoutNow,
    Vote,
    PreVote,
}

/// The end of a read that had waited, as a mathematical value.
pub struct ReadCompletionView {
    pub callback: u64,
    pub result: Result<Snapshot, ReadErrorView>,
}

/// One replica as a mathematical value.
pub struct PeerView {
    pub state: RegionReadState,
    pub coordinator: CoordinatorView,
}

/// The greater of two timestamps.
pub open spec fn later(a: u64, b: u64) -> u64 {
    if a > b {
        a
    } else {
        b
    }
}

/// How a read ends whose round has ended and whose log entries are
/// applied: with the first lock that blocks it, or with the permission to
/// read.
pub open spec fn read_result(locks: LockMap, region_id: u64, read: CommittedReadView) -> Result<
    Snapshot,
    ReadErrorView,
> {
    match blocking_lock(locks, read.waiter.keys, read.waiter.read_timestamp) {
        Some(lock) => Err(ReadErrorView::KeyIsLocked { lock_info: lock }),
        None => Ok(
            Snapshot {
                region_id,
                read_timestamp: read.waiter.read_timestamp,
                source: ReadSource::ReadIndex { term: read.term, commit_index: read.commit_index },
            },
        ),
    }
}

/// The ends of `reads`, in order.
pub open spec fn completions(locks: LockMap, region_id: u64, reads: Seq<CommittedReadView>) -> Seq<
    ReadCompletionView,
> {
    reads.map_values(
        |r: CommittedReadView|
            ReadCompletionView { callback: r.waiter.callback, result: read_result(locks, region_id, r) },
    )
}

/// The ends of `waiters` when all of them fail with `error`, in order.
pub open spec fn failures(waiters: Seq<ReadWaiterView>, error: ReadErrorView) -> Seq<
    ReadCompletionView,
> {
    waiters.map_values(
        |w: ReadWaiterView| ReadCompletionView { callback: w.callback, result: Err(error) },
    )
}

/// The highest timestamp seen after the timestamps of `reads` were seen.
pub open spec fn observed(max_ts: u64, reads: Seq<CommittedReadView>) -> u64
    decreases reads.len(),
{
    if reads.len() == 0 {
        max_ts
    } else {
        later(observed(max_ts, reads.drop_last()), reads.last().waiter.read_timestamp)
    }
}

/// The cache after each of `reads` that no lock blocks has raised the safe
/// timestamp of the region to its own timestamp.
pub open spec fn validated(
    locks: LockMap,
    cache: Map<u64, u64>,
    region_id: u64,
    reads: Seq<CommittedReadView>,
) -> Map<u64, u64>
    decreases reads.len(),
{
    if reads.len() == 0 {
        cache
    } else {
        let before = validated(locks, cache, region_id, reads.drop_last());
        let read = reads.last().waiter;
        if blocking_lock(locks, read.keys, read.read_timestamp) is None {
            advanced(before, region_id, read.read_timestamp)
        } else {
            before
        }
    }
}

/// `cache` without the regions named in `regions`.
pub open spec fn without_regions(cache: Map<u64, u64>, regions: Seq<u64>) -> Map<u64, u64>
    decreases regions.len(),
{
    if regions.len() == 0 {
        cache
    } else {
        without_regions(cache, regions.drop_last()).remove(regions.last())
    }
}

/// Taking regions out of a cache raises no safe timestamp, and leaves
/// those of the other regions as they are.
pub proof fn lemma_without_regions(cache: Map<u64, u64>, regions: Seq<u64>)
    ensures
        forall|r: u64| #[trigger] safe_ts(without_regions(cache, regions), r) <= safe_ts(cache, r),
        forall|r: u64|
            regions.contains(r) ==> #[trigger] safe_ts(without_regions(cache, regions), r) == 0,
        forall|r: u64|
            !regions.contains(r) ==> #[trigger] safe_ts(without_regions(cache, regions), r)
                == safe_ts(cache, r),
    decreases regions.len(),
{
    if regions.len() > 0 {
        let front = regions.drop_last();
        lemma_without_regions(cache, front);
        assert forall|r: u64| #[trigger]
            safe_ts(without_regions(cache, regions), r) <= safe_ts(cache, r) by {
            assert(safe_ts(without_regions(cache, front), r) <= safe_ts(cache, r));
        }
        assert forall|r: u64| regions.contains(r) implies #[trigger] safe_ts(
            without_regions(cache, regions),
            r,
        ) == 0 by {
            if r != regions.last() {
                let i = choose|i: int| 0 <= i < regions.len() && regions[i] == r;
                assert(front[i] == r);
                assert(front.contains(r));
                assert(safe_ts(without_regions(cache, front), r) == 0);
            }
        }
        assert forall|r: u64| !regions.contains(r) implies #[trigger] safe_ts(
            without_regions(cache, regions),
            r,
        ) == safe_ts(cache, r) by {
            assert(regions[regions.len() - 1] == regions.last());
            if front.contains(r) {
                let i = choose|i: int| 0 <= i < front.len() && front[i] == r;
                assert(regions[i] == r);
            }
            assert(safe_ts(without_regions(cache, front), r) == safe_ts(cache, r));
        }
    }
}

/// Messages change neither what the store has seen, nor its locks, nor
/// its safe timestamps, nor which replicas it holds.
pub proof fn lemma_receive_all_keeps(v: DispatcherView, region_id: u64, batch: Seq<ConsensusMessage>)
    ensures
        v.receive_all(region_id, batch).max_ts == v.max_ts,
        v.receive_all(region_id, batch).locks == v.locks,
        v.receive_all(region_id, batch).safe_ts == v.safe_ts,
        v.receive_all(region_id, batch).peers.dom() == v.peers.dom(),
        !v.peers.contains_key(region_id) ==> v.receive_all(region_id, batch) == v,
        !v.peers.contains_key(region_id) ==> v.turned_away_by_all(region_id, batch) == Seq::<
            ReadWaiterView,
        >::empty(),
    decreases batch.len(),
{
    if batch.len() > 0 {
        lemma_receive_all_keeps(v, region_id, batch.drop_last());
        let before = v.receive_all(region_id, batch.drop_last());
        assert(before.receive(region_id, batch.last()).peers.dom() =~= before.peers.dom());
        if !v.peers.contains_key(region_id) {
            assert(v.turned_away_by_all(region_id, batch) =~= Seq::<ReadWaiterView>::empty());
        }
    }
}

/// The store as a mathematical value.
pub struct DispatcherView {
    /// The highest timestamp that the store has seen.
    pub max_ts: u64,
    /// The locks that transactions hold on keys of the store.
    pub locks: LockMap,
    /// The safe timestamps of the regions.
    pub safe_ts: Map<u64, u64>,
    /// The replicas that the store holds, by region.
    pub peers: Map<u64, PeerView>,
}

impl DispatcherView {
    /// A store that holds nothing.
    pub open spec fn empty() -> DispatcherView {
        DispatcherView {
            max_ts: 0,
            locks: Map::empty(),
            safe_ts: Map::empty(),
            peers: Map::empty(),
        }
    }

    /// The safe timestamp of the region `region_id`.
    pub open spec fn safe_ts_of(self, region_id: u64) -> u64 {
        safe_ts(self.safe_ts, region_id)
    }

    /// True when no safe timestamp is beyond the highest timestamp that the
    /// store has seen.
    pub open spec fn bounded(self) -> bool {
        forall|r: u64| #[trigger] safe_ts(self.safe_ts, r) <= self.max_ts
    }

    /// The number of reads of the region that wait.
    pub open spec fn pending(self, region_id: u64) -> nat {
        if self.peers.contains_key(region_id) {
            self.peers[region_id].coordinator.pending()
        } else {
            0
        }
    }

    /// The store with the replica of `region_id` replaced.
    pub open spec fn with_peer(self, region_id: u64, peer: PeerView) -> DispatcherView {
        DispatcherView { peers: self.peers.insert(region_id, peer), ..self }
    }

    /// The store after a replica of `region_id` was created. Nothing
    /// changes where the store holds one already.
    pub open spec fn create_peer(self, region_id: u64, peer_id: u64, epoch: RegionEpoch) -> DispatcherView {
        if self.peers.contains_key(region_id) {
            self
        } else {
            DispatcherView {
                safe_ts: self.safe_ts.remove(region_id),
                peers: self.peers.insert(
                    region_id,
                    PeerView {
                        state: RegionReadState::created(region_id, peer_id, epoch),
                        coordinator: CoordinatorView::idle(),
                    },
                ),
                ..self
            }
        }
    }

    /// The reads that end when the replica of `region_id` is destroyed.
    pub open spec fn orphans(self, region_id: u64) -> Seq<ReadWaiterView> {
        if self.peers.contains_key(region_id) {
            self.peers[region_id].coordinator.all_waiters()
        } else {
            Seq::empty()
        }
    }

    /// The store after the replica of `region_id` was destroyed.
    pub open spec fn destroy_peer(self, region_id: u64) -> DispatcherView {
        DispatcherView {
            safe_ts: self.safe_ts.remove(region_id),
            peers: self.peers.remove(region_id),
            ..self
        }
    }

    /// The store after the safe timestamp of `region_id` was reset.
    pub open spec fn invalidate(self, region_id: u64) -> DispatcherView {
        DispatcherView { safe_ts: self.safe_ts.remove(region_id), ..self }
    }

    /// The store after the timestamp `ts` was seen.
    pub open spec fn observe(self, ts: u64) -> DispatcherView {
        DispatcherView { max_ts: later(self.max_ts, ts), ..self }
    }

    /// The store after `lock` was acquired.
    pub open spec fn acquire(self, lock: LockView) -> DispatcherView {
        DispatcherView { locks: self.locks.insert(lock.key, lock), ..self }
    }

    /// The store after the lock on `key` was released.
    pub open spec fn release(self, key: Seq<u8>) -> DispatcherView {
        DispatcherView { locks: self.locks.remove(key), ..self }
    }

    /// True when a read of the replica of `region_id` is answered under the
    /// lease of the replica.
    pub open spec fn serves_by_lease(self, region_id: u64, allow_stale: bool, now: u64) -> bool {
        &&& self.peers.contains_key(region_id)
        &&& self.peers[region_id].state.leads_with_lease(now)
        &&& !allow_stale
    }

    /// What `serve_read` returns.
    pub open spec fn serve_result(
        self,
        region_id: u64,
        peer_id: u64,
        epoch: RegionEpoch,
        keys: KeyOrRangeView,
        read_timestamp: u64,
        allow_stale: bool,
        now: u64,
    ) -> Result<ReadProgress, ReadErrorView> {
        if !self.peers.contains_key(region_id) {
            Err(ReadErrorView::RegionNotFound)
        } else {
            match self.peers[region_id].state.refusal(peer_id, epoch) {
                Some(e) => Err(e@),
                None => {
                    if self.serves_by_lease(region_id, allow_stale, now) {
                        match blocking_lock(self.locks, keys, read_timestamp) {
                            Some(lock) => Err(ReadErrorView::KeyIsLocked { lock_info: lock }),
                            None => Ok(
                                ReadProgress::Ready(
                                    Snapshot { region_id, read_timestamp, source: ReadSource::Lease },
                                ),
                            ),
                        }
                    } else if self.safe_ts_of(region_id) >= read_timestamp {
                        Ok(
                            ReadProgress::Ready(
                                Snapshot { region_id, read_timestamp, source: ReadSource::Cache },
                            ),
                        )
                    } else {
                        Ok(
                            ReadProgress::Waiting {
                                propose: self.peers[region_id].coordinator.round_to_issue(),
                            },
                        )
                    }
                },
            }
        }
    }

    /// The store after `serve_read`. A read that is turned away or answered
    /// from the cache changes nothing; a read under the lease makes the
    /// store see its timestamp; any other read waits with the coordinator
    /// of the replica.
    pub open spec fn serve(
        self,
        region_id: u64,
        peer_id: u64,
        epoch: RegionEpoch,
        keys: KeyOrRangeView,
        read_timestamp: u64,
        allow_stale: bool,
        callback: u64,
        now: u64,
    ) -> DispatcherView {
        if !self.peers.contains_key(region_id) {
            self
        } else if self.peers[region_id].state.refusal(peer_id, epoch) is Some {
            self
        } else if self.serves_by_lease(region_id, allow_stale, now) {
            self.observe(read_timestamp)
        } else if self.safe_ts_of(region_id) >= read_timestamp {
            self
        } else {
            let peer = self.peers[region_id];
            self.with_peer(
                region_id,
                PeerView {
                    coordinator: peer.coordinator.enqueue(
                        peer.state.term,
                        ReadWaiterView { callback, keys, read_timestamp },
                    ),
                    ..peer
                },
            )
        }
    }

    /// The reads of the replica that may be answered now: those whose log
    /// entries are applied, unless a snapshot is being installed.
    pub open spec fn answerable(self, region_id: u64) -> Seq<CommittedReadView> {
        let peer = self.peers[region_id];
        if self.peers.contains_key(region_id) && peer.state.phase == PeerPhase::Normal {
            peer.coordinator.ready(peer.state.applied_index)
        } else {
            Seq::empty()
        }
    }

    /// The store after the reads of the replica that may be answered were
    /// answered. The store sees the timestamp of each. Each read that no
    /// lock blocks raises the safe timestamp of the region to its own
    /// timestamp; a read that a lock blocks raises nothing.
    pub open spec fn answer(self, region_id: u64) -> DispatcherView {
        let peer = self.peers[region_id];
        if self.peers.contains_key(region_id) && peer.state.phase == PeerPhase::Normal {
            let reads = self.answerable(region_id);
            DispatcherView {
                max_ts: observed(self.max_ts, reads),
                safe_ts: validated(self.locks, self.safe_ts, region_id, reads),
                peers: self.peers.insert(
                    region_id,
                    PeerView {
                        coordinator: peer.coordinator.without_ready(peer.state.applied_index),
                        ..peer
                    },
                ),
                ..self
            }
        } else {
            self
        }
    }

    /// The ends of the reads of the replica that may be answered.
    pub open spec fn answers(self, region_id: u64) -> Seq<ReadCompletionView> {
        completions(self.locks, region_id, self.answerable(region_id))
    }

    /// The store with the state of the replica of `region_id` replaced.
    pub open spec fn with_state(self, region_id: u64, state: RegionReadState) -> DispatcherView {
        self.with_peer(region_id, PeerView { state, ..self.peers[region_id] })
    }

    /// The store with the coordinator of the replica of `region_id`
    /// replaced.
    pub open spec fn with_coordinator(self, region_id: u64, coordinator: CoordinatorView) -> DispatcherView {
        self.with_peer(region_id, PeerView { coordinator, ..self.peers[region_id] })
    }

    /// The store after consensus answered the round `request_id` of the
    /// replica, before the reads that may be answered are answered.
    pub open spec fn respond(self, region_id: u64, request_id: u64, term: u64, commit_index: u64) -> DispatcherView {
        if self.peers.contains_key(region_id) {
            self.with_coordinator(
                region_id,
                self.peers[region_id].coordinator.respond(request_id, term, commit_index),
            )
        } else {
            self
        }
    }

    /// The reads that the answer of consensus turns away.
    pub open spec fn rejected_by(self, region_id: u64, request_id: u64, term: u64) -> Seq<
        ReadWaiterView,
    > {
        if self.peers.contains_key(region_id) {
            self.peers[region_id].coordinator.rejected_by(request_id, term)
        } else {
            Seq::empty()
        }
    }

    /// The store after consensus delivered `message` to the replica of
    /// `region_id`, before the reads that may be answered are answered.
    pub open spec fn receive(self, region_id: u64, message: ConsensusMessage) -> DispatcherView {
        match message {
            ConsensusMessage::ReadIndexResponse { request_id, term, commit_index } => self.respond(
                region_id,
                request_id,
                term,
                commit_index,
            ),
            ConsensusMessage::Snapshot => self.snapshot_started(region_id),
            _ => self,
        }
    }

    /// The reads that `message` turns away.
    pub open spec fn turned_away_by(self, region_id: u64, message: ConsensusMessage) -> Seq<
        ReadWaiterView,
    > {
        match message {
            ConsensusMessage::ReadIndexResponse { request_id, term, .. } => self.rejected_by(
                region_id,
                request_id,
                term,
            ),
            _ => Seq::empty(),
        }
    }

    /// The store after consensus delivered the messages of `batch` to the
    /// replica of `region_id`, in order, before the reads that may be
    /// answered are answered.
    pub open spec fn receive_all(self, region_id: u64, batch: Seq<ConsensusMessage>) -> DispatcherView
        decreases batch.len(),
    {
        if batch.len() == 0 {
            self
        } else {
            self.receive_all(region_id, batch.drop_last()).receive(region_id, batch.last())
        }
    }

    /// The reads that the messages of `batch` turn away, in order.
    pub open spec fn turned_away_by_all(self, region_id: u64, batch: Seq<ConsensusMessage>) -> Seq<
        ReadWaiterView,
    >
        decreases batch.len(),
    {
        if batch.len() == 0 {
            Seq::empty()
        } else {
            self.turned_away_by_all(region_id, batch.drop_last()) + self.receive_all(
                region_id,
                batch.drop_last(),
            ).turned_away_by(region_id, batch.last())
        }
    }

    /// The store after the replica applied the log up to `applied_index`,
    /// before the reads that may be answered are answered.
    pub open spec fn applied(self, region_id: u64, applied_index: u64) -> DispatcherView {
        if self.peers.contains_key(region_id) {
            self.with_state(region_id, self.peers[region_id].state.with_applied(applied_index))
        } else {
            self
        }
    }

    /// The store after the replica started to install a snapshot.
    pub open spec fn snapshot_started(self, region_id: u64) -> DispatcherView {
        if self.peers.contains_key(region_id) {
            self.with_state(
                region_id,
                RegionReadState { phase: PeerPhase::Applying, ..self.peers[region_id].state },
            )
        } else {
            self
        }
    }

    /// The store after the replica installed a snapshot that reaches up to
    /// `snapshot_index`, before the reads that may be answered are answered.
    pub open spec fn snapshot_applied(self, region_id: u64, snapshot_index: u64) -> DispatcherView {
        if self.peers.contains_key(region_id) {
            self.with_state(
                region_id,
                RegionReadState {
                    phase: PeerPhase::Normal,
                    ..self.peers[region_id].state.with_applied(snapshot_index)
                },
            )
        } else {
            self
        }
    }

    /// True when the notice of a role makes a leader of the replica of
    /// `region_id`, which is when the safe timestamp of the region is
    /// reset.
    pub open spec fn role_resets(self, region_id: u64, peer_id: u64, role: Role, term: u64) -> bool {
        self.peers.contains_key(region_id) && self.peers[region_id].state.becomes_leader(
            peer_id,
            role,
            term,
        )
    }

    /// The store after the notice that the replica `peer_id` of
    /// `region_id` has `role` in `term`.
    pub open spec fn role_changed(self, region_id: u64, peer_id: u64, role: Role, term: u64) -> DispatcherView {
        if self.peers.contains_key(region_id) {
            let next = self.with_state(
                region_id,
                self.peers[region_id].state.with_role(peer_id, role, term),
            );
            if self.role_resets(region_id, peer_id, role, term) {
                next.invalidate(region_id)
            } else {
                next
            }
        } else {
            self
        }
    }

    /// The reads that end when consensus reports that the round
    /// `request_id` of the replica found no leader.
    pub open spec fn abandoned_by(self, region_id: u64, request_id: u64) -> Seq<ReadWaiterView> {
        if self.peers.contains_key(region_id) {
            self.peers[region_id].coordinator.abandoned_by(request_id)
        } else {
            Seq::empty()
        }
    }

    /// The store after consensus reported that the round `request_id` of
    /// the replica found no leader.
    pub open spec fn round_abandoned(self, region_id: u64, request_id: u64) -> DispatcherView {
        if self.peers.contains_key(region_id) {
            self.with_coordinator(
                region_id,
                self.peers[region_id].coordinator.abandon(request_id),
            )
        } else {
            self
        }
    }

    /// True when the store takes up the notice that `region_id` has moved
    /// on to `epoch`: it holds a replica of the region, and the epoch is a
    /// later generation than the one the replica is in.
    pub open spec fn epoch_moves(self, region_id: u64, epoch: RegionEpoch) -> bool {
        self.peers.contains_key(region_id) && epoch.newer_than(self.peers[region_id].state.epoch)
    }

    /// The store after the membership of `region_id` changed and the region
    /// thereby moved on to `epoch`. The key range of the region is what it
    /// was: the reads that wait go on waiting, and the safe timestamp
    /// stays.
    pub open spec fn membership_changed(self, region_id: u64, epoch: RegionEpoch) -> DispatcherView {
        if self.peers.contains_key(region_id) {
            self.with_state(region_id, self.peers[region_id].state.with_epoch(epoch))
        } else {
            self
        }
    }

    /// The reads that end when `region_id` is split.
    pub open spec fn split_orphans(self, region_id: u64, epoch: RegionEpoch) -> Seq<ReadWaiterView> {
        if self.epoch_moves(region_id, epoch) {
            self.peers[region_id].coordinator.all_waiters()
        } else {
            Seq::empty()
        }
    }

    /// The store after `region_id` was split into the regions `children`
    /// and thereby moved on to `epoch`. The reads that waited are handed
    /// out, and the safe timestamps of the region and of the children are
    /// reset.
    pub open spec fn split(self, region_id: u64, epoch: RegionEpoch, children: Seq<u64>) -> DispatcherView {
        if self.epoch_moves(region_id, epoch) {
            let peer = self.peers[region_id];
            DispatcherView {
                safe_ts: without_regions(self.safe_ts.remove(region_id), children),
                peers: self.peers.insert(
                    region_id,
                    PeerView {
                        state: peer.state.with_epoch(epoch),
                        coordinator: peer.coordinator.drained(),
                    },
                ),
                ..self
            }
        } else {
            self
        }
    }

    /// True when the store takes up the notice that `source_id` was merged
    /// into `target_id`, which thereby moved on to `epoch`.
    pub open spec fn merges(self, source_id: u64, target_id: u64, epoch: RegionEpoch) -> bool {
        source_id != target_id && self.epoch_moves(target_id, epoch)
    }

    /// The reads of the source that end when it is merged away.
    pub open spec fn merge_source_orphans(
        self,
        source_id: u64,
        target_id: u64,
        epoch: RegionEpoch,
    ) -> Seq<ReadWaiterView> {
        if self.merges(source_id, target_id, epoch) {
            self.orphans(source_id)
        } else {
            Seq::empty()
        }
    }

    /// The reads of the target that end when the source is merged into it.
    pub open spec fn merge_target_orphans(
        self,
        source_id: u64,
        target_id: u64,
        epoch: RegionEpoch,
    ) -> Seq<ReadWaiterView> {
        if self.merges(source_id, target_id, epoch) {
            self.peers[target_id].coordinator.all_waiters()
        } else {
            Seq::empty()
        }
    }

    /// The store after `source_id` was merged into `target_id`. The replica
    /// of the source is gone; the reads that waited for either region are
    /// handed out; the safe timestamps of both are reset.
    pub open spec fn merge(self, source_id: u64, target_id: u64, epoch: RegionEpoch) -> DispatcherView {
        if self.merges(source_id, target_id, epoch) {
            let peer = self.peers[target_id];
            DispatcherView {
                safe_ts: self.safe_ts.remove(source_id).remove(target_id),
                peers: self.peers.remove(source_id).insert(
                    target_id,
                    PeerView {
                        state: peer.state.with_epoch(epoch),
                        coordinator: peer.coordinator.drained(),
                    },
                ),
                ..self
            }
        } else {
            self
        }
    }

    /// True when a read behind `callback` waits with the replica.
    pub open spec fn holds(self, region_id: u64, callback: u64) -> bool {
        self.peers.contains_key(region_id) && self.peers[region_id].coordinator.holds(callback)
    }

    /// The store after the caller behind `callback` gave up.
    pub open spec fn cancel(self, region_id: u64, callback: u64) -> DispatcherView {
        if self.peers.contains_key(region_id) {
            self.with_coordinator(region_id, self.peers[region_id].coordinator.without(callback))
        } else {
            self
        }
    }
}

} // verus!
