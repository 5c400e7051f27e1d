//! The read dispatcher of a store.
//!
//! The dispatcher decides how a read is served: under the lease of a
//! leader, from the safe timestamp that the store has cached for the
//! region, or after a read-index round. It never waits. A read that needs a
//! round is kept, and the caller is told what to hand to consensus; what
//! consensus, the apply loop and the clock later report comes back as calls
//! of the `on_` functions, which hand out the reads that have ended.

use std::collections::HashMap;
use vstd::prelude::*;
use crate::concurrency::{blocking_lock, ConcurrencyManager};
use crate::error::{ReadError, ReadErrorView};
use crate::history::{handed_out, served, step, Event};
use crate::lock::{KeyOrRange, Lock};
use crate::laws::lemma_split_resets;
use crate::model::{
    completions, failures, lemma_receive_all_keeps, lemma_without_regions, observed, read_result,
    validated, without_regions, ConsensusMessage, DispatcherView, PeerView, ReadCompletionView,
    ReadProgress, ReadSource, Snapshot,
};
use crate::read_index::{
    committed_views, waiter_views, CommittedRead, CommittedReadView, ReadIndexRequestCoordinator,
    ReadWaiter, ReadWaiterView,
};
use crate::region::{PeerPhase, RegionEpoch, RegionReadState, Role};
use crate::safe_ts::{safe_ts, ReadIndexSafeTsCache};

verus! {

broadcast use vstd::std_specs::hash::group_hash_axioms;

/// The end of a read that had waited: the token of its caller, and the
/// permission to read or the error.
#[derive(Debug, PartialEq, Eq)]
pub struct ReadCompletion {
    pub callback: u64,
    pub result: Result<Snapshot, ReadError>,
}

impl View for ReadCompletion {
    type V = ReadCompletionView;

    open spec fn view(&self) -> ReadCompletionView {
        ReadCompletionView {
            callback: self.callback,
            result: match self.result {
                Ok(snapshot) => Ok(snapshot),
                Err(error) => Err(error@),
            },
        }
    }
}

/// The ends of `ended`, each as a mathematical value.
pub open spec fn completion_views(ended: Seq<ReadCompletion>) -> Seq<ReadCompletionView> {
    ended.map_values(|c: ReadCompletion| c@)
}

/// What `serve_read` returned, as a mathematical value.
pub open spec fn progress_view(res: Result<ReadProgress, ReadError>) -> Result<
    ReadProgress,
    ReadErrorView,
> {
    match res {
        Ok(progress) => Ok(progress),
        Err(error) => Err(error@),
    }
}

/// One replica: its read state and the reads that wait for it.
struct RegionPeer {
    state: RegionReadState,
    coordinator: ReadIndexRequestCoordinator,
}

impl View for RegionPeer {
    type V = PeerView;

    closed spec fn view(&self) -> PeerView {
        PeerView { state: self.state, coordinator: self.coordinator@ }
    }
}

/// The replicas of `peers`, each as a mathematical value.
spec fn peer_views(peers: Map<u64, RegionPeer>) -> Map<u64, PeerView> {
    peers.map_values(|p: RegionPeer| p@)
}

/// Appends to `out` one failure with `error` for each of `waiters`.
fn fail_waiters(waiters: &Vec<ReadWaiter>, error: &ReadError, out: &mut Vec<ReadCompletion>)
    ensures
        completion_views(final(out)@) == completion_views(old(out)@) + failures(
            waiter_views(waiters@),
            error@,
        ),
{
    let ghost before = completion_views(out@);
    let ghost waiting = waiter_views(waiters@);
    let mut i: usize = 0;
    proof {
        assert(before + failures(waiting.take(0), error@) =~= before);
    }
    while i < waiters.len()
        invariant
            i <= waiters.len(),
            waiting == waiter_views(waiters@),
            completion_views(out@) == before + failures(waiting.take(i as int), error@),
        decreases waiters.len() - i,
    {
        let ended = ReadCompletion { callback: waiters[i].callback, result: Err(error.clone()) };
        proof {
            assert(completion_views(out@.push(ended)) =~= completion_views(out@).push(ended@));
            assert(before + failures(waiting.take(i + 1), error@) =~= (before + failures(
                waiting.take(i as int),
                error@,
            )).push(ended@));
        }
        out.push(ended);
        i = i + 1;
    }
    proof {
        assert(waiting.take(i as int) =~= waiting);
    }
}

/// Serves the reads of the regions of one store.
pub struct ReadDispatcher {
    cm: ConcurrencyManager,
    cache: ReadIndexSafeTsCache,
    peers: HashMap<u64, RegionPeer>,
}

impl View for ReadDispatcher {
    type V = DispatcherView;

    closed spec fn view(&self) -> DispatcherView {
        DispatcherView {
            max_ts: self.cm@.max_ts,
            locks: self.cm@.locks,
            safe_ts: self.cache@,
            peers: peer_views(self.peers@),
        }
    }
}

impl ReadDispatcher {
    /// True when the lock table is in order and no safe timestamp is beyond
    /// the highest timestamp that the store has seen.
    pub closed spec fn wf(&self) -> bool {
        &&& self.cm.wf()
        &&& self@.bounded()
    }

    /// In a dispatcher that is in order, no safe timestamp is beyond the
    /// highest timestamp that the store has seen.
    pub proof fn lemma_bounded(&self)
        requires
            self.wf(),
        ensures
            self@.bounded(),
    {
    }

    /// A dispatcher for a store that holds no replica and no lock and has
    /// seen no timestamp.
    pub fn new() -> (res: ReadDispatcher)
        ensures
            res.wf(),
            res@ == DispatcherView::empty(),
    {
        let res = ReadDispatcher {
            cm: ConcurrencyManager::new(),
            cache: ReadIndexSafeTsCache::new(),
            peers: HashMap::new(),
        };
        assert(res@.peers =~= Map::<u64, PeerView>::empty());
        res
    }

    /// Takes the replica of `region_id` out of the table of replicas.
    fn take_peer(&mut self, region_id: u64) -> (peer: Option<RegionPeer>)
        ensures
            final(self).cm == old(self).cm,
            final(self).cache == old(self).cache,
            final(self).peers@ == old(self).peers@.remove(region_id),
            peer is Some <==> old(self).peers@.contains_key(region_id),
            peer matches Some(p) ==> old(self).peers@[region_id] == p,
    {
        self.peers.remove(&region_id)
    }

    /// Puts `peer` into the table of replicas as the replica of
    /// `region_id`.
    fn put_peer(&mut self, region_id: u64, peer: RegionPeer)
        ensures
            final(self).cm == old(self).cm,
            final(self).cache == old(self).cache,
            final(self).peers@ == old(self).peers@.insert(region_id, peer),
    {
        self.peers.insert(region_id, peer);
    }

    /// The state of the replica of `region_id`, if the store holds one.
    pub fn region_state(&self, region_id: u64) -> (state: Option<RegionReadState>)
        ensures
            state is Some <==> self@.peers.contains_key(region_id),
            state matches Some(s) ==> s == self@.peers[region_id].state,
    {
        match self.peers.get(&region_id) {
            Some(peer) => Some(peer.state),
            None => None,
        }
    }

    /// The number of reads of `region_id` that wait.
    pub fn pending_reads(&self, region_id: u64) -> (n: usize)
        ensures
            n == self@.pending(region_id) || (n == usize::MAX && self@.pending(region_id)
                > usize::MAX),
    {
        match self.peers.get(&region_id) {
            Some(peer) => peer.coordinator.pending(),
            None => 0,
        }
    }

    /// The safe timestamp of `region_id`: the highest timestamp at which
    /// the store answers a read of the region without a read-index round,
    /// zero where it knows of none.
    pub fn get_safe_ts(&self, region_id: u64) -> (ts: u64)
        ensures
            ts == self@.safe_ts_of(region_id),
    {
        self.cache.get(region_id)
    }

    /// Resets the safe timestamp of `region_id` to zero.
    pub fn invalidate_region(&mut self, region_id: u64)
        requires
            old(self).wf(),
        ensures
            final(self).wf(),
            final(self)@ == old(self)@.invalidate(region_id),
            final(self)@.safe_ts_of(region_id) == 0,
            final(self)@ == step(old(self)@, Event::Invalidate { region_id }),
    {
        proof {
            reveal(step);
        }
        self.cache.reset(region_id);
        proof {
            assert forall|r: u64| #[trigger] safe_ts(self@.safe_ts, r) <= self@.max_ts by {
                assert(safe_ts(old(self)@.safe_ts, r) <= old(self)@.max_ts);
            }
        }
    }

    /// The highest timestamp that the store has seen.
    pub fn max_ts(&self) -> (ts: u64)
        ensures
            ts == self@.max_ts,
    {
        self.cm.max_ts()
    }

    /// Takes note of the timestamp `ts`.
    pub fn update_max_ts(&mut self, ts: u64)
        requires
            old(self).wf(),
        ensures
            final(self).wf(),
            final(self)@ == old(self)@.observe(ts),
            final(self)@ == step(old(self)@, Event::Observe { ts }),
    {
        proof {
            reveal(step);
        }
        self.cm.update_max_ts(ts);
        proof {
            assert forall|r: u64| #[trigger] safe_ts(self@.safe_ts, r) <= self@.max_ts by {
                assert(safe_ts(old(self)@.safe_ts, r) <= old(self)@.max_ts);
            }
        }
    }

    /// The lock held on `key`, if there is one.
    pub fn read_lock(&self, key: &[u8]) -> (res: Option<Lock>)
        requires
            self.wf(),
        ensures
            res is Some <==> self@.locks.contains_key(key@),
            res matches Some(lock) ==> lock@ == self@.locks[key@],
    {
        self.cm.read_lock(key)
    }

    /// Files `lock` under its key, in place of the lock that was held on
    /// that key, and returns the lock that was replaced.
    pub fn acquire_lock(&mut self, lock: Lock) -> (previous: Option<Lock>)
        requires
            old(self).wf(),
        ensures
            final(self).wf(),
            final(self)@ == old(self)@.acquire(lock@),
            previous is Some <==> old(self)@.locks.contains_key(lock@.key),
            previous matches Some(p) ==> p@ == old(self)@.locks[lock@.key],
            final(self)@ == step(old(self)@, Event::Acquire { lock: lock@ }),
    {
        proof {
            reveal(step);
        }
        let previous: Option<Lock> = self.cm.acquire(lock);
        proof {
            assert forall|r: u64| #[trigger] safe_ts(self@.safe_ts, r) <= self@.max_ts by {
                assert(safe_ts(old(self)@.safe_ts, r) <= old(self)@.max_ts);
            }
        }
        previous
    }

    /// Takes the lock held on `key` out of the table and returns it.
    pub fn release_lock(&mut self, key: &[u8]) -> (previous: Option<Lock>)
        requires
            old(self).wf(),
        ensures
            final(self).wf(),
            final(self)@ == old(self)@.release(key@),
            previous is Some <==> old(self)@.locks.contains_key(key@),
            previous matches Some(p) ==> p@ == old(self)@.locks[key@],
            final(self)@ == step(old(self)@, Event::Release { key: key@ }),
    {
        proof {
            reveal(step);
        }
        let previous: Option<Lock> = self.cm.release(key);
        proof {
            assert forall|r: u64| #[trigger] safe_ts(self@.safe_ts, r) <= self@.max_ts by {
                assert(safe_ts(old(self)@.safe_ts, r) <= old(self)@.max_ts);
            }
        }
        previous
    }

    /// Creates the replica `peer_id` of `region_id`, a follower that has
    /// applied nothing, and returns whether it did: the store holds at most
    /// one replica of a region.
    pub fn create_peer(&mut self, region_id: u64, peer_id: u64, epoch: RegionEpoch) -> (created: bool)
        requires
            old(self).wf(),
        ensures
            final(self).wf(),
            final(self)@ == old(self)@.create_peer(region_id, peer_id, epoch),
            created == !old(self)@.peers.contains_key(region_id),
            created ==> final(self)@.safe_ts_of(region_id) == 0,
            final(self)@ == step(old(self)@, Event::CreatePeer { region_id, peer_id, epoch }),
    {
        proof {
            reveal(step);
        }
        if self.peers.get(&region_id).is_some() {
            return false;
        }
        let peer = RegionPeer {
            state: RegionReadState::new(region_id, peer_id, epoch),
            coordinator: ReadIndexRequestCoordinator::new(),
        };
        self.put_peer(region_id, peer);
        self.cache.reset(region_id);
        proof {
            assert(self@.peers =~= old(self)@.peers.insert(region_id, peer@));
            assert forall|r: u64| #[trigger] safe_ts(self@.safe_ts, r) <= self@.max_ts by {
                assert(safe_ts(old(self)@.safe_ts, r) <= old(self)@.max_ts);
            }
        }
        true
    }

    /// Destroys the replica of `region_id` and hands out the reads that
    /// waited for it, each with `RegionNotFound`. The safe timestamp of the
    /// region is reset.
    pub fn destroy_peer(&mut self, region_id: u64) -> (ended: Vec<ReadCompletion>)
        requires
            old(self).wf(),
        ensures
            final(self).wf(),
            final(self)@ == old(self)@.destroy_peer(region_id),
            final(self)@.safe_ts_of(region_id) == 0,
            completion_views(ended@) == failures(
                old(self)@.orphans(region_id),
                ReadErrorView::RegionNotFound,
            ),
            final(self)@ == step(old(self)@, Event::DestroyPeer { region_id }),
            completion_views(ended@) == handed_out(old(self)@, Event::DestroyPeer { region_id }),
    {
        proof {
            reveal(step);
        }
        let mut ended: Vec<ReadCompletion> = Vec::new();
        proof {
            assert(completion_views(ended@) =~= Seq::<ReadCompletionView>::empty());
        }
        match self.take_peer(region_id) {
            Some(peer) => {
                let mut peer = peer;
                let waiters: Vec<ReadWaiter> = peer.coordinator.fail_all();
                fail_waiters(&waiters, &ReadError::RegionNotFound, &mut ended);
                proof {
                    assert(completion_views(ended@) =~= failures(
                        old(self)@.orphans(region_id),
                        ReadErrorView::RegionNotFound,
                    ));
                }
            },
            None => {
                proof {
                    assert(failures(
                        Seq::<ReadWaiterView>::empty(),
                        ReadErrorView::RegionNotFound,
                    ) =~= Seq::<ReadCompletionView>::empty());
                }
            },
        }
        self.cache.reset(region_id);
        proof {
            assert(self@.peers =~= old(self)@.peers.remove(region_id));
            assert forall|r: u64| #[trigger] safe_ts(self@.safe_ts, r) <= self@.max_ts by {
                assert(safe_ts(old(self)@.safe_ts, r) <= old(self)@.max_ts);
            }
        }
        ended
    }

    /// Serves a read of `keys` at `read_timestamp`, addressed to the
    /// replica `peer_id` of `region_id` by a caller who believes the region
    /// to be at `epoch`. `now` is the reading of the clock by which leases
    /// are measured.
    ///
    /// The read is turned away at once where the store holds no such
    /// replica, the epoch is not the region's, or a snapshot is being
    /// installed. A leader whose lease has not run out answers, unless
    /// `allow_stale` is set, after a look at the lock table. Otherwise the
    /// read is answered if the safe timestamp of the region has reached
    /// its timestamp. Otherwise it waits for a read-index round under the
    /// token `callback`.
    pub fn serve_read(
        &mut self,
        region_id: u64,
        peer_id: u64,
        epoch: RegionEpoch,
        keys: KeyOrRange,
        read_timestamp: u64,
        allow_stale: bool,
        callback: u64,
        now: u64,
    ) -> (res: Result<ReadProgress, ReadError>)
        requires
            old(self).wf(),
        ensures
            final(self).wf(),
            final(self)@ == old(self)@.serve(
                region_id,
                peer_id,
                epoch,
                keys@,
                read_timestamp,
                allow_stale,
                callback,
                now,
            ),
            progress_view(res) == old(self)@.serve_result(
                region_id,
                peer_id,
                epoch,
                keys@,
                read_timestamp,
                allow_stale,
                now,
            ),
            final(self)@ == step(
                old(self)@,
                Event::ServeRead {
                    region_id,
                    peer_id,
                    epoch,
                    keys: keys@,
                    read_timestamp,
                    allow_stale,
                    callback,
                    now,
                },
            ),
            Some(progress_view(res)) == served(
                old(self)@,
                Event::ServeRead {
                    region_id,
                    peer_id,
                    epoch,
                    keys: keys@,
                    read_timestamp,
                    allow_stale,
                    callback,
                    now,
                },
            ),
    {
        proof {
            reveal(step);
        }
        let state: RegionReadState = match self.peers.get(&region_id) {
            Some(peer) => peer.state,
            None => {
                return Err(ReadError::RegionNotFound);
            },
        };
        match state.check_read(peer_id, epoch) {
            Err(e) => {
                return Err(e);
            },
            Ok(()) => {},
        }
        if state.has_valid_lease(now) && !allow_stale {
            self.cm.update_max_ts(read_timestamp);
            proof {
                assert forall|r: u64| #[trigger] safe_ts(self@.safe_ts, r) <= self@.max_ts by {
                    assert(safe_ts(old(self)@.safe_ts, r) <= old(self)@.max_ts);
                }
            }
            return match self.cm.blocking_lock(&keys, read_timestamp) {
                Some(lock) => Err(ReadError::KeyIsLocked { lock_info: lock }),
                None => Ok(
                    ReadProgress::Ready(
                        Snapshot { region_id, read_timestamp, source: ReadSource::Lease },
                    ),
                ),
            };
        }
        if self.cache.get(region_id) >= read_timestamp {
            return Ok(
                ReadProgress::Ready(
                    Snapshot { region_id, read_timestamp, source: ReadSource::Cache },
                ),
            );
        }
        let mut peer: RegionPeer = self.take_peer(region_id).unwrap();
        let propose: Option<u64> = peer.coordinator.request_read_index(
            peer.state.term,
            ReadWaiter { callback, keys, read_timestamp },
        );
        self.put_peer(region_id, peer);
        proof {
            assert(self@.peers =~= old(self)@.peers.insert(region_id, peer@));
        }
        Ok(ReadProgress::Waiting { propose })
    }

    /// Answers `reads`, whose rounds have ended and whose log entries the
    /// replica of `region_id` has applied, and appends their ends to `out`.
    fn answer_reads(&mut self, region_id: u64, reads: &Vec<CommittedRead>, out: &mut Vec<ReadCompletion>)
        requires
            old(self).wf(),
        ensures
            final(self).wf(),
            final(self).peers == old(self).peers,
            final(self)@.locks == old(self)@.locks,
            final(self)@.max_ts == observed(old(self)@.max_ts, committed_views(reads@)),
            final(self)@.safe_ts == validated(
                old(self)@.locks,
                old(self)@.safe_ts,
                region_id,
                committed_views(reads@),
            ),
            completion_views(final(out)@) == completion_views(old(out)@) + completions(
                old(self)@.locks,
                region_id,
                committed_views(reads@),
            ),
    {
        let ghost before = completion_views(out@);
        let ghost views = committed_views(reads@);
        let ghost locks = self@.locks;
        let mut i: usize = 0;
        proof {
            assert(before + completions(locks, region_id, views.take(0)) =~= before);
        }
        while i < reads.len()
            invariant
                i <= reads.len(),
                views == committed_views(reads@),
                locks == old(self)@.locks,
                self.wf(),
                self.peers == old(self).peers,
                self@.locks == locks,
                self@.max_ts == observed(old(self)@.max_ts, views.take(i as int)),
                self@.safe_ts == validated(locks, old(self)@.safe_ts, region_id, views.take(i as int)),
                completion_views(out@) == before + completions(locks, region_id, views.take(i as int)),
            decreases reads.len() - i,
        {
            let ghost entered = self@;
            let read: &CommittedRead = &reads[i];
            let read_timestamp: u64 = read.waiter.read_timestamp;
            self.cm.update_max_ts(read_timestamp);
            let result: Result<Snapshot, ReadError> = match self.cm.blocking_lock(
                &read.waiter.keys,
                read_timestamp,
            ) {
                Some(lock) => Err(ReadError::KeyIsLocked { lock_info: lock }),
                None => {
                    self.cache.advance(region_id, read_timestamp);
                    Ok(
                        Snapshot {
                            region_id,
                            read_timestamp,
                            source: ReadSource::ReadIndex {
                                term: read.term,
                                commit_index: read.commit_index,
                            },
                        },
                    )
                },
            };
            let ended = ReadCompletion { callback: read.waiter.callback, result };
            proof {
                assert(views.take(i + 1).drop_last() =~= views.take(i as int));
                assert(views.take(i + 1).last() == views[i as int]);
                assert(views[i as int] == read@);
                assert(ended@.result == read_result(locks, region_id, read@));
                assert forall|r: u64| #[trigger] safe_ts(self@.safe_ts, r) <= self@.max_ts by {
                    assert(safe_ts(entered.safe_ts, r) <= entered.max_ts);
                }
                assert(completion_views(out@.push(ended)) =~= completion_views(out@).push(ended@));
                assert(before + completions(locks, region_id, views.take(i + 1)) =~= (before
                    + completions(locks, region_id, views.take(i as int))).push(ended@));
            }
            out.push(ended);
            i = i + 1;
        }
        proof {
            assert(views.take(i as int) =~= views);
        }
    }

    /// Answers the reads of `peer`, the replica of `region_id`, that may be
    /// answered now, and puts the replica back into the table.
    fn answer_and_put(&mut self, region_id: u64, peer: RegionPeer, out: &mut Vec<ReadCompletion>)
        requires
            old(self).wf(),
        ensures
            final(self).wf(),
            final(self)@ == (DispatcherView {
                peers: old(self)@.peers.insert(region_id, peer@),
                ..old(self)@
            }).answer(region_id),
            completion_views(final(out)@) == completion_views(old(out)@) + (DispatcherView {
                peers: old(self)@.peers.insert(region_id, peer@),
                ..old(self)@
            }).answers(region_id),
    {
        let ghost start = DispatcherView {
            peers: old(self)@.peers.insert(region_id, peer@),
            ..old(self)@
        };
        let mut peer = peer;
        match peer.state.phase {
            PeerPhase::Normal => {
                let reads: Vec<CommittedRead> = peer.coordinator.take_ready(peer.state.applied_index);
                self.answer_reads(region_id, &reads, out);
                self.put_peer(region_id, peer);
                proof {
                    assert(self@.peers =~= start.answer(region_id).peers);
                }
            },
            PeerPhase::Applying => {
                self.put_peer(region_id, peer);
                proof {
                    assert(self@.peers =~= start.peers);
                    assert(completion_views(out@) + Seq::<ReadCompletionView>::empty()
                        =~= completion_views(out@));
                    assert(completions(
                        start.locks,
                        region_id,
                        Seq::<CommittedReadView>::empty(),
                    ) =~= Seq::<ReadCompletionView>::empty());
                }
            },
        }
    }

    /// Takes in the answer of consensus for the round `request_id` of the
    /// replica of `region_id`: `commit_index`, confirmed for `term`.
    ///
    /// An answer for another term than the round was issued in is not
    /// accepted: the reads of the round end with `StaleCommand`. Otherwise
    /// they end as soon as the replica has applied the log up to
    /// `commit_index`, each with the first lock that blocks it or with the
    /// permission to read. The ends of the reads that have ended are
    /// returned, those turned away first.
    pub fn on_read_index_response(
        &mut self,
        region_id: u64,
        request_id: u64,
        term: u64,
        commit_index: u64,
    ) -> (ended: Vec<ReadCompletion>)
        requires
            old(self).wf(),
        ensures
            final(self).wf(),
            final(self)@ == old(self)@.respond(region_id, request_id, term, commit_index).answer(
                region_id,
            ),
            completion_views(ended@) == failures(
                old(self)@.rejected_by(region_id, request_id, term),
                ReadErrorView::StaleCommand,
            ) + old(self)@.respond(region_id, request_id, term, commit_index).answers(region_id),
            final(self)@ == step(
                old(self)@,
                Event::ReadIndexResponse { region_id, request_id, term, commit_index },
            ),
            completion_views(ended@) == handed_out(
                old(self)@,
                Event::ReadIndexResponse { region_id, request_id, term, commit_index },
            ),
    {
        proof {
            reveal(step);
        }
        let mut ended: Vec<ReadCompletion> = Vec::new();
        proof {
            assert(completion_views(ended@) =~= Seq::<ReadCompletionView>::empty());
        }
        match self.take_peer(region_id) {
            Some(peer) => {
                let mut peer = peer;
                let rejected: Vec<ReadWaiter> = peer.coordinator.on_response(
                    request_id,
                    term,
                    commit_index,
                );
                fail_waiters(&rejected, &ReadError::StaleCommand, &mut ended);
                proof {
                    assert(self@.peers.insert(region_id, peer@) =~= old(self)@.respond(
                        region_id,
                        request_id,
                        term,
                        commit_index,
                    ).peers);
                    assert((DispatcherView {
                        peers: self@.peers.insert(region_id, peer@),
                        ..self@
                    }) == old(self)@.respond(region_id, request_id, term, commit_index));
                    assert(completion_views(ended@) =~= failures(
                        old(self)@.rejected_by(region_id, request_id, term),
                        ReadErrorView::StaleCommand,
                    ));
                }
                self.answer_and_put(region_id, peer, &mut ended);
            },
            None => {
                proof {
                    assert(self@.peers =~= old(self)@.peers);
                    assert(failures(Seq::<ReadWaiterView>::empty(), ReadErrorView::StaleCommand)
                        =~= Seq::<ReadCompletionView>::empty());
                    assert(completions(
                        old(self)@.locks,
                        region_id,
                        Seq::<CommittedReadView>::empty(),
                    ) =~= Seq::<ReadCompletionView>::empty());
                }
            },
        }
        ended
    }

    /// Takes in a batch of messages that consensus delivered to the replica
    /// of `region_id` in one tick.
    ///
    /// The whole batch is taken in before any read that waits is looked at
    /// again: what a later message of the batch brings about is in force
    /// when the reads are answered. The ends of the reads that have ended
    /// are returned, those turned away first.
    pub fn on_messages(&mut self, region_id: u64, batch: &[ConsensusMessage]) -> (ended: Vec<
        ReadCompletion,
    >)
        requires
            old(self).wf(),
        ensures
            final(self).wf(),
            final(self)@ == old(self)@.receive_all(region_id, batch@).answer(region_id),
            completion_views(ended@) == failures(
                old(self)@.turned_away_by_all(region_id, batch@),
                ReadErrorView::StaleCommand,
            ) + old(self)@.receive_all(region_id, batch@).answers(region_id),
            final(self)@ == step(old(self)@, Event::Messages { region_id, batch: batch@ }),
            completion_views(ended@) == handed_out(
                old(self)@,
                Event::Messages { region_id, batch: batch@ },
            ),
    {
        proof {
            reveal(step);
        }
        let mut ended: Vec<ReadCompletion> = Vec::new();
        proof {
            assert(completion_views(ended@) =~= Seq::<ReadCompletionView>::empty());
            assert(failures(Seq::<ReadWaiterView>::empty(), ReadErrorView::StaleCommand)
                =~= Seq::<ReadCompletionView>::empty());
            lemma_receive_all_keeps(old(self)@, region_id, batch@);
        }
        match self.take_peer(region_id) {
            Some(peer) => {
                let mut peer = peer;
                let ghost base = self@;
                let mut i: usize = 0;
                proof {
                    assert(base.peers.insert(region_id, peer@) =~= old(self)@.peers);
                }
                while i < batch.len()
                    invariant
                        i <= batch.len(),
                        self@ == base,
                        base.max_ts == old(self)@.max_ts,
                        base.locks == old(self)@.locks,
                        base.safe_ts == old(self)@.safe_ts,
                        base.peers == old(self)@.peers.remove(region_id),
                        self.wf(),
                        old(self)@.peers.contains_key(region_id),
                        (DispatcherView { peers: base.peers.insert(region_id, peer@), ..base })
                            == old(self)@.receive_all(region_id, batch@.take(i as int)),
                        completion_views(ended@) == failures(
                            old(self)@.turned_away_by_all(region_id, batch@.take(i as int)),
                            ReadErrorView::StaleCommand,
                        ),
                    decreases batch.len() - i,
                {
                    let ghost before = old(self)@.receive_all(region_id, batch@.take(i as int));
                    let ghost turned = old(self)@.turned_away_by_all(
                        region_id,
                        batch@.take(i as int),
                    );
                    proof {
                        assert(batch@.take(i + 1).drop_last() =~= batch@.take(i as int));
                        assert(batch@.take(i + 1).last() == batch@[i as int]);
                        lemma_receive_all_keeps(old(self)@, region_id, batch@.take(i as int));
                        assert(before.peers.contains_key(region_id));
                    }
                    match batch[i] {
                        ConsensusMessage::ReadIndexResponse { request_id, term, commit_index } => {
                            let rejected: Vec<ReadWaiter> = peer.coordinator.on_response(
                                request_id,
                                term,
                                commit_index,
                            );
                            fail_waiters(&rejected, &ReadError::StaleCommand, &mut ended);
                            proof {
                                assert(failures(
                                    turned + waiter_views(rejected@),
                                    ReadErrorView::StaleCommand,
                                ) =~= failures(turned, ReadErrorView::StaleCommand) + failures(
                                    waiter_views(rejected@),
                                    ReadErrorView::StaleCommand,
                                ));
                            }
                        },
                        ConsensusMessage::Snapshot => {
                            peer.state.on_snapshot_applying_start();
                            proof {
                                assert(turned + Seq::<ReadWaiterView>::empty() =~= turned);
                            }
                        },
                        _ => {
                            proof {
                                assert(turned + Seq::<ReadWaiterView>::empty() =~= turned);
                            }
                        },
                    }
                    proof {
                        assert(base.peers.insert(region_id, peer@) =~= before.receive(
                            region_id,
                            batch@[i as int],
                        ).peers);
                    }
                    i = i + 1;
                }
                proof {
                    assert(batch@.take(i as int) =~= batch@);
                }
                self.answer_and_put(region_id, peer, &mut ended);
            },
            None => {
                proof {
                    assert(self@.peers =~= old(self)@.peers);
                    assert(completions(
                        old(self)@.locks,
                        region_id,
                        Seq::<CommittedReadView>::empty(),
                    ) =~= Seq::<ReadCompletionView>::empty());
                }
            },
        }
        ended
    }

    /// Takes in the report of consensus that the round `request_id` of the
    /// replica of `region_id` found no leader, and hands out the reads of
    /// the round, each with `NotLeader` and the hint that consensus gave.
    pub fn on_not_leader(&mut self, region_id: u64, request_id: u64, new_leader_hint: Option<u64>) -> (ended:
        Vec<ReadCompletion>)
        requires
            old(self).wf(),
        ensures
            final(self).wf(),
            final(self)@ == old(self)@.round_abandoned(region_id, request_id),
            completion_views(ended@) == failures(
                old(self)@.abandoned_by(region_id, request_id),
                ReadErrorView::NotLeader { new_leader_hint },
            ),
            final(self)@ == step(
                old(self)@,
                Event::NotLeader { region_id, request_id, new_leader_hint },
            ),
            completion_views(ended@) == handed_out(
                old(self)@,
                Event::NotLeader { region_id, request_id, new_leader_hint },
            ),
    {
        proof {
            reveal(step);
        }
        let mut ended: Vec<ReadCompletion> = Vec::new();
        proof {
            assert(completion_views(ended@) =~= Seq::<ReadCompletionView>::empty());
        }
        match self.take_peer(region_id) {
            Some(peer) => {
                let mut peer = peer;
                let abandoned: Vec<ReadWaiter> = peer.coordinator.on_abandoned(request_id);
                fail_waiters(&abandoned, &ReadError::NotLeader { new_leader_hint }, &mut ended);
                self.put_peer(region_id, peer);
                proof {
                    assert(self@.peers =~= old(self)@.round_abandoned(region_id, request_id).peers);
                    assert(completion_views(ended@) =~= failures(
                        old(self)@.abandoned_by(region_id, request_id),
                        ReadErrorView::NotLeader { new_leader_hint },
                    ));
                }
            },
            None => {
                proof {
                    assert(self@.peers =~= old(self)@.peers);
                    assert(failures(
                        Seq::<ReadWaiterView>::empty(),
                        ReadErrorView::NotLeader { new_leader_hint },
                    ) =~= Seq::<ReadCompletionView>::empty());
                }
            },
        }
        ended
    }

    /// Takes in the report that the replica of `region_id` has applied the
    /// log up to `applied_index`, and returns the ends of the reads that
    /// may now be answered.
    pub fn on_applied(&mut self, region_id: u64, applied_index: u64) -> (ended: Vec<ReadCompletion>)
        requires
            old(self).wf(),
        ensures
            final(self).wf(),
            final(self)@ == old(self)@.applied(region_id, applied_index).answer(region_id),
            completion_views(ended@) == old(self)@.applied(region_id, applied_index).answers(
                region_id,
            ),
            final(self)@ == step(old(self)@, Event::Applied { region_id, applied_index }),
            completion_views(ended@) == handed_out(
                old(self)@,
                Event::Applied { region_id, applied_index },
            ),
    {
        proof {
            reveal(step);
        }
        let mut ended: Vec<ReadCompletion> = Vec::new();
        proof {
            assert(completion_views(ended@) =~= Seq::<ReadCompletionView>::empty());
        }
        match self.take_peer(region_id) {
            Some(peer) => {
                let mut peer = peer;
                peer.state.on_applied(applied_index);
                proof {
                    assert(self@.peers.insert(region_id, peer@) =~= old(self)@.applied(
                        region_id,
                        applied_index,
                    ).peers);
                    assert((DispatcherView {
                        peers: self@.peers.insert(region_id, peer@),
                        ..self@
                    }) == old(self)@.applied(region_id, applied_index));
                }
                self.answer_and_put(region_id, peer, &mut ended);
                proof {
                    let start = old(self)@.applied(region_id, applied_index);
                    assert(Seq::<ReadCompletionView>::empty() + start.answers(region_id)
                        =~= start.answers(region_id));
                }
            },
            None => {
                proof {
                    assert(self@.peers =~= old(self)@.peers);
                    assert(completions(
                        old(self)@.locks,
                        region_id,
                        Seq::<CommittedReadView>::empty(),
                    ) =~= Seq::<ReadCompletionView>::empty());
                }
            },
        }
        ended
    }

    /// Takes in the report that the replica of `region_id` starts to
    /// install a snapshot. Until the snapshot is installed the replica
    /// answers no read.
    pub fn on_snapshot_applying_start(&mut self, region_id: u64)
        requires
            old(self).wf(),
        ensures
            final(self).wf(),
            final(self)@ == old(self)@.snapshot_started(region_id),
            final(self)@ == step(old(self)@, Event::SnapshotStart { region_id }),
    {
        proof {
            reveal(step);
        }
        match self.take_peer(region_id) {
            Some(peer) => {
                let mut peer = peer;
                peer.state.on_snapshot_applying_start();
                self.put_peer(region_id, peer);
                proof {
                    assert(self@.peers =~= old(self)@.snapshot_started(region_id).peers);
                }
            },
            None => {
                proof {
                    assert(self@.peers =~= old(self)@.peers);
                }
            },
        }
    }

    /// Takes in the report that the replica of `region_id` has installed a
    /// snapshot that reaches up to `snapshot_index`, and returns the ends
    /// of the reads that may now be answered.
    pub fn on_snapshot_applied(&mut self, region_id: u64, snapshot_index: u64) -> (ended: Vec<
        ReadCompletion,
    >)
        requires
            old(self).wf(),
        ensures
            final(self).wf(),
            final(self)@ == old(self)@.snapshot_applied(region_id, snapshot_index).answer(region_id),
            completion_views(ended@) == old(self)@.snapshot_applied(
                region_id,
                snapshot_index,
            ).answers(region_id),
            final(self)@ == step(old(self)@, Event::SnapshotApplied { region_id, snapshot_index }),
            completion_views(ended@) == handed_out(
                old(self)@,
                Event::SnapshotApplied { region_id, snapshot_index },
            ),
    {
        proof {
            reveal(step);
        }
        let mut ended: Vec<ReadCompletion> = Vec::new();
        proof {
            assert(completion_views(ended@) =~= Seq::<ReadCompletionView>::empty());
        }
        match self.take_peer(region_id) {
            Some(peer) => {
                let mut peer = peer;
                peer.state.on_snapshot_applied(snapshot_index);
                proof {
                    assert(self@.peers.insert(region_id, peer@) =~= old(self)@.snapshot_applied(
                        region_id,
                        snapshot_index,
                    ).peers);
                    assert((DispatcherView {
                        peers: self@.peers.insert(region_id, peer@),
                        ..self@
                    }) == old(self)@.snapshot_applied(region_id, snapshot_index));
                }
                self.answer_and_put(region_id, peer, &mut ended);
                proof {
                    let start = old(self)@.snapshot_applied(region_id, snapshot_index);
                    assert(Seq::<ReadCompletionView>::empty() + start.answers(region_id)
                        =~= start.answers(region_id));
                }
            },
            None => {
                proof {
                    assert(self@.peers =~= old(self)@.peers);
                    assert(completions(
                        old(self)@.locks,
                        region_id,
                        Seq::<CommittedReadView>::empty(),
                    ) =~= Seq::<ReadCompletionView>::empty());
                }
            },
        }
        ended
    }

    /// Takes in the notice of consensus that the replica `peer_id` of
    /// `region_id` has `role` in `term`. A notice about another replica or
    /// from an earlier term is passed over. Where the notice makes a leader
    /// of a replica that was none, the safe timestamp of the region is
    /// reset: a leader does not read by it.
    ///
    /// The lease of a leader is part of its role: with the role it is gone,
    /// and a notice that names a leader sets the lease anew. The rounds
    /// that are in flight stay in flight; they are answered for the term in
    /// which they were issued or not at all.
    pub fn on_role_change(&mut self, region_id: u64, peer_id: u64, role: Role, term: u64)
        requires
            old(self).wf(),
        ensures
            final(self).wf(),
            final(self)@ == old(self)@.role_changed(region_id, peer_id, role, term),
            old(self)@.role_resets(region_id, peer_id, role, term) ==> final(self)@.safe_ts_of(
                region_id,
            ) == 0,
            final(self)@ == step(old(self)@, Event::RoleChange { region_id, peer_id, role, term }),
    {
        proof {
            reveal(step);
        }
        match self.take_peer(region_id) {
            Some(peer) => {
                let mut peer = peer;
                let became_leader: bool = peer.state.on_role_change(peer_id, role, term);
                self.put_peer(region_id, peer);
                if became_leader {
                    self.cache.reset(region_id);
                }
                proof {
                    assert(self@.peers =~= old(self)@.role_changed(
                        region_id,
                        peer_id,
                        role,
                        term,
                    ).peers);
                    assert forall|r: u64| #[trigger] safe_ts(self@.safe_ts, r) <= self@.max_ts by {
                        assert(safe_ts(old(self)@.safe_ts, r) <= old(self)@.max_ts);
                    }
                }
            },
            None => {
                proof {
                    assert(self@.peers =~= old(self)@.peers);
                }
            },
        }
    }

    /// Takes in the notice that the membership of `region_id` has changed
    /// and the region has thereby moved on to `epoch`. The notice is passed
    /// over unless the store holds a replica of the region and `epoch` is a
    /// later generation than its own. From then on reads are taken under
    /// the new epoch only; the reads that wait are not disturbed.
    pub fn on_conf_change(&mut self, region_id: u64, epoch: RegionEpoch) -> (moved: bool)
        requires
            old(self).wf(),
        ensures
            final(self).wf(),
            final(self)@ == old(self)@.membership_changed(region_id, epoch),
            moved == old(self)@.epoch_moves(region_id, epoch),
            final(self)@ == step(old(self)@, Event::ConfChange { region_id, epoch }),
    {
        proof {
            reveal(step);
        }
        match self.take_peer(region_id) {
            Some(peer) => {
                let mut peer = peer;
                let moved: bool = peer.state.advance_epoch(epoch);
                self.put_peer(region_id, peer);
                proof {
                    assert(self@.peers =~= old(self)@.membership_changed(region_id, epoch).peers);
                }
                moved
            },
            None => {
                proof {
                    assert(self@.peers =~= old(self)@.peers);
                }
                false
            },
        }
    }

    /// Takes in the notice that `region_id` was split into the regions
    /// `children` and has thereby moved on to `epoch`. The notice is passed
    /// over unless the store holds a replica of the region and `epoch` is a
    /// later generation than its own.
    ///
    /// The reads that waited end with `EpochNotMatch`, and the safe
    /// timestamps of the region and of every child are reset: a child
    /// inherits no safety from its parent.
    pub fn on_split(&mut self, region_id: u64, epoch: RegionEpoch, children: &[u64]) -> (ended: Vec<
        ReadCompletion,
    >)
        requires
            old(self).wf(),
        ensures
            final(self).wf(),
            final(self)@ == old(self)@.split(region_id, epoch, children@),
            old(self)@.epoch_moves(region_id, epoch) ==> {
                &&& final(self)@.safe_ts_of(region_id) == 0
                &&& forall|i: int|
                    0 <= i < children@.len() ==> final(self)@.safe_ts_of(#[trigger] children@[i])
                        == 0
            },
            completion_views(ended@) == failures(
                old(self)@.split_orphans(region_id, epoch),
                ReadErrorView::EpochNotMatch { current_epoch: epoch },
            ),
            final(self)@ == step(
                old(self)@,
                Event::Split { region_id, epoch, children: children@ },
            ),
            completion_views(ended@) == handed_out(
                old(self)@,
                Event::Split { region_id, epoch, children: children@ },
            ),
    {
        proof {
            reveal(step);
        }
        let mut ended: Vec<ReadCompletion> = Vec::new();
        proof {
            assert(completion_views(ended@) =~= Seq::<ReadCompletionView>::empty());
            assert(failures(
                Seq::<ReadWaiterView>::empty(),
                ReadErrorView::EpochNotMatch { current_epoch: epoch },
            ) =~= Seq::<ReadCompletionView>::empty());
        }
        let moves: bool = match self.peers.get(&region_id) {
            Some(peer) => epoch.is_newer_than(&peer.state.epoch),
            None => false,
        };
        if !moves {
            return ended;
        }
        let mut peer: RegionPeer = self.take_peer(region_id).unwrap();
        peer.state.advance_epoch(epoch);
        let waiters: Vec<ReadWaiter> = peer.coordinator.fail_all();
        fail_waiters(&waiters, &ReadError::EpochNotMatch { current_epoch: epoch }, &mut ended);
        self.put_peer(region_id, peer);
        self.cache.reset(region_id);
        let ghost base = self.cache@;
        let mut i: usize = 0;
        while i < children.len()
            invariant
                i <= children.len(),
                self.cm == old(self).cm,
                self.peers@ == old(self).peers@.remove(region_id).insert(region_id, peer),
                base == old(self)@.safe_ts.remove(region_id),
                self.cache@ == without_regions(base, children@.take(i as int)),
            decreases children.len() - i,
        {
            proof {
                assert(children@.take(i + 1).drop_last() =~= children@.take(i as int));
            }
            self.cache.reset(children[i]);
            i = i + 1;
        }
        proof {
            assert(children@.take(i as int) =~= children@);
            assert(self@.peers =~= old(self)@.split(region_id, epoch, children@).peers);
            lemma_without_regions(base, children@);
            lemma_split_resets(old(self)@, region_id, epoch, children@);
            assert forall|r: u64| #[trigger] safe_ts(self@.safe_ts, r) <= self@.max_ts by {
                assert(safe_ts(old(self)@.safe_ts, r) <= old(self)@.max_ts);
            }
            assert(completion_views(ended@) =~= failures(
                old(self)@.split_orphans(region_id, epoch),
                ReadErrorView::EpochNotMatch { current_epoch: epoch },
            ));
        }
        ended
    }

    /// Takes in the notice that `source_id` was merged into `target_id`,
    /// which has thereby moved on to `epoch`. The notice is passed over
    /// unless the two differ, the store holds a replica of the target, and
    /// `epoch` is a later generation than the target's own.
    ///
    /// The replica of the source is destroyed. The reads that waited for
    /// the source end with `RegionNotFound`, those that waited for the
    /// target with `EpochNotMatch`; the former come first in what is
    /// returned. The safe timestamps of both regions are reset.
    pub fn on_merge(&mut self, source_id: u64, target_id: u64, epoch: RegionEpoch) -> (ended: Vec<
        ReadCompletion,
    >)
        requires
            old(self).wf(),
        ensures
            final(self).wf(),
            final(self)@ == old(self)@.merge(source_id, target_id, epoch),
            old(self)@.merges(source_id, target_id, epoch) ==> {
                &&& final(self)@.safe_ts_of(source_id) == 0
                &&& final(self)@.safe_ts_of(target_id) == 0
            },
            completion_views(ended@) == failures(
                old(self)@.merge_source_orphans(source_id, target_id, epoch),
                ReadErrorView::RegionNotFound,
            ) + failures(
                old(self)@.merge_target_orphans(source_id, target_id, epoch),
                ReadErrorView::EpochNotMatch { current_epoch: epoch },
            ),
            final(self)@ == step(old(self)@, Event::Merge { source_id, target_id, epoch }),
            completion_views(ended@) == handed_out(
                old(self)@,
                Event::Merge { source_id, target_id, epoch },
            ),
    {
        proof {
            reveal(step);
        }
        let mut ended: Vec<ReadCompletion> = Vec::new();
        proof {
            assert(completion_views(ended@) =~= Seq::<ReadCompletionView>::empty());
            assert(failures(Seq::<ReadWaiterView>::empty(), ReadErrorView::RegionNotFound)
                =~= Seq::<ReadCompletionView>::empty());
            assert(failures(
                Seq::<ReadWaiterView>::empty(),
                ReadErrorView::EpochNotMatch { current_epoch: epoch },
            ) =~= Seq::<ReadCompletionView>::empty());
            assert(Seq::<ReadCompletionView>::empty() + Seq::<ReadCompletionView>::empty()
                =~= Seq::<ReadCompletionView>::empty());
        }
        let moves: bool = source_id != target_id && match self.peers.get(&target_id) {
            Some(peer) => epoch.is_newer_than(&peer.state.epoch),
            None => false,
        };
        if !moves {
            return ended;
        }
        match self.take_peer(source_id) {
            Some(source) => {
                let mut source = source;
                let waiters: Vec<ReadWaiter> = source.coordinator.fail_all();
                fail_waiters(&waiters, &ReadError::RegionNotFound, &mut ended);
            },
            None => {},
        }
        proof {
            assert(completion_views(ended@) =~= failures(
                old(self)@.merge_source_orphans(source_id, target_id, epoch),
                ReadErrorView::RegionNotFound,
            ));
        }
        let mut target: RegionPeer = self.take_peer(target_id).unwrap();
        target.state.advance_epoch(epoch);
        let waiters: Vec<ReadWaiter> = target.coordinator.fail_all();
        fail_waiters(&waiters, &ReadError::EpochNotMatch { current_epoch: epoch }, &mut ended);
        self.put_peer(target_id, target);
        self.cache.reset(source_id);
        self.cache.reset(target_id);
        proof {
            assert(self@.peers =~= old(self)@.merge(source_id, target_id, epoch).peers);
            assert forall|r: u64| #[trigger] safe_ts(self@.safe_ts, r) <= self@.max_ts by {
                assert(safe_ts(old(self)@.safe_ts, r) <= old(self)@.max_ts);
            }
        }
        ended
    }

    /// Takes the reads behind `callback` out of those that wait for the
    /// replica of `region_id`, because their caller has let go of them, and
    /// returns whether there were any. A round in flight is not called
    /// off: others wait for it, or will.
    pub fn cancel_read(&mut self, region_id: u64, callback: u64) -> (removed: bool)
        requires
            old(self).wf(),
        ensures
            final(self).wf(),
            final(self)@ == old(self)@.cancel(region_id, callback),
            removed == old(self)@.holds(region_id, callback),
            final(self)@ == step(old(self)@, Event::Cancel { region_id, callback }),
    {
        proof {
            reveal(step);
        }
        match self.take_peer(region_id) {
            Some(peer) => {
                let mut peer = peer;
                let removed: bool = peer.coordinator.cancel(callback);
                self.put_peer(region_id, peer);
                proof {
                    assert(self@.peers =~= old(self)@.cancel(region_id, callback).peers);
                }
                removed
            },
            None => {
                proof {
                    assert(self@.peers =~= old(self)@.peers);
                }
                false
            },
        }
    }

    /// Takes in the report that the patience of the caller behind
    /// `callback` has run out. If a read of that caller waited for the
    /// replica of `region_id`, it waits no longer and ends with `Timeout`.
    /// The round in flight is not called off.
    pub fn on_timeout(&mut self, region_id: u64, callback: u64) -> (ended: Option<ReadCompletion>)
        requires
            old(self).wf(),
        ensures
            final(self).wf(),
            final(self)@ == old(self)@.cancel(region_id, callback),
            ended is Some <==> old(self)@.holds(region_id, callback),
            ended matches Some(e) ==> e@ == (ReadCompletionView {
                callback,
                result: Err(ReadErrorView::Timeout),
            }),
            final(self)@ == step(old(self)@, Event::Cancel { region_id, callback }),
    {
        proof {
            reveal(step);
        }
        if self.cancel_read(region_id, callback) {
            Some(ReadCompletion { callback, result: Err(ReadError::Timeout) })
        } else {
            None
        }
    }
}

} // verus!
