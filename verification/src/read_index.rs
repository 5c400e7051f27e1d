//! The read-index coordinator of one replica.
//!
//! A read that cannot be answered from what the replica knows waits for a
//! read-index round: consensus confirms how far the log was committed when
//! the round was issued, and once the replica has applied the log that far,
//! what it holds is no older than the read. A round stands for a point in
//! the log, not for a request, so reads that arrive while a round is in
//! flight wait for that round instead of issuing another.
//!
//! The coordinator keeps the reads that wait. It decides nothing about
//! locks or timestamps; it hands the reads back when their round has ended.

use vstd::prelude::*;
use crate::lock::{KeyOrRange, KeyOrRangeView};

verus! {

/// A read that waits for a round: the token by which its caller is found
/// again, the keys it asks for, and its timestamp.
#[derive(Debug, PartialEq, Eq)]
pub struct ReadWaiter {
    pub callback: u64,
    pub keys: KeyOrRange,
    pub read_timestamp: u64,
}

/// A waiting read as a mathematical value.
pub struct ReadWaiterView {
    pub callback: u64,
    pub keys: KeyOrRangeView,
    pub read_timestamp: u64,
}

impl View for ReadWaiter {
    type V = ReadWaiterView;

    open spec fn view(&self) -> ReadWaiterView {
        ReadWaiterView {
            callback: self.callback,
            keys: self.keys@,
            read_timestamp: self.read_timestamp,
        }
    }
}

impl Clone for ReadWaiter {
    fn clone(&self) -> (copy: ReadWaiter)
        ensures
            copy@ == self@,
    {
        ReadWaiter {
            callback: self.callback,
            keys: self.keys.clone(),
            read_timestamp: self.read_timestamp,
        }
    }
}

/// A round in flight and the reads that wait for it. A round has no commit
/// index while it is in flight; once consensus has confirmed one, its
/// reads go on as `CommittedRead`s.
#[derive(Debug, PartialEq, Eq)]
pub struct ReadIndexRequest {
    /// The context by which the answer of consensus is matched to the round.
    pub request_id: u64,
    /// The term in which the round was issued.
    pub term: u64,
    /// The highest timestamp among the reads that wait.
    pub read_timestamp: u64,
    /// The reads that wait, in the order in which they arrived.
    pub waiters: Vec<ReadWaiter>,
}

/// A round as a mathematical value.
pub struct ReadIndexRequestView {
    pub request_id: u64,
    pub term: u64,
    pub read_timestamp: u64,
    pub waiters: Seq<ReadWaiterView>,
}

/// The reads of `waiters`, each as a mathematical value.
pub open spec fn waiter_views(waiters: Seq<ReadWaiter>) -> Seq<ReadWaiterView> {
    waiters.map_values(|w: ReadWaiter| w@)
}

impl View for ReadIndexRequest {
    type V = ReadIndexRequestView;

    open spec fn view(&self) -> ReadIndexRequestView {
        ReadIndexRequestView {
            request_id: self.request_id,
            term: self.term,
            read_timestamp: self.read_timestamp,
            waiters: waiter_views(self.waiters@),
        }
    }
}

impl ReadIndexRequestView {
    /// A round that was just issued for `waiter`.
    pub open spec fn issued(request_id: u64, term: u64, waiter: ReadWaiterView) -> Self {
        ReadIndexRequestView {
            request_id,
            term,
            read_timestamp: waiter.read_timestamp,
            waiters: seq![waiter],
        }
    }

    /// The round with `waiter` added to the reads that wait for it.
    pub open spec fn joined_by(self, waiter: ReadWaiterView) -> Self {
        ReadIndexRequestView {
            read_timestamp: if waiter.read_timestamp > self.read_timestamp {
                waiter.read_timestamp
            } else {
                self.read_timestamp
            },
            waiters: self.waiters.push(waiter),
            ..self
        }
    }
}

/// A read whose round has ended: consensus confirmed `commit_index` for
/// `term`, and the read may be answered once the replica has applied the
/// log that far.
#[derive(Debug, PartialEq, Eq)]
pub struct CommittedRead {
    pub waiter: ReadWaiter,
    pub term: u64,
    pub commit_index: u64,
}

/// A read whose round has ended, as a mathematical value.
pub struct CommittedReadView {
    pub waiter: ReadWaiterView,
    pub term: u64,
    pub commit_index: u64,
}

impl View for CommittedRead {
    type V = CommittedReadView;

    open spec fn view(&self) -> CommittedReadView {
        CommittedReadView { waiter: self.waiter@, term: self.term, commit_index: self.commit_index }
    }
}

impl Clone for CommittedRead {
    fn clone(&self) -> (copy: CommittedRead)
        ensures
            copy@ == self@,
    {
        CommittedRead {
            waiter: self.waiter.clone(),
            term: self.term,
            commit_index: self.commit_index,
        }
    }
}

/// The reads of `reads`, each as a mathematical value.
pub open spec fn committed_views(reads: Seq<CommittedRead>) -> Seq<CommittedReadView> {
    reads.map_values(|r: CommittedRead| r@)
}

/// The reads of `waiters` with the answer of their round.
pub open spec fn committed(waiters: Seq<ReadWaiterView>, term: u64, commit_index: u64) -> Seq<
    CommittedReadView,
> {
    waiters.map_values(|w: ReadWaiterView| CommittedReadView { waiter: w, term, commit_index })
}

/// The reads of `reads` without the answer of their round.
pub open spec fn uncommitted(reads: Seq<CommittedReadView>) -> Seq<ReadWaiterView> {
    reads.map_values(|r: CommittedReadView| r.waiter)
}

/// The test for a read that may be answered by a replica that has applied
/// the log up to `applied_index`.
pub open spec fn is_applied(applied_index: u64) -> spec_fn(CommittedReadView) -> bool {
    |r: CommittedReadView| r.commit_index <= applied_index
}

/// The test for a read that may not yet be answered by a replica that has
/// applied the log up to `applied_index`.
pub open spec fn is_not_applied(applied_index: u64) -> spec_fn(CommittedReadView) -> bool {
    |r: CommittedReadView| r.commit_index > applied_index
}

/// The test for a waiting read that `callback` does not stand for.
pub open spec fn is_other_waiter(callback: u64) -> spec_fn(ReadWaiterView) -> bool {
    |w: ReadWaiterView| w.callback != callback
}

/// The test for a read that `callback` does not stand for.
pub open spec fn is_other_read(callback: u64) -> spec_fn(CommittedReadView) -> bool {
    |r: CommittedReadView| r.waiter.callback != callback
}

/// The coordinator as a mathematical value.
pub struct CoordinatorView {
    /// The context that the next round will carry.
    pub next_request_id: u64,
    /// The round that is in flight, if one is.
    pub in_flight: Option<ReadIndexRequestView>,
    /// The reads whose round has ended and which wait for the replica to
    /// apply the log, oldest first.
    pub awaiting_apply: Seq<CommittedReadView>,
}

impl CoordinatorView {
    /// A coordinator with nothing pending.
    pub open spec fn idle() -> CoordinatorView {
        CoordinatorView { next_request_id: 0, in_flight: None, awaiting_apply: Seq::empty() }
    }

    /// The context of the round that a read arriving now makes the
    /// coordinator issue: none while a round is in flight.
    pub open spec fn round_to_issue(self) -> Option<u64> {
        if self.in_flight is None {
            Some(self.next_request_id)
        } else {
            None
        }
    }

    /// The coordinator after the read `waiter` arrived in `term`: the read
    /// joins the round in flight, or a round is issued for it.
    pub open spec fn enqueue(self, term: u64, waiter: ReadWaiterView) -> CoordinatorView {
        match self.in_flight {
            Some(round) => CoordinatorView { in_flight: Some(round.joined_by(waiter)), ..self },
            None => CoordinatorView {
                next_request_id: if self.next_request_id == u64::MAX {
                    0
                } else {
                    (self.next_request_id + 1) as u64
                },
                in_flight: Some(ReadIndexRequestView::issued(self.next_request_id, term, waiter)),
                ..self
            },
        }
    }

    /// True when `request_id` is the context of the round in flight.
    pub open spec fn answers_round(self, request_id: u64) -> bool {
        self.in_flight matches Some(round) && round.request_id == request_id
    }

    /// The reads that an answer for `request_id`, given for `term`, turns
    /// away: those of the round in flight, if it is the round answered and
    /// was issued in another term.
    pub open spec fn rejected_by(self, request_id: u64, term: u64) -> Seq<ReadWaiterView> {
        match self.in_flight {
            Some(round) if round.request_id == request_id && round.term != term => round.waiters,
            _ => Seq::empty(),
        }
    }

    /// The coordinator after consensus answered the round `request_id` with
    /// `commit_index` for `term`. An answer for the round in flight ends
    /// it: its reads go on to wait for the log to be applied if the answer
    /// is for the term of the round, and are turned away if not. Any other
    /// answer changes nothing.
    pub open spec fn respond(self, request_id: u64, term: u64, commit_index: u64) -> CoordinatorView {
        match self.in_flight {
            Some(round) if round.request_id == request_id => CoordinatorView {
                in_flight: None,
                awaiting_apply: if round.term == term {
                    self.awaiting_apply + committed(round.waiters, term, commit_index)
                } else {
                    self.awaiting_apply
                },
                ..self
            },
            _ => self,
        }
    }

    /// The reads that end when consensus gives up the round `request_id`:
    /// those of the round in flight, if that is the round.
    pub open spec fn abandoned_by(self, request_id: u64) -> Seq<ReadWaiterView> {
        match self.in_flight {
            Some(round) if round.request_id == request_id => round.waiters,
            _ => Seq::empty(),
        }
    }

    /// The coordinator after consensus gave up the round `request_id`.
    pub open spec fn abandon(self, request_id: u64) -> CoordinatorView {
        if self.answers_round(request_id) {
            CoordinatorView { in_flight: None, ..self }
        } else {
            self
        }
    }

    /// The reads that a replica which has applied the log up to
    /// `applied_index` may answer, oldest first.
    pub open spec fn ready(self, applied_index: u64) -> Seq<CommittedReadView> {
        self.awaiting_apply.filter(is_applied(applied_index))
    }

    /// The coordinator after the reads that are ready were handed out.
    pub open spec fn without_ready(self, applied_index: u64) -> CoordinatorView {
        CoordinatorView {
            awaiting_apply: self.awaiting_apply.filter(is_not_applied(applied_index)),
            ..self
        }
    }

    /// True when a read with the token `callback` waits.
    pub open spec fn holds(self, callback: u64) -> bool {
        ||| exists|i: int|
            0 <= i < self.awaiting_apply.len() && (#[trigger] self.awaiting_apply[i]).waiter.callback
                == callback
        ||| self.in_flight matches Some(round) && exists|i: int|
            0 <= i < round.waiters.len() && (#[trigger] round.waiters[i]).callback == callback
    }

    /// The coordinator after the caller behind `callback` gave up. Its
    /// reads no longer wait; the round in flight stays in flight, for the
    /// others who wait for it or will.
    pub open spec fn without(self, callback: u64) -> CoordinatorView {
        CoordinatorView {
            in_flight: match self.in_flight {
                Some(round) => Some(
                    ReadIndexRequestView {
                        waiters: round.waiters.filter(is_other_waiter(callback)),
                        ..round
                    },
                ),
                None => None,
            },
            awaiting_apply: self.awaiting_apply.filter(is_other_read(callback)),
            ..self
        }
    }

    /// All the reads that wait, oldest first.
    pub open spec fn all_waiters(self) -> Seq<ReadWaiterView> {
        uncommitted(self.awaiting_apply) + match self.in_flight {
            Some(round) => round.waiters,
            None => Seq::empty(),
        }
    }

    /// The coordinator after every read that waited was handed out.
    pub open spec fn drained(self) -> CoordinatorView {
        CoordinatorView { in_flight: None, awaiting_apply: Seq::empty(), ..self }
    }

    /// The number of reads that wait.
    pub open spec fn pending(self) -> nat {
        self.all_waiters().len()
    }
}

/// Keeps the reads of one replica that wait for a read-index round or for
/// the log to be applied.
pub struct ReadIndexRequestCoordinator {
    next_request_id: u64,
    in_flight: Option<ReadIndexRequest>,
    awaiting_apply: Vec<CommittedRead>,
}

impl View for ReadIndexRequestCoordinator {
    type V = CoordinatorView;

    closed spec fn view(&self) -> CoordinatorView {
        CoordinatorView {
            next_request_id: self.next_request_id,
            in_flight: match self.in_flight {
                Some(round) => Some(round@),
                None => None,
            },
            awaiting_apply: committed_views(self.awaiting_apply@),
        }
    }
}

/// The waiting reads of `waiters` that `callback` does not stand for.
fn other_waiters(waiters: &Vec<ReadWaiter>, callback: u64) -> (kept: Vec<ReadWaiter>)
    ensures
        waiter_views(kept@) == waiter_views(waiters@).filter(is_other_waiter(callback)),
{
    let ghost all = waiter_views(waiters@);
    let ghost test = is_other_waiter(callback);
    let mut kept: Vec<ReadWaiter> = Vec::new();
    let mut i: usize = 0;
    proof {
        reveal(Seq::filter);
        assert(all.take(0) =~= Seq::<ReadWaiterView>::empty());
        assert(waiter_views(kept@) =~= all.take(0).filter(test));
    }
    while i < waiters.len()
        invariant
            i <= waiters.len(),
            all == waiter_views(waiters@),
            test == is_other_waiter(callback),
            waiter_views(kept@) == all.take(i as int).filter(test),
        decreases waiters.len() - i,
    {
        proof {
            assert(all.take(i + 1) =~= all.take(i as int).push(all[i as int]));
            all.take(i as int).lemma_filter_push(all[i as int], test);
        }
        if waiters[i].callback != callback {
            let copy: ReadWaiter = waiters[i].clone();
            proof {
                assert(waiter_views(kept@.push(copy)) =~= waiter_views(kept@).push(copy@));
            }
            kept.push(copy);
        }
        i = i + 1;
    }
    proof {
        assert(all.take(i as int) =~= all);
    }
    kept
}

impl ReadIndexRequestCoordinator {
    /// A coordinator with nothing pending.
    pub fn new() -> (res: ReadIndexRequestCoordinator)
        ensures
            res@ == CoordinatorView::idle(),
    {
        let res = ReadIndexRequestCoordinator {
            next_request_id: 0,
            in_flight: None,
            awaiting_apply: Vec::new(),
        };
        assert(res@.awaiting_apply =~= Seq::<CommittedReadView>::empty());
        res
    }

    /// True when a round is in flight.
    pub fn has_round_in_flight(&self) -> (r: bool)
        ensures
            r == (self@.in_flight is Some),
    {
        self.in_flight.is_some()
    }

    /// The number of reads that wait.
    pub fn pending(&self) -> (n: usize)
        ensures
            n == self@.pending() || (n == usize::MAX && self@.pending() > usize::MAX),
    {
        let in_round: usize = match &self.in_flight {
            Some(round) => round.waiters.len(),
            None => 0,
        };
        let applied: usize = self.awaiting_apply.len();
        if in_round > usize::MAX - applied {
            usize::MAX
        } else {
            applied + in_round
        }
    }

    /// Takes in the read `waiter`, which arrived in `term`. The read joins
    /// the round in flight if there is one; if not, a round is issued for
    /// it, and the context that the caller is to hand to consensus is
    /// returned.
    pub fn request_read_index(&mut self, term: u64, waiter: ReadWaiter) -> (issue: Option<u64>)
        ensures
            final(self)@ == old(self)@.enqueue(term, waiter@),
            issue == old(self)@.round_to_issue(),
    {
        let ghost before = self@;
        match self.in_flight.take() {
            Some(round) => {
                let ReadIndexRequest { request_id, term: issued_in, read_timestamp, waiters } = round;
                let mut waiters = waiters;
                let highest: u64 = if waiter.read_timestamp > read_timestamp {
                    waiter.read_timestamp
                } else {
                    read_timestamp
                };
                proof {
                    assert(waiter_views(waiters@.push(waiter)) =~= waiter_views(waiters@).push(
                        waiter@,
                    ));
                }
                waiters.push(waiter);
                self.in_flight = Some(
                    ReadIndexRequest {
                        request_id,
                        term: issued_in,
                        read_timestamp: highest,
                        waiters,
                    },
                );
                None
            },
            None => {
                let request_id: u64 = self.next_request_id;
                let read_timestamp: u64 = waiter.read_timestamp;
                let mut waiters: Vec<ReadWaiter> = Vec::new();
                proof {
                    assert(waiter_views(waiters@.push(waiter)) =~= seq![waiter@]);
                }
                waiters.push(waiter);
                self.in_flight = Some(
                    ReadIndexRequest {
                        request_id,
                        term,
                        read_timestamp,
                        waiters,
                    },
                );
                self.next_request_id = if request_id == u64::MAX {
                    0
                } else {
                    request_id + 1
                };
                Some(request_id)
            },
        }
    }

    /// Takes in the answer of consensus for the round `request_id`:
    /// `commit_index`, confirmed for `term`. Returns the reads that the
    /// answer turns away because it is for another term than the round was
    /// issued in.
    pub fn on_response(&mut self, request_id: u64, term: u64, commit_index: u64) -> (rejected: Vec<
        ReadWaiter,
    >)
        ensures
            final(self)@ == old(self)@.respond(request_id, term, commit_index),
            waiter_views(rejected@) == old(self)@.rejected_by(request_id, term),
    {
        let answered: bool = match &self.in_flight {
            Some(round) => round.request_id == request_id,
            None => false,
        };
        if !answered {
            let rejected: Vec<ReadWaiter> = Vec::new();
            assert(waiter_views(rejected@) =~= Seq::<ReadWaiterView>::empty());
            return rejected;
        }
        let round: ReadIndexRequest = self.in_flight.take().unwrap();
        if round.term != term {
            return round.waiters;
        }
        let ghost waiting = waiter_views(round.waiters@);
        let ghost before = committed_views(self.awaiting_apply@);
        let mut waiters: Vec<ReadWaiter> = round.waiters;
        let mut i: usize = 0;
        proof {
            assert(committed(waiting.take(0), term, commit_index) =~= Seq::<
                CommittedReadView,
            >::empty());
            assert(before + Seq::<CommittedReadView>::empty() =~= before);
        }
        while i < waiters.len()
            invariant
                i <= waiters.len(),
                waiting == waiter_views(waiters@),
                self.in_flight is None,
                self.next_request_id == old(self).next_request_id,
                committed_views(self.awaiting_apply@) == before + committed(
                    waiting.take(i as int),
                    term,
                    commit_index,
                ),
            decreases waiters.len() - i,
        {
            let read = CommittedRead { waiter: waiters[i].clone(), term, commit_index };
            proof {
                assert(committed_views(self.awaiting_apply@.push(read)) =~= committed_views(
                    self.awaiting_apply@,
                ).push(read@));
                assert(waiting.take(i + 1) =~= waiting.take(i as int).push(waiting[i as int]));
                assert(committed(waiting.take(i + 1), term, commit_index) =~= committed(
                    waiting.take(i as int),
                    term,
                    commit_index,
                ).push(read@));
                assert(before + committed(waiting.take(i + 1), term, commit_index) =~= (before
                    + committed(waiting.take(i as int), term, commit_index)).push(read@));
            }
            self.awaiting_apply.push(read);
            i = i + 1;
        }
        proof {
            assert(waiting.take(i as int) =~= waiting);
        }
        let rejected: Vec<ReadWaiter> = Vec::new();
        assert(waiter_views(rejected@) =~= Seq::<ReadWaiterView>::empty());
        rejected
    }

    /// Takes in the report that consensus gave up the round `request_id`,
    /// and hands out the reads that waited for it.
    pub fn on_abandoned(&mut self, request_id: u64) -> (abandoned: Vec<ReadWaiter>)
        ensures
            final(self)@ == old(self)@.abandon(request_id),
            waiter_views(abandoned@) == old(self)@.abandoned_by(request_id),
    {
        let answered: bool = match &self.in_flight {
            Some(round) => round.request_id == request_id,
            None => false,
        };
        if !answered {
            let abandoned: Vec<ReadWaiter> = Vec::new();
            assert(waiter_views(abandoned@) =~= Seq::<ReadWaiterView>::empty());
            return abandoned;
        }
        let round: ReadIndexRequest = self.in_flight.take().unwrap();
        round.waiters
    }

    /// Hands out the reads that a replica which has applied the log up to
    /// `applied_index` may answer, oldest first. The others go on waiting.
    pub fn take_ready(&mut self, applied_index: u64) -> (ready: Vec<CommittedRead>)
        ensures
            final(self)@ == old(self)@.without_ready(applied_index),
            committed_views(ready@) == old(self)@.ready(applied_index),
    {
        let ghost all = committed_views(self.awaiting_apply@);
        let ghost done = is_applied(applied_index);
        let ghost not_done = is_not_applied(applied_index);
        let mut ready: Vec<CommittedRead> = Vec::new();
        let mut waiting: Vec<CommittedRead> = Vec::new();
        let mut i: usize = 0;
        proof {
            reveal(Seq::filter);
            assert(all.take(0) =~= Seq::<CommittedReadView>::empty());
            assert(committed_views(ready@) =~= all.take(0).filter(done));
            assert(committed_views(waiting@) =~= all.take(0).filter(not_done));
        }
        while i < self.awaiting_apply.len()
            invariant
                i <= self.awaiting_apply.len(),
                all == committed_views(self.awaiting_apply@),
                done == is_applied(applied_index),
                not_done == is_not_applied(applied_index),
                self.in_flight == old(self).in_flight,
                self.next_request_id == old(self).next_request_id,
                self.awaiting_apply == old(self).awaiting_apply,
                committed_views(ready@) == all.take(i as int).filter(done),
                committed_views(waiting@) == all.take(i as int).filter(not_done),
            decreases self.awaiting_apply.len() - i,
        {
            let copy: CommittedRead = self.awaiting_apply[i].clone();
            proof {
                assert(all.take(i + 1) =~= all.take(i as int).push(all[i as int]));
                all.take(i as int).lemma_filter_push(all[i as int], done);
                all.take(i as int).lemma_filter_push(all[i as int], not_done);
            }
            if copy.commit_index <= applied_index {
                proof {
                    assert(committed_views(ready@.push(copy)) =~= committed_views(ready@).push(
                        copy@,
                    ));
                }
                ready.push(copy);
            } else {
                proof {
                    assert(committed_views(waiting@.push(copy)) =~= committed_views(waiting@).push(
                        copy@,
                    ));
                }
                waiting.push(copy);
            }
            i = i + 1;
        }
        proof {
            assert(all.take(i as int) =~= all);
        }
        self.awaiting_apply = waiting;
        ready
    }

    /// Takes out the reads behind `callback`, whose caller gave up, and
    /// returns whether there were any. The round in flight is not called
    /// off.
    pub fn cancel(&mut self, callback: u64) -> (removed: bool)
        ensures
            final(self)@ == old(self)@.without(callback),
            removed == old(self)@.holds(callback),
    {
        let ghost before = self@;
        let ghost all = committed_views(self.awaiting_apply@);
        let ghost test = is_other_read(callback);
        let mut kept: Vec<CommittedRead> = Vec::new();
        let mut removed: bool = false;
        let mut i: usize = 0;
        proof {
            reveal(Seq::filter);
            assert(all.take(0) =~= Seq::<CommittedReadView>::empty());
            assert(committed_views(kept@) =~= all.take(0).filter(test));
        }
        while i < self.awaiting_apply.len()
            invariant
                i <= self.awaiting_apply.len(),
                all == committed_views(self.awaiting_apply@),
                test == is_other_read(callback),
                *self == *old(self),
                committed_views(kept@) == all.take(i as int).filter(test),
                removed == exists|j: int|
                    0 <= j < i && (#[trigger] all[j]).waiter.callback == callback,
            decreases self.awaiting_apply.len() - i,
        {
            proof {
                assert(all.take(i + 1) =~= all.take(i as int).push(all[i as int]));
                all.take(i as int).lemma_filter_push(all[i as int], test);
            }
            if self.awaiting_apply[i].waiter.callback != callback {
                let copy: CommittedRead = self.awaiting_apply[i].clone();
                proof {
                    assert(committed_views(kept@.push(copy)) =~= committed_views(kept@).push(copy@));
                }
                kept.push(copy);
            } else {
                removed = true;
            }
            i = i + 1;
        }
        proof {
            assert(all.take(i as int) =~= all);
        }
        self.awaiting_apply = kept;
        match self.in_flight.take() {
            Some(round) => {
                let waiters: Vec<ReadWaiter> = other_waiters(&round.waiters, callback);
                proof {
                    let waiting = waiter_views(round.waiters@);
                    waiting.lemma_filter_len(is_other_waiter(callback));
                    if waiter_views(waiters@).len() != waiting.len() {
                        lemma_shorter_filter_has_witness(waiting, callback);
                    } else {
                        lemma_full_filter_has_no_witness(waiting, callback);
                    }
                }
                if waiters.len() != round.waiters.len() {
                    removed = true;
                }
                self.in_flight = Some(
                    ReadIndexRequest {
                        request_id: round.request_id,
                        term: round.term,
                        read_timestamp: round.read_timestamp,
                        waiters,
                    },
                );
            },
            None => {},
        }
        removed
    }

    /// Hands out every read that waits, oldest first. The caller has an
    /// error for each of them: the replica is gone, or its region has moved
    /// on to another epoch.
    pub fn fail_all(&mut self) -> (failed: Vec<ReadWaiter>)
        ensures
            final(self)@ == old(self)@.drained(),
            waiter_views(failed@) == old(self)@.all_waiters(),
    {
        let ghost all = committed_views(self.awaiting_apply@);
        let mut failed: Vec<ReadWaiter> = Vec::new();
        let mut i: usize = 0;
        proof {
            assert(waiter_views(failed@) =~= uncommitted(all.take(0)));
        }
        while i < self.awaiting_apply.len()
            invariant
                i <= self.awaiting_apply.len(),
                all == committed_views(self.awaiting_apply@),
                *self == *old(self),
                waiter_views(failed@) == uncommitted(all.take(i as int)),
            decreases self.awaiting_apply.len() - i,
        {
            let copy: ReadWaiter = self.awaiting_apply[i].waiter.clone();
            proof {
                assert(waiter_views(failed@.push(copy)) =~= waiter_views(failed@).push(copy@));
                assert(all[i as int].waiter == copy@);
                assert(uncommitted(all.take(i + 1)) =~= uncommitted(all.take(i as int)).push(
                    all[i as int].waiter,
                ));
            }
            failed.push(copy);
            i = i + 1;
        }
        proof {
            assert(all.take(i as int) =~= all);
        }
        let ghost applied = waiter_views(failed@);
        match self.in_flight.take() {
            Some(round) => {
                let ghost waiting = waiter_views(round.waiters@);
                let mut k: usize = 0;
                proof {
                    assert(applied + waiting.take(0) =~= applied);
                }
                while k < round.waiters.len()
                    invariant
                        k <= round.waiters.len(),
                        waiting == waiter_views(round.waiters@),
                        waiter_views(failed@) == applied + waiting.take(k as int),
                    decreases round.waiters.len() - k,
                {
                    let copy: ReadWaiter = round.waiters[k].clone();
                    proof {
                        assert(waiter_views(failed@.push(copy)) =~= waiter_views(failed@).push(
                            copy@,
                        ));
                        assert(waiting[k as int] == copy@);
                        assert(applied + waiting.take(k + 1) =~= (applied + waiting.take(
                            k as int,
                        )).push(waiting[k as int]));
                    }
                    failed.push(copy);
                    k = k + 1;
                }
                proof {
                    assert(waiting.take(k as int) =~= waiting);
                }
            },
            None => {
                assert(applied + Seq::<ReadWaiterView>::empty() =~= applied);
            },
        }
        self.awaiting_apply = Vec::new();
        assert(committed_views(self.awaiting_apply@) =~= Seq::<CommittedReadView>::empty());
        failed
    }
}

/// A filter that drops something drops a read behind `callback`.
proof fn lemma_shorter_filter_has_witness(waiters: Seq<ReadWaiterView>, callback: u64)
    requires
        waiters.filter(is_other_waiter(callback)).len() != waiters.len(),
    ensures
        exists|i: int| 0 <= i < waiters.len() && (#[trigger] waiters[i]).callback == callback,
    decreases waiters.len(),
{
    reveal(Seq::filter);
    if waiters.len() > 0 {
        if waiters.last().callback == callback {
            assert(waiters[waiters.len() - 1].callback == callback);
        } else {
            lemma_shorter_filter_has_witness(waiters.drop_last(), callback);
            let i = choose|i: int|
                0 <= i < waiters.drop_last().len() && (#[trigger] waiters.drop_last()[i]).callback
                    == callback;
            assert(waiters[i].callback == callback);
        }
    }
}

/// A filter that drops nothing has met no read behind `callback`.
proof fn lemma_full_filter_has_no_witness(waiters: Seq<ReadWaiterView>, callback: u64)
    requires
        waiters.filter(is_other_waiter(callback)).len() == waiters.len(),
    ensures
        !exists|i: int| 0 <= i < waiters.len() && (#[trigger] waiters[i]).callback == callback,
    decreases waiters.len(),
{
    reveal(Seq::filter);
    if waiters.len() > 0 {
        waiters.drop_last().lemma_filter_len(is_other_waiter(callback));
        lemma_full_filter_has_no_witness(waiters.drop_last(), callback);
        assert forall|i: int| 0 <= i < waiters.len() implies (#[trigger] waiters[i]).callback
            != callback by {
            if i < waiters.len() - 1 {
                assert(waiters.drop_last()[i] == waiters[i]);
            }
        }
    }
}

} // verus!
