//! What a store keeps about its replica of one region in order to decide
//! how the replica may serve a read: the region's epoch, the replica's role
//! and term, its lease while it leads, whether a snapshot is being
//! installed, and how far it has applied the log.

use vstd::prelude::*;
use crate::error::ReadError;

verus! {

/// The generation of a region: `version` counts changes of its key range,
/// `conf_version` changes of its membership.
#[derive(Clone, Copy, Debug, PartialEq, Eq, Structural)]
pub struct RegionEpoch {
    pub version: u64,
    pub conf_version: u64,
}

impl RegionEpoch {
    /// True when this epoch is a later generation than `other`: neither
    /// counter is behind, and one of them is ahead.
    pub open spec fn newer_than(self, other: RegionEpoch) -> bool {
        &&& self.version >= other.version
        &&& self.conf_version >= other.conf_version
        &&& self != other
    }

    /// True when this epoch is a later generation than `other`.
    pub fn is_newer_than(&self, other: &RegionEpoch) -> (r: bool)
        ensures
            r == self.newer_than(*other),
    {
        self.version >= other.version && self.conf_version >= other.conf_version && (self.version
            != other.version || self.conf_version != other.conf_version)
    }
}

/// The role of a replica in its consensus group. A leader holds a lease:
/// until `lease_deadline` no other replica can have become leader.
#[derive(Clone, Copy, Debug, PartialEq, Eq, Structural)]
pub enum Role {
    Leader { lease_deadline: u64 },
    Follower,
    Learner,
    Candidate,
    PreCandidate,
}

/// Whether the data under a replica can be read.
#[derive(Clone, Copy, Debug, PartialEq, Eq, Structural)]
pub enum PeerPhase {
    /// The replica applies log entries one by one.
    Normal,
    /// The replica is installing a snapshot: what it holds matches no
    /// timestamp.
    Applying,
}

/// The read state of one replica.
#[derive(Clone, Copy, Debug, PartialEq, Eq, Structural)]
pub struct RegionReadState {
    pub region_id: u64,
    pub peer_id: u64,
    pub epoch: RegionEpoch,
    pub role: Role,
    pub term: u64,
    pub phase: PeerPhase,
    pub applied_index: u64,
}

impl RegionReadState {
    /// The state of a replica that has just been created: a follower in
    /// term zero that has applied nothing.
    pub open spec fn created(region_id: u64, peer_id: u64, epoch: RegionEpoch) -> RegionReadState {
        RegionReadState {
            region_id,
            peer_id,
            epoch,
            role: Role::Follower,
            term: 0,
            phase: PeerPhase::Normal,
            applied_index: 0,
        }
    }

    /// The state of a replica that has just been created.
    pub fn new(region_id: u64, peer_id: u64, epoch: RegionEpoch) -> (res: RegionReadState)
        ensures
            res == RegionReadState::created(region_id, peer_id, epoch),
    {
        RegionReadState {
            region_id,
            peer_id,
            epoch,
            role: Role::Follower,
            term: 0,
            phase: PeerPhase::Normal,
            applied_index: 0,
        }
    }

    /// True when the replica leads and its lease has not run out at `now`.
    pub open spec fn leads_with_lease(self, now: u64) -> bool {
        self.role matches Role::Leader { lease_deadline } && now < lease_deadline
    }

    /// True when the replica leads and its lease has not run out at `now`.
    pub fn has_valid_lease(&self, now: u64) -> (r: bool)
        ensures
            r == self.leads_with_lease(now),
    {
        match self.role {
            Role::Leader { lease_deadline } => now < lease_deadline,
            _ => false,
        }
    }

    /// Why a read addressed to the replica `peer_id`, by a caller who
    /// believes the region to be at `epoch`, is turned away at once, if it
    /// is: the replica asked for is not this one, the caller's epoch is not
    /// the region's, or a snapshot is being installed.
    pub open spec fn refusal(self, peer_id: u64, epoch: RegionEpoch) -> Option<ReadError> {
        if self.peer_id != peer_id {
            Some(ReadError::RegionNotFound)
        } else if self.epoch != epoch {
            Some(ReadError::EpochNotMatch { current_epoch: self.epoch })
        } else if self.phase == PeerPhase::Applying {
            Some(ReadError::ApplyingSnapshot)
        } else {
            None
        }
    }

    /// Lets a read addressed to the replica `peer_id` under `epoch` pass,
    /// or says why it is turned away.
    pub fn check_read(&self, peer_id: u64, epoch: RegionEpoch) -> (res: Result<(), ReadError>)
        ensures
            res == match self.refusal(peer_id, epoch) {
                Some(e) => Err::<(), ReadError>(e),
                None => Ok(()),
            },
    {
        if self.peer_id != peer_id {
            return Err(ReadError::RegionNotFound);
        }
        if self.epoch.version != epoch.version || self.epoch.conf_version != epoch.conf_version {
            return Err(ReadError::EpochNotMatch { current_epoch: self.epoch });
        }
        match self.phase {
            PeerPhase::Applying => Err(ReadError::ApplyingSnapshot),
            PeerPhase::Normal => Ok(()),
        }
    }

    /// True when a notice that the replica `peer_id` has `role` in `term`
    /// is taken up: it is about this replica and not from an earlier
    /// term.
    pub open spec fn accepts_role(self, peer_id: u64, term: u64) -> bool {
        peer_id == self.peer_id && term >= self.term
    }

    /// The state after the notice that the replica `peer_id` has `role` in
    /// `term`. The lease of a leader is part of its role, so no lease
    /// outlives a change of role.
    pub open spec fn with_role(self, peer_id: u64, role: Role, term: u64) -> RegionReadState {
        if self.accepts_role(peer_id, term) {
            RegionReadState { role, term, ..self }
        } else {
            self
        }
    }

    /// True when the notice makes a leader of a replica that was none.
    pub open spec fn becomes_leader(self, peer_id: u64, role: Role, term: u64) -> bool {
        &&& self.accepts_role(peer_id, term)
        &&& role is Leader
        &&& !(self.role is Leader)
    }

    /// Takes up the notice that the replica `peer_id` has `role` in `term`,
    /// and returns whether that made a leader of a replica that was none.
    pub fn on_role_change(&mut self, peer_id: u64, role: Role, term: u64) -> (became_leader: bool)
        ensures
            *final(self) == old(self).with_role(peer_id, role, term),
            became_leader == old(self).becomes_leader(peer_id, role, term),
    {
        if peer_id != self.peer_id || term < self.term {
            return false;
        }
        let was_leader: bool = match self.role {
            Role::Leader { .. } => true,
            _ => false,
        };
        let is_leader: bool = match role {
            Role::Leader { .. } => true,
            _ => false,
        };
        self.role = role;
        self.term = term;
        is_leader && !was_leader
    }

    /// The state after the replica has applied the log up to
    /// `applied_index`: the applied index never goes back.
    pub open spec fn with_applied(self, applied_index: u64) -> RegionReadState {
        RegionReadState {
            applied_index: if applied_index > self.applied_index {
                applied_index
            } else {
                self.applied_index
            },
            ..self
        }
    }

    /// Records that the replica has applied the log up to `applied_index`.
    pub fn on_applied(&mut self, applied_index: u64)
        ensures
            *final(self) == old(self).with_applied(applied_index),
    {
        if applied_index > self.applied_index {
            self.applied_index = applied_index;
        }
    }

    /// Records that the replica starts to install a snapshot.
    pub fn on_snapshot_applying_start(&mut self)
        ensures
            *final(self) == (RegionReadState { phase: PeerPhase::Applying, ..*old(self) }),
    {
        self.phase = PeerPhase::Applying;
    }

    /// Records that the replica has installed a snapshot that reaches up to
    /// `snapshot_index`.
    pub fn on_snapshot_applied(&mut self, snapshot_index: u64)
        ensures
            *final(self) == (RegionReadState {
                phase: PeerPhase::Normal,
                ..old(self).with_applied(snapshot_index)
            }),
    {
        self.phase = PeerPhase::Normal;
        self.on_applied(snapshot_index);
    }

    /// The state after the region has moved on to `epoch`, if that is a
    /// later generation than the one it is in.
    pub open spec fn with_epoch(self, epoch: RegionEpoch) -> RegionReadState {
        if epoch.newer_than(self.epoch) {
            RegionReadState { epoch, ..self }
        } else {
            self
        }
    }

    /// Moves the region on to `epoch` if that is a later generation, and
    /// returns whether it was.
    pub fn advance_epoch(&mut self, epoch: RegionEpoch) -> (moved: bool)
        ensures
            *final(self) == old(self).with_epoch(epoch),
            moved == epoch.newer_than(old(self).epoch),
    {
        if epoch.is_newer_than(&self.epoch) {
            self.epoch = epoch;
            true
        } else {
            false
        }
    }
}

} // verus!
