//! The errors with which a read ends.

use vstd::prelude::*;
use crate::lock::{Lock, LockView};
use crate::region::RegionEpoch;

verus! {

/// Why a read was not served.
#[derive(Debug, PartialEq, Eq)]
pub enum ReadError {
    /// The replica that was asked does not lead; `new_leader_hint` is the
    /// replica that does, where that is known.
    NotLeader { new_leader_hint: Option<u64> },
    /// The caller's view of the region is out of date; `current_epoch` is
    /// the generation that the region is in.
    EpochNotMatch { current_epoch: RegionEpoch },
    /// The store holds no such replica.
    RegionNotFound,
    /// The replica is installing a snapshot.
    ApplyingSnapshot,
    /// A transaction that started at or before the read's timestamp holds
    /// a lock on a key that the read asks for.
    KeyIsLocked { lock_info: Lock },
    /// The caller's patience ran out before the read-index round ended.
    Timeout,
    /// The read-index round was answered for another term than the one it
    /// was issued in.
    StaleCommand,
}

/// A read error as a mathematical value.
pub enum ReadErrorView {
    NotLeader { new_leader_hint: Option<u64> },
    EpochNotMatch { current_epoch: RegionEpoch },
    RegionNotFound,
    ApplyingSnapshot,
    KeyIsLocked { lock_info: LockView },
    Timeout,
    StaleCommand,
}

impl View for ReadError {
    type V = ReadErrorView;

    open spec fn view(&self) -> ReadErrorView {
        match self {
            ReadError::NotLeader { new_leader_hint } => ReadErrorView::NotLeader {
                new_leader_hint: *new_leader_hint,
            },
            ReadError::EpochNotMatch { current_epoch } => ReadErrorView::EpochNotMatch {
                current_epoch: *current_epoch,
            },
            ReadError::RegionNotFound => ReadErrorView::RegionNotFound,
            ReadError::ApplyingSnapshot => ReadErrorView::ApplyingSnapshot,
            ReadError::KeyIsLocked { lock_info } => ReadErrorView::KeyIsLocked {
                lock_info: lock_info@,
            },
            ReadError::Timeout => ReadErrorView::Timeout,
            ReadError::StaleCommand => ReadErrorView::StaleCommand,
        }
    }
}

impl ReadErrorView {
    /// True for the faults that pass by themselves, so that the same
    /// request may succeed if it is made again of the same replica.
    pub open spec fn is_transient(self) -> bool {
        self is Timeout || self is ApplyingSnapshot || self is StaleCommand
    }
}

impl ReadError {
    /// True for the faults that pass by themselves: `Timeout`,
    /// `ApplyingSnapshot` and `StaleCommand`. Every other error goes to the
    /// caller, who has to find the region again or resolve the lock.
    pub fn is_transient(&self) -> (r: bool)
        ensures
            r == self@.is_transient(),
    {
        match self {
            ReadError::Timeout => true,
            ReadError::ApplyingSnapshot => true,
            ReadError::StaleCommand => true,
            _ => false,
        }
    }
}

impl Clone for ReadError {
    fn clone(&self) -> (copy: ReadError)
        ensures
            copy@ == self@,
    {
        match self {
            ReadError::NotLeader { new_leader_hint } => ReadError::NotLeader {
                new_leader_hint: *new_leader_hint,
            },
            ReadError::EpochNotMatch { current_epoch } => ReadError::EpochNotMatch {
                current_epoch: *current_epoch,
            },
            ReadError::RegionNotFound => ReadError::RegionNotFound,
            ReadError::ApplyingSnapshot => ReadError::ApplyingSnapshot,
            ReadError::KeyIsLocked { lock_info } => ReadError::KeyIsLocked {
                lock_info: lock_info.clone(),
            },
            ReadError::Timeout => ReadError::Timeout,
            ReadError::StaleCommand => ReadError::StaleCommand,
        }
    }
}

} // verus!
