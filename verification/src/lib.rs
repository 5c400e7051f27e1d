//! Replica reads for a replicated, range-partitioned key-value store: how
//! a replica that does not lead answers a read without asking the leader
//! each time, and never answers with less than the read is owed.
//!
//! The store is cut into regions; each region is replicated by a consensus
//! group, and each store holds at most one replica of a region. For every
//! region the store remembers the highest timestamp at which its replica
//! has been shown to be safe to read. A read at or below that timestamp is
//! answered at once. Any other read waits for a read-index round, is
//! checked against the locks of running transactions, and raises the
//! timestamp if no lock stands in its way.
//!
//! - `dispatcher` decides how each read is served and takes in what
//!   consensus reports; `model` says what each of its functions does to
//!   the store, `history` strings such steps together, and `laws` and
//!   `retention` hold what is proved of every history.
//! - `safe_ts`, `read_index`, `region` and `concurrency` are the parts that
//!   the dispatcher is made of; `lock`, `error` and `bytes` are what they
//!   share.
//! - `collation` orders and hashes stored strings, and `gc_config` holds
//!   the configuration of the garbage-collection worker.
//!
//! The library waits for nothing and reads no clock: time, threads and
//! files belong to its callers. Every executable function is verified
//! against its contract, but for one that asks the standard library for the
//! byte order of the machine; its contract is stated where it stands.

pub mod bytes;
pub mod collation;
pub mod concurrency;
pub mod dispatcher;
pub mod error;
pub mod gc_config;
pub mod history;
pub mod laws;
pub mod lock;
pub mod model;
pub mod read_index;
pub mod region;
pub mod retention;
pub mod safe_ts;
