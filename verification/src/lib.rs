//! Core of a leader-based, round-by-round Byzantine-fault-tolerant
//! state-machine-replication protocol.
//!
//! The crate is organised around three subsystems: a per-epoch record store
//! (blocks, votes, quorum certificates, timeouts, the vote tally and the
//! commit rule), a pacemaker (active round, leader election, round
//! durations), and a per-replica node state that ties them together and
//! drives data synchronization.

pub mod base_types;
pub mod codec;
pub mod configuration;
pub mod data_sync;
pub mod hashing;
pub mod keyed;
pub mod node;
pub mod pacemaker;
pub mod record;
pub mod record_store;
pub mod simulated_context;
pub mod smr_context;
pub mod util;
