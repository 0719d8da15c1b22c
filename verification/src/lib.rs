//! A Byzantine-fault-tolerant replicated key-value store: the per-replica
//! consensus core of a PBFT cluster (pre-prepare / prepare / commit phases,
//! view changes, checkpointing), with the protocol rules stated as contracts.

use vstd::prelude::*;

pub mod client;
pub mod config;
pub mod consensus;
pub mod crypto;
pub mod laws;
pub mod message_bank;
pub mod messages;
pub mod state;
pub mod store;
pub mod encoding;
pub mod view_changer;
pub mod votes;

verus! {

/// Index of a replica: a dense integer in `[0, num_nodes)`.
pub type NodeId = usize;

/// Keys of the replicated store.
pub type Key = String;

/// Values of the replicated store.
pub type Value = u32;

} // verus!
