//! A Byzantine fault tolerant key-value store replicated with the pBFT protocol.
//!
//! The library holds the protocol's decisions: which messages a replica accepts,
//! how it counts votes, applies committed requests to its store, takes checkpoints
//! and changes views. Every decision is a function from the replica's state and an
//! incoming command to the next state and the commands that the replica emits.
use vstd::prelude::*;

pub mod vec_map;
pub mod crypto;
pub mod config;
pub mod messages;
pub mod message_bank;
pub mod store_order;
pub mod state;
pub mod view_changer;
pub mod consensus;
pub mod node;
pub mod client;
pub mod laws;
pub mod runs;
pub mod handler_laws;

verus! {

/// Identifier of a replica in the cluster.
pub type NodeId = usize;

/// Keys of the replicated store.
pub type Key = String;

/// Values of the replicated store.
pub type Value = u32;

} // verus!
