//! A DAG-based probabilistic consensus engine for a transaction ledger:
//! hierarchical vector clocks, per-account conflict sets with two acceptance
//! rules, a distance-vector routing table with TTL-bounded agent forwarding,
//! and a canonical binary wire codec — all with machine-checked contracts.

pub mod hash;
pub mod codec;
pub mod idmap;
pub mod clock;
pub mod signature;
pub mod account;
pub mod transaction;
pub mod tree;
pub mod config;
pub mod consensus;
pub mod network;
pub mod dag_consensus;
pub mod quantum;
pub mod routing;
pub mod netaddr;
pub mod addrmap;
pub mod connection;
pub mod error;
pub mod identity;
pub mod message;
pub mod events;
pub mod messaging;
pub mod wire;
pub mod msgcodec;
pub mod p2p_config;
pub mod storage;

use vstd::prelude::*;

verus! {

} // verus!
