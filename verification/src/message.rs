//! The wire messages nodes exchange.

use vstd::prelude::*;
use crate::account::AccountStateChoice;
use crate::identity::PublicId;
use crate::netaddr::NetAddr;
use crate::routing::SharedRoutingTable;
use crate::signature::Signature;
use crate::transaction::Transaction;

verus! {

/// Every application payload that crosses the wire, as a tagged union.
pub enum Message {
    /// Opaque user bytes.
    UserMessage(Vec<u8>),
    /// Encrypted user bytes.
    EncryptedMessage(Vec<u8>),
    /// User bytes with the sender's public identity.
    AuthenticatedMessage { message: Vec<u8>, sender: PublicId },
    /// User bytes signed by the sender.
    SignedMessage { message: Vec<u8>, signature: Vec<u8>, sender: PublicId },
    /// The first message on any connection: the sender's node hash.
    Identification(crate::hash::Hash),
    /// A referral: the peers of a node whose connection table is full.
    Contacts(Vec<NetAddr>),
    /// A TTL-bounded multi-hop envelope of inner messages.
    AgentMessage { payload: Vec<(crate::hash::Hash, Message, usize)> },
    /// A gossiped routing table with its source.
    RoutingTable { routing_table: SharedRoutingTable, source: crate::hash::Hash },
    /// A plain consensus query.
    ConsensusRequest { data: AccountStateChoice },
    /// A tree-variant consensus query.
    DagConsensusRequest {
        sender: crate::hash::Hash,
        data: AccountStateChoice,
        tx: Transaction,
        count: usize,
    },
    /// A peer's verdict on a tree-variant query.
    DagConsensusResponse {
        sender: crate::hash::Hash,
        hash: crate::hash::Hash,
        strongly_preferred: bool,
    },
    /// Starts a benchmarking run.
    InitBenchmarking(usize, u64),
    /// Marks a benchmarking round complete.
    CompleteRound,
    /// Benchmarking counters.
    BenchmarkStats(Vec<u64>),
    /// Many tree-variant queries coalesced for one peer.
    BatchedConsensusRequest {
        sender: crate::hash::Hash,
        data: Vec<(AccountStateChoice, Transaction)>,
        count: usize,
    },
    /// The verdicts for a batch, correlated by transaction id.
    BatchedConsensusResponse {
        sender: crate::hash::Hash,
        data: Vec<(crate::hash::Hash, bool)>,
    },
}

/// A `Signature` value carrying raw signed-message bytes.
pub fn signature_from_raw(bytes: Vec<u8>) -> (r: Signature)
    ensures
        r@ == bytes@,
{
    Signature::new(bytes)
}

} // verus!
