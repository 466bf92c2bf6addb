//! What the node surfaces to its driver when messages arrive.

use vstd::prelude::*;
use crate::account::AccountStateChoice;
use crate::transaction::Transaction;

verus! {

/// An event surfaced by the peer-to-peer layer.
pub enum Event {
    /// A connection reached the connected state.
    ConnectedTo(crate::hash::Hash),
    /// User bytes arrived (and, for signed bytes, verified).
    NewMessage(Vec<u8>),
    /// A plain consensus query arrived.
    ConsensusRequest(AccountStateChoice),
    /// A tree-variant consensus query arrived.
    DagConsensusRequest {
        sender: crate::hash::Hash,
        data: AccountStateChoice,
        tx: Transaction,
        count: usize,
    },
    /// A peer's verdict arrived.
    DagConsensusResponse { hash: crate::hash::Hash, sender: crate::hash::Hash, accepted: bool },
    /// A transaction finished consensus.
    TransactionComplete(crate::hash::Hash),
    /// A benchmarking run was requested.
    InitBenchmarkingSignal(usize, u64),
    /// A benchmarking round completed.
    CompleteRound,
    /// Benchmarking counters arrived.
    BenchmarkStats(Vec<u64>),
    /// A batch of tree-variant queries arrived.
    BatchedConsensusRequest {
        sender: crate::hash::Hash,
        data: Vec<(AccountStateChoice, Transaction)>,
        count: usize,
    },
    /// The verdicts for a batch arrived.
    BatchedConsensusResponse {
        sender: crate::hash::Hash,
        data: Vec<(crate::hash::Hash, bool)>,
    },
}

} // verus!
