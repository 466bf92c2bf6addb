//! What the consensus engines ask of the network: random peer samples and
//! per-peer query calls. The node implements these traits; the sampling and
//! tallying logic over them is verified here.

use vstd::prelude::*;
use crate::account::AccountStateChoice;
use crate::idmap::IdMap;
use crate::transaction::Transaction;

verus! {

/// The node directory the engines sample peers from.
pub trait CommonConsensusNetwork {
    /// Up to `k` known nodes other than `node_id`, sampled at random without
    /// replacement.
    fn get_nodes_except_one(&self, k: u64, node_id: crate::hash::Hash) -> (r: Vec<
        crate::hash::Hash,
    >)
        ensures
            r@.len() <= k,
            forall|i: int| 0 <= i < r@.len() ==> (#[trigger] r@[i])@ != node_id@,
    ;
}

/// The query transport the engines dispatch through. Replies come from other
/// nodes, so nothing is promised of their content.
pub trait ConsensusNetwork {
    /// This node's own id.
    fn get_node_id(&self) -> crate::hash::Hash;

    /// Asks one peer for its preferred choice for the state.
    fn request_consensus(&mut self, node_id: crate::hash::Hash, data: &AccountStateChoice) -> (r:
        crate::hash::Hash);

    /// Asks one peer whether it strongly prefers the carried transaction.
    fn request_dag_consensus(&self, node_id: crate::hash::Hash, data: &AccountStateChoice) -> (r:
        bool);

    /// Sends one peer a query for the state, fire and forget.
    fn send_dag_consensus_request(
        &mut self,
        node_id: crate::hash::Hash,
        data: &AccountStateChoice,
        tx: &Transaction,
        count: usize,
    );

    /// Registers an outstanding query so the reply can be correlated.
    fn add_outgoing_dag_consensus_request(
        &mut self,
        node_id: crate::hash::Hash,
        data: &AccountStateChoice,
        tx: &Transaction,
        count: usize,
    );

    /// Accounts one reply for the transaction; hands back the positive count
    /// so far and the number of replies seen, counts only growing as replies
    /// arrive.
    fn accept_incoming_consensus_response(
        &mut self,
        node_id: crate::hash::Hash,
        data: crate::hash::Hash,
        accepted: bool,
    ) -> (r: (usize, usize))
        ensures
            r.0 <= r.1,
    ;

    /// Takes an outstanding transaction out of the correlation table.
    fn remove_outgoing_dag_transaction(&mut self, tx_id: crate::hash::Hash) -> (r: Transaction);

    /// Queues the pair for a batched dispatch, flushing when the batch holds
    /// `max_batch_size` pairs or has waited `max_batch_interval_ms`.
    fn add_transaction_to_batch<N: CommonConsensusNetwork>(
        &mut self,
        k: u64,
        tx: &Transaction,
        data: &AccountStateChoice,
        network: &N,
        max_batch_size: usize,
        max_batch_interval_ms: u64,
        count: usize,
    );
}

/// Up to `k` random peers, excluding this node itself.
pub fn get_sample_network<T: ConsensusNetwork, N: CommonConsensusNetwork>(
    net: &T,
    k: u64,
    network: &N,
) -> (r: Vec<crate::hash::Hash>)
    ensures
        r@.len() <= k,
{
    network.get_nodes_except_one(k, net.get_node_id())
}

/// Samples up to `k` peers and counts how many strongly prefer the carried
/// transaction; the count never exceeds the sample, so never `k`.
pub fn dag_query<T: ConsensusNetwork, N: CommonConsensusNetwork>(
    net: &mut T,
    k: u64,
    data: &AccountStateChoice,
    network: &N,
) -> (r: u64)
    ensures
        r <= k,
{
    let nodes = network.get_nodes_except_one(k, net.get_node_id());
    let mut query_result: u64 = 0;
    let mut i: usize = 0;
    while i < nodes.len()
        invariant
            0 <= i <= nodes@.len(),
            query_result <= i,
            nodes@.len() <= k,
        decreases nodes@.len() - i,
    {
        let preferred = net.request_dag_consensus(nodes[i], data);
        if preferred {
            query_result = query_result + 1;
        }
        i += 1;
    }
    query_result
}

/// Samples up to `k` peers, asks each for its preferred choice and tallies
/// the replies: every tallied choice was named at least once, and no more
/// often than peers were asked.
pub fn query<T: ConsensusNetwork, N: CommonConsensusNetwork>(
    net: &mut T,
    k: u64,
    data: &AccountStateChoice,
    network: &N,
) -> (r: IdMap<u64>)
    ensures
        forall|key: Seq<u8>| r@.contains_key(key) ==> 1 <= #[trigger] r@[key] <= k,
{
    let nodes = network.get_nodes_except_one(k, net.get_node_id());
    let mut query_result: IdMap<u64> = IdMap::new();
    let mut i: usize = 0;
    while i < nodes.len()
        invariant
            0 <= i <= nodes@.len(),
            nodes@.len() <= k,
            forall|key: Seq<u8>|
                query_result@.contains_key(key) ==> 1 <= #[trigger] query_result@[key] <= i,
        decreases nodes@.len() - i,
    {
        let choice = net.request_consensus(nodes[i], data);
        let current: u64 = match query_result.get(&choice) {
            Some(c) => *c,
            None => 0,
        };
        if current < u64::MAX {
            query_result.insert(choice, current + 1);
        }
        i += 1;
    }
    query_result
}

/// Samples up to `k` peers and sends each a registered query for the pair.
pub fn send_dag_queries<T: ConsensusNetwork, N: CommonConsensusNetwork>(
    net: &mut T,
    k: u64,
    tx: &Transaction,
    data: &AccountStateChoice,
    network: &N,
    count: usize,
)
{
    let nodes = network.get_nodes_except_one(k, net.get_node_id());
    let mut i: usize = 0;
    while i < nodes.len()
        invariant
            0 <= i <= nodes@.len(),
        decreases nodes@.len() - i,
    {
        net.add_outgoing_dag_consensus_request(nodes[i], data, tx, count);
        net.send_dag_consensus_request(nodes[i], data, tx, count);
        i += 1;
    }
}

/// Queues the pair for batched dispatch to a fresh sample of peers.
pub fn send_dag_queries_batched<T: ConsensusNetwork, N: CommonConsensusNetwork>(
    net: &mut T,
    k: u64,
    tx: &Transaction,
    data: &AccountStateChoice,
    network: &N,
    max_batch_size: usize,
    max_batch_interval_ms: u64,
    count: usize,
)
{
    net.add_transaction_to_batch(k, tx, data, network, max_batch_size, max_batch_interval_ms, count);
}

} // verus!
