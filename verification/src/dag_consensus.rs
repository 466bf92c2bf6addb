//! The single-shot tree-based consensus engine: per-account conflict sets,
//! a choice map that admits one winner per account state, and the confidence
//! walk with its two acceptance rules.

use vstd::prelude::*;
use crate::account::AccountStateChoice;
use crate::config::ConsensusConfig;
use crate::consensus::{conflict_grows, AccountConflictSet, ConsensusStatus};
use crate::idmap::{IdMap, IdSet};
use crate::network::{dag_query, send_dag_queries_batched, CommonConsensusNetwork, ConsensusNetwork};
use crate::tree::HashTreeNode;

verus! {

/// The walk's first step commits early: the candidate's parent is in the
/// tree and its node's confidence already exceeds beta.
pub open spec fn first_step_beta_commit(
    tree: Map<Seq<u8>, (crate::hash::Hash, crate::tree::TreeNode)>,
    parent: Seq<u8>,
    beta: u64,
) -> bool {
    tree.contains_key(parent) && tree[parent].1.confidence > beta
}

/// The walk's first step commits on the consecutive counter: the parent's
/// node is below the confidence bar, its preferred sibling is in the tree
/// (so the bookkeeping runs), it was re-selected, and its counter stands at
/// beta2 or above.
pub open spec fn first_step_count_commit(
    tree: Map<Seq<u8>, (crate::hash::Hash, crate::tree::TreeNode)>,
    parent: Seq<u8>,
    beta: u64,
    beta2: u64,
) -> bool {
    tree.contains_key(parent) && tree[parent].1.confidence <= beta && tree.contains_key(
        tree[parent].1.preferred@,
    ) && tree[parent].1.node@ == tree[parent].1.last@ && tree[parent].1.count < u64::MAX
        && tree[parent].1.count >= beta2
}

/// What the walk's first step writes for the visited node: the preferred
/// sibling moves to the node itself only on strictly greater confidence
/// (a tie keeps the old preferred), the last-selection bookkeeping resets
/// on a change and counts a re-selection, and nothing changes when the
/// preferred sibling is not in the tree.
pub open spec fn first_step_node(
    tree: Map<Seq<u8>, (crate::hash::Hash, crate::tree::TreeNode)>,
    parent: Seq<u8>,
) -> crate::tree::TreeNode {
    let node = tree[parent].1;
    if tree.contains_key(node.preferred@) {
        let pref = tree[node.preferred@].1;
        let node_a = (if node.confidence > pref.confidence {
            (crate::tree::TreeNode { preferred: node.node, ..node })
        } else {
            node
        });
        if node_a.node@ != node_a.last@ {
            (crate::tree::TreeNode { last: node_a.node, count: 0, ..node_a })
        } else {
            (crate::tree::TreeNode {
                count: (if node_a.count < u64::MAX {
                    (node_a.count + 1) as u64
                } else {
                    node_a.count
                }),
                ..node_a
            })
        }
    } else {
        node
    }
}

/// The single-shot tree-based engine.
pub struct DagConsensus {
    conflict_set: AccountConflictSet,
    choice: IdMap<crate::hash::Hash>,
    config: ConsensusConfig,
}

impl DagConsensus {
    /// The conflict sets: account state id bytes to candidate id bytes.
    pub closed spec fn conflict_sets(self) -> Map<Seq<u8>, Set<Seq<u8>>> {
        self.conflict_set@.map_values(|s: IdSet| s@)
    }

    /// The choice map: account state id bytes to the accepted candidate.
    pub closed spec fn choices(self) -> Map<Seq<u8>, Seq<u8>> {
        self.choice@.map_values(|h: crate::hash::Hash| h@)
    }

    /// The engine's parameters.
    pub closed spec fn spec_config(self) -> ConsensusConfig {
        self.config
    }

    /// A fresh engine: no conflicts recorded, nothing decided.
    pub fn new(config: ConsensusConfig) -> (r: Self)
        ensures
            r.conflict_sets() == Map::<Seq<u8>, Set<Seq<u8>>>::empty(),
            r.choices() == Map::<Seq<u8>, Seq<u8>>::empty(),
            r.spec_config() == config,
    {
        let r = DagConsensus { conflict_set: IdMap::new(), choice: IdMap::new(), config };
        proof {
            assert(r.conflict_sets() =~= Map::<Seq<u8>, Set<Seq<u8>>>::empty());
            assert(r.choices() =~= Map::<Seq<u8>, Seq<u8>>::empty());
        }
        r
    }

    /// Records the candidate in the conflict set for its account state. The
    /// conflict sets only grow, and nothing else changes.
    pub fn query(&mut self, state: &AccountStateChoice)
        requires
            state.tx.spec_id() is Some,
        ensures
            final(self).conflict_sets() == old(self).conflict_sets().insert(
                state.account_state_id@,
                (if old(self).conflict_sets().contains_key(state.account_state_id@) {
                    old(self).conflict_sets()[state.account_state_id@]
                } else {
                    Set::<Seq<u8>>::empty()
                }).insert(state.tx.spec_id().unwrap()),
            ),
            conflict_grows(old(self).conflict_sets(), final(self).conflict_sets()),
            final(self).conflict_sets().contains_key(state.account_state_id@),
            final(self).conflict_sets()[state.account_state_id@].contains(
                state.tx.spec_id().unwrap(),
            ),
            final(self).choices() == old(self).choices(),
            final(self).spec_config() == old(self).spec_config(),
    {
        let tx_id = state.tx.get_tx_id();
        let ghost old_sets = self.conflict_sets();
        let mut set = match self.conflict_set.take(&state.account_state_id) {
            Some(s) => s,
            None => IdSet::new(),
        };
        set.insert(tx_id);
        self.conflict_set.insert(state.account_state_id, set);
        proof {
            let sid = state.account_state_id@;
            let txv = state.tx.spec_id().unwrap();
            assert(final(self).conflict_sets() =~= old_sets.insert(
                sid,
                (if old_sets.contains_key(sid) {
                    old_sets[sid]
                } else {
                    Set::<Seq<u8>>::empty()
                }).insert(txv),
            ));
            assert forall|s: Seq<u8>| old_sets.contains_key(s) implies #[trigger] final(self).conflict_sets().contains_key(s) && old_sets[s].subset_of(
                final(self).conflict_sets()[s],
            ) by {}
            assert(final(self).choices() =~= old(self).choices());
        }
    }

    /// A peer's answer to a query: the locally standing choice for the state
    /// — the decided one where one is decided, else the asked candidate —
    /// and whether the candidate is already in the conflict set.
    pub fn on_query(&self, state: &AccountStateChoice) -> (r: (crate::hash::Hash, bool))
        requires
            state.tx.spec_id() is Some,
        ensures
            r.1 == (self.conflict_sets().contains_key(state.account_state_id@)
                && self.conflict_sets()[state.account_state_id@].contains(
                state.tx.spec_id().unwrap(),
            )),
            r.0@ == if self.choices().contains_key(state.account_state_id@) {
                self.choices()[state.account_state_id@]
            } else {
                state.tx.spec_id().unwrap()
            },
    {
        let tx_id = state.tx.get_tx_id();
        let exists_in_set = match self.conflict_set.get(&state.account_state_id) {
            Some(set) => set.contains(&tx_id),
            None => false,
        };
        match self.choice.get(&state.account_state_id) {
            Some(choice) => (*choice, exists_in_set),
            None => (tx_id, exists_in_set),
        }
    }

    /// The threshold gate, the double-accept guard, and the confidence walk.
    ///
    /// With `p` positive replies: below the threshold the request is
    /// rejected untouched; an already decided state is rejected (no second
    /// winner, whatever the candidate); otherwise the candidate is recorded
    /// as the state's choice and the walk up the parent chain applies the
    /// two acceptance rules, stepping at most as many times as the tree
    /// holds entries, so a cyclic chain cannot hold it.
    fn decide(&mut self, p: u64, state: &AccountStateChoice, tree: &mut HashTreeNode) -> (r:
        ConsensusStatus)
        requires
            state.tx.spec_id() is Some,
        ensures
            final(self).conflict_sets() == old(self).conflict_sets(),
            final(self).spec_config() == old(self).spec_config(),
            forall|s: Seq<u8>|
                old(self).choices().contains_key(s) ==> #[trigger] final(self).choices().contains_key(s) && final(self).choices()[s] == old(self).choices()[s],
            old(self).choices().contains_key(state.account_state_id@) ==> r is Reject && final(self).choices() == old(self).choices() && final(tree)@ == old(tree)@,
            !old(self).spec_config().spec_threshold(p) ==> r is Reject && final(self).choices()
                == old(self).choices() && final(tree)@ == old(tree)@,
            (old(self).spec_config().spec_threshold(p) && !old(self).choices().contains_key(
                state.account_state_id@,
            )) ==> final(self).choices() == old(self).choices().insert(
                state.account_state_id@,
                state.tx.spec_id().unwrap(),
            ),
            r matches ConsensusStatus::Accept(h) ==> old(self).spec_config().spec_threshold(p)
                && !old(self).choices().contains_key(state.account_state_id@),
            !(r is InProgress),
            r matches ConsensusStatus::Accept(h) ==> h@ == state.tx.spec_id().unwrap() || exists|
                key: Seq<u8>,
            |
                final(tree)@.contains_key(key) && (#[trigger] final(tree)@[key]).1.node@ == h@
                    && final(tree)@[key].1.confidence > old(self).spec_config().beta,
            (old(self).spec_config().spec_threshold(p) && !old(self).choices().contains_key(
                state.account_state_id@,
            ) && first_step_beta_commit(
                old(tree)@,
                state.tx.parent@,
                old(self).spec_config().beta,
            )) ==> (r matches ConsensusStatus::Accept(h) && h@ == old(tree)@[state.tx.parent@].1.node@),
            (old(self).spec_config().spec_threshold(p) && !old(self).choices().contains_key(
                state.account_state_id@,
            ) && first_step_count_commit(
                old(tree)@,
                state.tx.parent@,
                old(self).spec_config().beta,
                old(self).spec_config().beta2,
            )) ==> (r matches ConsensusStatus::Accept(h) && Some(h@) == state.tx.spec_id()),
            (old(self).spec_config().spec_threshold(p) && !old(self).choices().contains_key(
                state.account_state_id@,
            ) && (first_step_beta_commit(
                old(tree)@,
                state.tx.parent@,
                old(self).spec_config().beta,
            ) || first_step_count_commit(
                old(tree)@,
                state.tx.parent@,
                old(self).spec_config().beta,
                old(self).spec_config().beta2,
            ))) ==> final(tree)@ == old(tree)@.insert(
                (old(tree)@[state.tx.parent@].0)@,
                (
                    old(tree)@[state.tx.parent@].0,
                    first_step_node(old(tree)@, state.tx.parent@),
                ),
            ),
    {
        if !self.config.threshold(p) {
            return ConsensusStatus::Reject;
        }
        if self.choice.contains_key(&state.account_state_id) {
            proof {
                assert(old(self).choices().contains_key(state.account_state_id@));
            }
            return ConsensusStatus::Reject;
        }
        proof {
            assert(!old(self).choices().contains_key(state.account_state_id@));
        }
        let tx_id = state.tx.get_tx_id();
        self.choice.insert(state.account_state_id, tx_id);
        proof {
            assert(final(self).choices() =~= old(self).choices().insert(
                state.account_state_id@,
                state.tx.spec_id().unwrap(),
            ));
        }
        let mut parent_hash = state.tx.parent;
        let ghost a_beta = first_step_beta_commit(
            old(tree)@,
            state.tx.parent@,
            old(self).spec_config().beta,
        );
        let ghost a_count = first_step_count_commit(
            old(tree)@,
            state.tx.parent@,
            old(self).spec_config().beta,
            old(self).spec_config().beta2,
        );
        let cap = tree.len();
        proof {
            if a_beta || a_count {
                assert(tree@.dom().contains(state.tx.parent@));
                if tree@.dom().len() == 0 {
                    vstd::set_lib::lemma_set_empty_equivalency_len(tree@.dom());
                }
                assert(cap >= 1);
            }
        }
        let mut steps: usize = 0;
        while steps < cap
            invariant
                self.choices() == old(self).choices().insert(
                    state.account_state_id@,
                    state.tx.spec_id().unwrap(),
                ),
                self.conflict_sets() == old(self).conflict_sets(),
                self.spec_config() == old(self).spec_config(),
                old(self).spec_config().spec_threshold(p),
                !old(self).choices().contains_key(state.account_state_id@),
                Some(tx_id@) == state.tx.spec_id(),
                a_beta == first_step_beta_commit(
                    old(tree)@,
                    state.tx.parent@,
                    old(self).spec_config().beta,
                ),
                a_count == first_step_count_commit(
                    old(tree)@,
                    state.tx.parent@,
                    old(self).spec_config().beta,
                    old(self).spec_config().beta2,
                ),
                (a_beta || a_count) ==> cap >= 1,
                (a_beta || a_count) ==> steps == 0,
                steps == 0 ==> parent_hash == state.tx.parent && tree@ == old(tree)@,
            decreases cap - steps,
        {
            steps += 1;
            let path: (crate::hash::Hash, crate::tree::TreeNode) = match tree.get(&parent_hash) {
                Some(entry) => *entry,
                None => {
                    proof {
                        assert(!a_beta && !a_count);
                    }
                    return ConsensusStatus::Reject;
                },
            };
            parent_hash = path.0;
            let mut node = path.1;
            match tree.get(&node.preferred) {
                Some(pref_entry) => {
                    let pref = pref_entry.1;
                    if node.confidence > pref.confidence {
                        node.preferred = node.node;
                    }
                    if !(node.node == node.last) {
                        node.last = node.node;
                        node.count = 0;
                    } else {
                        if node.count < u64::MAX {
                            node.count = node.count + 1;
                        }
                    }
                },
                None => {},
            }
            tree.insert(parent_hash, (parent_hash, node));
            if node.confidence > self.config.beta {
                proof {
                    assert(tree@.contains_key(parent_hash@));
                    assert(tree@[parent_hash@].1 == node);
                    if a_beta || a_count {
                        assert(node.node == old(tree)@[state.tx.parent@].1.node);
                        assert(node.confidence == old(tree)@[state.tx.parent@].1.confidence);
                    }
                }
                return ConsensusStatus::Accept(node.node);
            }
            if node.count > self.config.beta2 {
                proof {
                    assert(state.tx.spec_id().unwrap() == tx_id@);
                    if a_beta {
                        assert(node.confidence == old(tree)@[state.tx.parent@].1.confidence);
                        assert(false);
                    }
                }
                return ConsensusStatus::Accept(tx_id);
            }
        }
        ConsensusStatus::Reject
    }

    /// One full round: record the candidate, sample `k` peers for their
    /// verdict, and decide. A state that already has a winner is rejected;
    /// the conflict sets only grow and keep the candidate.
    pub fn fire_consensus<T: ConsensusNetwork, N: CommonConsensusNetwork>(
        &mut self,
        state: &AccountStateChoice,
        network: &mut T,
        common_network: &mut N,
        tree: &mut HashTreeNode,
    ) -> (r: ConsensusStatus)
        requires
            state.tx.spec_id() is Some,
        ensures
            conflict_grows(old(self).conflict_sets(), final(self).conflict_sets()),
            final(self).conflict_sets().contains_key(state.account_state_id@),
            final(self).conflict_sets()[state.account_state_id@].contains(
                state.tx.spec_id().unwrap(),
            ),
            final(self).spec_config() == old(self).spec_config(),
            forall|s: Seq<u8>|
                old(self).choices().contains_key(s) ==> #[trigger] final(self).choices().contains_key(s) && final(self).choices()[s] == old(self).choices()[s],
            old(self).choices().contains_key(state.account_state_id@) ==> r is Reject && final(tree)@ == old(tree)@,
            r matches ConsensusStatus::Accept(h) ==> !old(self).choices().contains_key(
                state.account_state_id@,
            ),
            final(self).choices() == old(self).choices() || final(self).choices() == old(self).choices().insert(state.account_state_id@, state.tx.spec_id().unwrap()),
            !(r is InProgress),
    {
        self.query(state);
        let p = dag_query(network, self.config.k, state, &*common_network);
        self.decide(p, state, tree)
    }

    /// Decides from an already tallied count of positive replies, as handed
    /// back by a batched response. The same gates as `fire_consensus`, with
    /// the count supplied by the caller.
    pub fn complete_dag_consensus(
        &mut self,
        acceptance: usize,
        state: &AccountStateChoice,
        tree: &mut HashTreeNode,
    ) -> (r: ConsensusStatus)
        requires
            state.tx.spec_id() is Some,
        ensures
            final(self).conflict_sets() == old(self).conflict_sets(),
            final(self).spec_config() == old(self).spec_config(),
            forall|s: Seq<u8>|
                old(self).choices().contains_key(s) ==> #[trigger] final(self).choices().contains_key(s) && final(self).choices()[s] == old(self).choices()[s],
            old(self).choices().contains_key(state.account_state_id@) ==> r is Reject && final(self).choices() == old(self).choices() && final(tree)@ == old(tree)@,
            !old(self).spec_config().spec_threshold(acceptance as u64) ==> r is Reject && final(self).choices() == old(self).choices() && final(tree)@ == old(tree)@,
            (old(self).spec_config().spec_threshold(acceptance as u64) && !old(self).choices().contains_key(state.account_state_id@)) ==> final(self).choices() == old(self).choices().insert(state.account_state_id@, state.tx.spec_id().unwrap()),
            r matches ConsensusStatus::Accept(h) ==> old(self).spec_config().spec_threshold(
                acceptance as u64,
            ) && !old(self).choices().contains_key(state.account_state_id@),
            !(r is InProgress),
            (old(self).spec_config().spec_threshold(acceptance as u64) && !old(self).choices().contains_key(state.account_state_id@) && first_step_beta_commit(
                old(tree)@,
                state.tx.parent@,
                old(self).spec_config().beta,
            )) ==> (r matches ConsensusStatus::Accept(h) && h@ == old(tree)@[state.tx.parent@].1.node@),
            (old(self).spec_config().spec_threshold(acceptance as u64) && !old(self).choices().contains_key(state.account_state_id@) && first_step_count_commit(
                old(tree)@,
                state.tx.parent@,
                old(self).spec_config().beta,
                old(self).spec_config().beta2,
            )) ==> (r matches ConsensusStatus::Accept(h) && Some(h@) == state.tx.spec_id()),
            (old(self).spec_config().spec_threshold(acceptance as u64) && !old(self).choices().contains_key(state.account_state_id@) && (first_step_beta_commit(
                old(tree)@,
                state.tx.parent@,
                old(self).spec_config().beta,
            ) || first_step_count_commit(
                old(tree)@,
                state.tx.parent@,
                old(self).spec_config().beta,
                old(self).spec_config().beta2,
            ))) ==> final(tree)@ == old(tree)@.insert(
                (old(tree)@[state.tx.parent@].0)@,
                (
                    old(tree)@[state.tx.parent@].0,
                    first_step_node(old(tree)@, state.tx.parent@),
                ),
            ),
    {
        self.decide(acceptance as u64, state, tree)
    }

    /// Records the candidate and queues batched queries to `k` peers.
    pub fn send_consensus_requests<T: ConsensusNetwork, N: CommonConsensusNetwork>(
        &mut self,
        state: &AccountStateChoice,
        tx: &crate::transaction::Transaction,
        network: &mut T,
        common_network: &mut N,
        count: usize,
    )
        requires
            state.tx.spec_id() is Some,
        ensures
            conflict_grows(old(self).conflict_sets(), final(self).conflict_sets()),
            final(self).conflict_sets().contains_key(state.account_state_id@),
            final(self).conflict_sets()[state.account_state_id@].contains(
                state.tx.spec_id().unwrap(),
            ),
            final(self).choices() == old(self).choices(),
            final(self).spec_config() == old(self).spec_config(),
    {
        self.query(state);
        send_dag_queries_batched(
            network,
            self.config.k,
            tx,
            state,
            &*common_network,
            self.config.max_batch_size,
            self.config.max_batch_interval_ms,
            count,
        );
    }

    /// The sample size, as far as it fits the platform's word.
    pub fn target_count(&self) -> (r: usize)
        ensures
            self.spec_config().k <= usize::MAX ==> r == self.spec_config().k,
    {
        self.config.k as usize
    }
}

} // verus!
