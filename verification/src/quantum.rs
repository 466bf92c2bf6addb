//! The iterative majority-count consensus engine: it samples rounds of peer
//! preferences and accepts once one candidate has been re-selected enough
//! consecutive rounds, under a mandatory round cap.

use vstd::prelude::*;
use crate::account::AccountStateChoice;
use crate::config::ConsensusConfig;
use crate::consensus::{conflict_grows, AccountConflictSet, ConsensusStatus};
use crate::idmap::{IdMap, IdSet};
use crate::network::{query, send_dag_queries, CommonConsensusNetwork, ConsensusNetwork};
use crate::tree::HashTreeNode;

verus! {

/// One candidate's bookkeeping for one sampled round of the iterative
/// contest, exactly as spec'd: when the candidate's tally clears the strict
/// threshold, its confidence rises by one (saturating); the running choice
/// moves to it when its confidence now strictly exceeds the choice's; a
/// re-selection of last round's candidate advances the consecutive counter,
/// any other candidate resets it; and acceptance is owed exactly when the
/// counter passes beta. A candidate without a tally, or below the bar,
/// changes nothing.
pub fn quantum_round_step(
    config: &ConsensusConfig,
    tally: Option<u64>,
    candidate: crate::hash::Hash,
    confidence: &mut IdMap<u64>,
    choice_hash: &mut crate::hash::Hash,
    last_choice: &mut crate::hash::Hash,
    choice_count: &mut u64,
) -> (accept: bool)
    ensures
        !(tally matches Some(p) && config.spec_threshold(p)) ==> (!accept && final(confidence)@
            == old(confidence)@ && *final(choice_hash) == *old(choice_hash) && *final(last_choice)
            == *old(last_choice) && *final(choice_count) == *old(choice_count)),
        (tally matches Some(p) && config.spec_threshold(p)) ==> {
            let bumped = if crate::clock::clock_at(old(confidence)@, candidate@) < u64::MAX {
                (crate::clock::clock_at(old(confidence)@, candidate@) + 1) as u64
            } else {
                crate::clock::clock_at(old(confidence)@, candidate@)
            };
            let after = old(confidence)@.insert(candidate@, bumped);
            &&& final(confidence)@ == after
            &&& *final(choice_hash) == (if bumped > crate::clock::clock_at(
                after,
                old(choice_hash)@,
            ) {
                candidate
            } else {
                *old(choice_hash)
            })
            &&& (old(last_choice)@ != candidate@ ==> *final(last_choice) == candidate && *final(choice_count) == 0 && !accept)
            &&& (old(last_choice)@ == candidate@ ==> *final(last_choice) == *old(last_choice)
                && *final(choice_count) == (if *old(choice_count) < u64::MAX {
                (*old(choice_count) + 1) as u64
            } else {
                *old(choice_count)
            }) && accept == (*final(choice_count) > config.beta))
        },
{
    let p = match tally {
        Some(p) => p,
        None => {
            return false;
        },
    };
    if !config.threshold(p) {
        return false;
    }
    let current: u64 = match confidence.get(&candidate) {
        Some(c) => *c,
        None => 0,
    };
    let bumped: u64 = if current < u64::MAX {
        current + 1
    } else {
        current
    };
    confidence.insert(candidate, bumped);
    let choice_conf: u64 = match confidence.get(choice_hash) {
        Some(c) => *c,
        None => 0,
    };
    if bumped > choice_conf {
        *choice_hash = candidate;
    }
    if !(*last_choice == candidate) {
        *last_choice = candidate;
        *choice_count = 0;
        false
    } else {
        if *choice_count < u64::MAX {
            *choice_count = *choice_count + 1;
        }
        *choice_count > config.beta
    }
}

/// The iterative majority-count engine.
pub struct QuantumConsensus {
    conflict_set: AccountConflictSet,
    choice: IdMap<crate::hash::Hash>,
    config: ConsensusConfig,
}

impl QuantumConsensus {
    /// The conflict sets: account state id bytes to candidate id bytes.
    pub closed spec fn conflict_sets(self) -> Map<Seq<u8>, Set<Seq<u8>>> {
        self.conflict_set@.map_values(|s: IdSet| s@)
    }

    /// The choice map: account state id bytes to the seeded candidate.
    pub closed spec fn choices(self) -> Map<Seq<u8>, Seq<u8>> {
        self.choice@.map_values(|h: crate::hash::Hash| h@)
    }

    /// The engine's parameters.
    pub closed spec fn spec_config(self) -> ConsensusConfig {
        self.config
    }

    /// Whether a contest for the state is already recorded.
    fn has_conflicts(&self, state: &AccountStateChoice) -> (r: bool)
        ensures
            r == self.conflict_sets().contains_key(state.account_state_id@),
    {
        self.conflict_set.contains_key(&state.account_state_id)
    }

    /// A fresh engine: no conflicts recorded, nothing decided.
    pub fn new(config: ConsensusConfig) -> (r: Self)
        ensures
            r.conflict_sets() == Map::<Seq<u8>, Set<Seq<u8>>>::empty(),
            r.choices() == Map::<Seq<u8>, Seq<u8>>::empty(),
            r.spec_config() == config,
    {
        let r = QuantumConsensus { conflict_set: IdMap::new(), choice: IdMap::new(), config };
        proof {
            assert(r.conflict_sets() =~= Map::<Seq<u8>, Set<Seq<u8>>>::empty());
            assert(r.choices() =~= Map::<Seq<u8>, Seq<u8>>::empty());
        }
        r
    }

    /// Records the candidate in the conflict set for its account state. The
    /// conflict sets only grow, and nothing else changes.
    pub fn query(&mut self, state: &AccountStateChoice)
        requires
            state.tx.spec_id() is Some,
        ensures
            final(self).conflict_sets() == old(self).conflict_sets().insert(
                state.account_state_id@,
                (if old(self).conflict_sets().contains_key(state.account_state_id@) {
                    old(self).conflict_sets()[state.account_state_id@]
                } else {
                    Set::<Seq<u8>>::empty()
                }).insert(state.tx.spec_id().unwrap()),
            ),
            conflict_grows(old(self).conflict_sets(), final(self).conflict_sets()),
            final(self).conflict_sets().contains_key(state.account_state_id@),
            final(self).conflict_sets()[state.account_state_id@].contains(
                state.tx.spec_id().unwrap(),
            ),
            final(self).choices() == old(self).choices(),
            final(self).spec_config() == old(self).spec_config(),
    {
        let tx_id = state.tx.get_tx_id();
        let ghost old_sets = self.conflict_sets();
        let mut set = match self.conflict_set.take(&state.account_state_id) {
            Some(s) => s,
            None => IdSet::new(),
        };
        set.insert(tx_id);
        self.conflict_set.insert(state.account_state_id, set);
        proof {
            let sid = state.account_state_id@;
            let txv = state.tx.spec_id().unwrap();
            assert(final(self).conflict_sets() =~= old_sets.insert(
                sid,
                (if old_sets.contains_key(sid) {
                    old_sets[sid]
                } else {
                    Set::<Seq<u8>>::empty()
                }).insert(txv),
            ));
            assert forall|s: Seq<u8>| old_sets.contains_key(s) implies #[trigger] final(self).conflict_sets().contains_key(s) && old_sets[s].subset_of(
                final(self).conflict_sets()[s],
            ) by {}
            assert(final(self).choices() =~= old(self).choices());
        }
    }

    /// Records the candidate and sends a registered query to `k` peers.
    pub fn send_consensus_requests<T: ConsensusNetwork, N: CommonConsensusNetwork>(
        &mut self,
        state: &AccountStateChoice,
        tx: &crate::transaction::Transaction,
        network: &mut T,
        common_network: &mut N,
        count: usize,
    )
        requires
            state.tx.spec_id() is Some,
        ensures
            conflict_grows(old(self).conflict_sets(), final(self).conflict_sets()),
            final(self).conflict_sets().contains_key(state.account_state_id@),
            final(self).conflict_sets()[state.account_state_id@].contains(
                state.tx.spec_id().unwrap(),
            ),
            final(self).choices() == old(self).choices(),
            final(self).spec_config() == old(self).spec_config(),
    {
        self.query(state);
        send_dag_queries(network, self.config.k, tx, state, &*common_network, count);
    }

    /// The iterative variant completes inside `fire_consensus`; there is
    /// nothing to complete from a tallied count, so the request is rejected
    /// and nothing changes.
    pub fn complete_dag_consensus(
        &mut self,
        acceptance: usize,
        state: &AccountStateChoice,
        tree: &mut HashTreeNode,
    ) -> (r: ConsensusStatus)
        ensures
            r is Reject,
            *final(self) == *old(self),
            final(tree)@ == old(tree)@,
    {
        let _ = acceptance;
        let _ = state;
        ConsensusStatus::Reject
    }

    /// The iterative contest. A state already under contest reports
    /// `InProgress`; otherwise the candidate is recorded, seeded as the
    /// state's choice, and rounds of sampled preferences are tallied until
    /// one candidate has been re-selected more than `beta` consecutive
    /// rounds — or the round cap of one hundred times the sample size runs
    /// out, which rejects the request.
    pub fn fire_consensus<T: ConsensusNetwork, N: CommonConsensusNetwork>(
        &mut self,
        state: &AccountStateChoice,
        network: &mut T,
        common_network: &mut N,
        tree: &mut HashTreeNode,
    ) -> (r: ConsensusStatus)
        requires
            state.tx.spec_id() is Some,
        ensures
            conflict_grows(old(self).conflict_sets(), final(self).conflict_sets()),
            final(self).conflict_sets().contains_key(state.account_state_id@),
            final(self).conflict_sets()[state.account_state_id@].contains(
                state.tx.spec_id().unwrap(),
            ),
            final(self).spec_config() == old(self).spec_config(),
            old(self).conflict_sets().contains_key(state.account_state_id@) ==> r is InProgress
                && final(self).choices() == old(self).choices(),
            !old(self).conflict_sets().contains_key(state.account_state_id@) ==> final(self).choices() == old(self).choices().insert(
                state.account_state_id@,
                state.tx.spec_id().unwrap(),
            ),
            r matches ConsensusStatus::Accept(h) ==> !old(self).conflict_sets().contains_key(
                state.account_state_id@,
            ) && final(self).conflict_sets().contains_key(state.account_state_id@) && final(self).conflict_sets()[state.account_state_id@].contains(h@),
            final(tree)@ == old(tree)@,
    {
        let had_conflicts = self.has_conflicts(state);
        self.query(state);
        if had_conflicts {
            return ConsensusStatus::InProgress;
        }
        let tx_id = state.tx.get_tx_id();
        let mut confidence: IdMap<u64> = IdMap::new();
        let mut choice_hash = tx_id;
        self.choice.insert(state.account_state_id, tx_id);
        proof {
            assert(self.choices() =~= old(self).choices().insert(
                state.account_state_id@,
                state.tx.spec_id().unwrap(),
            ));
        }
        let ghost sets_after_query = self.conflict_sets();
        let ghost choices_after_seed = self.choices();
        let mut last_choice = tx_id;
        let mut choice_count: u64 = 0;
        let max_rounds: u64 = if self.config.k <= u64::MAX / 100 {
            100 * self.config.k
        } else {
            u64::MAX
        };
        let mut round: u64 = 0;
        while round < max_rounds
            invariant
                self.conflict_sets() == sets_after_query,
                self.choices() == choices_after_seed,
                conflict_grows(old(self).conflict_sets(), self.conflict_sets()),
                self.conflict_sets().contains_key(state.account_state_id@),
                self.conflict_sets()[state.account_state_id@].contains(
                    state.tx.spec_id().unwrap(),
                ),
                self.choices() == old(self).choices().insert(
                    state.account_state_id@,
                    state.tx.spec_id().unwrap(),
                ),
                !old(self).conflict_sets().contains_key(state.account_state_id@),
                state.tx.spec_id() is Some,
                self.conflict_sets()[state.account_state_id@].contains(choice_hash@),
                self.spec_config() == old(self).spec_config(),
                0 <= round <= max_rounds,
            decreases max_rounds - round,
        {
            round = round + 1;
            let acceptance = query(network, self.config.k, state, &*common_network);
            let n = match self.conflict_set.get(&state.account_state_id) {
                Some(set) => set.len(),
                None => 0,
            };
            let mut i: usize = 0;
            while i < n
                invariant
                    self.conflict_sets() == sets_after_query,
                    self.choices() == choices_after_seed,
                    conflict_grows(old(self).conflict_sets(), self.conflict_sets()),
                    self.conflict_sets().contains_key(state.account_state_id@),
                    self.conflict_sets()[state.account_state_id@].contains(
                        state.tx.spec_id().unwrap(),
                    ),
                    self.choices() == old(self).choices().insert(
                        state.account_state_id@,
                        state.tx.spec_id().unwrap(),
                    ),
                    !old(self).conflict_sets().contains_key(state.account_state_id@),
                    state.tx.spec_id() is Some,
                    self.conflict_sets()[state.account_state_id@].contains(choice_hash@),
                    self.spec_config() == old(self).spec_config(),
                    0 <= i <= n,
                    n == match self.conflict_set@.contains_key(state.account_state_id@) {
                        true => self.conflict_set@[state.account_state_id@]@.len(),
                        false => 0,
                    },
                decreases n - i,
            {
                let set = match self.conflict_set.get(&state.account_state_id) {
                    Some(set) => set,
                    None => {
                        proof {
                            assert(false);
                        }
                        break ;
                    },
                };
                let set_id = *set.at(i);
                let tally: Option<u64> = match acceptance.get(&set_id) {
                    Some(p) => Some(*p),
                    None => None,
                };
                let accept = quantum_round_step(
                    &self.config,
                    tally,
                    set_id,
                    &mut confidence,
                    &mut choice_hash,
                    &mut last_choice,
                    &mut choice_count,
                );
                if accept {
                    return ConsensusStatus::Accept(choice_hash);
                }
                i += 1;
            }
        }
        ConsensusStatus::Reject
    }

    /// A peer's answer to a query: the locally standing choice for the state
    /// and whether the candidate is already in the conflict set.
    pub fn on_query(&self, state: &AccountStateChoice) -> (r: (crate::hash::Hash, bool))
        requires
            state.tx.spec_id() is Some,
        ensures
            r.1 == (self.conflict_sets().contains_key(state.account_state_id@)
                && self.conflict_sets()[state.account_state_id@].contains(
                state.tx.spec_id().unwrap(),
            )),
            r.0@ == if self.choices().contains_key(state.account_state_id@) {
                self.choices()[state.account_state_id@]
            } else {
                state.tx.spec_id().unwrap()
            },
    {
        let tx_id = state.tx.get_tx_id();
        let exists_in_set = match self.conflict_set.get(&state.account_state_id) {
            Some(set) => set.contains(&tx_id),
            None => false,
        };
        match self.choice.get(&state.account_state_id) {
            Some(choice) => (*choice, exists_in_set),
            None => (tx_id, exists_in_set),
        }
    }

    /// The sample size, as far as it fits the platform's word.
    pub fn target_count(&self) -> (r: usize)
        ensures
            self.spec_config().k <= usize::MAX ==> r == self.spec_config().k,
    {
        self.config.k as usize
    }
}

} // verus!
