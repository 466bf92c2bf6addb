use dagchain::account::{Account, AccountStateChoice};
use dagchain::config::ConsensusConfig;
use dagchain::consensus::ConsensusStatus;
use dagchain::dag_consensus::DagConsensus;
use dagchain::idmap::IdMap;
use dagchain::network::{CommonConsensusNetwork, ConsensusNetwork};
use dagchain::quantum::QuantumConsensus;
use dagchain::transaction::{Transaction, TransactionType};
use dagchain::tree::TreeNode;

/// A directory of a few fixed peers.
struct FixedPeers {
    peers: Vec<dagchain::hash::Hash>,
}

impl CommonConsensusNetwork for FixedPeers {
    fn get_nodes_except_one(&self, k: u64, node_id: dagchain::hash::Hash) -> Vec<dagchain::hash::Hash> {
        let mut out = Vec::new();
        for p in &self.peers {
            if out.len() as u64 >= k {
                break;
            }
            if *p != node_id {
                out.push(*p);
            }
        }
        out
    }
}

/// A loopback transport whose peers all agree with whatever they are asked.
struct AgreeableNet {
    me: dagchain::hash::Hash,
}

impl ConsensusNetwork for AgreeableNet {
    fn get_node_id(&self) -> dagchain::hash::Hash {
        self.me
    }

    fn request_consensus(&mut self, _node_id: dagchain::hash::Hash, data: &AccountStateChoice) -> dagchain::hash::Hash {
        data.tx.get_tx_id()
    }

    fn request_dag_consensus(&self, _node_id: dagchain::hash::Hash, _data: &AccountStateChoice) -> bool {
        true
    }

    fn send_dag_consensus_request(
        &mut self,
        _node_id: dagchain::hash::Hash,
        _data: &AccountStateChoice,
        _tx: &Transaction,
        _count: usize,
    ) {
    }

    fn add_outgoing_dag_consensus_request(
        &mut self,
        _node_id: dagchain::hash::Hash,
        _data: &AccountStateChoice,
        _tx: &Transaction,
        _count: usize,
    ) {
    }

    fn accept_incoming_consensus_response(
        &mut self,
        _node_id: dagchain::hash::Hash,
        _data: dagchain::hash::Hash,
        _accepted: bool,
    ) -> (usize, usize) {
        (0, 0)
    }

    fn remove_outgoing_dag_transaction(&mut self, _tx_id: dagchain::hash::Hash) -> Transaction {
        let origin = Account::create(&dagchain::hash::Hash::new(b"none"), &dagchain::hash::Hash::new(b"none"));
        Transaction::new(
            dagchain::hash::Hash::new(b"none"),
            origin,
            dagchain::hash::Hash::new(b"none"),
            0,
            TransactionType::Transfer,
            vec![],
        )
    }

    fn add_transaction_to_batch<N: CommonConsensusNetwork>(
        &mut self,
        _k: u64,
        _tx: &Transaction,
        _data: &AccountStateChoice,
        _network: &N,
        _max_batch_size: usize,
        _max_batch_interval_ms: u64,
        _count: usize,
    ) {
    }
}

fn make_tx(parent: &[u8], amount: u128) -> Transaction {
    let origin = Account::create(&dagchain::hash::Hash::new(b"acct"), &dagchain::hash::Hash::new(b"genesis"));
    let mut tx = Transaction::new(
        dagchain::hash::Hash::new(parent),
        origin,
        dagchain::hash::Hash::new(b"dest"),
        amount,
        TransactionType::Transfer,
        vec![],
    );
    tx.calculate_tx_id().unwrap();
    tx
}

fn peers() -> FixedPeers {
    FixedPeers {
        peers: vec![dagchain::hash::Hash::new(b"peer1"), dagchain::hash::Hash::new(b"peer2"), dagchain::hash::Hash::new(b"peer3")],
    }
}

#[test]
fn test_dag_fire_consensus_accepts_with_unanimous_peers() {
    // Three of three positive replies clear alpha * k = 1.8, and the seeded
    // tree node's confidence exceeds beta, so the walk commits early.
    let cfg = ConsensusConfig::new(6, 10, 2, 2, 3);
    let mut engine = DagConsensus::new(cfg);
    let mut net = AgreeableNet { me: dagchain::hash::Hash::new(b"self") };
    let mut common = peers();

    let tx = make_tx(b"tree-root", 5);
    let parent = dagchain::hash::Hash::new(b"tree-root");
    let state = AccountStateChoice::new(dagchain::hash::Hash::new(b"contest"), tx);

    let winner = dagchain::hash::Hash::new(b"leader");
    let mut tree = IdMap::new();
    let mut node = TreeNode::new(winner);
    node.set_confidence(3);
    tree.insert(parent, (dagchain::hash::Hash::new(b"above"), node));

    let status = engine.fire_consensus(&state, &mut net, &mut common, &mut tree);
    match status {
        ConsensusStatus::Accept(h) => assert!(h == winner),
        _ => panic!("expected an accept"),
    }

    // The same account state cannot be decided twice.
    let tx2 = make_tx(b"tree-root", 9);
    let state2 = AccountStateChoice::new(dagchain::hash::Hash::new(b"contest"), tx2);
    let status2 = engine.fire_consensus(&state2, &mut net, &mut common, &mut tree);
    assert!(matches!(status2, ConsensusStatus::Reject));
}

#[test]
fn test_quantum_fire_consensus_accepts_after_consecutive_rounds() {
    let cfg = ConsensusConfig::new(6, 10, 1, 1, 3);
    let mut engine = QuantumConsensus::new(cfg);
    let mut net = AgreeableNet { me: dagchain::hash::Hash::new(b"self") };
    let mut common = peers();

    let tx = make_tx(b"q-root", 5);
    let tx_id = tx.get_tx_id();
    let state = AccountStateChoice::new(dagchain::hash::Hash::new(b"q-contest"), tx);
    let mut tree = IdMap::new();

    let status = engine.fire_consensus(&state, &mut net, &mut common, &mut tree);
    match status {
        ConsensusStatus::Accept(h) => assert!(h == tx_id),
        _ => panic!("expected an accept"),
    }

    // A second fire for the contested state reports the contest in flight.
    let tx2 = make_tx(b"q-root", 6);
    let state2 = AccountStateChoice::new(dagchain::hash::Hash::new(b"q-contest"), tx2);
    let status2 = engine.fire_consensus(&state2, &mut net, &mut common, &mut tree);
    assert!(matches!(status2, ConsensusStatus::InProgress));
}

#[test]
fn test_target_count() {
    let engine = DagConsensus::new(ConsensusConfig::default());
    assert_eq!(engine.target_count(), 10);
    let q = QuantumConsensus::new(ConsensusConfig::default());
    assert_eq!(q.target_count(), 10);
}

#[test]
fn test_quantum_round_step_rules() {
    // The per-round bookkeeping: confidence rises on a passing tally, the
    // consecutive counter advances on re-selection and accepts past beta,
    // and a below-bar or absent tally changes nothing.
    let cfg = ConsensusConfig::new(6, 10, 1, 1, 3); // bar: tally > 1.8
    let c1 = dagchain::hash::Hash::new(b"candidate");
    let mut confidence: IdMap<u64> = IdMap::new();
    let mut choice = c1;
    let mut last = c1;
    let mut count: u64 = 0;

    // Absent tally: nothing moves.
    assert!(!dagchain::quantum::quantum_round_step(
        &cfg, None, c1, &mut confidence, &mut choice, &mut last, &mut count
    ));
    assert_eq!(count, 0);

    // Below the strict bar (1 * 10 <= 6 * 3): nothing moves.
    assert!(!dagchain::quantum::quantum_round_step(
        &cfg, Some(1), c1, &mut confidence, &mut choice, &mut last, &mut count
    ));
    assert_eq!(count, 0);

    // First passing round: counter reaches 1, not yet past beta = 1.
    assert!(!dagchain::quantum::quantum_round_step(
        &cfg, Some(3), c1, &mut confidence, &mut choice, &mut last, &mut count
    ));
    assert_eq!(count, 1);
    assert!(choice == c1);

    // Second consecutive passing round: counter passes beta, accept.
    assert!(dagchain::quantum::quantum_round_step(
        &cfg, Some(3), c1, &mut confidence, &mut choice, &mut last, &mut count
    ));
    assert_eq!(count, 2);

    // A different candidate resets the consecutive counter.
    let c2 = dagchain::hash::Hash::new(b"rival");
    assert!(!dagchain::quantum::quantum_round_step(
        &cfg, Some(3), c2, &mut confidence, &mut choice, &mut last, &mut count
    ));
    assert_eq!(count, 0);
    assert!(last == c2);
}
