use dagchain::account::{Account, AccountStateChoice};
use dagchain::config::ConsensusConfig;
use dagchain::consensus::ConsensusStatus;
use dagchain::dag_consensus::DagConsensus;
use dagchain::idmap::IdMap;
use dagchain::transaction::{Transaction, TransactionType};
use dagchain::tree::TreeNode;

fn make_tx(tag: &[u8], amount: u128) -> Transaction {
    let origin = Account::create(&dagchain::hash::Hash::new(b"origin"), &dagchain::hash::Hash::new(b"genesis"));
    let mut tx = Transaction::new(
        dagchain::hash::Hash::new(tag),
        origin,
        dagchain::hash::Hash::new(b"destination"),
        amount,
        TransactionType::Transfer,
        vec![],
    );
    tx.calculate_tx_id().unwrap();
    tx
}

#[test]
fn test_threshold_strict_boundary() {
    // alpha * k integral: 66/100 * 50 = 33; the bar is strict.
    let cfg = ConsensusConfig::new(66, 100, 2, 2, 50);
    assert!(!cfg.threshold(33));
    assert!(cfg.threshold(34));
    // Stock parameters: alpha * k = 6.6; six replies miss, seven clear.
    let stock = ConsensusConfig::default();
    assert!(!stock.threshold(6));
    assert!(stock.threshold(7));
}

#[test]
fn test_threshold_miss_rejects() {
    // k = 10, alpha = 6/10: six positive replies fail the strict bar.
    let cfg = ConsensusConfig::new(6, 10, 2, 2, 10);
    let mut engine = DagConsensus::new(cfg);
    let state = AccountStateChoice::new(dagchain::hash::Hash::new(b"A"), make_tx(b"p", 5));
    let mut tree = IdMap::new();
    let status = engine.complete_dag_consensus(6, &state, &mut tree);
    assert!(matches!(status, ConsensusStatus::Reject));
}

#[test]
fn test_no_double_accept() {
    // Once a choice stands for an account state, any further fire for that
    // state is rejected.
    let cfg = ConsensusConfig::new(6, 10, 0, 0, 3);
    let mut engine = DagConsensus::new(cfg);
    let tx1 = make_tx(b"parent", 5);
    let parent = dagchain::hash::Hash::new(b"parent");
    let state1 = AccountStateChoice::new(dagchain::hash::Hash::new(b"S"), tx1);

    // Seed the tree at the parent with confidence above beta = 0.
    let mut tree = IdMap::new();
    let mut node = TreeNode::new(parent);
    node.set_confidence(1);
    tree.insert(parent, (dagchain::hash::Hash::new(b"grandparent"), node));

    // 3 of 3 positive replies: threshold(3) with alpha*k = 1.8 holds.
    let status = engine.complete_dag_consensus(3, &state1, &mut tree);
    assert!(matches!(status, ConsensusStatus::Accept(_)));

    // A second candidate for the same state loses outright.
    let tx2 = make_tx(b"parent", 7);
    let state2 = AccountStateChoice::new(dagchain::hash::Hash::new(b"S"), tx2);
    let status2 = engine.complete_dag_consensus(3, &state2, &mut tree);
    assert!(matches!(status2, ConsensusStatus::Reject));
}

#[test]
fn test_early_commit_on_confidence() {
    // A tree node whose confidence exceeds beta commits early to that node.
    let cfg = ConsensusConfig::new(6, 10, 2, 2, 3);
    let mut engine = DagConsensus::new(cfg);
    let tx = make_tx(b"p1", 5);
    let parent = dagchain::hash::Hash::new(b"p1");
    let state = AccountStateChoice::new(dagchain::hash::Hash::new(b"S1"), tx);

    let winner = dagchain::hash::Hash::new(b"winner");
    let mut tree = IdMap::new();
    let mut node = TreeNode::new(winner);
    node.set_confidence(3);
    tree.insert(parent, (dagchain::hash::Hash::new(b"gp"), node));

    let status = engine.complete_dag_consensus(3, &state, &mut tree);
    match status {
        ConsensusStatus::Accept(h) => assert!(h == winner),
        _ => panic!("expected an accept"),
    }
}

#[test]
fn test_consecutive_counter_commit() {
    // With beta high and beta2 low, repeated re-selection commits via the
    // consecutive counter and yields the candidate's own id.
    let cfg = ConsensusConfig::new(6, 10, 100, 0, 3);
    let mut engine = DagConsensus::new(cfg);
    let tx = make_tx(b"p2", 5);
    let tx_id = tx.get_tx_id();
    let parent = dagchain::hash::Hash::new(b"p2");
    let state = AccountStateChoice::new(dagchain::hash::Hash::new(b"S2"), tx);

    let node_hash = dagchain::hash::Hash::new(b"n");
    let mut tree = IdMap::new();
    let mut node = TreeNode::new(node_hash);
    // last == node already, so the walk increments count to 1 > beta2 = 0.
    node.set_confidence(0);
    node.set_last(node_hash);
    tree.insert(parent, (dagchain::hash::Hash::new(b"gp2"), node));
    tree.insert(node_hash, (parent, TreeNode::new(node_hash)));

    let status = engine.complete_dag_consensus(3, &state, &mut tree);
    match status {
        ConsensusStatus::Accept(h) => assert!(h == tx_id),
        _ => panic!("expected an accept"),
    }
}

#[test]
fn test_on_query_reports_conflict_membership() {
    let cfg = ConsensusConfig::default();
    let mut engine = DagConsensus::new(cfg);
    let tx = make_tx(b"pq", 5);
    let tx_id = tx.get_tx_id();
    let state = AccountStateChoice::new(dagchain::hash::Hash::new(b"SQ"), tx);

    let (choice, exists) = engine.on_query(&state);
    assert!(!exists);
    assert!(choice == tx_id);

    engine.query(&state);
    let (choice2, exists2) = engine.on_query(&state);
    assert!(exists2);
    assert!(choice2 == tx_id);
}

#[test]
fn test_transaction_id_deterministic() {
    // Two genesis transactions from the same arguments derive the same id;
    // a different amount derives a different one.
    let origin1 = Account::create(&dagchain::hash::Hash::new(b"o"), &dagchain::hash::Hash::new(b"g"));
    let origin2 = Account::create(&dagchain::hash::Hash::new(b"o"), &dagchain::hash::Hash::new(b"g"));
    let mut g1 = Transaction::genesis(
        dagchain::hash::Hash::new(b"root"),
        origin1,
        dagchain::hash::Hash::new(b"d"),
        10,
        TransactionType::CreateAccount,
        vec![1, 2],
    );
    let mut g2 = Transaction::genesis(
        dagchain::hash::Hash::new(b"root"),
        origin2,
        dagchain::hash::Hash::new(b"d"),
        10,
        TransactionType::CreateAccount,
        vec![1, 2],
    );
    g1.calculate_tx_id().unwrap();
    g2.calculate_tx_id().unwrap();
    assert!(g1.get_tx_id() == g2.get_tx_id());

    let origin3 = Account::create(&dagchain::hash::Hash::new(b"o"), &dagchain::hash::Hash::new(b"g"));
    let mut g3 = Transaction::genesis(
        dagchain::hash::Hash::new(b"root"),
        origin3,
        dagchain::hash::Hash::new(b"d"),
        11,
        TransactionType::CreateAccount,
        vec![1, 2],
    );
    g3.calculate_tx_id().unwrap();
    assert!(g1.get_tx_id() != g3.get_tx_id());
}

#[test]
fn test_transaction_sign_and_verify() {
    let sk = dagchain::signature::PrivateKey::generate();
    let mut tx = make_tx(b"signing", 5);
    tx.sign_and_set_signature(&sk).unwrap();
    assert!(tx.verify_tx_sig(&sk.public_key()).unwrap());
    let other = dagchain::signature::PrivateKey::generate();
    assert!(!tx.verify_tx_sig(&other.public_key()).unwrap());
}

#[test]
fn test_transaction_accept_aggregates() {
    let sk = dagchain::signature::PrivateKey::generate();
    let mut tx = make_tx(b"accepting", 5);
    assert!(tx.get_aggregate_sig().is_none());
    tx.accept_tx(&sk).unwrap();
    assert!(matches!(
        tx.status,
        dagchain::transaction::TransactionStatus::Accepted
    ));
    assert!(tx.get_aggregate_sig().is_some());
}

#[test]
fn test_apply_moves_balance() {
    let mut origin = Account::create(&dagchain::hash::Hash::new(b"from"), &dagchain::hash::Hash::new(b"g"));
    origin.increase_balance(100);
    let mut destination = Account::create(&dagchain::hash::Hash::new(b"to"), &dagchain::hash::Hash::new(b"g"));
    let tx = make_tx(b"apply", 30);
    assert!(tx.check_transfer_availability(&origin));
    tx.apply(&mut origin, &mut destination);
    assert_eq!(origin.balance, 70);
    assert_eq!(destination.balance, 30);
    assert!(origin.last_tx_id == tx.get_tx_id());
    assert_eq!(origin.get_hvc(), 1);
    assert_eq!(destination.get_hvc(), 1);
}

#[test]
fn test_balance_saturates() {
    let mut account = Account::create(&dagchain::hash::Hash::new(b"rich"), &dagchain::hash::Hash::new(b"g"));
    account.increase_balance(u128::MAX);
    account.increase_balance(5);
    assert_eq!(account.balance, u128::MAX);
}
