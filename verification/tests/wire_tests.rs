use dagchain::account::{Account, AccountStateChoice};
use dagchain::message::Message;
use dagchain::msgcodec::{decode_message, encode_message};
use dagchain::netaddr::NetAddr;
use dagchain::transaction::{Transaction, TransactionStatus, TransactionType};
use dagchain::wire::{encode_tx, get_tx};

fn sample_tx() -> Transaction {
    let origin = Account::create(&dagchain::hash::Hash::new(b"wire-origin"), &dagchain::hash::Hash::new(b"wire-genesis"));
    let mut tx = Transaction::genesis(
        dagchain::hash::Hash::new(b"wire-parent"),
        origin,
        dagchain::hash::Hash::new(b"wire-dest"),
        42,
        TransactionType::Transfer,
        vec![9, 8, 7],
    );
    tx.calculate_tx_id().unwrap();
    let sk = dagchain::signature::PrivateKey::generate();
    tx.sign_and_set_signature(&sk).unwrap();
    tx.set_children(vec![dagchain::hash::Hash::new(b"child1"), dagchain::hash::Hash::new(b"child2")]);
    tx
}

#[test]
fn test_tx_round_trip() {
    let tx = sample_tx();
    let bytes = encode_tx(&tx);
    let (back, consumed) = get_tx(&bytes, 0).unwrap();
    assert_eq!(consumed, bytes.len());
    assert!(back.get_tx_id() == tx.get_tx_id());
    assert!(back.parent == tx.parent);
    assert!(back.origin == tx.origin);
    assert!(back.destination == tx.destination);
    assert_eq!(back.amount, tx.amount);
    assert!(matches!(back.status, TransactionStatus::Pending));
    assert!(matches!(back.tx_type, TransactionType::Transfer));
    assert_eq!(back.payload, tx.payload);
    assert_eq!(back.timestamp, 0);
    assert_eq!(back.get_sigs().len(), tx.get_sigs().len());
    assert!(back.get_sigs()[0].0 == tx.get_sigs()[0].0);
    assert!(back.get_sigs()[0].1 == tx.get_sigs()[0].1);
    assert_eq!(back.get_children().len(), 2);
    assert!(back.get_children()[0] == dagchain::hash::Hash::new(b"child1"));
    // Re-encoding the decoded transaction gives the same bytes.
    assert_eq!(encode_tx(&back), bytes);
}

#[test]
fn test_tx_decode_truncated_fails() {
    let tx = sample_tx();
    let bytes = encode_tx(&tx);
    assert!(get_tx(&bytes[..bytes.len() - 1], 0).is_none());
    assert!(get_tx(&[], 0).is_none());
}

fn round_trip(msg: &Message) -> Message {
    let mut bytes: Vec<u8> = Vec::new();
    assert!(encode_message(msg, &mut bytes));
    let (back, consumed) = decode_message(&bytes, 0).unwrap();
    assert_eq!(consumed, bytes.len());
    // Re-encoding what came back yields the same bytes.
    let mut again: Vec<u8> = Vec::new();
    assert!(encode_message(&back, &mut again));
    assert_eq!(again, bytes);
    back
}

#[test]
fn test_message_round_trip_user_and_encrypted() {
    match round_trip(&Message::UserMessage(vec![1, 2, 3])) {
        Message::UserMessage(v) => assert_eq!(v, vec![1, 2, 3]),
        _ => panic!("wrong variant"),
    }
    match round_trip(&Message::EncryptedMessage(vec![4, 5])) {
        Message::EncryptedMessage(v) => assert_eq!(v, vec![4, 5]),
        _ => panic!("wrong variant"),
    }
}

#[test]
fn test_message_round_trip_identity_variants() {
    let id = dagchain::identity::Identity::new();
    let sender = id.get_public_id();
    match round_trip(&Message::AuthenticatedMessage { message: vec![1], sender: sender.clone() }) {
        Message::AuthenticatedMessage { message, sender: s } => {
            assert_eq!(message, vec![1]);
            assert!(s.public_key == id.get_public_id().public_key);
        },
        _ => panic!("wrong variant"),
    }
    let sig = id.sign_message(&[1, 2]).as_bytes().clone();
    match round_trip(
        &Message::SignedMessage { message: vec![1, 2], signature: sig.clone(), sender },
    ) {
        Message::SignedMessage { message, signature, sender: s } => {
            assert_eq!(message, vec![1, 2]);
            assert_eq!(signature, sig);
            assert!(s.public_key == id.get_public_id().public_key);
        },
        _ => panic!("wrong variant"),
    }
    match round_trip(&Message::Identification(dagchain::hash::Hash::new(b"me"))) {
        Message::Identification(h) => assert!(h == dagchain::hash::Hash::new(b"me")),
        _ => panic!("wrong variant"),
    }
}

#[test]
fn test_message_round_trip_contacts_and_routing() {
    let contacts = vec![
        NetAddr::new(vec![127, 0, 0, 1], 4000),
        NetAddr::new(vec![10, 0, 0, 2], 5000),
    ];
    match round_trip(&Message::Contacts(contacts)) {
        Message::Contacts(back) => {
            assert_eq!(back.len(), 2);
            assert_eq!(back[0].ip, vec![127, 0, 0, 1]);
            assert_eq!(back[0].port, 4000);
            assert_eq!(back[1].port, 5000);
        },
        _ => panic!("wrong variant"),
    }

    let mut table = dagchain::routing::RoutingTable::new();
    table.add_direct_connection(&dagchain::hash::Hash::new(b"peer"));
    match round_trip(
        &Message::RoutingTable { routing_table: table.get_shared(), source: dagchain::hash::Hash::new(b"src") },
    ) {
        Message::RoutingTable { routing_table, source } => {
            assert!(source == dagchain::hash::Hash::new(b"src"));
            assert_eq!(routing_table.get_routing_info(&dagchain::hash::Hash::new(b"peer")), Some(1));
        },
        _ => panic!("wrong variant"),
    }
}

#[test]
fn test_message_round_trip_consensus_variants() {
    let tx = sample_tx();
    let state = AccountStateChoice::new(dagchain::hash::Hash::new(b"state"), sample_tx());
    match round_trip(&Message::ConsensusRequest { data: state }) {
        Message::ConsensusRequest { data } => {
            assert!(data.account_state_id == dagchain::hash::Hash::new(b"state"));
            assert!(data.tx.get_tx_id() == tx.get_tx_id());
        },
        _ => panic!("wrong variant"),
    }

    let req = Message::DagConsensusRequest {
        sender: dagchain::hash::Hash::new(b"sender"),
        data: AccountStateChoice::new(dagchain::hash::Hash::new(b"s2"), sample_tx()),
        tx: sample_tx(),
        count: 7,
    };
    match round_trip(&req) {
        Message::DagConsensusRequest { sender, data, tx: t, count } => {
            assert!(sender == dagchain::hash::Hash::new(b"sender"));
            assert!(data.account_state_id == dagchain::hash::Hash::new(b"s2"));
            assert!(t.get_tx_id() == tx.get_tx_id());
            assert_eq!(count, 7);
        },
        _ => panic!("wrong variant"),
    }

    let resp = Message::DagConsensusResponse {
        sender: dagchain::hash::Hash::new(b"sender"),
        hash: dagchain::hash::Hash::new(b"subject"),
        strongly_preferred: true,
    };
    match round_trip(&resp) {
        Message::DagConsensusResponse { sender, hash, strongly_preferred } => {
            assert!(sender == dagchain::hash::Hash::new(b"sender"));
            assert!(hash == dagchain::hash::Hash::new(b"subject"));
            assert!(strongly_preferred);
        },
        _ => panic!("wrong variant"),
    }

    let batch_req = Message::BatchedConsensusRequest {
        sender: dagchain::hash::Hash::new(b"sender"),
        data: vec![(AccountStateChoice::new(dagchain::hash::Hash::new(b"s3"), sample_tx()), sample_tx())],
        count: 3,
    };
    match round_trip(&batch_req) {
        Message::BatchedConsensusRequest { sender, data, count } => {
            assert!(sender == dagchain::hash::Hash::new(b"sender"));
            assert_eq!(data.len(), 1);
            assert!(data[0].0.account_state_id == dagchain::hash::Hash::new(b"s3"));
            assert_eq!(count, 3);
        },
        _ => panic!("wrong variant"),
    }

    let batch_resp = Message::BatchedConsensusResponse {
        sender: dagchain::hash::Hash::new(b"sender"),
        data: vec![(dagchain::hash::Hash::new(b"t1"), true), (dagchain::hash::Hash::new(b"t2"), false)],
    };
    match round_trip(&batch_resp) {
        Message::BatchedConsensusResponse { sender, data } => {
            assert!(sender == dagchain::hash::Hash::new(b"sender"));
            assert_eq!(data.len(), 2);
            assert!(data[0].1);
            assert!(!data[1].1);
        },
        _ => panic!("wrong variant"),
    }
}

#[test]
fn test_message_round_trip_benchmarking_and_agent() {
    match round_trip(&Message::InitBenchmarking(100, 250)) {
        Message::InitBenchmarking(c, i) => {
            assert_eq!(c, 100);
            assert_eq!(i, 250);
        },
        _ => panic!("wrong variant"),
    }
    assert!(matches!(round_trip(&Message::CompleteRound), Message::CompleteRound));
    match round_trip(&Message::BenchmarkStats(vec![5, 6, 7])) {
        Message::BenchmarkStats(v) => assert_eq!(v, vec![5, 6, 7]),
        _ => panic!("wrong variant"),
    }

    let agent = Message::AgentMessage {
        payload: vec![
            (dagchain::hash::Hash::new(b"t1"), Message::UserMessage(vec![1]), 5usize),
            (dagchain::hash::Hash::new(b"t2"), Message::CompleteRound, 2usize),
        ],
    };
    match round_trip(&agent) {
        Message::AgentMessage { payload } => {
            assert_eq!(payload.len(), 2);
            assert!(payload[0].0 == dagchain::hash::Hash::new(b"t1"));
            assert!(matches!(payload[0].1, Message::UserMessage(_)));
            assert_eq!(payload[0].2, 5);
            assert!(matches!(payload[1].1, Message::CompleteRound));
        },
        _ => panic!("wrong variant"),
    }
}

#[test]
fn test_decode_rejects_unknown_tag() {
    assert!(decode_message(&[200u8], 0).is_none());
    assert!(decode_message(&[], 0).is_none());
}

#[test]
fn test_decode_rejects_truncated_message() {
    // Every proper prefix of a well-formed encoding is malformed.
    let msg = Message::UserMessage(b"a short user payload".to_vec());
    let mut bytes: Vec<u8> = Vec::new();
    assert!(encode_message(&msg, &mut bytes));
    let mut cut = 0usize;
    while cut < bytes.len() {
        assert!(decode_message(&bytes[..cut], 0).is_none());
        cut += 1;
    }
    assert!(decode_message(&bytes, 0).is_some());
}

#[test]
fn test_encode_refuses_over_deep_nesting() {
    // Agent envelopes nest on the wire only to the supported depth.
    let mut msg = Message::CompleteRound;
    let mut level: u64 = 0;
    while level < dagchain::msgcodec::MAX_NESTING + 1 {
        msg = Message::AgentMessage {
            payload: vec![(dagchain::hash::Hash::new(b"hop"), msg, 1usize)],
        };
        level += 1;
    }
    let mut bytes: Vec<u8> = Vec::new();
    assert!(!encode_message(&msg, &mut bytes));

    // One level fewer encodes and round-trips.
    let mut ok_msg = Message::CompleteRound;
    let mut l2: u64 = 0;
    while l2 < dagchain::msgcodec::MAX_NESTING {
        ok_msg = Message::AgentMessage {
            payload: vec![(dagchain::hash::Hash::new(b"hop"), ok_msg, 1usize)],
        };
        l2 += 1;
    }
    let mut ok_bytes: Vec<u8> = Vec::new();
    assert!(encode_message(&ok_msg, &mut ok_bytes));
    assert!(decode_message(&ok_bytes, 0).is_some());
}

#[test]
fn test_tx_decode_rejects_duplicate_signer_keys() {
    // A transaction whose wire form repeats a signer-key digest is
    // malformed and refused; two distinct signers decode fine.
    fn tx_bytes_with_sig_keys(keys: &[dagchain::hash::Hash]) -> Vec<u8> {
        let mut out: Vec<u8> = Vec::new();
        dagchain::codec::put_u8(&mut out, 0); // no id
        dagchain::codec::put_hash(&mut out, &dagchain::hash::Hash::new(b"p"));
        dagchain::codec::put_hash(&mut out, &dagchain::hash::Hash::new(b"o"));
        dagchain::codec::put_hash(&mut out, &dagchain::hash::Hash::new(b"d"));
        dagchain::codec::put_u128(&mut out, 1);
        dagchain::codec::put_u8(&mut out, 1); // pending
        dagchain::codec::put_u8(&mut out, 1); // transfer
        dagchain::codec::put_bytes(&mut out, &vec![]); // payload
        dagchain::codec::put_u64(&mut out, 0); // clock entries
        dagchain::codec::put_u64(&mut out, 0); // order
        dagchain::codec::put_u64(&mut out, 0); // timestamp
        dagchain::codec::put_u64(&mut out, keys.len() as u64);
        for k in keys {
            dagchain::codec::put_hash(&mut out, k);
            dagchain::codec::put_bytes(&mut out, &vec![7u8, 7, 7]);
        }
        dagchain::codec::put_u8(&mut out, 0); // no aggregate
        dagchain::codec::put_u64(&mut out, 0); // no children
        out
    }
    let a = dagchain::hash::Hash::new(b"signer-a");
    let b = dagchain::hash::Hash::new(b"signer-b");
    assert!(get_tx(&tx_bytes_with_sig_keys(&[a, b]), 0).is_some());
    assert!(get_tx(&tx_bytes_with_sig_keys(&[a, a]), 0).is_none());
}
