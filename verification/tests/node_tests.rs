use dagchain::connection::{ConnectOutcome, Connection, ConnectionInfo, MAX_CONNECTION_LEN};
use dagchain::events::Event;
use dagchain::message::Message;
use dagchain::messaging::message_to_event;
use dagchain::netaddr::NetAddr;
use dagchain::storage::{MemoryStorage, Storage, StorageError};

fn addr(last: u8, port: u16) -> NetAddr {
    NetAddr::new(vec![10, 0, 0, last], port)
}

#[test]
fn test_identification_promotes_connection() {
    let mut conn = Connection::new();
    let peer_addr = addr(1, 9000);
    conn.bootstrap_with(peer_addr.clone());
    let peer = dagchain::hash::Hash::new(b"peer-one");
    let connected = conn.handle_peer_identification(peer_addr, peer);
    assert!(connected);
    let info = conn.routing_table().get_routing_info(&peer).unwrap();
    assert!(info.0 == peer);
    assert_eq!(info.1, 1);
    assert_eq!(conn.routing_table().version(), 1);
    // Only the first identification counts.
    let again = conn.handle_peer_identification(addr(1, 9000), dagchain::hash::Hash::new(b"imposter"));
    assert!(!again);
}

#[test]
fn test_successful_connection_outcomes() {
    let mut conn = Connection::new();
    // A known outgoing peer becomes active.
    let info = ConnectionInfo { hash: dagchain::hash::Hash::new(b"known"), socket_addr: addr(2, 9001) };
    conn.connect_to(&info);
    match conn.handle_successful_connection(addr(2, 9001)) {
        ConnectOutcome::Connected(h) => assert!(h == dagchain::hash::Hash::new(b"known")),
        _ => panic!("expected a connected outcome"),
    }
    // An expected-but-unnamed peer awaits identification.
    conn.bootstrap_with(addr(3, 9002));
    assert!(matches!(
        conn.handle_successful_connection(addr(3, 9002)),
        ConnectOutcome::AwaitingIdentification
    ));
    // An unknown peer is recorded while there is room.
    assert!(matches!(
        conn.handle_successful_connection(addr(4, 9003)),
        ConnectOutcome::IncomingRecorded
    ));
}

#[test]
fn test_full_table_refers_contacts() {
    let mut conn = Connection::new();
    let mut i: u8 = 0;
    while usize::from(i) < MAX_CONNECTION_LEN {
        conn.bootstrap_with(addr(10 + i, 9100 + u16::from(i)));
        i += 1;
    }
    match conn.handle_successful_connection(addr(99, 9999)) {
        ConnectOutcome::Referred(contacts) => assert_eq!(contacts.len(), MAX_CONNECTION_LEN),
        _ => panic!("expected a referral"),
    }
}

#[test]
fn test_bootstrap_stops_at_capacity() {
    let mut conn = Connection::new();
    let mut contacts: Vec<NetAddr> = Vec::new();
    let mut i: u8 = 0;
    while i < 8 {
        contacts.push(addr(20 + i, 9200 + u16::from(i)));
        i += 1;
    }
    let dials = conn.bootstrap(contacts);
    assert_eq!(dials.len(), MAX_CONNECTION_LEN);
}

#[test]
fn test_connection_failure_drops_entry() {
    let mut conn = Connection::new();
    conn.bootstrap_with(addr(5, 9004));
    assert!(conn.handle_connection_failure(&addr(5, 9004)));
    assert!(!conn.handle_connection_failure(&addr(5, 9004)));
}

#[test]
fn test_message_to_event_dispatch() {
    match message_to_event(Message::UserMessage(vec![1, 2])) {
        Some(Event::NewMessage(v)) => assert_eq!(v, vec![1, 2]),
        _ => panic!("expected a new-message event"),
    }
    assert!(message_to_event(Message::Identification(dagchain::hash::Hash::new(b"x"))).is_none());
    assert!(matches!(
        message_to_event(Message::CompleteRound),
        Some(Event::CompleteRound)
    ));
}

#[test]
fn test_signed_message_dispatch_checks_signature() {
    let id = dagchain::identity::Identity::new();
    let message = vec![1, 2, 3];
    let good = id.sign_message(&message).as_bytes().clone();
    let dispatched = message_to_event(Message::SignedMessage {
        message: message.clone(),
        signature: good,
        sender: id.get_public_id(),
    });
    assert!(matches!(dispatched, Some(Event::NewMessage(_))));

    let other = dagchain::identity::Identity::new();
    let forged = other.sign_message(&message).as_bytes().clone();
    let dropped = message_to_event(Message::SignedMessage {
        message,
        signature: forged,
        sender: id.get_public_id(),
    });
    assert!(dropped.is_none());
}

#[test]
fn test_memory_storage() {
    let mut store = MemoryStorage::new(None).unwrap();
    let key = dagchain::hash::Hash::new(b"key");
    assert!(matches!(store.get(key), Err(StorageError::NoneError)));
    store.insert(key, vec![1, 2, 3]).unwrap();
    assert_eq!(store.get(key).unwrap(), vec![1, 2, 3]);
    store.insert(key, vec![4]).unwrap();
    assert_eq!(store.get(key).unwrap(), vec![4]);
    store.flush().unwrap();
    assert_eq!(store.get(key).unwrap(), vec![4]);
}

#[test]
fn test_hash_content() {
    // The digest is deterministic, differs from its input, and hex-encodes
    // two digits per byte.
    let a = dagchain::hash::Hash::new(b"input");
    let b = dagchain::hash::Hash::new(b"input");
    let c = dagchain::hash::Hash::new(b"other");
    assert!(a == b);
    assert!(a != c);
    assert_eq!(a.to_hex().len(), 64);
    assert_ne!(a.to_hex(), hex::encode(b"input"));
    let zero = dagchain::hash::Hash::from_bytes([0u8; 32]);
    assert_eq!(zero.to_hex(), "0".repeat(64));
    let blake = dagchain::hash::Blake::long(b"input");
    assert_eq!(blake.len(), 32);
    assert_eq!(hex::encode(&blake), a.to_hex());
    assert_eq!(dagchain::hash::Blake::short(b"input").len(), 20);
}

#[test]
fn test_bytes_arrays_concatenate_before_hashing() {
    let split = dagchain::hash::Hash::bytes_arrays_to_hash(vec![vec![1, 2], vec![3]]);
    let whole = dagchain::hash::Hash::new(&[1, 2, 3]);
    assert!(split == whole);
}

#[test]
fn test_p2p_config() {
    let mut cfg = dagchain::p2p_config::P2pConfig::new();
    assert!(!cfg.should_deploy());
    cfg.set_deploy_agent();
    assert!(cfg.should_deploy());
    cfg.add_bootstrap_contacts(vec![addr(1, 7000), addr(2, 7001), addr(1, 7000)]);
    // Repeated contacts collapse to one entry.
    assert_eq!(cfg.get_bootstrap_contacts().len(), 2);
}

#[test]
fn test_short_hash_bytes_arrays() {
    let split = dagchain::hash::ShortHash::bytes_arrays_to_hash(vec![vec![1, 2], vec![3]]);
    let whole = dagchain::hash::ShortHash::new(&[1, 2, 3]);
    assert_eq!(split.to_hex(), whole.to_hex());
    assert_eq!(split.to_hex().len(), 40);
}
