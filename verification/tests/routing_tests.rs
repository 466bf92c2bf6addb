use dagchain::message::Message;
use dagchain::messaging::{route_agent_payload, Messaging, TTL};
use dagchain::routing::RoutingTable;

#[test]
fn test_direct_connection_and_version() {
    let mut table = RoutingTable::new();
    assert_eq!(table.version(), 0);
    let peer = dagchain::hash::Hash::new(b"peer");
    table.add_direct_connection(&peer);
    table.increment_version();
    assert_eq!(table.version(), 1);
    let info = table.get_routing_info(&peer).unwrap();
    assert!(info.0 == peer);
    assert_eq!(info.1, 1);
}

#[test]
fn test_gossip_convergence_three_node_line() {
    // N1 -- N2 -- N3: after one gossip round each way, the ends know each
    // other two hops away through the middle.
    let n1 = dagchain::hash::Hash::new(b"N1");
    let n2 = dagchain::hash::Hash::new(b"N2");
    let n3 = dagchain::hash::Hash::new(b"N3");

    let mut t1 = RoutingTable::new();
    t1.add_direct_connection(&n2);
    t1.increment_version();

    let mut t2 = RoutingTable::new();
    t2.add_direct_connection(&n1);
    t2.add_direct_connection(&n3);
    t2.increment_version();
    t2.increment_version();

    let mut t3 = RoutingTable::new();
    t3.add_direct_connection(&n2);
    t3.increment_version();

    // N2 gossips to both ends.
    let shared2 = t2.get_shared();
    let changed1 = t1.merge_shared(&shared2, &n2);
    assert!(changed1);
    t1.increment_version();
    let changed3 = t3.merge_shared(&shared2, &n2);
    assert!(changed3);
    t3.increment_version();

    let info13 = t1.get_routing_info(&n3).unwrap();
    assert!(info13.0 == n2);
    assert_eq!(info13.1, 2);
    let info31 = t3.get_routing_info(&n1).unwrap();
    assert!(info31.0 == n2);
    assert_eq!(info31.1, 2);
    assert!(t1.version() >= 2);
    assert!(t3.version() >= 2);

    // A second identical gossip improves nothing.
    let changed_again = t1.merge_shared(&t2.get_shared(), &n2);
    assert!(!changed_again);
}

#[test]
fn test_merge_never_lengthens_routes() {
    let n2 = dagchain::hash::Hash::new(b"N2");
    let far = dagchain::hash::Hash::new(b"far");
    let mut table = RoutingTable::new();
    table.add_direct_connection(&far);

    // A peer advertising a much longer route to `far` changes nothing.
    let mut peer_table = RoutingTable::new();
    let mut hops = RoutingTable::new();
    hops.add_direct_connection(&far);
    let _ = peer_table;
    let mut advertised = hops.get_shared();
    let _ = &mut advertised;
    let changed = table.merge_shared(&advertised, &n2);
    assert!(!changed);
    let info = table.get_routing_info(&far).unwrap();
    assert_eq!(info.1, 1);
}

#[test]
fn test_agent_forwarding_decrements_ttl() {
    // S6: a message relayed through an intermediary leaves with one step
    // less; a message with no steps left is dropped.
    let me = dagchain::hash::Hash::new(b"me");
    let target = dagchain::hash::Hash::new(b"elsewhere");
    let next = dagchain::hash::Hash::new(b"next");
    let mut table = RoutingTable::new();
    table.add_direct_connection(&next);
    table.add_new_node(&target);
    let peer_shared = {
        let mut peer = RoutingTable::new();
        peer.add_direct_connection(&target);
        peer.get_shared()
    };
    table.merge_shared(&peer_shared, &next);

    let payload = vec![
        (target, Message::CompleteRound, TTL),
        (me, Message::CompleteRound, TTL),
        (target, Message::CompleteRound, 0usize),
    ];
    let (deliveries, forwards) = route_agent_payload(&me, payload, &table);
    assert_eq!(deliveries.len(), 1);
    assert_eq!(forwards.len(), 1);
    assert!(forwards[0].next_hop == next);
    assert!(forwards[0].item.0 == target);
    assert_eq!(forwards[0].item.2, TTL - 1);
}

#[test]
fn test_handle_agent_message_drains_outbox() {
    let me = dagchain::hash::Hash::new(b"self");
    let target = dagchain::hash::Hash::new(b"t");
    let next = dagchain::hash::Hash::new(b"n");
    let mut table = RoutingTable::new();
    table.add_direct_connection(&next);
    let peer_shared = {
        let mut peer = RoutingTable::new();
        peer.add_direct_connection(&target);
        peer.get_shared()
    };
    table.merge_shared(&peer_shared, &next);

    let mut messaging = Messaging::new();
    let payload = vec![(target, Message::CompleteRound, 3usize)];
    let (deliveries, sends) = messaging.handle_agent_message(&me, payload, &table);
    assert_eq!(deliveries.len(), 0);
    assert_eq!(sends.len(), 1);
    assert!(sends[0].0 == next);
    assert_eq!(sends[0].1.len(), 1);
    assert_eq!(sends[0].1[0].2, 2);
}

#[test]
fn test_push_to_outbox_uses_next_hop() {
    let dst = dagchain::hash::Hash::new(b"dst");
    let next = dagchain::hash::Hash::new(b"hop");
    let mut table = RoutingTable::new();
    table.add_direct_connection(&next);
    let peer_shared = {
        let mut peer = RoutingTable::new();
        peer.add_direct_connection(&dst);
        peer.get_shared()
    };
    table.merge_shared(&peer_shared, &next);

    let mut messaging = Messaging::new();
    let (hop, items) = messaging.push_to_outbox(dst, Message::CompleteRound, &table);
    assert!(hop == next);
    assert_eq!(items.len(), 1);
    assert!(items[0].0 == dst);
    assert_eq!(items[0].2, TTL);
}
