//! The connection lifecycle: per-address state, the active-connection map,
//! and the routing table the connections feed. The transport itself stays
//! outside; each handler says what the driver should send.

use vstd::prelude::*;
use crate::addrmap::AddrMap;
use crate::idmap::IdMap;
use crate::netaddr::NetAddr;
use crate::routing::{RoutingTable, SharedRoutingTable};

verus! {

/// How many connections a node holds at most; a further peer is referred
/// away.
pub const MAX_CONNECTION_LEN: usize = 5;

/// Where a connection stands.
#[derive(Clone, Copy, PartialEq, Eq, Structural, Debug)]
pub enum ConnectionState {
    Connecting,
    Incoming,
    Connected,
}

/// A peer to dial: its node hash and address.
pub struct ConnectionInfo {
    pub hash: crate::hash::Hash,
    pub socket_addr: NetAddr,
}

impl Clone for ConnectionInfo {
    fn clone(&self) -> (r: Self)
        ensures
            r.hash == self.hash,
            r.socket_addr@ == self.socket_addr@,
    {
        ConnectionInfo { hash: self.hash, socket_addr: self.socket_addr.clone() }
    }
}

/// What handling a fresh transport connection concluded.
pub enum ConnectOutcome {
    /// The peer had already named itself: the connection is now active.
    /// The driver sends our identification, surfaces the event and gossips.
    Connected(crate::hash::Hash),
    /// The peer has not named itself yet: identification sent, waiting.
    AwaitingIdentification,
    /// The table was full: the driver refers these contacts and closes.
    Referred(Vec<NetAddr>),
    /// A fresh incoming connection was recorded; identification sent.
    IncomingRecorded,
}

/// Whether the address is one of the given contacts' addresses.
pub open spec fn from_contacts(contacts: Seq<NetAddr>, a: (Seq<u8>, u16)) -> bool {
    exists|c: int| 0 <= c < contacts.len() && (#[trigger] contacts[c])@ == a
}

/// Whether the address is one of the active connections' addresses.
pub open spec fn addr_is_active(active: Map<Seq<u8>, NetAddr>, a: NetAddr) -> bool {
    exists|h: Seq<u8>| active.contains_key(h) && a@ == (#[trigger] active[h])@
}

/// The connections of a node.
pub struct Connection {
    entries: AddrMap<(Option<crate::hash::Hash>, ConnectionState)>,
    active_connections: IdMap<NetAddr>,
    routing_table: RoutingTable,
}

impl Connection {
    /// The per-address connection map.
    pub closed spec fn conns(self) -> Map<
        (Seq<u8>, u16),
        (Option<crate::hash::Hash>, ConnectionState),
    > {
        self.entries@
    }

    /// The active connections: node hash bytes to address.
    pub closed spec fn active(self) -> Map<Seq<u8>, NetAddr> {
        self.active_connections@
    }

    /// The routing table's entries.
    pub closed spec fn routing_entries(self) -> Map<Seq<u8>, (Seq<u8>, int)> {
        self.routing_table.entries_map()
    }

    /// The routing table's gossip version.
    pub closed spec fn routing_version(self) -> int {
        self.routing_table.spec_version()
    }

    /// No connections, an empty routing table.
    pub fn new() -> (r: Self)
        ensures
            r.conns() == Map::<
                (Seq<u8>, u16),
                (Option<crate::hash::Hash>, ConnectionState),
            >::empty(),
            r.active() == Map::<Seq<u8>, NetAddr>::empty(),
            r.routing_entries() == Map::<Seq<u8>, (Seq<u8>, int)>::empty(),
            r.routing_version() == 0,
    {
        Connection {
            entries: AddrMap::new(),
            active_connections: IdMap::new(),
            routing_table: RoutingTable::new(),
        }
    }

    /// A copy of the routing table.
    pub fn our_routing_table(&self) -> (r: RoutingTable)
        ensures
            r.entries_map() == self.routing_entries(),
            r.spec_version() == self.routing_version(),
    {
        self.routing_table.clone()
    }

    /// The routing table itself.
    pub fn routing_table(&self) -> (r: &RoutingTable)
        ensures
            r.entries_map() == self.routing_entries(),
            r.spec_version() == self.routing_version(),
    {
        &self.routing_table
    }

    /// The per-address connection map.
    pub fn our_connections(&self) -> (r: &AddrMap<(Option<crate::hash::Hash>, ConnectionState)>)
        ensures
            r@ == self.conns(),
    {
        &self.entries
    }

    /// The active connections.
    pub fn get_active_connections(&self) -> (r: &IdMap<NetAddr>)
        ensures
            r@ == self.active(),
    {
        &self.active_connections
    }

    /// Folds a peer's gossiped table in; when any route improved, the
    /// version is bumped and the caller re-gossips. Routes only ever
    /// shorten.
    pub fn update_routing_table(
        &mut self,
        peer_routing_table: &SharedRoutingTable,
        peer_id: &crate::hash::Hash,
    ) -> (changed: bool)
        ensures
            final(self).conns() == old(self).conns(),
            final(self).active() == old(self).active(),
            changed == exists|d: Seq<u8>|
                crate::routing::improves(
                    old(self).routing_entries(),
                    peer_routing_table.hops_map(),
                    d,
                ),
            forall|d: Seq<u8>|
                #[trigger] final(self).routing_entries().contains_key(d) <==> (old(self).routing_entries().contains_key(d) || peer_routing_table.hops_map().contains_key(d)),
            forall|d: Seq<u8>|
                old(self).routing_entries().contains_key(d) ==> #[trigger] final(self).routing_entries()[d] == crate::routing::merged_known(
                    old(self).routing_entries(),
                    peer_routing_table.hops_map(),
                    peer_id@,
                    d,
                ),
            forall|d: Seq<u8>|
                (!old(self).routing_entries().contains_key(d)
                    && peer_routing_table.hops_map().contains_key(d)) ==> #[trigger] final(self).routing_entries()[d] == crate::routing::merged_new(
                    old(self).routing_entries(),
                    peer_routing_table.hops_map(),
                    peer_id@,
                    d,
                ),
            forall|d: Seq<u8>|
                old(self).routing_entries().contains_key(d) ==> #[trigger] final(self).routing_entries().contains_key(d) && final(self).routing_entries()[d].1 <= old(self).routing_entries()[d].1,
            changed ==> final(self).routing_version() == (if old(self).routing_version()
                < usize::MAX {
                old(self).routing_version() + 1
            } else {
                old(self).routing_version()
            }),
            !changed ==> final(self).routing_version() == old(self).routing_version(),
    {
        let changed = self.routing_table.merge_shared(peer_routing_table, peer_id);
        proof {
            if changed {
                let d = choose|d: Seq<u8>|
                    crate::routing::improves(
                        old(self).routing_entries(),
                        peer_routing_table.hops_map(),
                        d,
                    );
                assert(crate::routing::improves(
                    old(self).routing_entries(),
                    peer_routing_table.hops_map(),
                    d,
                ));
            }
        }
        if changed {
            self.routing_table.increment_version();
        }
        changed
    }

    /// Dials the contacts until the table is full, recording each as an
    /// outgoing connection; the returned addresses are for the driver to
    /// dial.
    pub fn bootstrap(&mut self, contacts: Vec<NetAddr>) -> (dials: Vec<NetAddr>)
        ensures
            forall|i: int|
                0 <= i < dials@.len() ==> final(self).conns().contains_key(
                    (#[trigger] dials@[i])@,
                ) && final(self).conns()[dials@[i]@] == (
                    Option::<crate::hash::Hash>::None,
                    ConnectionState::Connecting,
                ),
            forall|a: (Seq<u8>, u16)|
                #[trigger] final(self).conns().contains_key(a) <==> (old(self).conns().contains_key(a) || exists|i: int| 0 <= i < dials@.len() && (#[trigger] dials@[i])@ == a),
            forall|a: (Seq<u8>, u16)|
                old(self).conns().contains_key(a) ==> #[trigger] final(self).conns()[a] == old(self).conns()[a],
            forall|i: int|
                0 <= i < dials@.len() ==> !old(self).conns().contains_key((#[trigger] dials@[i])@),
            forall|i: int, j: int| 0 <= i < j < dials@.len() ==> dials@[i]@ != dials@[j]@,
            forall|i: int|
                0 <= i < dials@.len() ==> from_contacts(contacts@, (#[trigger] dials@[i])@),
            old(self).conns().dom().len() >= MAX_CONNECTION_LEN ==> dials@.len() == 0 && final(self).conns() == old(self).conns(),
            dials@.len() > 0 ==> final(self).conns().dom().len() <= MAX_CONNECTION_LEN,
            final(self).active() == old(self).active(),
            final(self).routing_entries() == old(self).routing_entries(),
            final(self).routing_version() == old(self).routing_version(),
    {
        let mut dials: Vec<NetAddr> = Vec::new();
        let mut i: usize = 0;
        while i < contacts.len()
            invariant
                0 <= i <= contacts@.len(),
                forall|j: int|
                    0 <= j < dials@.len() ==> self.conns().contains_key((#[trigger] dials@[j])@)
                        && self.conns()[dials@[j]@] == (
                        Option::<crate::hash::Hash>::None,
                        ConnectionState::Connecting,
                    ),
                forall|a: (Seq<u8>, u16)|
                    #[trigger] self.conns().contains_key(a) <==> (old(self).conns().contains_key(a)
                        || exists|j: int| 0 <= j < dials@.len() && (#[trigger] dials@[j])@ == a),
                forall|a: (Seq<u8>, u16)|
                    old(self).conns().contains_key(a) ==> #[trigger] self.conns()[a] == old(self).conns()[a],
                forall|j: int|
                    0 <= j < dials@.len() ==> !old(self).conns().contains_key(
                        (#[trigger] dials@[j])@,
                    ),
                forall|j: int, l: int| 0 <= j < l < dials@.len() ==> dials@[j]@ != dials@[l]@,
                forall|j: int|
                    0 <= j < dials@.len() ==> from_contacts(contacts@, (#[trigger] dials@[j])@),
                old(self).conns().dom().len() >= MAX_CONNECTION_LEN ==> dials@.len() == 0
                    && self.conns() == old(self).conns(),
                dials@.len() > 0 ==> self.conns().dom().len() <= MAX_CONNECTION_LEN,
                self.active() == old(self).active(),
                self.routing_entries() == old(self).routing_entries(),
                self.routing_version() == old(self).routing_version(),
            decreases contacts@.len() - i,
        {
            let len_now = self.entries.len();
            if len_now >= MAX_CONNECTION_LEN {
                break ;
            }
            let node = contacts[i].clone();
            if !self.entries.contains_key(&node) {
                let dial = node.clone();
                let ghost pre = self.conns();
                self.bootstrap_with(node);
                proof {
                    vstd::set::axiom_set_insert_len(pre.dom(), dial@);
                    assert(self.conns().dom() =~= pre.dom().insert(dial@));
                    assert(self.conns().dom().len() <= MAX_CONNECTION_LEN);
                    assert(old(self).conns().dom().len() < MAX_CONNECTION_LEN) by {
                        if old(self).conns().contains_key(dial@) {
                            assert(pre.contains_key(dial@));
                        }
                        assert(forall|a: (Seq<u8>, u16)|
                            old(self).conns().contains_key(a) ==> #[trigger] pre.contains_key(a));
                        vstd::set_lib::lemma_len_subset(old(self).conns().dom(), pre.dom());
                    }
                    assert forall|j: int|
                        0 <= j < dials@.len() + 1 implies self.conns().contains_key(
                        (#[trigger] dials@.push(dial)[j])@,
                    ) && self.conns()[dials@.push(dial)[j]@] == (
                        Option::<crate::hash::Hash>::None,
                        ConnectionState::Connecting,
                    ) by {}
                    assert forall|j: int|
                        0 <= j < dials@.len() + 1 implies from_contacts(
                        contacts@,
                        (#[trigger] dials@.push(dial)[j])@,
                    ) by {
                        if j == dials@.len() {
                            assert(contacts@[i as int]@ == dials@.push(dial)[j]@);
                            assert(from_contacts(contacts@, dial@));
                        } else {
                            assert(dials@.push(dial)[j] == dials@[j]);
                        }
                    }
                    assert forall|a: (Seq<u8>, u16)|
                        #[trigger] self.conns().contains_key(a) <==> (old(self).conns().contains_key(a) || exists|j: int|
                            0 <= j < dials@.push(dial).len() && (#[trigger] dials@.push(
                                dial,
                            )[j])@ == a) by {
                        if a == dial@ {
                            assert(dials@.push(dial)[dials@.len() as int]@ == a);
                        } else {
                            assert(self.conns().contains_key(a) == pre.contains_key(a));
                            if exists|j: int|
                                0 <= j < dials@.push(dial).len() && (#[trigger] dials@.push(
                                    dial,
                                )[j])@ == a {
                                let j = choose|j: int|
                                    0 <= j < dials@.push(dial).len() && (#[trigger] dials@.push(
                                        dial,
                                    )[j])@ == a;
                                assert(j < dials@.len());
                                assert(dials@[j]@ == a);
                            }
                            if exists|j: int|
                                0 <= j < dials@.len() && (#[trigger] dials@[j])@ == a {
                                let j = choose|j: int|
                                    0 <= j < dials@.len() && (#[trigger] dials@[j])@ == a;
                                assert(dials@.push(dial)[j]@ == a);
                            }
                        }
                    }
                }
                dials.push(dial);
            }
            i += 1;
        }
        dials
    }

    /// Records an outgoing connection attempt to the address; the driver
    /// dials it.
    pub fn bootstrap_with(&mut self, socket_addr: NetAddr)
        ensures
            final(self).conns() == old(self).conns().insert(
                socket_addr@,
                (Option::<crate::hash::Hash>::None, ConnectionState::Connecting),
            ),
            final(self).active() == old(self).active(),
            final(self).routing_entries() == old(self).routing_entries(),
            final(self).routing_version() == old(self).routing_version(),
    {
        self.entries.insert(socket_addr, (None, ConnectionState::Connecting));
    }

    /// Records an outgoing connection attempt to a known peer; the driver
    /// dials it.
    pub fn connect_to(&mut self, conn_info: &ConnectionInfo)
        ensures
            final(self).conns() == old(self).conns().insert(
                conn_info.socket_addr@,
                (Some(conn_info.hash), ConnectionState::Connecting),
            ),
            final(self).active() == old(self).active(),
            final(self).routing_entries() == old(self).routing_entries(),
            final(self).routing_version() == old(self).routing_version(),
    {
        let info = conn_info.clone();
        self.entries.insert(info.socket_addr, (Some(info.hash), ConnectionState::Connecting));
    }

    /// Handles a transport-level connection success at the address.
    ///
    /// A known outgoing peer becomes active: its state goes to connected,
    /// the active map and the routing table take it up and the version is
    /// bumped. An expected-but-unnamed peer stays as it is, awaiting its
    /// identification. An unknown peer is recorded as incoming while the
    /// table has room, and referred to our contacts when it is full.
    pub fn handle_successful_connection(&mut self, peer_addr: NetAddr) -> (r: ConnectOutcome)
        ensures
            (old(self).conns().contains_key(peer_addr@) && old(self).conns()[peer_addr@].0
                is Some) ==> r == ConnectOutcome::Connected(
                old(self).conns()[peer_addr@].0->0,
            ) && final(self).conns() == old(self).conns().insert(
                peer_addr@,
                (old(self).conns()[peer_addr@].0, ConnectionState::Connected),
            ) && final(self).active() == old(self).active().insert(
                (old(self).conns()[peer_addr@].0->0)@,
                peer_addr,
            ) && final(self).routing_entries() == old(self).routing_entries().insert(
                (old(self).conns()[peer_addr@].0->0)@,
                ((old(self).conns()[peer_addr@].0->0)@, 1),
            ) && final(self).routing_version() == (if old(self).routing_version() < usize::MAX {
                old(self).routing_version() + 1
            } else {
                old(self).routing_version()
            }),
            old(self).conns().contains_key(peer_addr@) && old(self).conns()[peer_addr@].0 is None
                ==> r is AwaitingIdentification && final(self).conns() == old(self).conns()
                && final(self).active() == old(self).active() && final(self).routing_entries()
                == old(self).routing_entries() && final(self).routing_version() == old(self).routing_version(),
            !old(self).conns().contains_key(peer_addr@) && old(self).conns().dom().len()
                >= MAX_CONNECTION_LEN ==> r is Referred && final(self).conns() == old(self).conns()
                && final(self).active() == old(self).active() && final(self).routing_entries()
                == old(self).routing_entries() && final(self).routing_version() == old(self).routing_version(),
            !old(self).conns().contains_key(peer_addr@) && old(self).conns().dom().len()
                < MAX_CONNECTION_LEN ==> r is IncomingRecorded && final(self).conns() == old(self).conns().insert(
                peer_addr@,
                (Option::<crate::hash::Hash>::None, ConnectionState::Incoming),
            ) && final(self).active() == old(self).active() && final(self).routing_entries()
                == old(self).routing_entries() && final(self).routing_version() == old(self).routing_version(),
    {
        let existing: Option<(Option<crate::hash::Hash>, ConnectionState)> = match self.entries.get(
            &peer_addr,
        ) {
            Some(e) => Some((e.0, e.1)),
            None => None,
        };
        match existing {
            Some((Some(key), _state)) => {
                self.entries.insert(peer_addr.clone(), (Some(key), ConnectionState::Connected));
                self.active_connections.insert(key, peer_addr);
                self.routing_table.add_direct_connection(&key);
                self.routing_table.increment_version();
                ConnectOutcome::Connected(key)
            },
            Some((None, _state)) => ConnectOutcome::AwaitingIdentification,
            None => {
                if self.entries.len() >= MAX_CONNECTION_LEN {
                    let contacts = self.connection_addresses();
                    ConnectOutcome::Referred(contacts)
                } else {
                    self.entries.insert(
                        peer_addr,
                        (None, ConnectionState::Incoming),
                    );
                    ConnectOutcome::IncomingRecorded
                }
            },
        }
    }

    /// The addresses of every connection we hold, for a referral.
    fn connection_addresses(&self) -> (r: Vec<NetAddr>)
        ensures
            forall|i: int|
                0 <= i < r@.len() ==> self.conns().contains_key((#[trigger] r@[i])@),
    {
        self.entries.key_seq_facts();
        let n = self.entries.len();
        let mut out: Vec<NetAddr> = Vec::new();
        let mut i: usize = 0;
        while i < n
            invariant
                0 <= i <= n,
                n == self.entries@.dom().len(),
                forall|j: int|
                    0 <= j < out@.len() ==> self.conns().contains_key((#[trigger] out@[j])@),
            decreases n - i,
        {
            let pair = self.entries.pair_at(i);
            out.push(pair.0.clone());
            i += 1;
        }
        out
    }

    /// Handles a peer naming itself. Only the first identification on a
    /// connection counts: an unnamed entry takes the name, becomes active
    /// and enters the routing table one hop away with the version bumped,
    /// and the driver gossips; anything else is a no-op.
    pub fn handle_peer_identification(&mut self, peer_addr: NetAddr, peer_hash: crate::hash::Hash)
        -> (connected: bool)
        ensures
            connected == (old(self).conns().contains_key(peer_addr@) && old(self).conns()[peer_addr@].0 is None),
            connected ==> final(self).conns() == old(self).conns().insert(
                peer_addr@,
                (Some(peer_hash), ConnectionState::Connected),
            ) && final(self).active() == old(self).active().insert(peer_hash@, peer_addr) && final(self).routing_entries() == old(self).routing_entries().insert(
                peer_hash@,
                (peer_hash@, 1),
            ) && final(self).routing_version() == (if old(self).routing_version() < usize::MAX {
                old(self).routing_version() + 1
            } else {
                old(self).routing_version()
            }),
            !connected ==> final(self).conns() == old(self).conns() && final(self).active() == old(self).active() && final(self).routing_entries() == old(self).routing_entries() && final(self).routing_version() == old(self).routing_version(),
    {
        let unnamed = match self.entries.get(&peer_addr) {
            Some(e) => e.0.is_none(),
            None => false,
        };
        if unnamed {
            self.entries.insert(
                peer_addr.clone(),
                (Some(peer_hash), ConnectionState::Connected),
            );
            self.active_connections.insert(peer_hash, peer_addr);
            self.routing_table.add_direct_connection(&peer_hash);
            self.routing_table.increment_version();
            true
        } else {
            false
        }
    }

    /// What a routing gossip round sends: the shared projection of our
    /// table, and the address of every active connection to send it to.
    pub fn share_routing_table(&self) -> (r: (SharedRoutingTable, Vec<NetAddr>))
        ensures
            forall|d: Seq<u8>|
                #[trigger] r.0.hops_map().contains_key(d) <==> self.routing_entries().contains_key(
                    d,
                ),
            forall|d: Seq<u8>|
                self.routing_entries().contains_key(d) ==> #[trigger] r.0.hops_map()[d]
                    == self.routing_entries()[d].1,
            forall|i: int|
                0 <= i < r.1@.len() ==> addr_is_active(self.active(), #[trigger] r.1@[i]),
            r.1@.len() == self.active().dom().len(),
    {
        self.active_connections.key_seq_facts();
        let shared = self.routing_table.get_shared();
        let n = self.active_connections.len();
        let mut targets: Vec<NetAddr> = Vec::new();
        let mut i: usize = 0;
        while i < n
            invariant
                0 <= i <= n,
                n == self.active_connections@.dom().len(),
                targets@.len() == i,
                forall|j: int|
                    0 <= j < targets@.len() ==> addr_is_active(
                        self.active(),
                        #[trigger] targets@[j],
                    ),
            decreases n - i,
        {
            let pair = self.active_connections.pair_at(i);
            let addr = pair.1.clone();
            proof {
                assert(self.active().contains_key(pair.0@) && addr@ == self.active()[pair.0@]@);
                assert(addr_is_active(self.active(), addr));
            }
            targets.push(addr);
            i += 1;
        }
        (shared, targets)
    }

    /// Drops the connection entry for the address on a transport failure;
    /// whether one was held is handed back.
    pub fn handle_connection_failure(&mut self, peer_addr: &NetAddr) -> (had: bool)
        ensures
            had == old(self).conns().contains_key(peer_addr@),
            final(self).conns() == old(self).conns().remove(peer_addr@),
            final(self).active() == old(self).active(),
            final(self).routing_entries() == old(self).routing_entries(),
            final(self).routing_version() == old(self).routing_version(),
    {
        let had = self.entries.contains_key(peer_addr);
        self.entries.remove(peer_addr);
        had
    }
}

} // verus!
