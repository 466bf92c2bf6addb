//! Node configuration: the bootstrap contacts and the agent toggle. The
//! transport's own settings live with the driver, outside the library.

use vstd::prelude::*;
use crate::addrmap::AddrMap;
use crate::netaddr::NetAddr;

verus! {

/// A node's peer-to-peer configuration.
pub struct P2pConfig {
    bootstrap_nodes: AddrMap<()>,
    deploy_agent: bool,
}

impl P2pConfig {
    /// The bootstrap contacts, as a set of addresses.
    pub closed spec fn contacts(self) -> Set<(Seq<u8>, u16)> {
        self.bootstrap_nodes@.dom()
    }

    /// Whether this node should deploy its agent.
    pub closed spec fn deploys(self) -> bool {
        self.deploy_agent
    }

    /// No contacts, no agent.
    pub fn new() -> (r: Self)
        ensures
            r.contacts() == Set::<(Seq<u8>, u16)>::empty(),
            !r.deploys(),
    {
        let r = P2pConfig { bootstrap_nodes: AddrMap::new(), deploy_agent: false };
        proof {
            assert(r.contacts() =~= Set::<(Seq<u8>, u16)>::empty());
        }
        r
    }

    /// The bootstrap contacts.
    pub fn get_bootstrap_contacts(&self) -> (r: Vec<NetAddr>)
        ensures
            forall|i: int| 0 <= i < r@.len() ==> self.contacts().contains((#[trigger] r@[i])@),
            r@.len() == self.contacts().len(),
    {
        self.bootstrap_nodes.key_seq_facts();
        let n = self.bootstrap_nodes.len();
        let mut out: Vec<NetAddr> = Vec::new();
        let mut i: usize = 0;
        while i < n
            invariant
                0 <= i <= n,
                n == self.bootstrap_nodes@.dom().len(),
                out@.len() == i,
                forall|j: int|
                    0 <= j < out@.len() ==> self.contacts().contains((#[trigger] out@[j])@),
            decreases n - i,
        {
            let pair = self.bootstrap_nodes.pair_at(i);
            out.push(pair.0.clone());
            i += 1;
        }
        out
    }

    /// Adds contacts; every one given is a contact afterwards, and the
    /// earlier ones all stay.
    pub fn add_bootstrap_contacts(&mut self, peers: Vec<NetAddr>)
        ensures
            forall|i: int|
                0 <= i < peers@.len() ==> final(self).contacts().contains(
                    (#[trigger] peers@[i])@,
                ),
            forall|a: (Seq<u8>, u16)|
                old(self).contacts().contains(a) ==> final(self).contacts().contains(a),
            final(self).deploys() == old(self).deploys(),
    {
        let mut peers = peers;
        let ghost given = peers@;
        while peers.len() > 0
            invariant
                peers@.len() <= given.len(),
                peers@ == given.take(peers@.len() as int),
                forall|i: int|
                    peers@.len() <= i < given.len() ==> self.contacts().contains(
                        (#[trigger] given[i])@,
                    ),
                forall|a: (Seq<u8>, u16)|
                    old(self).contacts().contains(a) ==> self.contacts().contains(a),
                self.deploys() == old(self).deploys(),
            decreases peers@.len(),
        {
            let peer = peers.pop().unwrap();
            proof {
                let plen = peers@.len() as int;
                assert(given.take(plen + 1).drop_last() =~= given.take(plen));
                assert(peers@ =~= given.take(plen));
                assert(given[plen] == peer);
            }
            self.bootstrap_nodes.insert(peer, ());
        }
        proof {
            assert forall|i: int|
                0 <= i < given.len() implies final(self).contacts().contains(
                (#[trigger] given[i])@,
            ) by {}
        }
    }

    /// The contact set itself, for direct mutation.
    pub fn bootstrap_nodes_mut(&mut self) -> (r: &mut AddrMap<()>)
        ensures
            r@.dom() == old(self).contacts(),
            final(self).contacts() == final(r)@.dom(),
            final(self).deploys() == old(self).deploys(),
    {
        &mut self.bootstrap_nodes
    }

    /// Marks this node as one that deploys its agent.
    pub fn set_deploy_agent(&mut self)
        ensures
            final(self).deploys(),
            final(self).contacts() == old(self).contacts(),
    {
        self.deploy_agent = true;
    }

    /// Whether this node should deploy its agent.
    pub fn should_deploy(&self) -> (r: bool)
        ensures
            r == self.deploys(),
    {
        self.deploy_agent
    }
}

impl Default for P2pConfig {
    /// No contacts, no agent.
    fn default() -> (r: Self)
        ensures
            r.contacts() == Set::<(Seq<u8>, u16)>::empty(),
            !r.deploys(),
    {
        P2pConfig::new()
    }
}

} // verus!
