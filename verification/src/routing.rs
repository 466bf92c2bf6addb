//! The distance-vector routing table: destinations mapped to a next hop and
//! a hop count, a version counter bumped on change, and the gossip merge
//! that only ever shortens routes.

use vstd::prelude::*;
use crate::idmap::IdMap;

verus! {

/// The view of a routing table's entries: destination bytes to next-hop
/// bytes and hop count.
pub open spec fn route_view(m: Map<Seq<u8>, (crate::hash::Hash, usize)>) -> Map<
    Seq<u8>,
    (Seq<u8>, int),
> {
    m.map_values(|e: (crate::hash::Hash, usize)| (e.0@, e.1 as int))
}

/// Whether a peer's advertised table offers a strictly shorter route to `d`
/// than table `a` holds (an absent destination counts as unreachable).
pub open spec fn improves(a: Map<Seq<u8>, (Seq<u8>, int)>, peer: Map<Seq<u8>, int>, d: Seq<u8>)
    -> bool {
    peer.contains_key(d) && peer[d] < usize::MAX && peer[d] + 1 < (if a.contains_key(d) {
        a[d].1
    } else {
        usize::MAX as int
    })
}

/// The view of one routing entry.
pub open spec fn entry_view(e: (crate::hash::Hash, usize)) -> (Seq<u8>, int) {
    (e.0@, e.1 as int)
}

/// The entry a gossip merge leaves for a destination the table already
/// held: the peer's shorter route where it improves, else the old entry.
pub open spec fn merged_known(
    a: Map<Seq<u8>, (Seq<u8>, int)>,
    peer: Map<Seq<u8>, int>,
    peer_id: Seq<u8>,
    d: Seq<u8>,
) -> (Seq<u8>, int) {
    if improves(a, peer, d) {
        (peer_id, peer[d] + 1)
    } else {
        a[d]
    }
}

/// The entry a gossip merge leaves for a destination only the peer knows:
/// the route through the peer where it is finite, else the unreachable
/// sentinel.
pub open spec fn merged_new(
    a: Map<Seq<u8>, (Seq<u8>, int)>,
    peer: Map<Seq<u8>, int>,
    peer_id: Seq<u8>,
    d: Seq<u8>,
) -> (Seq<u8>, int) {
    if improves(a, peer, d) {
        (peer_id, peer[d] + 1)
    } else {
        (Seq::<u8>::new(32, |i: int| 0u8), usize::MAX as int)
    }
}

/// The hop counts a node advertises to its peers: destination bytes to hop
/// count, without next hops.
pub struct SharedRoutingTable {
    entries: IdMap<usize>,
}

impl SharedRoutingTable {
    /// The advertised hop counts.
    pub closed spec fn hops_map(self) -> Map<Seq<u8>, int> {
        self.entries@.map_values(|h: usize| h as int)
    }

    /// The advertised entries in traversal order.
    pub closed spec fn entry_pairs(self) -> Seq<(Seq<u8>, int)> {
        self.entries.entry_pairs().map_values(|p: (Seq<u8>, usize)| (p.0, p.1 as int))
    }

    /// The advertised hop count for a destination, if one is advertised.
    pub fn get_routing_info(&self, node_id: &crate::hash::Hash) -> (r: Option<usize>)
        ensures
            match r {
                Some(h) => self.hops_map().contains_key(node_id@) && h as int == self.hops_map()[node_id@],
                None => !self.hops_map().contains_key(node_id@),
            },
    {
        match self.entries.get(node_id) {
            Some(h) => Some(*h),
            None => None,
        }
    }

    /// An empty advertisement.
    pub fn new() -> (r: Self)
        ensures
            r.hops_map() == Map::<Seq<u8>, int>::empty(),
            r.entry_pairs() == Seq::<(Seq<u8>, int)>::empty(),
    {
        let r = SharedRoutingTable { entries: IdMap::new() };
        proof {
            assert(r.hops_map() =~= Map::<Seq<u8>, int>::empty());
            assert(r.entry_pairs() =~= Seq::<(Seq<u8>, int)>::empty());
        }
        r
    }

    /// Advertises a hop count for a destination; a fresh destination goes
    /// to the end of the traversal order.
    pub fn insert(&mut self, node: crate::hash::Hash, hops: usize)
        ensures
            final(self).hops_map() == old(self).hops_map().insert(node@, hops as int),
            !old(self).hops_map().contains_key(node@) ==> final(self).entry_pairs() == old(self).entry_pairs().push((node@, hops as int)),
    {
        self.entries.insert(node, hops);
        proof {
            assert(final(self).hops_map() =~= old(self).hops_map().insert(node@, hops as int));
            if !old(self).hops_map().contains_key(node@) {
                assert(!old(self).entries@.contains_key(node@));
                assert(final(self).entry_pairs() =~= old(self).entry_pairs().push(
                    (node@, hops as int),
                ));
            }
        }
    }

    /// The advertised entry at a traversal position.
    pub fn entry_at(&self, i: usize) -> (r: (crate::hash::Hash, usize))
        requires
            i < self.hops_map().dom().len(),
        ensures
            self.hops_map().contains_key(r.0@) && self.hops_map()[r.0@] == r.1 as int,
            i < self.entry_pairs().len() && self.entry_pairs()[i as int] == (r.0@, r.1 as int),
    {
        proof {
            assert(self.hops_map().dom() =~= self.entries@.dom());
        }
        self.entries.key_seq_facts();
        let pair = self.entries.pair_at(i);
        (pair.0, pair.1)
    }

    /// The advertised entries themselves.
    pub fn entries(&self) -> (r: &IdMap<usize>)
        ensures
            r@.map_values(|h: usize| h as int) == self.hops_map(),
    {
        &self.entries
    }

    /// How many destinations are advertised.
    pub fn len(&self) -> (r: usize)
        ensures
            r == self.hops_map().dom().len(),
            self.hops_map().dom().finite(),
            r == self.entry_pairs().len(),
    {
        proof {
            assert(self.hops_map().dom() =~= self.entries@.dom());
        }
        self.entries.key_seq_facts();
        self.entries.len()
    }
}

/// The routing table proper: destination to (next hop, hop count), with a
/// version that callers bump on any mutation to drive gossip.
pub struct RoutingTable {
    entries: IdMap<(crate::hash::Hash, usize)>,
    version: usize,
}

impl RoutingTable {
    /// The table's entries.
    pub closed spec fn entries_map(self) -> Map<Seq<u8>, (Seq<u8>, int)> {
        route_view(self.entries@)
    }

    /// The gossip version.
    pub closed spec fn spec_version(self) -> int {
        self.version as int
    }

    /// An empty table at version zero.
    pub fn new() -> (r: Self)
        ensures
            r.entries_map() == Map::<Seq<u8>, (Seq<u8>, int)>::empty(),
            r.spec_version() == 0,
    {
        let r = RoutingTable { entries: IdMap::new(), version: 0 };
        proof {
            assert(r.entries_map() =~= Map::<Seq<u8>, (Seq<u8>, int)>::empty());
        }
        r
    }

    /// The hop counts alone, for gossiping to peers.
    pub fn get_shared(&self) -> (r: SharedRoutingTable)
        ensures
            forall|d: Seq<u8>|
                #[trigger] r.hops_map().contains_key(d) <==> self.entries_map().contains_key(d),
            forall|d: Seq<u8>|
                self.entries_map().contains_key(d) ==> #[trigger] r.hops_map()[d]
                    == self.entries_map()[d].1,
    {
        self.entries.key_seq_facts();
        let n = self.entries.len();
        let mut shared: IdMap<usize> = IdMap::new();
        let mut i: usize = 0;
        while i < n
            invariant
                0 <= i <= n,
                n == self.entries@.dom().len(),
                self.entries.key_seq().len() == n,
                forall|j: int, l: int|
                    0 <= j < l < n ==> self.entries.key_seq()[j] != self.entries.key_seq()[l],
                forall|j: int|
                    0 <= j < n ==> #[trigger] self.entries@.contains_key(self.entries.key_seq()[j]),
                forall|d: Seq<u8>|
                    self.entries@.contains_key(d) ==> exists|j: int|
                        0 <= j < n && self.entries.key_seq()[j] == d,
                forall|d: Seq<u8>|
                    #[trigger] shared@.contains_key(d) <==> exists|j: int|
                        0 <= j < i && self.entries.key_seq()[j] == d,
                forall|j: int|
                    0 <= j < i ==> shared@.contains_key(#[trigger] self.entries.key_seq()[j])
                        && shared@[self.entries.key_seq()[j]] == self.entries@[self.entries.key_seq()[j]].1,
            decreases n - i,
        {
            let pair = self.entries.pair_at(i);
            shared.insert(pair.0, pair.1.1);
            i += 1;
        }
        let r = SharedRoutingTable { entries: shared };
        proof {
            assert forall|d: Seq<u8>| #[trigger] r.hops_map().contains_key(d) <==> self.entries_map().contains_key(d) by {}
            assert forall|d: Seq<u8>| self.entries_map().contains_key(d) implies #[trigger] r.hops_map()[d] == self.entries_map()[d].1 by {
                let j = choose|j: int| 0 <= j < n && self.entries.key_seq()[j] == d;
                assert(shared@.contains_key(self.entries.key_seq()[j]));
                assert(shared@[self.entries.key_seq()[j]] == self.entries@[self.entries.key_seq()[j]].1);
            }
        }
        r
    }

    /// The entry for a destination, if one is held.
    pub fn get_routing_info(&self, node_id: &crate::hash::Hash) -> (r: Option<
        &(crate::hash::Hash, usize),
    >)
        ensures
            match r {
                Some(e) => self.entries_map().contains_key(node_id@) && (e.0@, e.1 as int)
                    == self.entries_map()[node_id@],
                None => !self.entries_map().contains_key(node_id@),
            },
    {
        self.entries.get(node_id)
    }

    /// The entries themselves.
    pub fn entries(&self) -> (r: &IdMap<(crate::hash::Hash, usize)>)
        ensures
            route_view(r@) == self.entries_map(),
    {
        &self.entries
    }

    /// The entries, for direct mutation; the view tracks whatever the
    /// caller leaves behind.
    pub fn entries_mut(&mut self) -> (r: &mut IdMap<(crate::hash::Hash, usize)>)
        ensures
            route_view(r@) == old(self).entries_map(),
            final(self).entries_map() == route_view(final(r)@),
            final(self).spec_version() == old(self).spec_version(),
    {
        &mut self.entries
    }

    /// Whether a destination is held.
    pub fn has_node(&self, node_id: &crate::hash::Hash) -> (r: bool)
        ensures
            r == self.entries_map().contains_key(node_id@),
    {
        self.entries.contains_key(node_id)
    }

    /// Seeds an unknown destination as unreachable: the all-zero sentinel as
    /// next hop and the greatest hop count.
    pub fn add_new_node(&mut self, node_id: &crate::hash::Hash)
        ensures
            final(self).entries_map() == old(self).entries_map().insert(
                node_id@,
                (Seq::<u8>::new(32, |i: int| 0u8), usize::MAX as int),
            ),
            final(self).spec_version() == old(self).spec_version(),
    {
        self.entries.insert(*node_id, (crate::hash::Hash::zero(), usize::MAX));
        proof {
            assert(final(self).entries_map() =~= old(self).entries_map().insert(
                node_id@,
                (Seq::<u8>::new(32, |i: int| 0u8), usize::MAX as int),
            ));
        }
    }

    /// Records a direct connection: the peer is its own next hop, one hop
    /// away.
    pub fn add_direct_connection(&mut self, node_id: &crate::hash::Hash)
        ensures
            final(self).entries_map() == old(self).entries_map().insert(node_id@, (node_id@, 1)),
            final(self).spec_version() == old(self).spec_version(),
    {
        self.entries.insert(*node_id, (*node_id, 1));
        proof {
            assert(final(self).entries_map() =~= old(self).entries_map().insert(
                node_id@,
                (node_id@, 1),
            ));
        }
    }

    /// Bumps the gossip version, saturating at the top of the range.
    pub fn increment_version(&mut self)
        ensures
            final(self).entries_map() == old(self).entries_map(),
            final(self).spec_version() == if old(self).spec_version() < usize::MAX {
                old(self).spec_version() + 1
            } else {
                old(self).spec_version()
            },
    {
        if self.version < usize::MAX {
            self.version = self.version + 1;
        }
    }

    /// The gossip version.
    pub fn version(&self) -> (r: usize)
        ensures
            r as int == self.spec_version(),
    {
        self.version
    }

    /// Folds a peer's advertised table in. Destinations the peer knows and
    /// this table does not are seeded; a route through the peer replaces an
    /// entry exactly when it is strictly shorter, so no hop count ever
    /// grows. The result says whether any route improved; the version is
    /// left for the caller to bump.
    #[verifier::rlimit(60)]
    pub fn merge_shared(&mut self, peer_table: &SharedRoutingTable, peer_id: &crate::hash::Hash)
        -> (changed: bool)
        ensures
            final(self).spec_version() == old(self).spec_version(),
            forall|d: Seq<u8>|
                #[trigger] final(self).entries_map().contains_key(d) <==> (old(self).entries_map().contains_key(d) || peer_table.hops_map().contains_key(d)),
            forall|d: Seq<u8>|
                old(self).entries_map().contains_key(d) ==> #[trigger] final(self).entries_map()[d]
                    == merged_known(old(self).entries_map(), peer_table.hops_map(), peer_id@, d),
            forall|d: Seq<u8>|
                (!old(self).entries_map().contains_key(d) && peer_table.hops_map().contains_key(d))
                    ==> #[trigger] final(self).entries_map()[d] == merged_new(
                    old(self).entries_map(),
                    peer_table.hops_map(),
                    peer_id@,
                    d,
                ),
            forall|d: Seq<u8>|
                old(self).entries_map().contains_key(d) ==> final(self).entries_map()[d].1 <= old(self).entries_map()[d].1,
            changed == exists|d: Seq<u8>|
                improves(old(self).entries_map(), peer_table.hops_map(), d),
    {
        self.entries.key_seq_facts();
        peer_table.entries.key_seq_facts();
        let ghost old_map = self.entries_map();
        let ghost peer_map = peer_table.hops_map();
        let ghost own_keys = self.entries.key_seq();
        let ghost peer_keys = peer_table.entries.key_seq();
        let n = self.entries.len();
        let m = peer_table.entries.len();
        let mut fresh: IdMap<(crate::hash::Hash, usize)> = IdMap::new();
        let mut changed = false;
        let mut i: usize = 0;
        while i < n
            invariant
                0 <= i <= n,
                n == self.entries@.dom().len(),
                old_map == self.entries_map(),
                peer_map == peer_table.hops_map(),
                own_keys == self.entries.key_seq(),
                own_keys.len() == n,
                forall|j: int, l: int| 0 <= j < l < n ==> own_keys[j] != own_keys[l],
                forall|j: int| 0 <= j < n ==> old_map.contains_key(#[trigger] own_keys[j]),
                forall|d: Seq<u8>|
                    old_map.contains_key(d) ==> exists|j: int| 0 <= j < n && own_keys[j] == d,
                forall|d: Seq<u8>|
                    #[trigger] fresh@.contains_key(d) ==> exists|j: int|
                        0 <= j < i && own_keys[j] == d,
                forall|j: int|
                    0 <= j < i ==> fresh@.contains_key(#[trigger] own_keys[j]) && entry_view(
                        fresh@[own_keys[j]],
                    ) == merged_known(old_map, peer_map, peer_id@, own_keys[j]),
                changed == exists|j: int| 0 <= j < i && improves(old_map, peer_map, own_keys[j]),
            decreases n - i,
        {
            let pair = self.entries.pair_at(i);
            let key = pair.0;
            let hop_to = pair.1.0;
            let hops = pair.1.1;
            proof {
                assert(own_keys[i as int] == key@);
                assert(old_map.contains_key(key@));
                assert(old_map[key@] == (pair.1.0@, pair.1.1 as int));
            }
            let mut improved = false;
            let mut new_entry: (crate::hash::Hash, usize) = (hop_to, hops);
            match peer_table.entries.get(&key) {
                Some(ph) => {
                    proof {
                        assert(peer_map.contains_key(key@));
                        assert(peer_map[key@] == *ph as int);
                    }
                    if *ph < usize::MAX && *ph + 1 < hops {
                        improved = true;
                        new_entry = (*peer_id, *ph + 1);
                    }
                },
                None => {
                    proof {
                        assert(!peer_map.contains_key(key@));
                    }
                },
            }
            proof {
                assert(improved == improves(old_map, peer_map, key@));
                assert(entry_view(new_entry) == merged_known(old_map, peer_map, peer_id@, key@));
            }
            if improved {
                changed = true;
            }
            let ghost fresh_before = fresh@;
            fresh.insert(key, new_entry);
            proof {
                assert forall|j: int|
                    0 <= j < i + 1 implies #[trigger] fresh@.contains_key(own_keys[j])
                    && entry_view(fresh@[own_keys[j]]) == merged_known(
                    old_map,
                    peer_map,
                    peer_id@,
                    own_keys[j],
                ) by {
                    if j < i {
                        assert(fresh_before.contains_key(own_keys[j]));
                        assert(entry_view(fresh_before[own_keys[j]]) == merged_known(
                            old_map,
                            peer_map,
                            peer_id@,
                            own_keys[j],
                        ));
                        assert(own_keys[j] != key@);
                        assert(fresh@.contains_key(own_keys[j]));
                        assert(fresh@[own_keys[j]] == fresh_before[own_keys[j]]);
                    } else {
                        assert(own_keys[j] == key@);
                        assert(fresh@.contains_key(key@));
                        assert(fresh@[key@] == new_entry);
                    }
                }
                assert forall|d: Seq<u8>| #[trigger] fresh@.contains_key(d) implies exists|j: int|
                    0 <= j < i + 1 && own_keys[j] == d by {
                    if !fresh_before.contains_key(d) {
                        assert(d == key@ && own_keys[i as int] == d);
                    }
                }
            }
            i += 1;
        }
        let mut j: usize = 0;
        while j < m
            invariant
                0 <= j <= m,
                m == peer_table.entries@.dom().len(),
                old_map == self.entries_map(),
                peer_map == peer_table.hops_map(),
                peer_keys == peer_table.entries.key_seq(),
                peer_keys.len() == m,
                forall|a: int, b: int| 0 <= a < b < m ==> peer_keys[a] != peer_keys[b],
                forall|a: int| 0 <= a < m ==> peer_map.contains_key(#[trigger] peer_keys[a]),
                forall|d: Seq<u8>|
                    peer_map.contains_key(d) ==> exists|a: int| 0 <= a < m && peer_keys[a] == d,
                forall|d: Seq<u8>|
                    old_map.contains_key(d) ==> #[trigger] fresh@.contains_key(d) && entry_view(
                        fresh@[d],
                    ) == merged_known(old_map, peer_map, peer_id@, d),
                forall|d: Seq<u8>|
                    #[trigger] fresh@.contains_key(d) ==> (old_map.contains_key(d) || exists|a: int|
                        0 <= a < j && peer_keys[a] == d),
                forall|a: int|
                    0 <= a < j ==> #[trigger] fresh@.contains_key(peer_keys[a]),
                forall|d: Seq<u8>|
                    (!old_map.contains_key(d) && #[trigger] fresh@.contains_key(d)) ==> entry_view(
                        fresh@[d],
                    ) == merged_new(old_map, peer_map, peer_id@, d),
                changed == ((exists|d: Seq<u8>|
                    old_map.contains_key(d) && improves(old_map, peer_map, d)) || (exists|a: int|
                    0 <= a < j && !old_map.contains_key(peer_keys[a]) && improves(
                        old_map,
                        peer_map,
                        peer_keys[a],
                    ))),
            decreases m - j,
        {
            let pair = peer_table.entries.pair_at(j);
            let key = pair.0;
            let ph = pair.1;
            proof {
                assert(peer_keys[j as int] == key@);
                assert(peer_map.contains_key(key@));
                assert(peer_map[key@] == ph as int);
            }
            if !self.entries.contains_key(&key) {
                proof {
                    assert(!old_map.contains_key(key@));
                }
                let mut improved = false;
                let mut new_entry: (crate::hash::Hash, usize) = (
                    crate::hash::Hash::zero(),
                    usize::MAX,
                );
                if ph < usize::MAX && ph + 1 < usize::MAX {
                    improved = true;
                    new_entry = (*peer_id, ph + 1);
                }
                proof {
                    assert(improved == improves(old_map, peer_map, key@));
                    assert(entry_view(new_entry) == merged_new(old_map, peer_map, peer_id@, key@));
                }
                if improved {
                    changed = true;
                }
                let ghost fresh_before = fresh@;
                fresh.insert(key, new_entry);
                proof {
                    assert forall|d: Seq<u8>|
                        old_map.contains_key(d) implies #[trigger] fresh@.contains_key(d)
                        && entry_view(fresh@[d]) == merged_known(
                        old_map,
                        peer_map,
                        peer_id@,
                        d,
                    ) by {
                        assert(fresh_before.contains_key(d));
                        assert(entry_view(fresh_before[d]) == merged_known(
                            old_map,
                            peer_map,
                            peer_id@,
                            d,
                        ));
                        assert(d != key@);
                        assert(fresh@[d] == fresh_before[d]);
                    }
                    assert forall|d: Seq<u8>|
                        (!old_map.contains_key(d) && #[trigger] fresh@.contains_key(d)) implies
                        entry_view(fresh@[d]) == merged_new(old_map, peer_map, peer_id@, d) by {
                        if d != key@ {
                            assert(fresh_before.contains_key(d));
                            assert(fresh@[d] == fresh_before[d]);
                        } else {
                            assert(fresh@[key@] == new_entry);
                        }
                    }
                }
            } else {
                proof {
                    assert(old_map.contains_key(key@));
                    assert(fresh@.contains_key(key@));
                }
            }
            j += 1;
        }
        self.entries = fresh;
        proof {
            assert forall|d: Seq<u8>| #[trigger] final(self).entries_map().contains_key(d) implies (
            old_map.contains_key(d) || peer_map.contains_key(d)) by {
                assert(fresh@.contains_key(d));
            }
            assert forall|d: Seq<u8>| (old_map.contains_key(d) || peer_map.contains_key(d)) implies
                #[trigger] final(self).entries_map().contains_key(d) by {
                if old_map.contains_key(d) {
                    assert(fresh@.contains_key(d));
                } else {
                    let a = choose|a: int| 0 <= a < m && peer_keys[a] == d;
                    assert(fresh@.contains_key(peer_keys[a]));
                }
                assert(final(self).entries_map().contains_key(d) == fresh@.contains_key(d));
            }
            assert forall|d: Seq<u8>| old_map.contains_key(d) implies #[trigger] final(self).entries_map()[d] == merged_known(old_map, peer_map, peer_id@, d) by {
                assert(fresh@.contains_key(d));
                assert(final(self).entries_map()[d] == entry_view(fresh@[d]));
            }
            assert forall|d: Seq<u8>| (!old_map.contains_key(d) && peer_map.contains_key(d)) implies
                #[trigger] final(self).entries_map()[d] == merged_new(
                old_map,
                peer_map,
                peer_id@,
                d,
            ) by {
                let a = choose|a: int| 0 <= a < m && peer_keys[a] == d;
                assert(fresh@.contains_key(peer_keys[a]));
                assert(final(self).entries_map()[d] == entry_view(fresh@[d]));
            }
            assert forall|d: Seq<u8>| old_map.contains_key(d) implies final(self).entries_map()[d].1
                <= old_map[d].1 by {
                assert(final(self).entries_map()[d] == merged_known(old_map, peer_map, peer_id@, d));
            }
            if changed {
                assert(exists|d: Seq<u8>| improves(old_map, peer_map, d));
            } else {
                assert forall|d: Seq<u8>| !(improves(old_map, peer_map, d)) by {
                    if peer_map.contains_key(d) {
                        if old_map.contains_key(d) {
                            assert(changed == false);
                        } else {
                            let a = choose|a: int| 0 <= a < m && peer_keys[a] == d;
                            assert(!(0 <= a < m && !old_map.contains_key(peer_keys[a]) && improves(
                                old_map,
                                peer_map,
                                peer_keys[a],
                            )));
                        }
                    }
                }
            }
        }
        changed
    }
}

impl Clone for RoutingTable {
    fn clone(&self) -> (r: Self)
        ensures
            r.entries_map() == self.entries_map(),
            r.spec_version() == self.spec_version(),
    {
        self.entries.key_seq_facts();
        let n = self.entries.len();
        let mut entries: IdMap<(crate::hash::Hash, usize)> = IdMap::new();
        let mut i: usize = 0;
        while i < n
            invariant
                0 <= i <= n,
                n == self.entries@.dom().len(),
                self.entries.key_seq().len() == n,
                forall|j: int, l: int|
                    0 <= j < l < n ==> self.entries.key_seq()[j] != self.entries.key_seq()[l],
                forall|j: int|
                    0 <= j < n ==> #[trigger] self.entries@.contains_key(self.entries.key_seq()[j]),
                forall|d: Seq<u8>|
                    self.entries@.contains_key(d) ==> exists|j: int|
                        0 <= j < n && self.entries.key_seq()[j] == d,
                forall|d: Seq<u8>|
                    #[trigger] entries@.contains_key(d) <==> exists|j: int|
                        0 <= j < i && self.entries.key_seq()[j] == d,
                forall|j: int|
                    0 <= j < i ==> entries@.contains_key(#[trigger] self.entries.key_seq()[j])
                        && entries@[self.entries.key_seq()[j]] == self.entries@[self.entries.key_seq()[j]],
            decreases n - i,
        {
            let pair = self.entries.pair_at(i);
            entries.insert(pair.0, pair.1);
            i += 1;
        }
        let r = RoutingTable { entries, version: self.version };
        proof {
            assert forall|d: Seq<u8>| #[trigger] r.entries_map().contains_key(d) <==> self.entries_map().contains_key(d) by {}
            assert forall|d: Seq<u8>| self.entries_map().contains_key(d) implies #[trigger] r.entries_map()[d] == self.entries_map()[d] by {
                let j = choose|j: int| 0 <= j < n && self.entries.key_seq()[j] == d;
                assert(entries@.contains_key(self.entries.key_seq()[j]));
                assert(entries@[self.entries.key_seq()[j]] == self.entries@[self.entries.key_seq()[j]]);
            }
            assert(r.entries_map() =~= self.entries_map());
        }
        r
    }
}

impl Default for RoutingTable {
    /// An empty table at version zero.
    fn default() -> (r: Self)
        ensures
            r.entries_map() == Map::<Seq<u8>, (Seq<u8>, int)>::empty(),
            r.spec_version() == 0,
    {
        RoutingTable::new()
    }
}

} // verus!
