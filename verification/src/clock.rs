//! Hierarchical vector clocks: a per-node counter vector plus a local
//! logical tick, with happened-before and concurrency tests.

use vstd::prelude::*;
use crate::idmap::IdMap;

verus! {

/// The counter a clock vector holds for a node, zero when the node is absent.
pub open spec fn clock_at(m: Map<Seq<u8>, u64>, k: Seq<u8>) -> u64 {
    if m.contains_key(k) {
        m[k]
    } else {
        0u64
    }
}

/// Strict causal precedence: componentwise no greater, and somewhere smaller.
pub open spec fn spec_happened_before(a: Map<Seq<u8>, u64>, b: Map<Seq<u8>, u64>) -> bool {
    (forall|k: Seq<u8>| clock_at(a, k) <= clock_at(b, k)) && (exists|k: Seq<u8>|
        clock_at(a, k) < clock_at(b, k))
}

/// Concurrency: neither clock precedes the other.
pub open spec fn spec_concurrent(a: Map<Seq<u8>, u64>, b: Map<Seq<u8>, u64>) -> bool {
    !spec_happened_before(a, b) && !spec_happened_before(b, a)
}

/// The local monotonic tick that orders balance updates on one account.
pub struct LogicalClock(pub u64);

impl LogicalClock {
    /// A clock at zero.
    pub fn new() -> (r: Self)
        ensures
            r.0 == 0,
    {
        LogicalClock(0)
    }

    /// Advances the tick by one.
    pub fn increment(&mut self)
        requires
            old(self).0 < u64::MAX,
        ensures
            final(self).0 == old(self).0 + 1,
    {
        self.0 = self.0 + 1;
    }

    /// The current tick.
    pub fn get(&self) -> (r: u64)
        ensures
            r == self.0,
    {
        self.0
    }

    /// Whether the two ticks are equal.
    pub fn is_equal(&self, other: Self) -> (r: bool)
        ensures
            r == (self.0 == other.0),
    {
        self.0 == other.0
    }

    /// Whether this tick is strictly behind the other.
    pub fn is_less(&self, other: Self) -> (r: bool)
        ensures
            r == (self.0 < other.0),
    {
        self.0 < other.0
    }

    /// Whether this tick is strictly ahead of the other.
    pub fn is_greater(&self, other: Self) -> (r: bool)
        ensures
            r == (self.0 > other.0),
    {
        self.0 > other.0
    }
}

impl Clone for LogicalClock {
    fn clone(&self) -> (r: Self)
        ensures
            r == *self,
    {
        LogicalClock(self.0)
    }
}

/// A hierarchical vector clock: per-node counters and a local tick.
/// Its view is the counter vector as a map from node id bytes to counters.
pub struct Hvc {
    vector: IdMap<u64>,
    hierarchical_order: LogicalClock,
}

impl View for Hvc {
    type V = Map<Seq<u8>, u64>;

    closed spec fn view(&self) -> Map<Seq<u8>, u64> {
        self.vector@
    }
}

impl Hvc {
    /// The local tick's value.
    pub closed spec fn spec_order(&self) -> u64 {
        self.hierarchical_order.0
    }

    /// The counter entries in traversal order, node ids as bytes.
    pub closed spec fn entry_pairs(self) -> Seq<(Seq<u8>, u64)> {
        self.vector.entry_pairs()
    }

    /// The current tick, without advancing it.
    pub fn order_value(&self) -> (r: u64)
        ensures
            r == self.spec_order(),
    {
        self.hierarchical_order.0
    }

    /// How many nodes have a counter entry.
    pub fn entry_len(&self) -> (r: usize)
        ensures
            r == self.entry_pairs().len(),
    {
        self.vector.key_seq_facts();
        self.vector.len()
    }

    /// Traversal facts: the node ids of the entries are pairwise distinct.
    pub fn entry_facts(&self)
        ensures
            forall|i: int, j: int|
                0 <= i < j < self.entry_pairs().len() ==> (#[trigger] self.entry_pairs()[i]).0 != (
                #[trigger] self.entry_pairs()[j]).0,
    {
        self.vector.key_seq_facts();
        proof {
            assert forall|i: int, j: int|
                0 <= i < j < self.entry_pairs().len() implies (#[trigger] self.entry_pairs()[i]).0
                != (#[trigger] self.entry_pairs()[j]).0 by {
                assert(self.vector.entry_pairs()[i].0 == self.vector.key_seq()[i]);
                assert(self.vector.entry_pairs()[j].0 == self.vector.key_seq()[j]);
            }
        }
    }

    /// The counter entry at a traversal position.
    pub fn entry_at(&self, i: usize) -> (r: (crate::hash::Hash, u64))
        requires
            i < self.entry_pairs().len(),
        ensures
            (r.0@, r.1) == self.entry_pairs()[i as int],
    {
        self.vector.key_seq_facts();
        let pair = self.vector.pair_at(i);
        (pair.0, pair.1)
    }

    /// Adds a counter entry for a node not yet present; false and no
    /// change when the node already has one.
    pub fn insert_entry(&mut self, node: crate::hash::Hash, cnt: u64) -> (r: bool)
        ensures
            r == !old(self)@.contains_key(node@),
            r ==> final(self).entry_pairs() == old(self).entry_pairs().push((node@, cnt)) && final(self)@ == old(self)@.insert(node@, cnt) && final(self).spec_order() == old(self).spec_order(),
            !r ==> *final(self) == *old(self),
    {
        if self.vector.contains_key(&node) {
            false
        } else {
            self.vector.insert(node, cnt);
            true
        }
    }

    /// Sets the local tick.
    pub fn set_order(&mut self, v: u64)
        ensures
            final(self).spec_order() == v,
            final(self)@ == old(self)@,
            final(self).entry_pairs() == old(self).entry_pairs(),
    {
        self.hierarchical_order = LogicalClock(v);
    }

    /// An empty clock: every counter zero, tick zero.
    pub fn new() -> (r: Self)
        ensures
            r@ == Map::<Seq<u8>, u64>::empty(),
            r.spec_order() == 0,
            r.entry_pairs() == Seq::<(Seq<u8>, u64)>::empty(),
    {
        Hvc { vector: IdMap::new(), hierarchical_order: LogicalClock::new() }
    }

    /// The local tick, for reading or advancing.
    pub fn order(&mut self) -> (r: &mut LogicalClock)
        ensures
            r.0 == old(self).spec_order(),
            final(self)@ == old(self)@,
            final(self).spec_order() == final(r).0,
    {
        &mut self.hierarchical_order
    }

    /// The counter for a node, zero when the node is absent.
    pub fn get_clock(&self, node_id: &crate::hash::Hash) -> (r: u64)
        ensures
            r == clock_at(self@, node_id@),
    {
        match self.vector.get(node_id) {
            Some(v) => *v,
            None => 0,
        }
    }

    /// Advances the counter for the node by one, from zero when absent.
    pub fn increment(&mut self, node_id: crate::hash::Hash)
        requires
            clock_at(old(self)@, node_id@) < u64::MAX,
        ensures
            final(self)@ == old(self)@.insert(node_id@, (clock_at(old(self)@, node_id@) + 1) as u64),
            clock_at(final(self)@, node_id@) == clock_at(old(self)@, node_id@) + 1,
            forall|k: Seq<u8>|
                k != node_id@ ==> clock_at(final(self)@, k) == clock_at(old(self)@, k),
            forall|k: Seq<u8>| clock_at(old(self)@, k) <= clock_at(final(self)@, k),
            final(self).spec_order() == old(self).spec_order(),
    {
        let current = self.get_clock(&node_id);
        self.vector.insert(node_id, current + 1);
    }

    /// Whether this clock strictly precedes the other: no counter greater,
    /// and at least one smaller. False on equal clocks.
    pub fn happened_before(&self, other: &Self) -> (r: bool)
        ensures
            r == spec_happened_before(self@, other@),
    {
        self.vector.key_seq_facts();
        other.vector.key_seq_facts();
        let n = self.vector.len();
        let mut i: usize = 0;
        while i < n
            invariant
                n == self@.dom().len(),
                self@.dom().finite(),
                0 <= i <= n,
                forall|j: int|
                    0 <= j < i ==> clock_at(self@, self.vector.key_seq()[j]) <= clock_at(
                        other@,
                        self.vector.key_seq()[j],
                    ),
                self.vector.key_seq().len() == n,
                forall|j: int|
                    0 <= j < n ==> #[trigger] self@.contains_key(self.vector.key_seq()[j]),
                forall|k: Seq<u8>|
                    self@.contains_key(k) ==> exists|j: int|
                        0 <= j < n && self.vector.key_seq()[j] == k,
            decreases n - i,
        {
            let pair = self.vector.pair_at(i);
            let ours = pair.1;
            let theirs = other.get_clock(&pair.0);
            if ours > theirs {
                proof {
                    assert(clock_at(self@, pair.0@) > clock_at(other@, pair.0@));
                }
                return false;
            }
            i += 1;
        }
        proof {
            assert forall|k: Seq<u8>| clock_at(self@, k) <= clock_at(other@, k) by {
                if self@.contains_key(k) {
                    let j = choose|j: int| 0 <= j < n && self.vector.key_seq()[j] == k;
                    assert(clock_at(self@, self.vector.key_seq()[j]) <= clock_at(
                        other@,
                        self.vector.key_seq()[j],
                    ));
                }
            }
        }
        let m = other.vector.len();
        let mut strict: bool = false;
        let ghost mut witness: Seq<u8> = Seq::empty();
        i = 0;
        while i < m
            invariant
                m == other@.dom().len(),
                other@.dom().finite(),
                0 <= i <= m,
                strict ==> clock_at(self@, witness) < clock_at(other@, witness),
                !strict ==> forall|j: int|
                    0 <= j < i ==> clock_at(other@, other.vector.key_seq()[j]) <= clock_at(
                        self@,
                        other.vector.key_seq()[j],
                    ),
                other.vector.key_seq().len() == m,
                forall|j: int|
                    0 <= j < m ==> #[trigger] other@.contains_key(other.vector.key_seq()[j]),
                forall|k: Seq<u8>|
                    other@.contains_key(k) ==> exists|j: int|
                        0 <= j < m && other.vector.key_seq()[j] == k,
            decreases m - i,
        {
            let pair = other.vector.pair_at(i);
            let theirs = pair.1;
            let ours = self.get_clock(&pair.0);
            if theirs > ours {
                strict = true;
                proof {
                    witness = pair.0@;
                }
            }
            i += 1;
        }
        proof {
            if !strict {
                assert forall|k: Seq<u8>| !(clock_at(self@, k) < clock_at(other@, k)) by {
                    if other@.contains_key(k) {
                        let j = choose|j: int| 0 <= j < m && other.vector.key_seq()[j] == k;
                        assert(clock_at(other@, other.vector.key_seq()[j]) <= clock_at(
                            self@,
                            other.vector.key_seq()[j],
                        ));
                    }
                }
            }
        }
        strict
    }

    /// A fresh clock whose counters are the componentwise maximum of the two,
    /// with the local tick reset. The merge never lowers either side's view
    /// of any node.
    pub fn merge(&self, other: &Self) -> (r: Self)
        ensures
            forall|k: Seq<u8>|
                clock_at(r@, k) == if clock_at(self@, k) >= clock_at(other@, k) {
                    clock_at(self@, k)
                } else {
                    clock_at(other@, k)
                },
            forall|k: Seq<u8>| clock_at(self@, k) <= clock_at(r@, k),
            forall|k: Seq<u8>| clock_at(other@, k) <= clock_at(r@, k),
            r.spec_order() == 0,
    {
        self.vector.key_seq_facts();
        other.vector.key_seq_facts();
        let mut merged: IdMap<u64> = IdMap::new();
        let n = self.vector.len();
        let mut i: usize = 0;
        while i < n
            invariant
                n == self@.dom().len(),
                0 <= i <= n,
                self.vector.key_seq().len() == n,
                forall|j: int, l: int|
                    0 <= j < l < n ==> self.vector.key_seq()[j] != self.vector.key_seq()[l],
                forall|j: int|
                    0 <= j < n ==> #[trigger] self@.contains_key(self.vector.key_seq()[j]),
                forall|k: Seq<u8>|
                    merged@.contains_key(k) <==> exists|j: int|
                        0 <= j < i && self.vector.key_seq()[j] == k,
                forall|j: int|
                    0 <= j < i ==> clock_at(merged@, self.vector.key_seq()[j]) == if clock_at(
                        self@,
                        self.vector.key_seq()[j],
                    ) >= clock_at(other@, self.vector.key_seq()[j]) {
                        clock_at(self@, self.vector.key_seq()[j])
                    } else {
                        clock_at(other@, self.vector.key_seq()[j])
                    },
            decreases n - i,
        {
            let pair = self.vector.pair_at(i);
            let ours = pair.1;
            let theirs = other.get_clock(&pair.0);
            let larger = if ours >= theirs {
                ours
            } else {
                theirs
            };
            merged.insert(pair.0, larger);
            i += 1;
        }
        let m = other.vector.len();
        i = 0;
        while i < m
            invariant
                m == other@.dom().len(),
                0 <= i <= m,
                other.vector.key_seq().len() == m,
                forall|j: int|
                    0 <= j < m ==> #[trigger] other@.contains_key(other.vector.key_seq()[j]),
                forall|k: Seq<u8>|
                    self@.contains_key(k) ==> #[trigger] merged@.contains_key(k),
                forall|k: Seq<u8>|
                    #[trigger] merged@.contains_key(k) ==> clock_at(merged@, k) == if clock_at(
                        self@,
                        k,
                    ) >= clock_at(other@, k) {
                        clock_at(self@, k)
                    } else {
                        clock_at(other@, k)
                    },
                forall|j: int|
                    0 <= j < i ==> #[trigger] merged@.contains_key(other.vector.key_seq()[j]),
            decreases m - i,
        {
            let pair = other.vector.pair_at(i);
            if !merged.contains_key(&pair.0) {
                proof {
                    assert(!self@.contains_key(pair.0@));
                    assert(clock_at(self@, pair.0@) == 0);
                }
                merged.insert(pair.0, pair.1);
            }
            i += 1;
        }
        proof {
            assert forall|k: Seq<u8>|
                clock_at(merged@, k) == if clock_at(self@, k) >= clock_at(other@, k) {
                    clock_at(self@, k)
                } else {
                    clock_at(other@, k)
                } by {
                if !merged@.contains_key(k) {
                    assert(!self@.contains_key(k));
                    if other@.contains_key(k) {
                        let j = choose|j: int| 0 <= j < m && other.vector.key_seq()[j] == k;
                        assert(merged@.contains_key(other.vector.key_seq()[j]));
                    }
                    assert(clock_at(self@, k) == 0 && clock_at(other@, k) == 0);
                }
            }
        }
        Hvc { vector: merged, hierarchical_order: LogicalClock::new() }
    }

    /// Whether the two clocks are causally unordered.
    pub fn are_concurrent(&self, other: &Self) -> (r: bool)
        ensures
            r == spec_concurrent(self@, other@),
    {
        !(self.happened_before(other) || other.happened_before(self))
    }
}

impl Clone for Hvc {
    fn clone(&self) -> (r: Self)
        ensures
            r@ == self@,
            r.spec_order() == self.spec_order(),
    {
        self.vector.key_seq_facts();
        let mut vector: IdMap<u64> = IdMap::new();
        let n = self.vector.len();
        let mut i: usize = 0;
        while i < n
            invariant
                n == self@.dom().len(),
                0 <= i <= n,
                self.vector.key_seq().len() == n,
                forall|j: int|
                    0 <= j < n ==> #[trigger] self@.contains_key(self.vector.key_seq()[j]),
                forall|j: int, l: int|
                    0 <= j < l < n ==> self.vector.key_seq()[j] != self.vector.key_seq()[l],
                forall|k: Seq<u8>|
                    self@.contains_key(k) ==> exists|j: int|
                        0 <= j < n && self.vector.key_seq()[j] == k,
                forall|k: Seq<u8>|
                    vector@.contains_key(k) <==> exists|j: int|
                        0 <= j < i && self.vector.key_seq()[j] == k,
                forall|j: int|
                    0 <= j < i ==> clock_at(vector@, self.vector.key_seq()[j]) == clock_at(
                        self@,
                        self.vector.key_seq()[j],
                    ) && vector@.contains_key(self.vector.key_seq()[j]),
            decreases n - i,
        {
            let pair = self.vector.pair_at(i);
            vector.insert(pair.0, pair.1);
            i += 1;
        }
        proof {
            assert forall|k: Seq<u8>| #[trigger] vector@.contains_key(k) <==> self@.contains_key(
                k,
            ) by {}
            assert forall|k: Seq<u8>| self@.contains_key(k) implies vector@[k] == self@[k] by {
                let j = choose|j: int| 0 <= j < n && self.vector.key_seq()[j] == k;
                assert(clock_at(vector@, k) == clock_at(self@, k));
            }
            assert(vector@ =~= self@);
        }
        Hvc { vector, hierarchical_order: LogicalClock(self.hierarchical_order.0) }
    }
}

/// Every node id in a clock's traversal is a 32-byte digest.
pub proof fn lemma_hvc_entry_keys(h: Hvc, i: int)
    requires
        0 <= i < h.entry_pairs().len(),
    ensures
        h.entry_pairs()[i].0.len() == 32,
{
    h.vector.lemma_entry_key_len(i);
}

/// A clock's traversal fits the machine's word.
pub proof fn lemma_hvc_entry_count(h: Hvc)
    ensures
        h.entry_pairs().len() <= usize::MAX,
{
    h.vector.lemma_entry_count_bound();
}

/// Causal trichotomy: of `a` precedes `b`, `b` precedes `a`, and `a` and `b`
/// concurrent, exactly one holds.
pub proof fn lemma_causality_trichotomy(a: Map<Seq<u8>, u64>, b: Map<Seq<u8>, u64>)
    ensures
        spec_happened_before(a, b) ==> !spec_happened_before(b, a) && !spec_concurrent(a, b),
        spec_happened_before(b, a) ==> !spec_happened_before(a, b) && !spec_concurrent(a, b),
        spec_concurrent(a, b) ==> !spec_happened_before(a, b) && !spec_happened_before(b, a),
        spec_happened_before(a, b) || spec_happened_before(b, a) || spec_concurrent(a, b),
{
    if spec_happened_before(a, b) && spec_happened_before(b, a) {
        let k = choose|k: Seq<u8>| clock_at(a, k) < clock_at(b, k);
        assert(clock_at(b, k) <= clock_at(a, k));
    }
}

} // verus!
