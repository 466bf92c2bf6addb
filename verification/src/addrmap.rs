//! A verified finite map keyed by network addresses, backed by an
//! association vector with pairwise-distinct keys.

use vstd::prelude::*;


verus! {

/// The mathematical map held by an association sequence: later entries win.
pub open spec fn amap_of<V>(s: Seq<(crate::netaddr::NetAddr, V)>) -> Map<(Seq<u8>, u16), V>
    decreases s.len(),
{
    if s.len() == 0 {
        Map::empty()
    } else {
        amap_of(s.drop_last()).insert(s.last().0@, s.last().1)
    }
}

/// All keys of the association sequence are pairwise distinct.
pub open spec fn distinct_addr_keys<V>(s: Seq<(crate::netaddr::NetAddr, V)>) -> bool {
    forall|i: int, j: int| 0 <= i < j < s.len() ==> s[i].0@ != s[j].0@
}

proof fn lemma_amap_of_contains<V>(s: Seq<(crate::netaddr::NetAddr, V)>, k: (Seq<u8>, u16))
    ensures
        amap_of(s).contains_key(k) <==> exists|i: int| 0 <= i < s.len() && s[i].0@ == k,
    decreases s.len(),
{
    if s.len() > 0 {
        lemma_amap_of_contains(s.drop_last(), k);
        if s.last().0@ == k {
            assert(s[s.len() - 1].0@ == k);
        } else {
            if amap_of(s).contains_key(k) {
                let i = choose|i: int| 0 <= i < s.drop_last().len() && s.drop_last()[i].0@ == k;
                assert(s[i].0@ == k);
            }
            if exists|i: int| 0 <= i < s.len() && s[i].0@ == k {
                let i = choose|i: int| 0 <= i < s.len() && s[i].0@ == k;
                assert(s.drop_last()[i].0@ == k);
            }
        }
    }
}

proof fn lemma_amap_of_index<V>(s: Seq<(crate::netaddr::NetAddr, V)>, i: int)
    requires
        distinct_addr_keys(s),
        0 <= i < s.len(),
    ensures
        amap_of(s).contains_key(s[i].0@),
        amap_of(s)[s[i].0@] == s[i].1,
    decreases s.len(),
{
    lemma_amap_of_contains(s, s[i].0@);
    if i < s.len() - 1 {
        assert(s[i].0@ != s.last().0@);
        assert(distinct_addr_keys(s.drop_last()));
        lemma_amap_of_index(s.drop_last(), i);
    }
}

proof fn lemma_amap_of_finite<V>(s: Seq<(crate::netaddr::NetAddr, V)>)
    ensures
        amap_of(s).dom().finite(),
    decreases s.len(),
{
    if s.len() > 0 {
        lemma_amap_of_finite(s.drop_last());
    }
}

proof fn lemma_amap_of_dom_len<V>(s: Seq<(crate::netaddr::NetAddr, V)>)
    requires
        distinct_addr_keys(s),
    ensures
        amap_of(s).dom().finite(),
        amap_of(s).dom().len() == s.len(),
    decreases s.len(),
{
    lemma_amap_of_finite(s);
    if s.len() > 0 {
        assert(distinct_addr_keys(s.drop_last()));
        lemma_amap_of_dom_len(s.drop_last());
        lemma_amap_of_contains(s.drop_last(), s.last().0@);
        assert(forall|i: int| 0 <= i < s.drop_last().len() ==> s[i].0@ != s.last().0@);
        assert(!amap_of(s.drop_last()).contains_key(s.last().0@));
        vstd::set::axiom_set_insert_len(amap_of(s.drop_last()).dom(), s.last().0@);
        assert(amap_of(s).dom() =~= amap_of(s.drop_last()).dom().insert(s.last().0@));
    }
}

proof fn lemma_amap_of_remove<V>(s: Seq<(crate::netaddr::NetAddr, V)>, i: int)
    requires
        distinct_addr_keys(s),
        0 <= i < s.len(),
    ensures
        amap_of(s.remove(i)) == amap_of(s).remove(s[i].0@),
    decreases s.len(),
{
    if i == s.len() - 1 {
        assert(s.remove(i) =~= s.drop_last());
        lemma_amap_of_contains(s.drop_last(), s.last().0@);
        assert(forall|j: int| 0 <= j < s.drop_last().len() ==> s[j].0@ != s.last().0@);
        assert(!amap_of(s.drop_last()).contains_key(s.last().0@));
        assert(amap_of(s.drop_last()) =~= amap_of(s).remove(s[i].0@));
    } else {
        assert(distinct_addr_keys(s.drop_last()));
        lemma_amap_of_remove(s.drop_last(), i);
        assert(s.remove(i).drop_last() =~= s.drop_last().remove(i));
        assert(s.remove(i).last() == s.last());
        assert(s[i].0@ != s.last().0@);
        assert(amap_of(s.remove(i)) == amap_of(s.drop_last().remove(i)).insert(s.last().0@, s.last().1));
        assert(amap_of(s.drop_last()).remove(s[i].0@).insert(s.last().0@, s.last().1)
            =~= amap_of(s.drop_last()).insert(s.last().0@, s.last().1).remove(s[i].0@));
    }
}

/// A finite map from digests to values, with update, lookup, removal and
/// indexed traversal; its view is a `Map` from digest bytes to values.
pub struct AddrMap<V> {
    entries: Vec<(crate::netaddr::NetAddr, V)>,
}

impl<V> View for AddrMap<V> {
    type V = Map<(Seq<u8>, u16), V>;

    closed spec fn view(&self) -> Map<(Seq<u8>, u16), V> {
        amap_of(self.entries@)
    }
}

impl<V> AddrMap<V> {
    #[verifier::type_invariant]
    spec fn wf(self) -> bool {
        distinct_addr_keys(self.entries@)
    }

    /// The keys in traversal order.
    pub closed spec fn key_seq(self) -> Seq<(Seq<u8>, u16)> {
        self.entries@.map_values(|e: (crate::netaddr::NetAddr, V)| e.0@)
    }

    /// The entries in traversal order, keys as bytes.
    pub closed spec fn entry_pairs(self) -> Seq<((Seq<u8>, u16), V)> {
        self.entries@.map_values(|e: (crate::netaddr::NetAddr, V)| (e.0@, e.1))
    }

    /// Traversal order facts: the keys are distinct, there are as many as the
    /// map's domain holds, and they are exactly its members.
    pub fn key_seq_facts(&self)
        ensures
            self.key_seq().len() == self@.dom().len(),
            forall|i: int, j: int|
                0 <= i < j < self.key_seq().len() ==> self.key_seq()[i] != self.key_seq()[j],
            forall|i: int|
                0 <= i < self.key_seq().len() ==> #[trigger] self@.contains_key(self.key_seq()[i]),
            forall|k: (Seq<u8>, u16)|
                self@.contains_key(k) ==> exists|i: int|
                    0 <= i < self.key_seq().len() && self.key_seq()[i] == k,
            self@.dom().finite(),
            self.entry_pairs().len() == self.key_seq().len(),
            forall|i: int|
                0 <= i < self.key_seq().len() ==> (#[trigger] self.entry_pairs()[i]).0
                    == self.key_seq()[i] && self@[self.key_seq()[i]] == self.entry_pairs()[i].1,
    {
        proof {
            use_type_invariant(&*self);
            lemma_amap_of_dom_len(self.entries@);
            assert forall|i: int|
                0 <= i < self.key_seq().len() implies (#[trigger] self.entry_pairs()[i]).0
                == self.key_seq()[i] && self@[self.key_seq()[i]] == self.entry_pairs()[i].1 by {
                lemma_amap_of_index(self.entries@, i);
            }
        }
        proof {
            assert forall|i: int|
                0 <= i < self.key_seq().len() implies #[trigger] self@.contains_key(
                self.key_seq()[i],
            ) by {
                lemma_amap_of_index(self.entries@, i);
            }
            assert forall|k: (Seq<u8>, u16)| self@.contains_key(k) implies exists|i: int|
                0 <= i < self.key_seq().len() && self.key_seq()[i] == k by {
                lemma_amap_of_contains(self.entries@, k);
                let i = choose|i: int| 0 <= i < self.entries@.len() && self.entries@[i].0@ == k;
                assert(self.key_seq()[i] == k);
            }
        }
    }

    /// An empty map.
    pub fn new() -> (r: Self)
        ensures
            r@ == Map::<(Seq<u8>, u16), V>::empty(),
            r.entry_pairs() == Seq::<((Seq<u8>, u16), V)>::empty(),
            r.key_seq() == Seq::<(Seq<u8>, u16)>::empty(),
    {
        let r = AddrMap { entries: Vec::new() };
        proof {
            assert(r.entry_pairs() =~= Seq::<((Seq<u8>, u16), V)>::empty());
            assert(r.key_seq() =~= Seq::<(Seq<u8>, u16)>::empty());
        }
        r
    }

    fn position(&self, key: &crate::netaddr::NetAddr) -> (r: Option<usize>)
        ensures
            match r {
                Some(i) => 0 <= i < self.entries@.len() && self.entries@[i as int].0@ == key@,
                None => forall|i: int| 0 <= i < self.entries@.len() ==> self.entries@[i].0@ != key@,
            },
    {
        let mut i: usize = 0;
        while i < self.entries.len()
            invariant
                0 <= i <= self.entries@.len(),
                forall|j: int| 0 <= j < i ==> self.entries@[j].0@ != key@,
            decreases self.entries@.len() - i,
        {
            if self.entries[i].0 == *key {
                return Some(i);
            }
            i += 1;
        }
        None
    }

    /// Whether the map has an entry for this key.
    pub fn contains_key(&self, key: &crate::netaddr::NetAddr) -> (r: bool)
        ensures
            r == self@.contains_key(key@),
    {
        proof {
            use_type_invariant(&*self);
            lemma_amap_of_contains(self.entries@, key@);
        }
        self.position(key).is_some()
    }

    /// The value for this key, if one is present.
    pub fn get(&self, key: &crate::netaddr::NetAddr) -> (r: Option<&V>)
        ensures
            match r {
                Some(v) => self@.contains_key(key@) && *v == self@[key@],
                None => !self@.contains_key(key@),
            },
    {
        proof {
            use_type_invariant(&*self);
            lemma_amap_of_contains(self.entries@, key@);
        }
        match self.position(key) {
            Some(i) => {
                proof {
                    lemma_amap_of_index(self.entries@, i as int);
                }
                Some(&self.entries[i].1)
            },
            None => None,
        }
    }

    /// Puts the value under the key, replacing any earlier one; a new key
    /// goes to the end of the traversal order.
    pub fn insert(&mut self, key: crate::netaddr::NetAddr, value: V)
        ensures
            final(self)@ == old(self)@.insert(key@, value),
            !old(self)@.contains_key(key@) ==> final(self).entry_pairs() == old(self).entry_pairs().push((key@, value)) && final(self).key_seq() == old(self).key_seq().push(key@),
    {
        proof {
            use_type_invariant(&*self);
        }
        let pos = self.position(&key);
        let ghost old_entries = self.entries@;
        let mut entries: Vec<(crate::netaddr::NetAddr, V)> = Vec::new();
        core::mem::swap(&mut entries, &mut self.entries);
        match pos {
            Some(i) => {
                proof {
                    lemma_amap_of_contains(old_entries, key@);
                    lemma_amap_of_remove(old_entries, i as int);
                }
                let _ = entries.remove(i);
                entries.push((key, value));
                proof {
                    assert(entries@.drop_last() =~= old_entries.remove(i as int));
                    assert(distinct_addr_keys(old_entries.remove(i as int)));
                    lemma_amap_of_contains(old_entries.remove(i as int), key@);
                    assert(amap_of(entries@) == amap_of(old_entries.remove(i as int)).insert(
                        key@,
                        value,
                    ));
                    assert(amap_of(entries@) =~= amap_of(old_entries).insert(key@, value));
                }
            },
            None => {
                entries.push((key, value));
                proof {
                    assert(entries@.drop_last() =~= old_entries);
                    lemma_amap_of_contains(old_entries, key@);
                    assert(entries@.map_values(|e: (crate::netaddr::NetAddr, V)| (e.0@, e.1))
                        =~= old_entries.map_values(|e: (crate::netaddr::NetAddr, V)| (e.0@, e.1)).push(
                        (key@, value),
                    ));
                    assert(entries@.map_values(|e: (crate::netaddr::NetAddr, V)| e.0@)
                        =~= old_entries.map_values(|e: (crate::netaddr::NetAddr, V)| e.0@).push(key@));
                }
            },
        }
        self.entries = entries;
    }

    /// Removes the entry for the key, if one is present.
    pub fn remove(&mut self, key: &crate::netaddr::NetAddr)
        ensures
            final(self)@ == old(self)@.remove(key@),
    {
        proof {
            use_type_invariant(&*self);
        }
        let pos = self.position(key);
        let ghost old_entries = self.entries@;
        let mut entries: Vec<(crate::netaddr::NetAddr, V)> = Vec::new();
        core::mem::swap(&mut entries, &mut self.entries);
        match pos {
            Some(i) => {
                proof {
                    lemma_amap_of_remove(old_entries, i as int);
                }
                let _ = entries.remove(i);
                proof {
                    assert(entries@ =~= old_entries.remove(i as int));
                }
            },
            None => {
                proof {
                    lemma_amap_of_contains(old_entries, key@);
                    assert(amap_of(old_entries) =~= amap_of(old_entries).remove(key@));
                }
            },
        }
        self.entries = entries;
    }

    /// Removes and hands back the value for the key, if one is present.
    pub fn take(&mut self, key: &crate::netaddr::NetAddr) -> (r: Option<V>)
        ensures
            final(self)@ == old(self)@.remove(key@),
            match r {
                Some(v) => old(self)@.contains_key(key@) && v == old(self)@[key@],
                None => !old(self)@.contains_key(key@),
            },
    {
        proof {
            use_type_invariant(&*self);
        }
        let pos = self.position(key);
        let ghost old_entries = self.entries@;
        let mut entries: Vec<(crate::netaddr::NetAddr, V)> = Vec::new();
        core::mem::swap(&mut entries, &mut self.entries);
        let r = match pos {
            Some(i) => {
                proof {
                    lemma_amap_of_contains(old_entries, key@);
                    lemma_amap_of_index(old_entries, i as int);
                    lemma_amap_of_remove(old_entries, i as int);
                }
                let pair = entries.remove(i);
                proof {
                    assert(entries@ =~= old_entries.remove(i as int));
                }
                Some(pair.1)
            },
            None => {
                proof {
                    lemma_amap_of_contains(old_entries, key@);
                    assert(amap_of(old_entries) =~= amap_of(old_entries).remove(key@));
                }
                None
            },
        };
        self.entries = entries;
        r
    }

    /// How many entries the map holds.
    pub fn len(&self) -> (r: usize)
        ensures
            r == self@.dom().len(),
            self@.dom().finite(),
    {
        proof {
            use_type_invariant(&*self);
            lemma_amap_of_dom_len(self.entries@);
        }
        self.entries.len()
    }

    /// Whether the map holds no entry.
    pub fn is_empty(&self) -> (r: bool)
        ensures
            r == (self@.dom() =~= Set::<(Seq<u8>, u16)>::empty()),
    {
        proof {
            use_type_invariant(&*self);
            lemma_amap_of_dom_len(self.entries@);
            if self.entries@.len() > 0 {
                lemma_amap_of_index(self.entries@, 0);
            }
        }
        self.entries.len() == 0
    }

    /// The entry at a traversal position.
    pub fn pair_at(&self, i: usize) -> (r: &(crate::netaddr::NetAddr, V))
        requires
            i < self@.dom().len(),
        ensures
            r.0@ == self.key_seq()[i as int],
            self@.contains_key(r.0@),
            self@[r.0@] == r.1,
            i < self.entry_pairs().len() && self.entry_pairs()[i as int] == (r.0@, r.1),
    {
        proof {
            use_type_invariant(&*self);
            lemma_amap_of_dom_len(self.entries@);
            lemma_amap_of_index(self.entries@, i as int);
        }
        &self.entries[i]
    }
}

} // verus!
