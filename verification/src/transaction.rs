//! Transactions: the payload consensus decides on. A transaction's identity
//! is the digest of a canonical encoding of its restricted projection — the
//! transaction with id, signatures, aggregate and children zeroed — so
//! signatures commit to the content but not to who has signed yet.

use vstd::prelude::*;
use vstd::multiset::Multiset;
use crate::account::Account;
use crate::clock::Hvc;
use crate::codec::{enc_u8, enc_u64, enc_u128, enc_bytes, put_u8, put_u64, put_u128, put_bytes, put_hash};
use crate::idmap::IdMap;
use crate::signature::{CryptoError, PrivateKey, PublicKey, Signature};
use crate::signature::{bls_sig_of, bls_verifies, bls_agg_of, is_bls_pk, is_bls_sig, bls_pk_of};

verus! {

/// What a transaction does.
#[derive(Clone, Copy, PartialEq, Eq, Structural)]
pub enum TransactionType {
    CreateAccount,
    Transfer,
}

/// Where a transaction stands in its life.
#[derive(Clone, Copy, PartialEq, Eq, Structural)]
pub enum TransactionStatus {
    Unset,
    Pending,
    Accepted,
    Rejected,
}

/// The canonical byte tag of a transaction type.
pub open spec fn type_tag(t: TransactionType) -> u8 {
    match t {
        TransactionType::CreateAccount => 0u8,
        TransactionType::Transfer => 1u8,
    }
}

/// The canonical byte tag of a transaction status.
pub open spec fn status_tag(s: TransactionStatus) -> u8 {
    match s {
        TransactionStatus::Unset => 0u8,
        TransactionStatus::Pending => 1u8,
        TransactionStatus::Accepted => 2u8,
        TransactionStatus::Rejected => 3u8,
    }
}

/// The canonical byte tag of a transaction type.
pub fn type_tag_of(t: TransactionType) -> (r: u8)
    ensures
        r == type_tag(t),
{
    match t {
        TransactionType::CreateAccount => 0,
        TransactionType::Transfer => 1,
    }
}

/// The canonical byte tag of a transaction status.
pub fn status_tag_of(s: TransactionStatus) -> (r: u8)
    ensures
        r == status_tag(s),
{
    match s {
        TransactionStatus::Unset => 0,
        TransactionStatus::Pending => 1,
        TransactionStatus::Accepted => 2,
        TransactionStatus::Rejected => 3,
    }
}

/// The canonical encoding of clock entries: each node id's 32 bytes, then
/// its counter, in traversal order.
pub open spec fn enc_clock_entries(pairs: Seq<(Seq<u8>, u64)>) -> Seq<u8>
    decreases pairs.len(),
{
    if pairs.len() == 0 {
        Seq::empty()
    } else {
        enc_clock_entries(pairs.drop_last()) + pairs.last().0 + enc_u64(pairs.last().1)
    }
}

/// The canonical encoding of a whole clock: entry count, entries, tick.
pub open spec fn enc_hvc(pairs: Seq<(Seq<u8>, u64)>, order: u64) -> Seq<u8> {
    enc_u64(pairs.len() as u64) + enc_clock_entries(pairs) + enc_u64(order)
}

/// Appends the canonical encoding of a clock.
pub fn put_hvc(out: &mut Vec<u8>, hvc: &Hvc)
    ensures
        final(out)@ == old(out)@ + enc_hvc(hvc.entry_pairs(), hvc.spec_order()),
{
    let n = hvc.entry_len();
    put_u64(out, n as u64);
    let ghost prefix = out@;
    let ghost pairs = hvc.entry_pairs();
    let mut i: usize = 0;
    while i < n
        invariant
            0 <= i <= n,
            n == pairs.len(),
            pairs == hvc.entry_pairs(),
            out@ == prefix + enc_clock_entries(pairs.take(i as int)),
        decreases n - i,
    {
        let pair = hvc.entry_at(i);
        put_hash(out, &pair.0);
        put_u64(out, pair.1);
        proof {
            assert(pairs.take(i + 1).drop_last() =~= pairs.take(i as int));
            assert(pairs.take(i + 1).last() == pairs[i as int]);
            assert(out@ =~= prefix + enc_clock_entries(pairs.take(i + 1)));
        }
        i += 1;
    }
    proof {
        assert(pairs.take(pairs.len() as int) =~= pairs);
    }
    put_u64(out, hvc.order_value());
    proof {
        assert(final(out)@ =~= old(out)@ + enc_hvc(pairs, hvc.spec_order()));
    }
}

/// A ledger transaction.
pub struct Transaction {
    pub id: Option<crate::hash::Hash>,
    pub parent: crate::hash::Hash,
    pub origin: crate::hash::Hash,
    pub destination: crate::hash::Hash,
    pub amount: u128,
    pub status: TransactionStatus,
    pub tx_type: TransactionType,
    pub payload: Vec<u8>,
    pub hvc: Hvc,
    pub timestamp: u64,
    pub signatures: IdMap<Signature>,
    pub agg_signature: Option<Signature>,
    pub children: Vec<crate::hash::Hash>,
}

impl Transaction {
    /// The identity digest, if one has been computed or set.
    pub open spec fn spec_id(self) -> Option<Seq<u8>> {
        match self.id {
            Some(h) => Some(h@),
            None => None,
        }
    }

    /// The signature map: signer-key digest bytes to signature bytes.
    pub open spec fn sig_views(self) -> Map<Seq<u8>, Seq<u8>> {
        self.signatures@.map_values(|s: Signature| s@)
    }

    /// The signature entries in traversal order, as byte pairs.
    pub open spec fn sig_pairs(self) -> Seq<(Seq<u8>, Seq<u8>)> {
        self.signatures.entry_pairs().map_values(|p: (Seq<u8>, Signature)| (p.0, p.1@))
    }

    /// The aggregate signature bytes, if one has been computed.
    pub open spec fn spec_agg(self) -> Option<Seq<u8>> {
        match self.agg_signature {
            Some(s) => Some(s@),
            None => None,
        }
    }

    /// The children digests.
    pub open spec fn spec_children(self) -> Seq<Seq<u8>> {
        self.children@.map_values(|h: crate::hash::Hash| h@)
    }

    /// Everything the restricted projection keeps: the fields that identity
    /// and signatures commit to.
    pub open spec fn restricted_model(self) -> (
        Seq<u8>,
        Seq<u8>,
        Seq<u8>,
        u128,
        TransactionStatus,
        TransactionType,
        Seq<u8>,
        Seq<(Seq<u8>, u64)>,
        u64,
        u64,
    ) {
        (
            self.parent@,
            self.origin@,
            self.destination@,
            self.amount,
            self.status,
            self.tx_type,
            self.payload@,
            self.hvc.entry_pairs(),
            self.hvc.spec_order(),
            self.timestamp,
        )
    }

    /// The canonical bytes of the restricted projection: the transaction
    /// with id cleared, no signatures, no aggregate and no children.
    pub open spec fn spec_restricted_bytes(self) -> Seq<u8> {
        enc_u8(0) + self.parent@ + self.origin@ + self.destination@ + enc_u128(self.amount)
            + enc_u8(status_tag(self.status)) + enc_u8(type_tag(self.tx_type)) + enc_bytes(
            self.payload@,
        ) + enc_hvc(self.hvc.entry_pairs(), self.hvc.spec_order()) + enc_u64(self.timestamp)
            + enc_u64(0) + enc_u8(0) + enc_u64(0)
    }

    /// The identity digest the transaction's content determines.
    pub open spec fn spec_tx_id_bytes(self) -> Seq<u8> {
        crate::hash::blake2b_of(self.spec_restricted_bytes(), 32)
    }

    /// A fresh pending transaction, stamped with the present time.
    pub fn new(
        parent: crate::hash::Hash,
        origin: Account,
        destination: crate::hash::Hash,
        amount: u128,
        tx_type: TransactionType,
        payload: Vec<u8>,
    ) -> (r: Self)
        ensures
            r.spec_id() is None,
            r.parent@ == parent@,
            r.origin@ == origin.id@,
            r.destination@ == destination@,
            r.amount == amount,
            r.status == TransactionStatus::Pending,
            r.tx_type == tx_type,
            r.payload@ == payload@,
            r.hvc@ == Map::<Seq<u8>, u64>::empty(),
            r.hvc.entry_pairs() == Seq::<(Seq<u8>, u64)>::empty(),
            r.hvc.spec_order() == 0,
            r.sig_views() == Map::<Seq<u8>, Seq<u8>>::empty(),
            r.sig_pairs() == Seq::<(Seq<u8>, Seq<u8>)>::empty(),
            r.spec_agg() is None,
            r.spec_children() == Seq::<Seq<u8>>::empty(),
    {
        let r = Transaction {
            id: None,
            parent,
            origin: origin.id,
            destination,
            amount,
            status: TransactionStatus::Pending,
            tx_type,
            payload,
            hvc: Hvc::new(),
            timestamp: crate::account::now_unix_nanos(),
            signatures: IdMap::new(),
            agg_signature: None,
            children: Vec::new(),
        };
        proof {
            assert(r.sig_views() =~= Map::<Seq<u8>, Seq<u8>>::empty());
            assert(r.sig_pairs() =~= Seq::<(Seq<u8>, Seq<u8>)>::empty());
            assert(r.spec_children() =~= Seq::<Seq<u8>>::empty());
        }
        r
    }

    /// As `new`, but stamped with time zero, so every node derives the same
    /// genesis transaction — and so the same genesis id — from the same
    /// arguments.
    pub fn genesis(
        parent: crate::hash::Hash,
        origin: Account,
        destination: crate::hash::Hash,
        amount: u128,
        tx_type: TransactionType,
        payload: Vec<u8>,
    ) -> (r: Self)
        ensures
            r.spec_id() is None,
            r.restricted_model() == (
                parent@,
                origin.id@,
                destination@,
                amount,
                TransactionStatus::Pending,
                tx_type,
                payload@,
                Seq::<(Seq<u8>, u64)>::empty(),
                0u64,
                0u64,
            ),
            r.sig_views() == Map::<Seq<u8>, Seq<u8>>::empty(),
            r.sig_pairs() == Seq::<(Seq<u8>, Seq<u8>)>::empty(),
            r.spec_agg() is None,
            r.spec_children() == Seq::<Seq<u8>>::empty(),
    {
        let mut tx = Self::new(parent, origin, destination, amount, tx_type, payload);
        tx.timestamp = 0;
        tx
    }

    /// Moves the amount from origin to destination: both accounts record the
    /// transaction and advance their tick; the origin's cover was checked.
    pub fn apply(&self, origin: &mut Account, destination: &mut Account)
        requires
            self.spec_id() is Some,
            old(origin).balance >= self.amount,
            old(origin).hvc.spec_order() < u64::MAX,
            old(destination).hvc.spec_order() < u64::MAX,
        ensures
            final(origin).balance == old(origin).balance - self.amount,
            final(destination).balance == if old(destination).balance + self.amount <= u128::MAX {
                (old(destination).balance + self.amount) as u128
            } else {
                u128::MAX
            },
            Some(final(origin).last_tx_id@) == self.spec_id(),
            Some(final(destination).last_tx_id@) == self.spec_id(),
            final(origin).hvc.spec_order() == old(origin).hvc.spec_order() + 1,
            final(destination).hvc.spec_order() == old(destination).hvc.spec_order() + 1,
            final(origin).id == old(origin).id,
            final(destination).id == old(destination).id,
    {
        let id = self.get_tx_id();
        origin.update_last_tx(&id);
        origin.update_hvc();
        origin.decrease_balance(self.amount);
        destination.update_last_tx(&id);
        destination.update_hvc();
        destination.increase_balance(self.amount);
    }

    /// The canonical bytes of the restricted projection.
    pub fn encode_restricted(&self) -> (r: Vec<u8>)
        ensures
            r@ == self.spec_restricted_bytes(),
    {
        let mut out: Vec<u8> = Vec::new();
        put_u8(&mut out, 0);
        put_hash(&mut out, &self.parent);
        put_hash(&mut out, &self.origin);
        put_hash(&mut out, &self.destination);
        put_u128(&mut out, self.amount);
        put_u8(&mut out, status_tag_of(self.status));
        put_u8(&mut out, type_tag_of(self.tx_type));
        put_bytes(&mut out, &self.payload);
        put_hvc(&mut out, &self.hvc);
        put_u64(&mut out, self.timestamp);
        put_u64(&mut out, 0);
        put_u8(&mut out, 0);
        put_u64(&mut out, 0);
        proof {
            assert(out@ =~= self.spec_restricted_bytes());
        }
        out
    }

    /// Computes and records the identity digest of the restricted projection.
    pub fn calculate_tx_id(&mut self) -> (r: Result<(), CryptoError>)
        ensures
            r is Ok,
            final(self).spec_id() == Some(old(self).spec_tx_id_bytes()),
            final(self).restricted_model() == old(self).restricted_model(),
            final(self).sig_views() == old(self).sig_views(),
            final(self).sig_pairs() == old(self).sig_pairs(),
            final(self).spec_agg() == old(self).spec_agg(),
            final(self).spec_children() == old(self).spec_children(),
    {
        let bytes = self.encode_restricted();
        self.id = Some(crate::hash::Hash::new(bytes.as_slice()));
        Ok(())
    }

    /// The signature of the restricted projection under the signing key.
    pub fn sign_tx(&self, private_key: &PrivateKey) -> (r: Result<Signature, CryptoError>)
        ensures
            r matches Ok(s) ==> s@ == bls_sig_of(private_key@, self.spec_restricted_bytes())
                && is_bls_sig(s@) && bls_verifies(
                bls_pk_of(private_key@),
                self.spec_restricted_bytes(),
                s@,
            ),
            r is Ok,
    {
        let bytes = self.encode_restricted();
        Ok(Signature::sign(private_key, bytes.as_slice()))
    }

    /// Records a signature under the digest of the signer's key.
    pub fn set_signature(&mut self, pubkey: &PublicKey, sig: &Signature)
        ensures
            final(self).sig_views() == old(self).sig_views().insert(
                crate::hash::blake2b_of(pubkey@, 32),
                sig@,
            ),
            !old(self).sig_views().contains_key(crate::hash::blake2b_of(pubkey@, 32)) ==> final(self).sig_pairs() == old(self).sig_pairs().push(
                (crate::hash::blake2b_of(pubkey@, 32), sig@),
            ),
            final(self).sig_pairs().len() >= 1,
            final(self).spec_id() == old(self).spec_id(),
            final(self).restricted_model() == old(self).restricted_model(),
            final(self).spec_agg() == old(self).spec_agg(),
            final(self).spec_children() == old(self).spec_children(),
    {
        let pk_bytes = pubkey.to_bytes();
        let key = crate::hash::Hash::new(pk_bytes.as_slice());
        let ghost had = self.signatures@.contains_key(key@);
        self.signatures.insert(key, sig.clone());
        self.signatures.key_seq_facts();
        proof {
            assert(self.signatures@.contains_key(key@));
            assert(self.signatures.entry_pairs().len() == self.signatures@.dom().len());
            assert(self.signatures@.dom().len() >= 1) by {
                if self.signatures@.dom().len() == 0 {
                    assert(self.signatures@.dom().contains(key@));
                    vstd::set_lib::lemma_set_empty_equivalency_len(self.signatures@.dom());
                }
            }
            assert(final(self).sig_views() =~= old(self).sig_views().insert(
                crate::hash::blake2b_of(pubkey@, 32),
                sig@,
            ));
            if !old(self).sig_views().contains_key(key@) {
                assert(!had);
                assert(final(self).sig_pairs() =~= old(self).sig_pairs().push((key@, sig@)));
            }
        }
    }

    /// Signs the restricted projection and records the signature under the
    /// signer's derived verification key.
    pub fn sign_and_set_signature(&mut self, private_key: &PrivateKey) -> (r: Result<
        (),
        CryptoError,
    >)
        ensures
            r is Ok,
            final(self).sig_views() == old(self).sig_views().insert(
                crate::hash::blake2b_of(bls_pk_of(private_key@), 32),
                bls_sig_of(private_key@, old(self).spec_restricted_bytes()),
            ),
            final(self).sig_pairs().len() >= 1,
            final(self).spec_id() == old(self).spec_id(),
            final(self).restricted_model() == old(self).restricted_model(),
            final(self).spec_agg() == old(self).spec_agg(),
            final(self).spec_children() == old(self).spec_children(),
    {
        let sig = match self.sign_tx(private_key) {
            Ok(s) => s,
            Err(e) => {
                return Err(e);
            },
        };
        let pk = private_key.public_key();
        self.set_signature(&pk, &sig);
        Ok(())
    }

    /// Aggregates every recorded signature into one. It succeeds exactly when
    /// at least one signature is recorded and all of them decode; the result
    /// depends on the collection of signatures, not on any order.
    pub fn aggregate_signatures(&mut self) -> (r: Result<(), CryptoError>)
        ensures
            r is Ok <==> (old(self).sig_pairs().len() > 0 && forall|i: int|
                0 <= i < old(self).sig_pairs().len() ==> is_bls_sig(
                    #[trigger] old(self).sig_pairs()[i].1,
                )),
            r is Ok ==> final(self).spec_agg() == Some(
                bls_agg_of(
                    old(self).sig_pairs().map_values(|p: (Seq<u8>, Seq<u8>)| p.1).to_multiset(),
                ),
            ),
            r is Err ==> final(self).spec_agg() == old(self).spec_agg(),
            final(self).sig_views() == old(self).sig_views(),
            final(self).sig_pairs() == old(self).sig_pairs(),
            final(self).spec_id() == old(self).spec_id(),
            final(self).restricted_model() == old(self).restricted_model(),
            final(self).spec_children() == old(self).spec_children(),
    {
        self.signatures.key_seq_facts();
        let n = self.signatures.len();
        let mut sigs: Vec<Signature> = Vec::new();
        let mut i: usize = 0;
        while i < n
            invariant
                0 <= i <= n,
                n == self.signatures@.dom().len(),
                n == self.signatures.entry_pairs().len(),
                sigs@.len() == i,
                forall|j: int|
                    0 <= j < i ==> (#[trigger] sigs@[j])@ == self.signatures.entry_pairs()[j].1@,
            decreases n - i,
        {
            let pair = self.signatures.pair_at(i);
            sigs.push(pair.1.clone());
            i += 1;
        }
        proof {
            assert(sigs@.map_values(|s: Signature| s@) =~= self.sig_pairs().map_values(
                |p: (Seq<u8>, Seq<u8>)| p.1,
            ));
            assert(forall|j: int|
                0 <= j < self.sig_pairs().len() ==> #[trigger] self.sig_pairs()[j].1
                    == self.signatures.entry_pairs()[j].1@);
            assert forall|j: int| 0 <= j < sigs@.len() implies #[trigger] sigs@[j]@
                == self.sig_pairs()[j].1 by {
                assert(sigs@[j]@ == self.signatures.entry_pairs()[j].1@);
                assert(self.sig_pairs()[j] == (
                    self.signatures.entry_pairs()[j].0,
                    self.signatures.entry_pairs()[j].1@,
                ));
            }
            if forall|j: int| 0 <= j < self.sig_pairs().len() ==> is_bls_sig(
                #[trigger] self.sig_pairs()[j].1,
            ) {
                assert forall|j: int| 0 <= j < sigs@.len() implies is_bls_sig(
                    #[trigger] sigs@[j]@,
                ) by {
                    assert(is_bls_sig(self.sig_pairs()[j].1));
                }
            }
            if forall|j: int| 0 <= j < sigs@.len() ==> is_bls_sig(#[trigger] sigs@[j]@) {
                assert forall|j: int| 0 <= j < self.sig_pairs().len() implies is_bls_sig(
                    #[trigger] self.sig_pairs()[j].1,
                ) by {
                    assert(is_bls_sig(sigs@[j]@));
                }
            }
        }
        match Signature::aggregate(&sigs) {
            Ok(agg) => {
                self.agg_signature = Some(agg);
                Ok(())
            },
            Err(e) => Err(e),
        }
    }

    /// Marks the transaction accepted, co-signs it and aggregates. Only
    /// consensus acceptance should lead here.
    pub fn accept_tx(&mut self, private_key: &PrivateKey) -> (r: Result<(), CryptoError>)
        ensures
            final(self).status == TransactionStatus::Accepted,
            final(self).spec_id() == old(self).spec_id(),
            final(self).sig_views() == old(self).sig_views().insert(
                crate::hash::blake2b_of(bls_pk_of(private_key@), 32),
                bls_sig_of(private_key@, final(self).spec_restricted_bytes()),
            ),
            r is Ok <==> (forall|i: int|
                0 <= i < final(self).sig_pairs().len() ==> is_bls_sig(
                    #[trigger] final(self).sig_pairs()[i].1,
                )),
            r is Ok ==> final(self).spec_agg() == Some(
                bls_agg_of(
                    final(self).sig_pairs().map_values(|p: (Seq<u8>, Seq<u8>)| p.1).to_multiset(),
                ),
            ),
            r is Err ==> final(self).spec_agg() == old(self).spec_agg(),
    {
        self.set_tx_status(TransactionStatus::Accepted);
        match self.sign_and_set_signature(private_key) {
            Ok(()) => {},
            Err(e) => {
                return Err(e);
            },
        }
        proof {
            vstd::map::axiom_map_insert_domain(
                old(self).sig_views(),
                crate::hash::blake2b_of(bls_pk_of(private_key@), 32),
                bls_sig_of(private_key@, old(self).spec_restricted_bytes()),
            );
        }
        self.aggregate_signatures()
    }

    /// Sets the status.
    pub fn set_tx_status(&mut self, status: TransactionStatus)
        ensures
            final(self).status == status,
            final(self).spec_id() == old(self).spec_id(),
            final(self).sig_views() == old(self).sig_views(),
            final(self).sig_pairs() == old(self).sig_pairs(),
            final(self).spec_agg() == old(self).spec_agg(),
            final(self).spec_children() == old(self).spec_children(),
            final(self).parent == old(self).parent,
            final(self).origin == old(self).origin,
            final(self).destination == old(self).destination,
            final(self).amount == old(self).amount,
            final(self).tx_type == old(self).tx_type,
            final(self).payload == old(self).payload,
            final(self).hvc == old(self).hvc,
            final(self).timestamp == old(self).timestamp,
    {
        self.status = status;
    }

    /// Every recorded signature, keyed by the signer-key digest.
    pub fn get_sigs(&self) -> (r: Vec<(crate::hash::Hash, Signature)>)
        ensures
            r@.len() == self.sig_pairs().len(),
            forall|i: int|
                0 <= i < r@.len() ==> ((#[trigger] r@[i]).0@, r@[i].1@) == self.sig_pairs()[i],
    {
        self.signatures.key_seq_facts();
        let n = self.signatures.len();
        let mut out: Vec<(crate::hash::Hash, Signature)> = Vec::new();
        let mut i: usize = 0;
        while i < n
            invariant
                0 <= i <= n,
                n == self.signatures@.dom().len(),
                n == self.signatures.entry_pairs().len(),
                n == self.sig_pairs().len(),
                forall|j: int|
                    0 <= j < n ==> #[trigger] self.sig_pairs()[j] == (
                        self.signatures.entry_pairs()[j].0,
                        self.signatures.entry_pairs()[j].1@,
                    ),
                out@.len() == i,
                forall|j: int|
                    0 <= j < i ==> ((#[trigger] out@[j]).0@, out@[j].1@) == self.sig_pairs()[j],
            decreases n - i,
        {
            let pair = self.signatures.pair_at(i);
            out.push((pair.0, pair.1.clone()));
            i += 1;
        }
        out
    }

    /// The aggregate signature, if one has been computed.
    pub fn get_aggregate_sig(&self) -> (r: Option<Signature>)
        ensures
            match r {
                Some(s) => self.spec_agg() == Some(s@),
                None => self.spec_agg() is None,
            },
    {
        match &self.agg_signature {
            Some(s) => Some(s.clone()),
            None => None,
        }
    }

    /// Whether the key's holder has signed this transaction's restricted
    /// projection: false when no signature is recorded for the key, else
    /// the verification verdict.
    pub fn verify_tx_sig(&self, pubkey: &PublicKey) -> (r: Result<bool, CryptoError>)
        ensures
            r matches Ok(b) && b == (self.sig_views().contains_key(
                crate::hash::blake2b_of(pubkey@, 32),
            ) && is_bls_pk(pubkey@) && is_bls_sig(
                self.sig_views()[crate::hash::blake2b_of(pubkey@, 32)],
            ) && bls_verifies(
                pubkey@,
                self.spec_restricted_bytes(),
                self.sig_views()[crate::hash::blake2b_of(pubkey@, 32)],
            )),
    {
        let pk_bytes = pubkey.to_bytes();
        let key = crate::hash::Hash::new(pk_bytes.as_slice());
        match self.signatures.get(&key) {
            Some(sig) => {
                let bytes = self.encode_restricted();
                let sig = sig.clone();
                Ok(sig.verify(pubkey, bytes.as_slice()))
            },
            None => Ok(false),
        }
    }

    /// The identity digest; the caller computes or sets it first.
    pub fn get_tx_id(&self) -> (r: crate::hash::Hash)
        requires
            self.spec_id() is Some,
        ensures
            Some(r@) == self.spec_id(),
    {
        match &self.id {
            Some(h) => *h,
            None => {
                proof {
                    assert(false);
                }
                crate::hash::Hash::zero()
            },
        }
    }

    /// Sets the identity digest directly.
    pub fn set_tx_id(&mut self, id: crate::hash::Hash)
        ensures
            final(self).spec_id() == Some(id@),
            final(self).restricted_model() == old(self).restricted_model(),
            final(self).sig_views() == old(self).sig_views(),
            final(self).sig_pairs() == old(self).sig_pairs(),
            final(self).spec_agg() == old(self).spec_agg(),
            final(self).spec_children() == old(self).spec_children(),
    {
        self.id = Some(id);
    }

    /// Takes the clock of the source account.
    pub fn set_hvc(&mut self, source: &Account)
        ensures
            final(self).hvc@ == source.hvc@,
            final(self).hvc.spec_order() == source.hvc.spec_order(),
            final(self).spec_id() == old(self).spec_id(),
            final(self).sig_views() == old(self).sig_views(),
            final(self).spec_agg() == old(self).spec_agg(),
            final(self).spec_children() == old(self).spec_children(),
    {
        self.hvc = source.hvc.clone();
    }

    /// Sets the children digests.
    pub fn set_children(&mut self, children: Vec<crate::hash::Hash>)
        ensures
            final(self).spec_children() == children@.map_values(|h: crate::hash::Hash| h@),
            final(self).spec_id() == old(self).spec_id(),
            final(self).restricted_model() == old(self).restricted_model(),
            final(self).sig_views() == old(self).sig_views(),
            final(self).spec_agg() == old(self).spec_agg(),
    {
        self.children = children;
    }

    /// The children digests.
    pub fn get_children(&self) -> (r: Vec<crate::hash::Hash>)
        ensures
            r@.map_values(|h: crate::hash::Hash| h@) == self.spec_children(),
    {
        let mut out: Vec<crate::hash::Hash> = Vec::new();
        let mut i: usize = 0;
        while i < self.children.len()
            invariant
                0 <= i <= self.children@.len(),
                out@ == self.children@.take(i as int),
            decreases self.children@.len() - i,
        {
            out.push(self.children[i]);
            proof {
                assert(out@ =~= self.children@.take(i + 1));
            }
            i += 1;
        }
        proof {
            assert(self.children@.take(self.children@.len() as int) =~= self.children@);
            assert(out@.map_values(|h: crate::hash::Hash| h@) =~= self.spec_children());
        }
        out
    }

    /// Whether the source account's balance covers this transaction.
    pub fn check_transfer_availability(&self, source: &Account) -> (r: bool)
        ensures
            r == (source.balance >= self.amount),
    {
        source.balance >= self.amount
    }
}

/// The identity digest depends on the restricted projection alone: two
/// transactions that agree on it — whoever has signed either, whatever
/// children or aggregate they carry — derive the same id.
pub proof fn lemma_tx_id_deterministic(a: Transaction, b: Transaction)
    requires
        a.restricted_model() == b.restricted_model(),
    ensures
        a.spec_tx_id_bytes() == b.spec_tx_id_bytes(),
{
    assert(a.spec_restricted_bytes() =~= b.spec_restricted_bytes());
}

} // verus!
