//! BLS signatures: signing keys, verification keys and aggregation, held as
//! their canonical compressed bytes; the group operations are trusted calls.

use vstd::prelude::*;
use bls_signatures::Serialize;
use vstd::multiset::Multiset;

verus! {

/// Whether the bytes decode to a BLS signing key (a valid scalar).
pub uninterp spec fn is_bls_sk(b: Seq<u8>) -> bool;

/// Whether the bytes decode to a BLS verification key (a valid compressed
/// group point).
pub uninterp spec fn is_bls_pk(b: Seq<u8>) -> bool;

/// Whether the bytes decode to a BLS signature (a valid compressed group
/// point).
pub uninterp spec fn is_bls_sig(b: Seq<u8>) -> bool;

/// The verification key derived from a signing key; a function of the key
/// bytes alone.
pub uninterp spec fn bls_pk_of(sk: Seq<u8>) -> Seq<u8>;

/// The signature of a message under a signing key; BLS signing is
/// deterministic, a function of key and message alone.
pub uninterp spec fn bls_sig_of(sk: Seq<u8>, msg: Seq<u8>) -> Seq<u8>;

/// Whether a signature verifies for a key and message; a function of the
/// three byte strings alone.
pub uninterp spec fn bls_verifies(pk: Seq<u8>, msg: Seq<u8>, sig: Seq<u8>) -> bool;

/// The aggregate of a collection of signatures. Aggregation sums group
/// points, so it depends on the collection alone, not on any order.
pub uninterp spec fn bls_agg_of(sigs: Multiset<Seq<u8>>) -> Seq<u8>;

/// The canonical bytes of the zero scalar. The BLS library accepts it as a
/// signing key, but its verification key is the group identity, under which
/// no signature verifies — so this library refuses it.
pub open spec fn zero_sk() -> Seq<u8> {
    Seq::new(32, |i: int| 0u8)
}

/// Failures of the cryptographic layer.
#[derive(Debug)]
pub enum CryptoError {
    /// A BLS group operation failed or a key or signature did not decode.
    BlsSignatureError(bls_signatures::Error),
    /// Data could not be put in canonical byte form.
    SerializationError(String),
    /// Canonical bytes could not be read back.
    DeserializationError(String),
    /// A value that was relied on was absent.
    NoneError,
}

#[verifier::external_type_specification]
#[verifier::external_body]
pub struct ExBlsError(bls_signatures::Error);

/// Relies on bls_signatures::PrivateKey::generate and Serialize::as_bytes:
/// a fresh random signing key in canonical byte form — the scalar's 32
/// little-endian bytes. Nothing relates two calls; every outcome is a valid
/// signing key, and a draw of the zero scalar (whose signatures never
/// verify) is thrown back before it leaves this function.
#[verifier::external_body]
fn sk_generate() -> (r: Vec<u8>)
    ensures
        is_bls_sk(r@),
        r@.len() == 32,
        r@ != zero_sk(),
{
    loop {
        let k = bls_signatures::PrivateKey::generate(&mut rand::thread_rng()).as_bytes();
        if k.iter().any(|b| *b != 0) {
            return k;
        }
    }
}

/// Relies on bls_signatures::PrivateKey::from_bytes: it accepts exactly the
/// canonical byte forms of signing keys, which are 32 bytes long.
#[verifier::external_body]
fn sk_is_valid(raw: &[u8]) -> (r: bool)
    ensures
        r == is_bls_sk(raw@),
        r ==> raw@.len() == 32,
{
    bls_signatures::PrivateKey::from_bytes(raw).is_ok()
}

/// Relies on bls_signatures::PublicKey::from_bytes: it accepts exactly the
/// canonical byte forms of verification keys.
#[verifier::external_body]
fn pk_is_valid(raw: &[u8]) -> (r: bool)
    ensures
        r == is_bls_pk(raw@),
{
    bls_signatures::PublicKey::from_bytes(raw).is_ok()
}

/// Relies on bls_signatures::Signature::from_bytes: it accepts exactly the
/// canonical byte forms of signatures.
#[verifier::external_body]
fn sig_is_valid(raw: &[u8]) -> (r: bool)
    ensures
        r == is_bls_sig(raw@),
{
    bls_signatures::Signature::from_bytes(raw).is_ok()
}

/// Relies on bls_signatures::PrivateKey::public_key: the verification key is
/// the generator times the signing key, a function of the key bytes alone.
#[verifier::external_body]
fn pk_of_sk(sk: &[u8]) -> (r: Vec<u8>)
    requires
        is_bls_sk(sk@),
    ensures
        r@ == bls_pk_of(sk@),
        is_bls_pk(r@),
{
    bls_signatures::PrivateKey::from_bytes(sk).unwrap().public_key().as_bytes()
}

/// Relies on bls_signatures::PrivateKey::sign: the signature is the message
/// hashed to the curve times the signing key — deterministic — and by
/// bilinearity it verifies under the derived verification key. The library
/// declines to verify under the identity point, so the bilinearity clause
/// holds only away from the zero key.
#[verifier::external_body]
fn sign_bytes(sk: &[u8], msg: &[u8]) -> (r: Vec<u8>)
    requires
        is_bls_sk(sk@),
    ensures
        r@ == bls_sig_of(sk@, msg@),
        is_bls_sig(r@),
        sk@ != zero_sk() ==> bls_verifies(bls_pk_of(sk@), msg@, r@),
{
    bls_signatures::PrivateKey::from_bytes(sk).unwrap().sign(msg).as_bytes()
}

/// Relies on bls_signatures::PublicKey::verify: a pairing check over the
/// decoded key, signature and message, a function of the bytes alone; bytes
/// that do not decode verify as false.
#[verifier::external_body]
fn verify_bytes(pk: &[u8], msg: &[u8], sig: &[u8]) -> (r: bool)
    ensures
        r == (is_bls_pk(pk@) && is_bls_sig(sig@) && bls_verifies(pk@, msg@, sig@)),
{
    match (bls_signatures::PublicKey::from_bytes(pk), bls_signatures::Signature::from_bytes(sig)) {
        (Ok(p), Ok(s)) => p.verify(s, msg),
        _ => false,
    }
}

/// Relies on bls_signatures::aggregate and Signature::from_bytes: the sum of
/// the decoded signature points, an order-independent function of the
/// collection; it fails exactly on an empty input or on bytes that are no
/// signature.
#[verifier::external_body]
fn aggregate_bytes(sigs: &Vec<Signature>) -> (r: Result<Vec<u8>, bls_signatures::Error>)
    ensures
        r is Ok <==> (sigs@.len() > 0 && forall|i: int|
            0 <= i < sigs@.len() ==> is_bls_sig(#[trigger] sigs@[i]@)),
        r matches Ok(a) ==> a@ == bls_agg_of(sigs@.map_values(|s: Signature| s@).to_multiset())
            && is_bls_sig(a@),
{
    let inner: Result<Vec<bls_signatures::Signature>, bls_signatures::Error> =
        sigs.iter().map(|s| bls_signatures::Signature::from_bytes(&s.bytes)).collect();
    bls_signatures::aggregate(&inner?).map(|a| a.as_bytes())
}

/// Whether the 32 bytes are all zero: the refused signing key.
fn sk_is_zero(b: &Vec<u8>) -> (r: bool)
    requires
        b@.len() == 32,
    ensures
        r == (b@ == zero_sk()),
{
    let mut i: usize = 0;
    while i < 32
        invariant
            0 <= i <= 32,
            b@.len() == 32,
            forall|j: int| 0 <= j < i ==> b@[j] == 0u8,
        decreases 32 - i,
    {
        if b[i] != 0 {
            proof {
                assert(b@ != zero_sk());
            }
            return false;
        }
        i += 1;
    }
    proof {
        assert(b@ =~= zero_sk());
    }
    true
}

/// Whether two byte vectors hold the same bytes.
pub fn bytes_eq(a: &Vec<u8>, b: &Vec<u8>) -> (r: bool)
    ensures
        r == (a@ == b@),
{
    if a.len() != b.len() {
        return false;
    }
    let mut i: usize = 0;
    while i < a.len()
        invariant
            0 <= i <= a@.len(),
            a@.len() == b@.len(),
            forall|j: int| 0 <= j < i ==> a@[j] == b@[j],
        decreases a@.len() - i,
    {
        if a[i] != b[i] {
            return false;
        }
        i += 1;
    }
    proof {
        assert(a@ =~= b@);
    }
    true
}

/// A BLS signature in canonical compressed bytes. Arbitrary bytes can be
/// carried (the wire codec surfaces no panic); verification answers false
/// for bytes that are no signature.
pub struct Signature {
    bytes: Vec<u8>,
}

impl View for Signature {
    type V = Seq<u8>;

    closed spec fn view(&self) -> Seq<u8> {
        self.bytes@
    }
}

impl Clone for Signature {
    fn clone(&self) -> (r: Self)
        ensures
            r@ == self@,
    {
        let bytes = crate::codec::copy_bytes(self.bytes.as_slice());
        Signature { bytes }
    }
}

impl PartialEq for Signature {
    fn eq(&self, other: &Self) -> (r: bool) {
        bytes_eq(&self.bytes, &other.bytes)
    }
}

impl Eq for Signature {

}

impl vstd::std_specs::cmp::PartialEqSpecImpl for Signature {
    open spec fn obeys_eq_spec() -> bool {
        true
    }

    open spec fn eq_spec(&self, other: &Self) -> bool {
        self@ == other@
    }
}

impl Signature {
    /// A signature holding the given bytes as they are; nothing is checked.
    pub fn new(bytes: Vec<u8>) -> (r: Self)
        ensures
            r@ == bytes@,
    {
        Signature { bytes }
    }

    /// The signature of `data` under the signing key; it verifies under the
    /// key's verification key.
    pub fn sign(private_key: &PrivateKey, data: &[u8]) -> (r: Self)
        ensures
            r@ == bls_sig_of(private_key@, data@),
            is_bls_sig(r@),
            bls_verifies(bls_pk_of(private_key@), data@, r@),
    {
        proof {
            use_type_invariant(private_key);
        }
        Signature { bytes: sign_bytes(private_key.bytes.as_slice(), data) }
    }

    /// A signature from bytes; exactly the canonical byte forms are accepted.
    pub fn from_bytes(data: &[u8]) -> (r: Result<Self, CryptoError>)
        ensures
            r matches Ok(s) ==> s@ == data@ && is_bls_sig(data@),
            r is Err <==> !is_bls_sig(data@),
    {
        if sig_is_valid(data) {
            let bytes = crate::codec::copy_bytes(data);
            Ok(Signature { bytes })
        } else {
            Err(CryptoError::DeserializationError(String::new()))
        }
    }

    /// The signature's bytes.
    pub fn as_bytes(&self) -> (r: &Vec<u8>)
        ensures
            r@ == self@,
    {
        &self.bytes
    }

    /// Whether the signature verifies for the key and message; false when
    /// the key or signature bytes do not decode.
    pub fn verify(&self, pub_key: &PublicKey, data: &[u8]) -> (r: bool)
        ensures
            r == (is_bls_pk(pub_key@) && is_bls_sig(self@) && bls_verifies(pub_key@, data@, self@)),
    {
        verify_bytes(pub_key.bytes.as_slice(), data, self.bytes.as_slice())
    }

    /// The aggregate of the signatures: the sum of their group points. It
    /// depends on the collection alone, never on the order, and fails exactly
    /// on an empty collection.
    pub fn aggregate(sigs: &Vec<Signature>) -> (r: Result<Self, CryptoError>)
        ensures
            r is Ok <==> (sigs@.len() > 0 && forall|i: int|
                0 <= i < sigs@.len() ==> is_bls_sig(#[trigger] sigs@[i]@)),
            r matches Ok(a) ==> a@ == bls_agg_of(sigs@.map_values(|s: Signature| s@).to_multiset())
                && is_bls_sig(a@),
    {
        match aggregate_bytes(sigs) {
            Ok(bytes) => Ok(Signature { bytes }),
            Err(e) => Err(CryptoError::BlsSignatureError(e)),
        }
    }
}

/// A signature's byte form fits the machine's word.
pub proof fn lemma_sig_len_bound(s: Signature)
    ensures
        s@.len() <= usize::MAX,
{
    vstd::std_specs::vec::axiom_spec_len(&s.bytes);
}

/// Aggregation is order-blind: two signature sequences with the same members
/// the same number of times aggregate to the same signature.
pub proof fn lemma_aggregate_permutation(s1: Seq<Seq<u8>>, s2: Seq<Seq<u8>>)
    requires
        s1.to_multiset() == s2.to_multiset(),
    ensures
        bls_agg_of(s1.to_multiset()) == bls_agg_of(s2.to_multiset()),
{
}

/// A BLS verification key in canonical compressed bytes. Arbitrary bytes can
/// be carried; verification answers false for bytes that are no key.
pub struct PublicKey {
    bytes: Vec<u8>,
}

impl View for PublicKey {
    type V = Seq<u8>;

    closed spec fn view(&self) -> Seq<u8> {
        self.bytes@
    }
}

impl Clone for PublicKey {
    fn clone(&self) -> (r: Self)
        ensures
            r@ == self@,
    {
        let bytes = crate::codec::copy_bytes(self.bytes.as_slice());
        PublicKey { bytes }
    }
}

impl PartialEq for PublicKey {
    fn eq(&self, other: &Self) -> (r: bool) {
        bytes_eq(&self.bytes, &other.bytes)
    }
}

impl Eq for PublicKey {

}

impl vstd::std_specs::cmp::PartialEqSpecImpl for PublicKey {
    open spec fn obeys_eq_spec() -> bool {
        true
    }

    open spec fn eq_spec(&self, other: &Self) -> bool {
        self@ == other@
    }
}

impl PublicKey {
    /// A key from bytes; exactly the canonical byte forms are accepted.
    pub fn from_bytes(raw: &[u8]) -> (r: Result<Self, CryptoError>)
        ensures
            r matches Ok(k) ==> k@ == raw@ && is_bls_pk(raw@),
            r is Err <==> !is_bls_pk(raw@),
    {
        if pk_is_valid(raw) {
            let bytes = crate::codec::copy_bytes(raw);
            Ok(PublicKey { bytes })
        } else {
            Err(CryptoError::DeserializationError(String::new()))
        }
    }

    /// A key holding the given bytes as they are; nothing is checked.
    pub fn from_raw(bytes: Vec<u8>) -> (r: Self)
        ensures
            r@ == bytes@,
    {
        PublicKey { bytes }
    }

    /// The key's bytes.
    pub fn to_bytes(&self) -> (r: Vec<u8>)
        ensures
            r@ == self@,
    {
        let bytes = crate::codec::copy_bytes(self.bytes.as_slice());
        bytes
    }
}

/// A BLS signing key in canonical bytes; every value of this type holds the
/// bytes of a valid key other than the zero scalar.
pub struct PrivateKey {
    bytes: Vec<u8>,
}

impl View for PrivateKey {
    type V = Seq<u8>;

    closed spec fn view(&self) -> Seq<u8> {
        self.bytes@
    }
}

impl PrivateKey {
    #[verifier::type_invariant]
    spec fn wf(self) -> bool {
        is_bls_sk(self.bytes@) && self.bytes@ != zero_sk()
    }

    /// A key from bytes; exactly the canonical byte forms are accepted, and
    /// the zero key — whose signatures never verify — is refused.
    pub fn from_bytes(raw: &[u8]) -> (r: Result<Self, CryptoError>)
        ensures
            r matches Ok(k) ==> k@ == raw@ && is_bls_sk(raw@),
            r is Err <==> (!is_bls_sk(raw@) || raw@ == zero_sk()),
    {
        if sk_is_valid(raw) {
            let bytes = crate::codec::copy_bytes(raw);
            if sk_is_zero(&bytes) {
                return Err(CryptoError::DeserializationError(String::new()));
            }
            Ok(PrivateKey { bytes })
        } else {
            Err(CryptoError::DeserializationError(String::new()))
        }
    }

    /// The key's bytes.
    pub fn to_bytes(&self) -> (r: Vec<u8>)
        ensures
            r@ == self@,
            is_bls_sk(r@),
            r@ != zero_sk(),
    {
        proof {
            use_type_invariant(self);
        }
        let bytes = crate::codec::copy_bytes(self.bytes.as_slice());
        bytes
    }

    /// A fresh random signing key; no two calls are related. A draw of the
    /// zero scalar is thrown back.
    pub fn generate() -> (r: PrivateKey)
        ensures
            is_bls_sk(r@),
            r@ != zero_sk(),
    {
        PrivateKey { bytes: sk_generate() }
    }

    /// The verification key derived from this signing key.
    pub fn public_key(&self) -> (r: PublicKey)
        ensures
            r@ == bls_pk_of(self@),
            is_bls_pk(r@),
    {
        proof {
            use_type_invariant(self);
        }
        PublicKey { bytes: pk_of_sk(self.bytes.as_slice()) }
    }
}

impl Clone for PrivateKey {
    fn clone(&self) -> (r: Self)
        ensures
            r@ == self@,
    {
        proof {
            use_type_invariant(self);
        }
        let bytes = crate::codec::copy_bytes(self.bytes.as_slice());
        PrivateKey { bytes }
    }
}

impl PartialEq for PrivateKey {
    fn eq(&self, other: &Self) -> (r: bool) {
        bytes_eq(&self.bytes, &other.bytes)
    }
}

impl Eq for PrivateKey {

}

impl vstd::std_specs::cmp::PartialEqSpecImpl for PrivateKey {
    open spec fn obeys_eq_spec() -> bool {
        true
    }

    open spec fn eq_spec(&self, other: &Self) -> bool {
        self@ == other@
    }
}

} // verus!
