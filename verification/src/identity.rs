//! A node's identity: a BLS key pair, its multibase wire form, and the
//! node hash derived from the verification key.

use vstd::prelude::*;
use crate::codec::{enc_bytes, get_bytes, put_bytes, lemma_u64_round_trip};
use crate::error::P2pError;
use crate::signature::{
    bls_pk_of, bls_sig_of, bls_verifies, is_bls_pk, is_bls_sig, is_bls_sk, PrivateKey, PublicKey,
    Signature,
};

verus! {

/// What multibase Base32Z encoding returns for the given bytes: the base
/// code character, then the base-32z digits — a function of the bytes alone.
pub uninterp spec fn multibase_z(b: Seq<u8>) -> Seq<char>;

/// Relies on multibase::encode with Base32Z: the base's code character
/// prepended to the base-32z digits of the bytes.
#[verifier::external_body]
fn multibase_encode_z(data: &[u8]) -> (r: String)
    ensures
        r@ == multibase_z(data@),
{
    multibase::encode(multibase::Base::Base32Z, data)
}

/// Relies on multibase::decode: it reads the base from the leading code
/// character and inverts the base's encoding, so a Base32Z encoding decodes
/// to exactly the bytes it was made from.
#[verifier::external_body]
fn multibase_decode(s: &str) -> (r: Result<Vec<u8>, multibase::Error>)
    ensures
        forall|b: Seq<u8>| s@ == multibase_z(b) ==> r is Ok && (r matches Ok(v) ==> v@ == b),
{
    multibase::decode(s).map(|p| p.1)
}

/// The canonical bytes of a key pair: the signing key, then the
/// verification key, each length-prefixed.
pub open spec fn enc_keypair(sk: Seq<u8>, pk: Seq<u8>) -> Seq<u8> {
    enc_bytes(sk) + enc_bytes(pk)
}

/// The parse of a key pair from canonical bytes: the two length-prefixed
/// strings, which must fill the input exactly.
pub open spec fn dec_keypair(s: Seq<u8>) -> Option<(Seq<u8>, Seq<u8>)> {
    if s.len() >= 8 && 8 + crate::codec::le_u64_at(s, 0) <= s.len() {
        let sk_len = crate::codec::le_u64_at(s, 0) as int;
        let sk = s.subrange(8, 8 + sk_len);
        let rest = 8 + sk_len;
        if s.len() >= rest + 8 && rest + 8 + crate::codec::le_u64_at(s, rest) == s.len() {
            let pk_len = crate::codec::le_u64_at(s, rest) as int;
            Some((sk, s.subrange(rest + 8, rest + 8 + pk_len)))
        } else {
            None
        }
    } else {
        None
    }
}

/// Reading back an encoded key pair yields the two keys: the encoding
/// round-trips.
pub proof fn lemma_keypair_round_trip(sk: Seq<u8>, pk: Seq<u8>)
    requires
        sk.len() <= u64::MAX,
        pk.len() <= u64::MAX,
    ensures
        dec_keypair(enc_keypair(sk, pk)) == Some((sk, pk)),
{
    let s = enc_keypair(sk, pk);
    assert(s.subrange(0, 8) =~= crate::codec::enc_u64(sk.len() as u64));
    lemma_u64_round_trip(s, 0, sk.len() as u64);
    assert(s.subrange(8, 8 + sk.len() as int) =~= sk);
    let rest = 8 + sk.len() as int;
    assert(s.subrange(rest, rest + 8) =~= crate::codec::enc_u64(pk.len() as u64));
    lemma_u64_round_trip(s, rest, pk.len() as u64);
    assert(s.subrange(rest + 8, rest + 8 + pk.len() as int) =~= pk);
}

/// The shape of an encoded key pair: its length, the two length prefixes
/// and the two key substrings.
pub proof fn lemma_enc_keypair_parse(a: Seq<u8>, b: Seq<u8>)
    requires
        a.len() <= u64::MAX,
        b.len() <= u64::MAX,
    ensures
        enc_keypair(a, b).len() == 16 + a.len() + b.len(),
        crate::codec::le_u64_at(enc_keypair(a, b), 0) == a.len(),
        enc_keypair(a, b).subrange(8, 8 + a.len() as int) == a,
        crate::codec::le_u64_at(enc_keypair(a, b), 8 + a.len() as int) == b.len(),
        enc_keypair(a, b).subrange(8 + a.len() as int + 8, 16 + a.len() + b.len() as int) == b,
{
    let s = enc_keypair(a, b);
    assert(s.subrange(0, 8) =~= crate::codec::enc_u64(a.len() as u64));
    lemma_u64_round_trip(s, 0, a.len() as u64);
    assert(s.subrange(8, 8 + a.len() as int) =~= a);
    let rest = 8 + a.len() as int;
    assert(s.subrange(rest, rest + 8) =~= crate::codec::enc_u64(b.len() as u64));
    lemma_u64_round_trip(s, rest, b.len() as u64);
    assert(s.subrange(rest + 8, rest + 8 + b.len() as int) =~= b);
}

/// Whether the string is the wire form of the key pair `(a, b)`, with both
/// keys valid (the signing key not the refused zero scalar) and of
/// encodable length.
pub open spec fn encodes_to(s: Seq<char>, a: Seq<u8>, b: Seq<u8>) -> bool {
    s == multibase_z(enc_keypair(a, b)) && a.len() <= u64::MAX && b.len() <= u64::MAX && is_bls_sk(
        a,
    ) && a != crate::signature::zero_sk() && is_bls_pk(b)
}

/// The public face of an identity: the verification key alone.
pub struct PublicId {
    /// The node's verification key.
    pub public_key: PublicKey,
}

impl Clone for PublicId {
    fn clone(&self) -> (r: Self)
        ensures
            r.public_key@ == self.public_key@,
    {
        PublicId { public_key: self.public_key.clone() }
    }
}

impl PartialEq for PublicId {
    fn eq(&self, other: &Self) -> (r: bool) {
        self.public_key == other.public_key
    }
}

impl Eq for PublicId {

}

impl vstd::std_specs::cmp::PartialEqSpecImpl for PublicId {
    open spec fn obeys_eq_spec() -> bool {
        true
    }

    open spec fn eq_spec(&self, other: &Self) -> bool {
        self.public_key@ == other.public_key@
    }
}

/// A node's key pair. The verification key of a freshly made identity is
/// the one derived from its signing key.
pub struct Identity {
    private_key: PrivateKey,
    public_key: PublicKey,
}

impl Identity {
    /// The signing key's bytes.
    pub closed spec fn sk_bytes(self) -> Seq<u8> {
        self.private_key@
    }

    /// The verification key's bytes.
    pub closed spec fn pk_bytes(self) -> Seq<u8> {
        self.public_key@
    }

    /// A fresh identity with a random signing key and its derived
    /// verification key.
    pub fn new() -> (r: Self)
        ensures
            r.pk_bytes() == bls_pk_of(r.sk_bytes()),
            is_bls_sk(r.sk_bytes()),
            is_bls_pk(r.pk_bytes()),
    {
        let private_key = PrivateKey::generate();
        let public_key = private_key.public_key();
        Identity { private_key, public_key }
    }

    /// The signature of the message under this identity's signing key; it
    /// verifies under the derived verification key.
    pub fn sign_message(&self, message: &[u8]) -> (r: Signature)
        ensures
            r@ == bls_sig_of(self.sk_bytes(), message@),
            is_bls_sig(r@),
            bls_verifies(bls_pk_of(self.sk_bytes()), message@, r@),
    {
        Signature::sign(&self.private_key, message)
    }

    /// Whether the signature is this identity's over the message: `Ok` when
    /// it verifies under the identity's verification key, the invalid
    /// signature error when it does not.
    pub fn verify_signature(&self, message: &[u8], signature: &Signature) -> (r: Result<
        (),
        P2pError,
    >)
        ensures
            r is Ok <==> (is_bls_pk(self.pk_bytes()) && is_bls_sig(signature@) && bls_verifies(
                self.pk_bytes(),
                message@,
                signature@,
            )),
    {
        if signature.verify(&self.public_key, message) {
            Ok(())
        } else {
            Err(P2pError::InvalidSignature)
        }
    }

    /// The verification key.
    pub fn get_public_key(&self) -> (r: &PublicKey)
        ensures
            r@ == self.pk_bytes(),
    {
        &self.public_key
    }

    /// The signing key.
    pub fn get_private_key(&self) -> (r: &PrivateKey)
        ensures
            r@ == self.sk_bytes(),
    {
        &self.private_key
    }

    /// The public face of this identity.
    pub fn get_public_id(&self) -> (r: PublicId)
        ensures
            r.public_key@ == self.pk_bytes(),
    {
        PublicId { public_key: self.public_key.clone() }
    }

    /// The node hash: the digest of the verification key's canonical,
    /// length-prefixed bytes.
    pub fn get_our_hash(&self) -> (r: Result<crate::hash::Hash, P2pError>)
        ensures
            r matches Ok(h) ==> h@ == crate::hash::blake2b_of(
                enc_bytes(self.pk_bytes()),
                32,
            ),
            r is Ok,
    {
        let mut buf: Vec<u8> = Vec::new();
        let pk = self.public_key.to_bytes();
        put_bytes(&mut buf, &pk);
        Ok(crate::hash::Hash::new(buf.as_slice()))
    }

    /// The identity's wire form: the multibase Base32Z string of the
    /// canonical key-pair bytes. This string holds the signing key: it is
    /// for local storage, never for the wire.
    pub fn encode(&self) -> (r: Result<String, P2pError>)
        ensures
            r matches Ok(s) ==> s@ == multibase_z(
                enc_keypair(self.sk_bytes(), self.pk_bytes()),
            ),
            r is Ok,
    {
        let mut buf: Vec<u8> = Vec::new();
        let sk = self.private_key.to_bytes();
        let pk = self.public_key.to_bytes();
        put_bytes(&mut buf, &sk);
        put_bytes(&mut buf, &pk);
        Ok(multibase_encode_z(buf.as_slice()))
    }

    /// An identity back from its wire form: the multibase string is
    /// decoded, the two keys parsed and each validated — a malformed string
    /// or an invalid key surfaces an error instead of a panic. Decoding an
    /// encoded identity with valid keys yields the identity back.
    #[verifier::rlimit(100)]
    pub fn decode(encoded_id: &str) -> (r: Result<Self, P2pError>)
        ensures
            forall|a: Seq<u8>, b: Seq<u8>|
                #[trigger] encodes_to(encoded_id@, a, b) ==> r is Ok && (r matches Ok(id)
                    ==> id.sk_bytes() == a && id.pk_bytes() == b),
    {
        let bytes = match multibase_decode(encoded_id) {
            Ok(b) => b,
            Err(e) => {
                proof {
                    assert forall|a: Seq<u8>, b: Seq<u8>|
                        #[trigger] encodes_to(encoded_id@, a, b) implies false by {
                        assert(encoded_id@ == multibase_z(enc_keypair(a, b)));
                    }
                }
                return Err(P2pError::MultibaseError(e));
            },
        };
        let ghost raw = bytes@;
        let (sk_bytes, rest) = match get_bytes(bytes.as_slice(), 0) {
            Some(p) => p,
            None => {
                proof {
                    assert forall|a: Seq<u8>, b: Seq<u8>|
                        #[trigger] encodes_to(encoded_id@, a, b) implies false by {
                        assert(raw == enc_keypair(a, b));
                        lemma_enc_keypair_parse(a, b);
                    }
                }
                return Err(P2pError::DeserializationError(String::new()));
            },
        };
        proof {
            assert forall|a: Seq<u8>, b: Seq<u8>|
                #[trigger] encodes_to(encoded_id@, a, b) implies sk_bytes@ == a && rest == 8
                + a.len() by {
                assert(raw == enc_keypair(a, b));
                lemma_enc_keypair_parse(a, b);
            }
        }
        let (pk_bytes, end) = match get_bytes(bytes.as_slice(), rest) {
            Some(p) => p,
            None => {
                proof {
                    assert forall|a: Seq<u8>, b: Seq<u8>|
                        #[trigger] encodes_to(encoded_id@, a, b) implies false by {
                        assert(raw == enc_keypair(a, b));
                        lemma_enc_keypair_parse(a, b);
                    }
                }
                return Err(P2pError::DeserializationError(String::new()));
            },
        };
        proof {
            assert forall|a: Seq<u8>, b: Seq<u8>|
                #[trigger] encodes_to(encoded_id@, a, b) implies pk_bytes@ == b && end
                == raw.len() by {
                assert(raw == enc_keypair(a, b));
                lemma_enc_keypair_parse(a, b);
                assert(pk_bytes@ =~= raw.subrange(8 + a.len() as int + 8, 16 + a.len() + b.len() as int));
            }
        }
        if end != bytes.len() {
            proof {
                assert forall|a: Seq<u8>, b: Seq<u8>|
                    #[trigger] encodes_to(encoded_id@, a, b) implies false by {}
            }
            return Err(P2pError::DeserializationError(String::new()));
        }
        let private_key = match PrivateKey::from_bytes(sk_bytes.as_slice()) {
            Ok(k) => k,
            Err(e) => {
                proof {
                    assert forall|a: Seq<u8>, b: Seq<u8>|
                        #[trigger] encodes_to(encoded_id@, a, b) implies false by {
                        assert(sk_bytes@ == a && is_bls_sk(a) && a != crate::signature::zero_sk());
                    }
                }
                return Err(P2pError::CryptoError(e));
            },
        };
        let public_key = match PublicKey::from_bytes(pk_bytes.as_slice()) {
            Ok(k) => k,
            Err(e) => {
                proof {
                    assert forall|a: Seq<u8>, b: Seq<u8>|
                        #[trigger] encodes_to(encoded_id@, a, b) implies false by {
                        assert(pk_bytes@ == b && is_bls_pk(b));
                    }
                }
                return Err(P2pError::CryptoError(e));
            },
        };
        Ok(Identity { private_key, public_key })
    }
}

impl Clone for Identity {
    fn clone(&self) -> (r: Self)
        ensures
            r.sk_bytes() == self.sk_bytes(),
            r.pk_bytes() == self.pk_bytes(),
    {
        Identity { private_key: self.private_key.clone(), public_key: self.public_key.clone() }
    }
}

} // verus!
