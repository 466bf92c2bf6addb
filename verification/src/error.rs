//! Failures of the peer-to-peer layer.

use vstd::prelude::*;

verus! {

#[verifier::external_type_specification]
#[verifier::external_body]
pub struct ExMultibaseError(multibase::Error);

/// What can go wrong around connections, identities and message handling.
#[derive(Debug)]
pub enum P2pError {
    /// The cryptographic layer failed.
    CryptoError(crate::signature::CryptoError),
    /// A multibase string did not decode.
    MultibaseError(multibase::Error),
    /// Canonical bytes did not parse.
    DeserializationError(String),
    /// A signed message carried a signature that does not verify.
    InvalidSignature,
    /// Anything else, described in words.
    CustomError(String),
}

} // verus!
