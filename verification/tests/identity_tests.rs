use dagchain::error::P2pError;
use dagchain::identity::Identity;
use dagchain::signature::PublicKey;

#[test]
fn test_encode_decode_identity() {
    let identity = Identity::new();
    let encoded_id = identity.encode().unwrap();
    let recovered_id = Identity::decode(&encoded_id).unwrap();
    assert!(identity.get_private_key() == recovered_id.get_private_key());
}

#[test]
fn test_serialize_deserialize_public_id() {
    let identity = Identity::new();
    let bytes = identity.get_public_id().public_key.to_bytes();
    let public_key = PublicKey::from_bytes(&bytes).unwrap();
    assert!(identity.get_public_id().public_key == public_key);
}

#[test]
fn test_signing_and_verification() {
    let id1 = Identity::new();
    let id2 = Identity::new();

    let message = vec![1, 2, 3, 4, 5];
    let signature = id1.sign_message(&message);
    assert!(id1.verify_signature(&message, &signature).is_ok());

    let invalid_sig_res = id2.verify_signature(&message, &signature);
    assert!(matches!(invalid_sig_res, Err(P2pError::InvalidSignature)));
}

#[test]
fn test_serialize_and_deserialize_public_id() {
    let identity = Identity::new();
    let bytes = identity.get_public_id().public_key.to_bytes();
    let public_id_key = PublicKey::from_bytes(&bytes).unwrap();
    assert!(identity.get_public_id().public_key == public_id_key);
}

#[test]
fn test_decode_garbage_fails() {
    // Not multibase at all.
    assert!(matches!(
        Identity::decode("!!not multibase!!"),
        Err(P2pError::MultibaseError(_))
    ));
    // Valid multibase, but not a key pair.
    let bogus = multibase::encode(multibase::Base::Base32Z, [1u8, 2, 3]);
    assert!(matches!(
        Identity::decode(&bogus),
        Err(P2pError::DeserializationError(_))
    ));
}

#[test]
fn test_encoded_identity_is_base32z() {
    let identity = Identity::new();
    let encoded = identity.encode().unwrap();
    // multibase prefixes Base32Z strings with its code character.
    assert!(encoded.starts_with('h'));
}

#[test]
fn test_our_hash_is_stable() {
    let identity = Identity::new();
    let h1 = identity.get_our_hash().unwrap();
    let h2 = identity.get_our_hash().unwrap();
    assert!(h1 == h2);
}
