use dagchain::signature::{PrivateKey, PublicKey, Signature};

#[test]
fn test_signature() {
    let secret_key = PrivateKey::generate();
    let data = "data to be signed";
    let signature = Signature::sign(&secret_key, data.as_bytes());
    let public_key = secret_key.public_key();
    assert!(signature.verify(&public_key, data.as_bytes()));

    let serialized_sig = signature.as_bytes().clone();
    let deserialized_sig = Signature::from_bytes(&serialized_sig);
    assert!(deserialized_sig.is_ok());

    let s_sig = deserialized_sig.unwrap();
    assert!(signature == s_sig);
    assert!(s_sig.verify(&public_key, data.as_bytes()));
}

#[test]
fn test_public_key() {
    let secret_key = PrivateKey::generate();
    let public_key = secret_key.public_key();

    let serialized_public_key = public_key.to_bytes();
    let deserialized_public_key = PublicKey::from_bytes(&serialized_public_key);
    assert!(deserialized_public_key.is_ok());

    let s_pub_key = deserialized_public_key.unwrap();
    assert!(public_key == s_pub_key);
}

#[test]
fn test_private_key() {
    let secret_key = PrivateKey::generate();
    let serialized_secret_key = secret_key.to_bytes();
    let deserialized_secret_key = PrivateKey::from_bytes(&serialized_secret_key);
    assert!(deserialized_secret_key.is_ok());

    let s_secret = deserialized_secret_key.unwrap();
    assert!(secret_key == s_secret);
}

#[test]
fn test_verify_rejects_other_key() {
    let sk1 = PrivateKey::generate();
    let sk2 = PrivateKey::generate();
    let sig = Signature::sign(&sk1, b"message");
    assert!(sig.verify(&sk1.public_key(), b"message"));
    assert!(!sig.verify(&sk2.public_key(), b"message"));
    assert!(!sig.verify(&sk1.public_key(), b"other message"));
}

#[test]
fn test_aggregate_is_order_blind() {
    // The aggregate depends on the collection of signatures, not the order.
    let sk1 = PrivateKey::generate();
    let sk2 = PrivateKey::generate();
    let sk3 = PrivateKey::generate();
    let s1 = Signature::sign(&sk1, b"payload");
    let s2 = Signature::sign(&sk2, b"payload");
    let s3 = Signature::sign(&sk3, b"payload");

    let a = Signature::aggregate(&vec![s1.clone(), s2.clone(), s3.clone()]).unwrap();
    let b = Signature::aggregate(&vec![s3, s1, s2]).unwrap();
    assert!(a == b);
}

#[test]
fn test_aggregate_empty_fails() {
    let none: Vec<Signature> = Vec::new();
    assert!(Signature::aggregate(&none).is_err());
}

#[test]
fn test_signature_from_invalid_bytes_fails() {
    let garbage = vec![1u8, 2, 3];
    assert!(Signature::from_bytes(&garbage).is_err());
    assert!(PublicKey::from_bytes(&garbage).is_err());
    assert!(PrivateKey::from_bytes(&garbage).is_err());
}

#[test]
fn test_zero_key_is_refused() {
    // The BLS library accepts the zero scalar, but its signatures never
    // verify; this library refuses it at the door.
    let zero = vec![0u8; 32];
    assert!(PrivateKey::from_bytes(&zero).is_err());
    let generated = PrivateKey::generate();
    assert_ne!(generated.to_bytes(), zero);
}
