use blockchain_core::digest::BlockDigest;

#[test]
fn digest_test_serde() {
    let data = vec![42, 255, 0];
    let digest = BlockDigest::digest(&data);

    let ser = digest.bytes().clone();
    let de = BlockDigest::from_bytes(ser).unwrap();

    assert_eq!(digest, de);
}

#[test]
fn test_serde_valid_length() {
    let data = vec![42u8; 32];

    let de = BlockDigest::from_bytes(data);

    assert!(de.is_ok());
}

#[test]
fn test_serde_invalid_length() {
    let data = vec![42u8; 31]; // Too short digest!

    let de = BlockDigest::from_bytes(data);

    assert!(de.is_err());
}

#[test]
fn test_digest_is_deterministic() {
    let data = vec![1, 2, 3];

    assert_eq!(BlockDigest::digest(&data), BlockDigest::digest(&data));
    assert_ne!(BlockDigest::digest(&data), BlockDigest::digest(&vec![1, 2, 4]));
}
