use blockchain_core::{Address, SecretAddress};

#[test]
fn test_sign() {
    let secret_address = SecretAddress::create();
    let message = "The altimate answer=42".as_bytes().to_vec();

    let sign = secret_address.sign(&message);

    let address = secret_address.to_public_address();
    assert!(address.verify(&message, &sign));
}

#[test]
fn test_corrupt_message() {
    let secret_address = SecretAddress::create();
    let message = "The altimate answer=42".as_bytes().to_vec();

    let sign = secret_address.sign(&message);

    let address = secret_address.to_public_address();
    assert!(!address.verify(&"The altimate answer=43".as_bytes().to_vec(), &sign));
}

#[test]
fn test_corrupt_sign() {
    let secret_address = SecretAddress::create();
    let message = "The altimate answer=42".as_bytes().to_vec();

    let sign = secret_address.sign(&"The altimate answer=43".as_bytes().to_vec());

    let address = secret_address.to_public_address();
    assert!(!address.verify(&message, &sign));
}

#[test]
fn test_from_str() {
    let address = SecretAddress::create().to_public_address();

    let s = address.to_hex_string();
    let from_str = Address::from_hex_str(&s).unwrap();

    assert_eq!(address, from_str);
}

#[test]
fn test_sign_verify_hello() {
    let s = SecretAddress::create();
    let message = "hello".as_bytes().to_vec();

    let sig = s.sign(&message);

    assert!(s.to_public_address().verify(&message, &sig));
    assert!(!s.to_public_address().verify(&"hellp".as_bytes().to_vec(), &sig));
}
