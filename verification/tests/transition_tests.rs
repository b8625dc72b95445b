use blockchain_core::transition::{Generation, Transfer, Transition, TransferError};
use blockchain_core::wire::{decode_transition, encode_transition};
use blockchain_core::{Coin, SecretAddress};

#[test]
fn test_transfer_sign_verify() {
    let sender = SecretAddress::create();
    let receiver = SecretAddress::create().to_public_address();
    let quantity = Coin::from(42);

    let transfer = Transfer::offer(&sender, receiver, quantity);

    let wire = encode_transition(&Transition::Transfer(transfer.clone()));
    let verified = decode_transition(&wire).unwrap().verify();

    assert_eq!(Ok(Transition::Transfer(transfer)), verified);
}

#[test]
fn test_transfer_sign_verify_corrupt() {
    let sender = SecretAddress::create();
    let receiver = SecretAddress::create().to_public_address();
    let quantity = Coin::from(42);

    let transfer = Transfer::offer(&sender, receiver, quantity);
    // Tampering!!!
    let tampered = Transfer::from_parts(
        transfer.sender().clone(),
        transfer.receiver().clone(),
        Coin::from(1),
        transfer.timestamp(),
        transfer.sign().clone(),
    );

    let wire = encode_transition(&Transition::Transfer(tampered));
    let verified = decode_transition(&wire).unwrap().verify();

    assert!(verified.is_err());
}

#[test]
fn test_generation_sign_verify() {
    let receiver = SecretAddress::create();
    let quantity = Coin::from(42);

    let gen = Generation::offer(&receiver, quantity);

    let wire = encode_transition(&Transition::Generation(gen.clone()));
    let verified = decode_transition(&wire).unwrap().verify();

    assert_eq!(Ok(Transition::Generation(gen)), verified);
}

#[test]
fn test_generation_sign_verify_corrupt() {
    let receiver = SecretAddress::create();
    let quantity = Coin::from(42);

    let gen = Generation::offer(&receiver, quantity);
    // Tampering!!!
    let tampered = Generation::from_parts(
        gen.receiver().clone(),
        Coin::from(1),
        gen.timestamp(),
        gen.sign().clone(),
    );

    let wire = encode_transition(&Transition::Generation(tampered));
    let verified = decode_transition(&wire).unwrap().verify();

    assert!(verified.is_err());
}

#[test]
fn test_transition_transfer_serde() {
    let transfer = {
        let sender = SecretAddress::create();
        let receiver = SecretAddress::create().to_public_address();
        let quantity = Coin::from(42);

        Transfer::offer(&sender, receiver, quantity)
    };

    let transition = Transition::from(transfer.clone());

    let ser = encode_transition(&transition);
    let de = decode_transition(&ser).unwrap().verify();

    assert_eq!(Ok(Transition::Transfer(transfer)), de);
}

#[test]
fn test_transition_generation_serde() {
    let gen = {
        let receiver = SecretAddress::create();
        let quantity = Coin::from(42);

        Generation::offer(&receiver, quantity)
    };

    let transition = Transition::from(gen.clone());

    let ser = encode_transition(&transition);
    let de = decode_transition(&ser).unwrap().verify();

    assert_eq!(Ok(Transition::Generation(gen)), de);
}

#[test]
fn test_transition_corrupt() {
    let gen = {
        let receiver = SecretAddress::create();
        let quantity = Coin::from(42);

        Generation::offer(&receiver, quantity)
    };
    // Tampering!
    let tampered = Generation::from_parts(
        gen.receiver().clone(),
        Coin::from(1),
        gen.timestamp(),
        gen.sign().clone(),
    );

    let transition = Transition::from(tampered);

    let ser = encode_transition(&transition);
    let de = decode_transition(&ser).unwrap().verify();

    assert_eq!(Err(TransferError), de);
}

#[test]
fn test_wire_rejects_garbage() {
    // An unknown variant tag decodes to nothing.
    assert!(decode_transition(&vec![5u8; 113]).is_err());
    // A truncated encoding decodes to nothing.
    let gen = Generation::offer(&SecretAddress::create(), Coin::from(7));
    let mut wire = encode_transition(&Transition::Generation(gen));
    wire.pop();
    assert!(decode_transition(&wire).is_err());
}

#[test]
fn transfer_test_transfer_sign_verify() {
    let sender = SecretAddress::create();
    let receiver = SecretAddress::create().to_public_address();
    let quantity = Coin::from(42);

    let transfer = Transfer::offer(&sender, receiver, quantity);

    let wire = encode_transition(&Transition::Transfer(transfer.clone()));
    let verified = decode_transition(&wire).unwrap().verify();

    assert_eq!(Ok(Transition::Transfer(transfer)), verified);
}

#[test]
fn transfer_test_transfer_sign_verify_corrupt() {
    let sender = SecretAddress::create();
    let receiver = SecretAddress::create().to_public_address();

    let transfer = Transfer::offer(&sender, receiver, Coin::from(42));
    let tampered = Transfer::from_parts(
        transfer.sender().clone(),
        transfer.receiver().clone(),
        Coin::from(1),
        transfer.timestamp(),
        transfer.sign().clone(),
    );

    assert!(tampered.verify().is_err());
}

#[test]
fn transfer_test_generation_sign_verify() {
    let receiver = SecretAddress::create();

    let gen = Generation::offer(&receiver, Coin::from(42));
    let reparsed = Generation::from_parts(
        gen.receiver().clone(),
        gen.quantity(),
        gen.timestamp(),
        gen.sign().clone(),
    );

    assert_eq!(Ok(gen), reparsed.verify());
}

#[test]
fn transfer_test_generation_sign_verify_corrupt() {
    let receiver = SecretAddress::create();

    let gen = Generation::offer(&receiver, Coin::from(42));
    let tampered = Generation::from_parts(
        gen.receiver().clone(),
        Coin::from(1),
        gen.timestamp(),
        gen.sign().clone(),
    );

    assert!(tampered.verify().is_err());
}

#[test]
fn test_branch_transfer_serde() {
    let transfer = {
        let sender = SecretAddress::create();
        let receiver = SecretAddress::create().to_public_address();

        Transfer::offer(&sender, receiver, Coin::from(42))
    };

    let branch = Transition::from(transfer.clone());

    let ser = encode_transition(&branch);
    let de = decode_transition(&ser).unwrap().verify();

    assert_eq!(Ok(Transition::Transfer(transfer)), de);
}

#[test]
fn test_branch_generation_serde() {
    let gen = {
        let receiver = SecretAddress::create();

        Generation::offer(&receiver, Coin::from(42))
    };

    let branch = Transition::from(gen.clone());

    let ser = encode_transition(&branch);
    let de = decode_transition(&ser).unwrap().verify();

    assert_eq!(Ok(Transition::Generation(gen)), de);
}

#[test]
fn test_branch_corrupt() {
    let gen = {
        let receiver = SecretAddress::create();

        Generation::offer(&receiver, Coin::from(42))
    };
    let tampered = Generation::from_parts(
        gen.receiver().clone(),
        Coin::from(1),
        gen.timestamp(),
        gen.sign().clone(),
    );

    let branch = Transition::from(tampered);

    let ser = encode_transition(&branch);
    let de = decode_transition(&ser).unwrap().verify();

    assert_eq!(Err(TransferError), de);
}
