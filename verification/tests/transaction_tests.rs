use blockchain_core::transaction::{Transaction, TransactionError};
use blockchain_core::transition::{Generation, Transfer, Transition};
use blockchain_core::wire::{decode_transaction, encode_transaction};
use blockchain_core::{Coin, SecretAddress, Verified};

#[test]
fn test_sign_verify() {
    let input_sender = SecretAddress::create();
    let contractor = SecretAddress::create();
    let output_receiver = SecretAddress::create().to_public_address();
    let quantity = Coin::from(42);

    let input = Transfer::offer(&input_sender, contractor.to_public_address(), quantity);
    let output = Transfer::offer(&contractor, output_receiver, quantity);

    let tx = Transaction::offer(
        &contractor,
        vec![Transition::Transfer(input)],
        vec![Transition::Transfer(output)],
    )
    .verify_transaction()
    .unwrap();

    let wire = encode_transaction(&tx);
    let unverified = decode_transaction(&wire).unwrap();

    assert_eq!(Ok(tx), unverified.verify());
}

#[test]
fn test_verify_only_gen() {
    let contractor = SecretAddress::create();
    let quantity = Coin::from(42);
    let gen = Generation::offer(&contractor, quantity);

    let inputs: Vec<Transition<Verified>> = Vec::new();
    let outputs = vec![Transition::Generation(gen)];

    let tx = Transaction::offer(&contractor, inputs, outputs)
        .verify_transaction()
        .unwrap();

    let wire = encode_transaction(&tx);
    let unverified = decode_transaction(&wire).unwrap();

    assert_eq!(Ok(tx), unverified.verify());
}

#[test]
fn test_verify_transfer_and_gen() {
    let input_sender = SecretAddress::create();
    let contractor = SecretAddress::create();
    let output_receiver = SecretAddress::create().to_public_address();
    let quantity = Coin::from(42);

    let input = Transfer::offer(&input_sender, contractor.to_public_address(), quantity);
    let output = Transition::from(Transfer::offer(&contractor, output_receiver, quantity));
    let gen = Transition::from(Generation::offer(&contractor, quantity));

    let inputs = vec![Transition::Transfer(input)];
    let outputs: Vec<Transition<Verified>> = vec![output, gen];

    let tx = Transaction::offer(&contractor, inputs, outputs)
        .verify_transaction()
        .unwrap();

    let wire = encode_transaction(&tx);
    let unverified = decode_transaction(&wire).unwrap();

    assert_eq!(Ok(tx), unverified.verify());
}

#[test]
fn test_quantity_too_much_output() {
    let input_sender = SecretAddress::create();
    let contractor = SecretAddress::create();
    let output_receiver = SecretAddress::create().to_public_address();

    let input = Transfer::offer(&input_sender, contractor.to_public_address(), Coin::from(10));
    let output = Transfer::offer(&contractor, output_receiver, Coin::from(11));

    let tx = Transaction::offer(
        &contractor,
        vec![Transition::Transfer(input)],
        vec![Transition::Transfer(output)],
    )
    .verify_transaction();

    assert_eq!(Err(TransactionError::QuantityMismatch), tx);
}

#[test]
fn test_verify_error_empty_output() {
    let input_sender = SecretAddress::create();
    let contractor = SecretAddress::create();

    let input = Transfer::offer(&input_sender, contractor.to_public_address(), Coin::from(10));
    let outputs: Vec<Transition<Verified>> = vec![];
    let tx = Transaction::offer(&contractor, vec![Transition::Transfer(input)], outputs)
        .verify_transaction();

    assert_eq!(Err(TransactionError::EmptyOutput), tx);
}

#[test]
fn test_verify_error_sender_mismatch() {
    let input_sender = SecretAddress::create();
    let contractor = SecretAddress::create();
    let output_receiver = SecretAddress::create().to_public_address();
    let quantity = Coin::from(42);

    let mismatched_contractor = SecretAddress::create(); // !

    let input = Transfer::offer(&input_sender, contractor.to_public_address(), quantity);
    let output = Transfer::offer(&mismatched_contractor, output_receiver, quantity);

    let tx = Transaction::offer(
        &mismatched_contractor,
        vec![Transition::Transfer(input)],
        vec![Transition::Transfer(output)],
    )
    .verify_transaction();

    assert_eq!(Err(TransactionError::SenderMismatch), tx);
}

#[test]
fn test_verify_error_receiver_mismatch() {
    let input_sender = SecretAddress::create();
    let contractor = SecretAddress::create();
    let output_receiver = SecretAddress::create().to_public_address();
    let quantity = Coin::from(42);

    let mismatched_contractor = SecretAddress::create(); // !

    let input = Transfer::offer(
        &input_sender,
        mismatched_contractor.to_public_address(),
        quantity,
    );
    let output = Transfer::offer(&contractor, output_receiver, quantity);

    let tx = Transaction::offer(
        &mismatched_contractor,
        vec![Transition::Transfer(input)],
        vec![Transition::Transfer(output)],
    )
    .verify_transaction();

    assert_eq!(Err(TransactionError::ReceiverMismatch), tx);
}

#[test]
fn test_verify_error_input_timestamp() {
    let input_sender = SecretAddress::create();
    let contractor = SecretAddress::create();
    let output_receiver = SecretAddress::create().to_public_address();
    let quantity = Coin::from(42);

    let input = Transfer::offer(&input_sender, contractor.to_public_address(), quantity);
    let output = Transfer::offer(&contractor, output_receiver, quantity);

    let tx = Transaction::offer(
        &contractor,
        vec![Transition::Transfer(input)],
        vec![Transition::Transfer(output)],
    );

    // Input is offered later than transaction creation!
    let late_input = Transfer::offer(&input_sender, contractor.to_public_address(), quantity);
    let tampered = Transaction::from_parts(
        tx.contractor().clone(),
        vec![Transition::Transfer(late_input)],
        tx.outputs().clone(),
        tx.timestamp(),
        tx.sign().clone(),
    );

    let tampered = tampered.verify_transaction();

    assert_eq!(Err(TransactionError::InvalidTimestamp), tampered);
}

#[test]
fn test_verify_error_output_timestamp() {
    let input_sender = SecretAddress::create();
    let contractor = SecretAddress::create();
    let output_receiver = SecretAddress::create().to_public_address();
    let quantity = Coin::from(42);

    let input = Transfer::offer(&input_sender, contractor.to_public_address(), quantity);
    let output = Transfer::offer(&contractor, output_receiver.clone(), quantity);

    let tx = Transaction::offer(
        &contractor,
        vec![Transition::Transfer(input)],
        vec![Transition::Transfer(output)],
    );

    // Output is offered later than transaction creation!
    let late_output = Transfer::offer(&contractor, output_receiver, quantity);
    let tampered = Transaction::from_parts(
        tx.contractor().clone(),
        tx.inputs().clone(),
        vec![Transition::Transfer(late_output)],
        tx.timestamp(),
        tx.sign().clone(),
    );

    let tampered = tampered.verify_transaction();

    assert_eq!(Err(TransactionError::InvalidTimestamp), tampered);
}

#[test]
fn test_verify_error_invalid_sign() {
    let input_sender = SecretAddress::create();
    let contractor = SecretAddress::create();
    let output_receiver = SecretAddress::create().to_public_address();
    let quantity = Coin::from(42);

    let input = Transfer::offer(&input_sender, contractor.to_public_address(), quantity);
    let output = Transfer::offer(&contractor, output_receiver.clone(), quantity);
    let output_tampered = Transfer::offer(&contractor, output_receiver.clone(), Coin::from(1));

    let tx = Transaction::offer(
        &contractor,
        vec![Transition::Transfer(input)],
        vec![Transition::Transfer(output)],
    );

    // Tamper!
    let tampered = Transaction::from_parts(
        tx.contractor().clone(),
        tx.inputs().clone(),
        vec![Transition::Transfer(output_tampered)],
        tx.timestamp(),
        tx.sign().clone(),
    );

    let tampered = tampered.verify_transaction();

    assert_eq!(Err(TransactionError::InvalidSign), tampered);
}
