use blockchain_core::block::{Block, BlockError, BlockHeight, BlockSource};
use blockchain_core::digest::BlockDigest;
use blockchain_core::transaction::Transaction;
use blockchain_core::transition::{Transfer, Transition};
use blockchain_core::verification::{Verified, Yet};
use blockchain_core::wire::{decode_block, encode_block};
use blockchain_core::{Coin, Difficulty, SecretAddress};

fn difficulty() -> Difficulty {
    Difficulty::new(1)
}

fn generation_reward() -> Coin {
    Coin::from(1)
}

fn create_unverified_genesis_block() -> Block<Verified, Yet, Yet, Yet, Yet, Yet> {
    let input_sender = SecretAddress::create();
    let reliever = SecretAddress::create();
    let output_receiver = SecretAddress::create().to_public_address();
    let miner = SecretAddress::create();

    // Miner will take 1 + 10 - 9 = 2 coin under this situation
    let tx = {
        let input = Transfer::offer(&input_sender, reliever.to_public_address(), Coin::from(10));
        let output = Transfer::offer(&reliever, output_receiver, Coin::from(9));
        Transaction::offer(
            &reliever,
            vec![Transition::Transfer(input)],
            vec![Transition::Transfer(output)],
        )
        .verify_transaction()
        .unwrap()
    };

    // Block search process
    let height = BlockHeight::genesis();
    let previous_digest = BlockDigest::digest(&Vec::new());
    let nonce = 0;

    let mut block_source = BlockSource::new(
        height,
        vec![tx],
        previous_digest,
        difficulty(),
        nonce,
        &miner,
        generation_reward(),
    )
    .unwrap();

    // Proof of work
    loop {
        block_source.set_nonce(rand::random());

        match block_source.try_into_block() {
            Ok(block) => break block,
            Err(source) => block_source = source,
        }
    }
}

#[test]
fn test_genesis_pow_process() {
    let difficulty = difficulty();
    let block = create_unverified_genesis_block();

    let block = block.verify_transaction_relation(generation_reward()).unwrap();
    let block = block.verify_utxo(true).unwrap();
    let block = block.verify_digest().unwrap();
    let block = block.verify_previous_block(None, None).unwrap();
    let block = block.verify_difficulty(&difficulty).unwrap();

    // The coinbase pays the reward plus the fee surplus to the miner.
    let coinbase_quantity = block
        .transactions()
        .iter()
        .find(|tx| tx.inputs().is_empty())
        .map(|tx| tx.outputs()[0].quantity())
        .unwrap();
    assert_eq!(Coin::from(2), coinbase_quantity);

    // Wire round trip, then the whole verification process again.
    let ser = encode_block(&block);
    let de = decode_block(&ser).unwrap();

    let de = de.verify_transaction_itself().unwrap();
    let de = de.verify_transaction_relation(generation_reward()).unwrap();
    let de = de.verify_utxo(true).unwrap();
    let de = de.verify_digest().unwrap();
    let de = de.verify_previous_block(None, None).unwrap();
    let de = de.verify_difficulty(&difficulty).unwrap();

    assert_eq!(de, block);
}

#[test]
fn test_verify_transaction_relation_too_much_quantity() {
    let block = create_unverified_genesis_block();
    // Block coin generation is too much under a zero reward
    let block = block.verify_transaction_relation(Coin::from(0));

    assert_eq!(Err(BlockError::TransactionQuantity), block);
}

#[test]
fn test_verify_transaction_relation_too_few_quantity() {
    let block = create_unverified_genesis_block();
    // Block coin generation is too few under a large reward
    let block = block.verify_transaction_relation(Coin::from(10000));

    assert_eq!(Err(BlockError::TransactionQuantity), block);
}

#[test]
fn test_verify_utxo_fail() {
    let block = create_unverified_genesis_block();
    let block = block.verify_transaction_relation(generation_reward()).unwrap();

    let block = block.verify_utxo(false);

    assert_eq!(Err(BlockError::Utxo), block);
}

#[test]
fn test_verify_digest_fail() {
    let block = create_unverified_genesis_block();
    let block = block.verify_transaction_relation(generation_reward()).unwrap();

    // Data tampering!
    let ser = encode_block(&block);
    let unverified = decode_block(&ser).unwrap();
    let tampered = Block::from_parts(
        unverified.height().next(),
        unverified.transactions().clone(),
        unverified.timestamp(),
        unverified.previous_digest().clone(),
        *unverified.difficulty(),
        unverified.nonce(),
        unverified.digest().clone(),
    );

    let tampered = tampered.verify_digest();

    assert_eq!(Err(BlockError::Digest), tampered);
}

#[test]
fn test_verify_difficulty_fail() {
    let block = create_unverified_genesis_block();
    let block = block.verify_transaction_relation(generation_reward()).unwrap();

    let too_difficult = Difficulty::new(255);

    let block = block.verify_difficulty(&too_difficult);

    assert_eq!(Err(BlockError::InsufficientDifficulty), block);
}

#[test]
fn test_mined_block_meets_own_difficulty() {
    let block = create_unverified_genesis_block();

    // The found digest has at least as many leading zero bits as the
    // block's difficulty demands.
    assert!(block.difficulty().verify_digest(block.digest()));
    // One notch harder than the block claims is always turned away.
    let harder = Difficulty::new(2);
    let rejected = block.verify_difficulty(&harder);
    assert_eq!(Err(BlockError::InsufficientDifficulty), rejected);
}
