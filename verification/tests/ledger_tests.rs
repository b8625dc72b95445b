use blockchain_core::block::{BlockHeight, BlockSource};
use blockchain_core::block::BlockError;
use blockchain_core::digest::BlockDigest;
use blockchain_core::ledger::{Ledger, LedgerError};
use blockchain_core::transition::{Transfer, Transition};
use blockchain_core::{Coin, Difficulty, SecretAddress, VerifiedBlock, VerifiedTransaction};

fn reward() -> Coin {
    Coin::from(5)
}

fn difficulty() -> Difficulty {
    // Every digest passes, so one attempt mines a block.
    Difficulty::new(0)
}

/// Mine a block on the given parent digest and height, run the pipeline
/// stages the miner runs, and raise the remaining two against the ledger.
fn mine_on(
    ledger: &Ledger,
    height: BlockHeight,
    previous_digest: BlockDigest,
    transactions: Vec<VerifiedTransaction>,
    miner: &SecretAddress,
) -> Result<VerifiedBlock, LedgerError> {
    let source = BlockSource::new(
        height,
        transactions,
        previous_digest,
        difficulty(),
        rand::random(),
        miner,
        reward(),
    )
    .unwrap();
    let block = source.try_into_block().unwrap();
    let block = block.verify_transaction_relation(reward()).unwrap();
    let block = block.verify_difficulty(&difficulty()).unwrap();
    let block = block.verify_digest().unwrap();
    ledger.verify_block(block)
}

#[test]
fn test_duplicated_block_is_swallowed() {
    let miner = SecretAddress::create();
    let mut ledger = Ledger::new();

    let genesis = mine_on(
        &ledger,
        BlockHeight::genesis(),
        BlockDigest::digest(&Vec::new()),
        Vec::new(),
        &miner,
    )
    .unwrap();
    ledger.entry(genesis.clone()).unwrap();

    let b1 = mine_on(
        &ledger,
        BlockHeight::genesis().next(),
        genesis.digest().clone(),
        Vec::new(),
        &miner,
    )
    .unwrap();
    ledger.entry(b1.clone()).unwrap();

    // Ingesting the same block again is refused and changes nothing.
    assert_eq!(Err(LedgerError::DuplicatedBlock), ledger.entry(b1.clone()));
    assert_eq!(
        b1.digest().clone(),
        ledger.search_latest_block().unwrap().digest().clone()
    );

    // A second genesis block is refused outright.
    assert_eq!(
        Err(LedgerError::DuplicatedGenesisBlock),
        ledger.entry(genesis)
    );
}

#[test]
fn test_double_spend_rejected() {
    let miner = SecretAddress::create();
    let holder = SecretAddress::create();
    let spender_a = SecretAddress::create().to_public_address();
    let spender_b = SecretAddress::create().to_public_address();
    let mut ledger = Ledger::new();

    // Genesis: the coinbase pays 5 coin to the miner (`holder` mines it).
    let genesis = mine_on(
        &ledger,
        BlockHeight::genesis(),
        BlockDigest::digest(&Vec::new()),
        Vec::new(),
        &holder,
    )
    .unwrap();
    ledger.entry(genesis.clone()).unwrap();

    // The genesis coinbase output is the one live transition.
    let coinbase_output = genesis.transactions()[0].outputs()[0].clone();

    // Block 1 spends it: 4 coin to A, 1 coin fee to the next miner.
    let spend_a = blockchain_core::transaction::Transaction::offer(
        &holder,
        vec![coinbase_output.clone()],
        vec![Transition::Transfer(Transfer::offer(&holder, spender_a, Coin::from(4)))],
    )
    .verify_transaction()
    .unwrap();
    let b1 = mine_on(
        &ledger,
        BlockHeight::genesis().next(),
        genesis.digest().clone(),
        vec![spend_a],
        &miner,
    )
    .unwrap();
    ledger.entry(b1.clone()).unwrap();

    // Block 2 tries to spend the same output again.
    let spend_b = blockchain_core::transaction::Transaction::offer(
        &holder,
        vec![coinbase_output],
        vec![Transition::Transfer(Transfer::offer(&holder, spender_b, Coin::from(5)))],
    )
    .verify_transaction()
    .unwrap();
    let rejected = mine_on(
        &ledger,
        BlockHeight::genesis().next().next(),
        b1.digest().clone(),
        vec![spend_b],
        &miner,
    );

    assert_eq!(Err(LedgerError::Block(BlockError::Utxo)), rejected.map(|_| ()));
}

#[test]
fn test_longest_chain_switch() {
    let miner_a = SecretAddress::create();
    let miner_b = SecretAddress::create();
    let mut ledger = Ledger::new();

    let genesis = mine_on(
        &ledger,
        BlockHeight::genesis(),
        BlockDigest::digest(&Vec::new()),
        Vec::new(),
        &miner_a,
    )
    .unwrap();
    ledger.entry(genesis.clone()).unwrap();

    // Two siblings at height 1.
    let a1 = mine_on(
        &ledger,
        BlockHeight::genesis().next(),
        genesis.digest().clone(),
        Vec::new(),
        &miner_a,
    )
    .unwrap();
    ledger.entry(a1.clone()).unwrap();
    let b1 = mine_on(
        &ledger,
        BlockHeight::genesis().next(),
        genesis.digest().clone(),
        Vec::new(),
        &miner_b,
    )
    .unwrap();
    ledger.entry(b1.clone()).unwrap();

    // B2 extends the B branch to height 2.
    let b2 = mine_on(
        &ledger,
        BlockHeight::genesis().next().next(),
        b1.digest().clone(),
        Vec::new(),
        &miner_b,
    )
    .unwrap();
    ledger.entry(b2.clone()).unwrap();

    // The longest chain now ends at B2.
    let latest = ledger.search_latest_block().unwrap();
    assert_eq!(b2.digest().clone(), latest.digest().clone());

    let chain = ledger.search_latest_chain();
    assert_eq!(3, chain.len());
    assert_eq!(b2.digest().clone(), chain[0].digest().clone());
    assert_eq!(b1.digest().clone(), chain[1].digest().clone());
    assert_eq!(genesis.digest().clone(), chain[2].digest().clone());

    // UTXO replay at B2 sees only the B branch: miner_b earned two
    // coinbase rewards, miner_a's sibling coinbase is not on this chain.
    let b_coins = ledger.build_utxos(b2.digest(), &miner_b.to_public_address());
    assert_eq!(2, b_coins.len());
    let a_coins = ledger.build_utxos(b2.digest(), &miner_a.to_public_address());
    assert_eq!(1, a_coins.len());  // only the genesis coinbase
}

#[test]
fn test_spent_output_left_out_of_utxos() {
    let holder = SecretAddress::create();
    let miner = SecretAddress::create();
    let receiver = SecretAddress::create();
    let mut ledger = Ledger::new();

    let genesis = mine_on(
        &ledger,
        BlockHeight::genesis(),
        BlockDigest::digest(&Vec::new()),
        Vec::new(),
        &holder,
    )
    .unwrap();
    ledger.entry(genesis.clone()).unwrap();

    let coinbase_output = genesis.transactions()[0].outputs()[0].clone();
    let spend = blockchain_core::transaction::Transaction::offer(
        &holder,
        vec![coinbase_output.clone()],
        vec![Transition::Transfer(Transfer::offer(
            &holder,
            receiver.to_public_address(),
            Coin::from(4),
        ))],
    )
    .verify_transaction()
    .unwrap();
    let b1 = mine_on(
        &ledger,
        BlockHeight::genesis().next(),
        genesis.digest().clone(),
        vec![spend],
        &miner,
    )
    .unwrap();
    ledger.entry(b1.clone()).unwrap();

    // The spent coinbase is gone from the holder's UTXOs; the receiver
    // holds the 4-coin transfer.
    let holder_utxos = ledger.build_utxos(b1.digest(), &holder.to_public_address());
    assert!(holder_utxos
        .iter()
        .all(|t| t.sign() != coinbase_output.sign()));
    let receiver_utxos = ledger.build_utxos(b1.digest(), &receiver.to_public_address());
    assert_eq!(1, receiver_utxos.len());
    assert_eq!(Coin::from(4), receiver_utxos[0].quantity());
}

#[test]
fn test_remove_branch_drops_the_subtree() {
    let miner_a = SecretAddress::create();
    let miner_b = SecretAddress::create();
    let mut ledger = Ledger::new();

    let genesis = mine_on(
        &ledger,
        BlockHeight::genesis(),
        BlockDigest::digest(&Vec::new()),
        Vec::new(),
        &miner_a,
    )
    .unwrap();
    ledger.entry(genesis.clone()).unwrap();
    let a1 = mine_on(
        &ledger,
        BlockHeight::genesis().next(),
        genesis.digest().clone(),
        Vec::new(),
        &miner_a,
    )
    .unwrap();
    ledger.entry(a1.clone()).unwrap();
    let b1 = mine_on(
        &ledger,
        BlockHeight::genesis().next(),
        genesis.digest().clone(),
        Vec::new(),
        &miner_b,
    )
    .unwrap();
    ledger.entry(b1.clone()).unwrap();
    let b2 = mine_on(
        &ledger,
        BlockHeight::genesis().next().next(),
        b1.digest().clone(),
        Vec::new(),
        &miner_b,
    )
    .unwrap();
    ledger.entry(b2.clone()).unwrap();

    // Dropping B1 takes B2 with it; the A branch stands.
    let removed = ledger.remove_branch(b1.digest()).unwrap();
    assert_eq!(b1.digest().clone(), removed.digest().clone());
    assert!(ledger.get(b1.digest()).is_none());
    assert!(ledger.get(b2.digest()).is_none());
    assert!(ledger.get(a1.digest()).is_some());
    assert_eq!(
        a1.digest().clone(),
        ledger.search_latest_block().unwrap().digest().clone()
    );

    // An unknown digest removes nothing.
    assert!(ledger.remove_branch(b1.digest()).is_none());
}

#[test]
fn test_isolated_block_rejected() {
    let miner = SecretAddress::create();
    let mut ledger = Ledger::new();

    let genesis = mine_on(
        &ledger,
        BlockHeight::genesis(),
        BlockDigest::digest(&Vec::new()),
        Vec::new(),
        &miner,
    )
    .unwrap();
    ledger.entry(genesis.clone()).unwrap();

    // A block whose parent digest is unknown cannot pass the chain check.
    let stranger = mine_on(
        &ledger,
        BlockHeight::genesis().next(),
        BlockDigest::digest(&vec![1, 2, 3]),
        Vec::new(),
        &miner,
    );
    assert_eq!(
        Err(LedgerError::Block(BlockError::Chain)),
        stranger.map(|_| ())
    );
}
