//! A small proof-of-work blockchain ledger core.
//!
//! The crate models coins, timestamps, difficulties, transitions (transfers
//! and coin generations), transactions, blocks with a staged verification
//! pipeline, and a block-tree ledger with fork storage, longest-chain lookup
//! and UTXO replay. Cryptographic primitives (SHA-256, Ed25519, hex) are
//! reached through thin trusted wrappers; everything around them is verified.

pub mod account;
pub mod block;
pub mod bytesutil;
pub mod coin;
pub mod difficulty;
pub mod digest;
pub mod ledger;
pub mod pace_maker;
pub mod signature;
pub mod timestamp;
pub mod transaction;
pub mod transition;
pub mod verification;
pub mod wire;

use vstd::prelude::*;

verus! {

/// A transaction fresh off the wire, nothing checked yet.
pub type UnverifiedTransaction = transaction::Transaction<verification::Yet, verification::Yet>;

/// A transaction whose transitions and whose own checks all passed.
pub type VerifiedTransaction = transaction::Transaction<
    verification::Verified,
    verification::Verified,
>;

/// A block fresh off the wire, nothing checked yet.
pub type UnverifiedBlock = block::Block<
    verification::Yet,
    verification::Yet,
    verification::Yet,
    verification::Yet,
    verification::Yet,
    verification::Yet,
>;

/// A block that passed all six verification stages; only these may enter
/// the ledger.
pub type VerifiedBlock = block::Block<
    verification::Verified,
    verification::Verified,
    verification::Verified,
    verification::Verified,
    verification::Verified,
    verification::Verified,
>;

} // verus!

pub use account::{Address, SecretAddress};
pub use coin::Coin;
pub use difficulty::Difficulty;
pub use verification::{Verified, Yet};
