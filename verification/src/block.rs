//! Blocks and the staged verification pipeline.

use vstd::prelude::*;
use core::marker::PhantomData;
use vstd::bytes::{spec_u64_to_le_bytes, u64_to_le_bytes};
use vstd::multiset::Multiset;
use crate::account::{SecretAddress, secret_address_wf};
use crate::coin::Coin;
use crate::difficulty::{Difficulty, spec_leading_zeros};
use crate::digest::{BlockDigest, spec_sha256};
use crate::signature::{SignatureBuilder, SignatureSource};
use crate::timestamp::Timestamp;
use crate::transaction::{Transaction, TransactionError, TransactionV};
use crate::transition::{
    Generation, Transition, TransitionV, TransferError, spec_quantity_sum,
    spec_transfer_quantity_sum,
};
use crate::verification::{Verified, Yet};

verus! {

/// A 64-bit block height; genesis is 0.
#[derive(Debug, Clone, Copy, PartialEq, Eq, PartialOrd, Ord, Hash, Structural)]
pub struct BlockHeight(u64);

impl View for BlockHeight {
    type V = u64;

    closed spec fn view(&self) -> u64 {
        self.0
    }
}

impl BlockHeight {
    /// The height of the genesis block.
    pub fn genesis() -> (r: Self)
        ensures
            r@ == 0,
    {
        Self(0)
    }

    /// The height above this one.
    pub fn next(self) -> (r: Self)
        requires
            self@ < u64::MAX,
        ensures
            r@ == self@ + 1,
    {
        Self(self.0 + 1)
    }

    /// The height below this one; none below genesis.
    pub fn previous(self) -> (r: Option<Self>)
        ensures
            match r {
                Some(h) => self@ > 0 && h@ == self@ - 1,
                None => self@ == 0,
            },
    {
        match self.0.checked_sub(1) {
            Some(h) => Some(Self(h)),
            None => None,
        }
    }

    /// The raw height.
    pub fn value(&self) -> (r: u64)
        ensures
            r == self@,
    {
        self.0
    }

    /// Wrap a raw height.
    pub fn from_value(v: u64) -> (r: Self)
        ensures
            r@ == v,
    {
        Self(v)
    }
}

impl SignatureSource for BlockHeight {
    open spec fn source_bytes(&self) -> Seq<u8> {
        spec_u64_to_le_bytes(self@)
    }

    fn write_bytes(&self, builder: &mut SignatureBuilder) {
        let bytes = u64_to_le_bytes(self.0);
        builder.write_bytes(bytes.as_slice());
    }
}

/// The views of a sequence of transactions.
pub open spec fn txs_view<A, B>(s: Seq<Transaction<A, B>>) -> Seq<TransactionV> {
    s.map_values(|t: Transaction<A, B>| t@)
}

/// Views distribute over push.
pub proof fn lemma_txs_view_push<A, B>(s: Seq<Transaction<A, B>>, x: Transaction<A, B>)
    ensures
        txs_view(s.push(x)) == txs_view(s).push(x@),
{
    assert forall|j: int| 0 <= j < s.len() + 1 implies #[trigger] txs_view(s.push(x))[j]
        == txs_view(s).push(x@)[j] by {
        if j < s.len() {
            assert(s.push(x)[j] == s[j]);
        } else {
            assert(s.push(x)[j] == x);
        }
    }
    assert(txs_view(s.push(x)) =~= txs_view(s).push(x@));
}

/// Views distribute over removal.
pub proof fn lemma_txs_view_remove<A, B>(s: Seq<Transaction<A, B>>, i: int)
    requires
        0 <= i < s.len(),
    ensures
        txs_view(s.remove(i)) == txs_view(s).remove(i),
{
    assert forall|j: int| 0 <= j < s.len() - 1 implies #[trigger] txs_view(s.remove(i))[j]
        == txs_view(s).remove(i)[j] by {
        if j < i {
            assert(s.remove(i)[j] == s[j]);
        } else {
            assert(s.remove(i)[j] == s[j + 1]);
        }
    }
    assert(txs_view(s.remove(i)) =~= txs_view(s).remove(i));
}

/// The canonical bytes of a sequence of transactions: each one's source,
/// concatenated with no delimiter.
pub open spec fn spec_txs_source(s: Seq<TransactionV>) -> Seq<u8>
    decreases s.len(),
{
    if s.len() == 0 {
        Seq::empty()
    } else {
        s[0].source() + spec_txs_source(s.drop_first())
    }
}

/// Concatenated sources grow one source at a time.
pub proof fn lemma_txs_source_push(s: Seq<TransactionV>, x: TransactionV)
    ensures
        spec_txs_source(s.push(x)) == spec_txs_source(s) + x.source(),
    decreases s.len(),
{
    if s.len() == 0 {
        assert(s.push(x)[0] == x);
        assert(s.push(x).drop_first() =~= Seq::<TransactionV>::empty());
        assert(x.source() + spec_txs_source(Seq::<TransactionV>::empty()) =~= x.source());
        assert(spec_txs_source(s) + x.source() =~= x.source());
    } else {
        assert(s.push(x)[0] == s[0]);
        assert(s.push(x).drop_first() =~= s.drop_first().push(x));
        lemma_txs_source_push(s.drop_first(), x);
        assert(spec_txs_source(s.push(x)) == s[0].source() + (spec_txs_source(s.drop_first())
            + x.source()));
        assert(s[0].source() + (spec_txs_source(s.drop_first()) + x.source()) =~= (s[0].source()
            + spec_txs_source(s.drop_first())) + x.source());
    }
}

/// Append the canonical bytes of each transaction in order.
fn write_txs<A, B>(txs: &Vec<Transaction<A, B>>, builder: &mut SignatureBuilder)
    ensures
        final(builder)@ == old(builder)@ + spec_txs_source(txs_view(txs@)),
{
    let ghost views = txs_view(txs@);
    let mut i: usize = 0;
    while i < txs.len()
        invariant
            i <= txs@.len(),
            views == txs_view(txs@),
            builder@ == old(builder)@ + spec_txs_source(views.take(i as int)),
        decreases txs@.len() - i,
    {
        txs[i].write_bytes(builder);
        proof {
            assert(views.take(i + 1) =~= views.take(i as int).push(views[i as int]));
            lemma_txs_source_push(views.take(i as int), views[i as int]);
            assert(views[i as int] == txs@[i as int]@);
        }
        i = i + 1;
    }
    proof {
        assert(views.take(views.len() as int) =~= views);
    }
}

/// The sum of all input quantities across a sequence of transactions.
pub open spec fn spec_txs_inputs_sum(s: Seq<TransactionV>) -> int
    decreases s.len(),
{
    if s.len() == 0 {
        0
    } else {
        spec_quantity_sum(s[0].inputs) + spec_txs_inputs_sum(s.drop_first())
    }
}

/// The sum of all output quantities across a sequence of transactions.
pub open spec fn spec_txs_outputs_sum(s: Seq<TransactionV>) -> int
    decreases s.len(),
{
    if s.len() == 0 {
        0
    } else {
        spec_quantity_sum(s[0].outputs) + spec_txs_outputs_sum(s.drop_first())
    }
}

/// Block-level quantity sums grow one transaction at a time.
pub proof fn lemma_txs_sums_push(s: Seq<TransactionV>, x: TransactionV)
    ensures
        spec_txs_inputs_sum(s.push(x)) == spec_txs_inputs_sum(s) + spec_quantity_sum(x.inputs),
        spec_txs_outputs_sum(s.push(x)) == spec_txs_outputs_sum(s) + spec_quantity_sum(x.outputs),
    decreases s.len(),
{
    assert(s.push(x).len() == s.len() + 1);
    if s.len() == 0 {
        assert(s.push(x)[0] == x);
        assert(s.push(x).drop_first() =~= Seq::<TransactionV>::empty());
        assert(spec_txs_inputs_sum(s.push(x)) == spec_quantity_sum(x.inputs)
            + spec_txs_inputs_sum(s.push(x).drop_first()));
        assert(spec_txs_inputs_sum(Seq::<TransactionV>::empty()) == 0);
        assert(spec_txs_outputs_sum(Seq::<TransactionV>::empty()) == 0);
    } else {
        assert(s.push(x)[0] == s[0]);
        assert(s.push(x).drop_first() =~= s.drop_first().push(x));
        lemma_txs_sums_push(s.drop_first(), x);
        assert(spec_txs_inputs_sum(s.push(x)) == spec_quantity_sum(s[0].inputs)
            + spec_txs_inputs_sum(s.drop_first().push(x)));
        assert(spec_txs_inputs_sum(s) == spec_quantity_sum(s[0].inputs) + spec_txs_inputs_sum(
            s.drop_first(),
        ));
        assert(spec_txs_outputs_sum(s.push(x)) == spec_quantity_sum(s[0].outputs)
            + spec_txs_outputs_sum(s.drop_first().push(x)));
        assert(spec_txs_outputs_sum(s) == spec_quantity_sum(s[0].outputs) + spec_txs_outputs_sum(
            s.drop_first(),
        ));
    }
}

/// Block-level quantity sums are never negative.
pub proof fn lemma_txs_sums_nonneg(s: Seq<TransactionV>)
    ensures
        spec_txs_inputs_sum(s) >= 0,
        spec_txs_outputs_sum(s) >= 0,
    decreases s.len(),
{
    if s.len() > 0 {
        crate::transition::lemma_quantity_sum_bounds(s[0].inputs);
        crate::transition::lemma_quantity_sum_bounds(s[0].outputs);
        lemma_txs_sums_nonneg(s.drop_first());
    }
}

/// A prefix never sums to more than the whole.
pub proof fn lemma_txs_sums_take_le(s: Seq<TransactionV>, i: int)
    requires
        0 <= i <= s.len(),
    ensures
        spec_txs_inputs_sum(s.take(i)) <= spec_txs_inputs_sum(s),
        spec_txs_outputs_sum(s.take(i)) <= spec_txs_outputs_sum(s),
    decreases s.len() - i,
{
    if i == s.len() {
        assert(s.take(i) =~= s);
    } else {
        assert(s.take(i + 1) =~= s.take(i).push(s[i]));
        lemma_txs_sums_push(s.take(i), s[i]);
        crate::transition::lemma_quantity_sum_bounds(s[i].inputs);
        crate::transition::lemma_quantity_sum_bounds(s[i].outputs);
        lemma_txs_sums_take_le(s, i + 1);
    }
}

/// The sum of all input quantities of the transactions, exact in 128 bits.
fn sum_txs_inputs<A, B>(txs: &Vec<Transaction<A, B>>) -> (r: u128)
    requires
        spec_txs_inputs_sum(txs_view(txs@)) <= u128::MAX,
    ensures
        r == spec_txs_inputs_sum(txs_view(txs@)),
{
    let ghost views = txs_view(txs@);
    let mut acc: u128 = 0;
    let mut i: usize = 0;
    while i < txs.len()
        invariant
            i <= txs@.len(),
            views == txs_view(txs@),
            spec_txs_inputs_sum(views) <= u128::MAX,
            acc == spec_txs_inputs_sum(views.take(i as int)),
        decreases txs@.len() - i,
    {
        proof {
            assert(views[i as int] == txs@[i as int]@);
            assert(views.take(i + 1) =~= views.take(i as int).push(views[i as int]));
            lemma_txs_sums_push(views.take(i as int), views[i as int]);
            lemma_txs_sums_take_le(views, i + 1);
            crate::transition::lemma_quantity_sum_bounds(views[i as int].inputs);
        }
        let tx_sum = crate::transition::sum_quantities(txs[i].inputs());
        acc = acc + tx_sum;
        i = i + 1;
    }
    proof {
        assert(views.take(views.len() as int) =~= views);
    }
    acc
}

/// The sum of all output quantities of the transactions, exact in 128
/// bits.
fn sum_txs_outputs<A, B>(txs: &Vec<Transaction<A, B>>) -> (r: u128)
    requires
        spec_txs_outputs_sum(txs_view(txs@)) <= u128::MAX,
    ensures
        r == spec_txs_outputs_sum(txs_view(txs@)),
{
    let ghost views = txs_view(txs@);
    let mut acc: u128 = 0;
    let mut i: usize = 0;
    while i < txs.len()
        invariant
            i <= txs@.len(),
            views == txs_view(txs@),
            spec_txs_outputs_sum(views) <= u128::MAX,
            acc == spec_txs_outputs_sum(views.take(i as int)),
        decreases txs@.len() - i,
    {
        proof {
            assert(views[i as int] == txs@[i as int]@);
            assert(views.take(i + 1) =~= views.take(i as int).push(views[i as int]));
            lemma_txs_sums_push(views.take(i as int), views[i as int]);
            lemma_txs_sums_take_le(views, i + 1);
            crate::transition::lemma_quantity_sum_bounds(views[i as int].outputs);
        }
        let tx_sum = crate::transition::sum_quantities(txs[i].outputs());
        acc = acc + tx_sum;
        i = i + 1;
    }
    proof {
        assert(views.take(views.len() as int) =~= views);
    }
    acc
}

/// The mathematical value of a block.
pub ghost struct BlockV {
    pub height: u64,
    pub transactions: Seq<TransactionV>,
    pub timestamp: i64,
    pub previous_digest: Seq<u8>,
    pub difficulty: u8,
    pub nonce: u64,
    pub digest: Seq<u8>,
}

impl BlockV {
    /// The canonical bytes of every field but the nonce, in order: height,
    /// transactions, timestamp, previous digest, difficulty.
    pub open spec fn source_except_nonce(self) -> Seq<u8> {
        spec_u64_to_le_bytes(self.height) + spec_txs_source(self.transactions)
            + spec_u64_to_le_bytes(self.timestamp as u64) + self.previous_digest + seq![
            self.difficulty,
        ]
    }

    /// The canonical digest source: all fields but the digest itself, the
    /// nonce last.
    pub open spec fn source(self) -> Seq<u8> {
        self.source_except_nonce() + spec_u64_to_le_bytes(self.nonce)
    }

    /// Field sizes are as the primitives demand, all transactions
    /// included.
    pub open spec fn wf(self) -> bool {
        &&& self.previous_digest.len() == 32
        &&& self.digest.len() == 32
        &&& forall|i: int| 0 <= i < self.transactions.len() ==> (#[trigger] self.transactions[
        i]).wf()
    }

    /// Every transaction passes its own verification, transitions
    /// included.
    pub open spec fn txs_verified(self) -> bool {
        forall|i: int| 0 <= i < self.transactions.len() ==> (#[trigger] self.transactions[
        i]).branch_sigs_ok() && self.transactions[i].valid()
    }

    /// No transaction is newer than the block.
    pub open spec fn tx_timestamps_ok(self) -> bool {
        forall|i: int| 0 <= i < self.transactions.len() ==> (#[trigger] self.transactions[
        i]).timestamp <= self.timestamp
    }

    /// The transactions are ordered by non-decreasing timestamp.
    pub open spec fn txs_sorted(self) -> bool {
        forall|i: int, j: int|
            0 <= i < j < self.transactions.len() ==> (#[trigger] self.transactions[i]).timestamp
                <= (#[trigger] self.transactions[j]).timestamp
    }

    /// Conservation: all inputs plus the block reward equal all outputs.
    pub open spec fn conserves(self, reward: u64) -> bool {
        spec_txs_inputs_sum(self.transactions) + reward == spec_txs_outputs_sum(self.transactions)
    }

    /// The stored digest is the SHA-256 of the canonical source.
    pub open spec fn digest_ok(self) -> bool {
        self.digest == spec_sha256(self.source())
    }

    /// The digest meets the expected difficulty, and the block claims at
    /// least that difficulty.
    pub open spec fn pow_ok(self, expected: u8) -> bool {
        &&& self.difficulty >= expected
        &&& spec_leading_zeros(self.digest) >= expected
    }
}

/// Why a block fails verification.
#[derive(Debug, Clone, Copy, PartialEq, Eq, Structural)]
pub enum BlockError {
    /// A transaction fails its own verification.
    Transaction(TransactionError),
    /// The block's quantities do not balance with the reward.
    TransactionQuantity,
    /// A transaction is newer than the block, or they are unsorted.
    TransactionTimestamp,
    /// An input is no live UTXO, or an output already exists.
    Utxo,
    /// The previous-block link is wrong.
    Chain,
    /// The stored digest does not match the recomputed one.
    Digest,
    /// The block claims less than the expected difficulty.
    InsufficientDifficulty,
    /// The digest does not meet the expected difficulty.
    PoWFailure,
}

/// Whether a transaction passes its full verification.
pub open spec fn spec_tx_ok(tx: TransactionV) -> bool {
    tx.branch_sigs_ok() && tx.valid()
}

/// The error the first failing transaction reports, or `None` when all
/// pass.
pub open spec fn spec_txs_verify_result(s: Seq<TransactionV>) -> Option<TransactionError>
    decreases s.len(),
{
    if s.len() == 0 {
        None
    } else if !spec_tx_ok(s[0]) {
        Some(
            if !s[0].branch_sigs_ok() {
                TransactionError::Transfer(TransferError)
            } else {
                s[0].verify_error()
            },
        )
    } else {
        spec_txs_verify_result(s.drop_first())
    }
}

/// A block in the staged verification pipeline. Each marker is `Yet` or
/// `Verified`:
/// - `VT`: each transaction checked by itself;
/// - `VTS`: the transactions' relation to the block (timestamps, order,
///   conservation under the reward rule);
/// - `VU`: the UTXO judgement;
/// - `VP`: the previous-block link;
/// - `VDG`: the digest recomputation;
/// - `VDI`: the proof-of-work difficulty.
#[derive(Debug, PartialEq)]
pub struct Block<VT, VTS, VU, VP, VDG, VDI> {
    height: BlockHeight,
    transactions: Vec<Transaction<VT, VT>>,
    timestamp: Timestamp,
    previous_digest: BlockDigest,
    difficulty: Difficulty,
    nonce: u64,
    digest: BlockDigest,
    _phantom: PhantomData<(VTS, VU, VP, VDG, VDI)>,
}

impl<VT, VTS, VU, VP, VDG, VDI> View for Block<VT, VTS, VU, VP, VDG, VDI> {
    type V = BlockV;

    closed spec fn view(&self) -> BlockV {
        BlockV {
            height: self.height@,
            transactions: txs_view(self.transactions@),
            timestamp: self.timestamp@,
            previous_digest: self.previous_digest@,
            difficulty: self.difficulty@,
            nonce: self.nonce,
            digest: self.digest@,
        }
    }
}

impl<VT, VTS, VU, VP, VDG, VDI> Block<VT, VTS, VU, VP, VDG, VDI> {
    /// The block height.
    pub fn height(&self) -> (r: BlockHeight)
        ensures
            r@ == self@.height,
    {
        self.height
    }

    /// The transactions, in block order.
    pub fn transactions(&self) -> (r: &Vec<Transaction<VT, VT>>)
        ensures
            txs_view(r@) == self@.transactions,
    {
        &self.transactions
    }

    /// The block creation instant.
    pub fn timestamp(&self) -> (r: Timestamp)
        ensures
            r@ == self@.timestamp,
    {
        self.timestamp
    }

    /// The digest of the previous block.
    pub fn previous_digest(&self) -> (r: &BlockDigest)
        ensures
            r@ == self@.previous_digest,
    {
        &self.previous_digest
    }

    /// The difficulty the block was mined at.
    pub fn difficulty(&self) -> (r: &Difficulty)
        ensures
            r@ == self@.difficulty,
    {
        &self.difficulty
    }

    /// The proof-of-work nonce.
    pub fn nonce(&self) -> (r: u64)
        ensures
            r == self@.nonce,
    {
        self.nonce
    }

    /// The block's own digest.
    pub fn digest(&self) -> (r: &BlockDigest)
        ensures
            r@ == self@.digest,
    {
        &self.digest
    }
}

impl Block<Yet, Yet, Yet, Yet, Yet, Yet> {
    /// Rebuild a wholly unverified block from its parts, as a wire decoder
    /// or a test does.
    pub fn from_parts(
        height: BlockHeight,
        transactions: Vec<Transaction<Yet, Yet>>,
        timestamp: Timestamp,
        previous_digest: BlockDigest,
        difficulty: Difficulty,
        nonce: u64,
        digest: BlockDigest,
    ) -> (r: Block<Yet, Yet, Yet, Yet, Yet, Yet>)
        ensures
            r@ == (BlockV {
                height: height@,
                transactions: txs_view(transactions@),
                timestamp: timestamp@,
                previous_digest: previous_digest@,
                difficulty: difficulty@,
                nonce: nonce,
                digest: digest@,
            }),
    {
        Block {
            height,
            transactions,
            timestamp,
            previous_digest,
            difficulty,
            nonce,
            digest,
            _phantom: PhantomData,
        }
    }
}

impl<VTS, VU, VP, VDG, VDI> Block<Yet, VTS, VU, VP, VDG, VDI> {
    /// Verify each transaction by itself, signatures and internal
    /// invariants; the first failure stops the walk.
    pub fn verify_transaction_itself(self) -> (r: Result<
        Block<Verified, VTS, VU, VP, VDG, VDI>,
        BlockError,
    >)
        requires
            self@.wf(),
        ensures
            match r {
                Ok(b) => b@ == self@ && self@.txs_verified() && spec_txs_verify_result(
                    self@.transactions,
                ) is None,
                Err(e) => match spec_txs_verify_result(self@.transactions) {
                    Some(te) => e == BlockError::Transaction(te) && !self@.txs_verified(),
                    None => false,
                },
            },
    {
        let ghost views = txs_view(self.transactions@);
        proof {
            assert(views.skip(0) =~= views);
        }
        let mut verified: Vec<Transaction<Verified, Verified>> = Vec::new();
        let mut i: usize = 0;
        while i < self.transactions.len()
            invariant
                i <= self.transactions@.len(),
                views == txs_view(self.transactions@),
                forall|j: int| 0 <= j < views.len() ==> (#[trigger] views[j]).wf(),
                txs_view(verified@) == views.take(i as int),
                forall|j: int| 0 <= j < i ==> spec_tx_ok(#[trigger] views[j]),
                spec_txs_verify_result(views) == spec_txs_verify_result(views.skip(i as int)),
            decreases self.transactions@.len() - i,
        {
            proof {
                assert(views[i as int] == self.transactions@[i as int]@);
                assert(views.skip(i as int)[0] == views[i as int]);
                assert(views.skip(i as int).drop_first() =~= views.skip(i + 1));
            }
            let tx = self.transactions[i].clone();
            match tx.verify() {
                Ok(vt) => {
                    let ghost old_verified = verified@;
                    verified.push(vt);
                    proof {
                        lemma_txs_view_push(old_verified, verified@[i as int]);
                        assert(views.take(i + 1) =~= views.take(i as int).push(views[i as int]));
                        assert(txs_view(verified@) =~= views.take(i + 1));
                    }
                },
                Err(e) => {
                    return Err(BlockError::Transaction(e));
                },
            }
            i = i + 1;
        }
        proof {
            assert(views.take(views.len() as int) =~= views);
            assert(views.skip(views.len() as int).len() == 0);
        }
        Ok(
            Block {
                height: self.height,
                transactions: verified,
                timestamp: self.timestamp,
                previous_digest: self.previous_digest,
                difficulty: self.difficulty,
                nonce: self.nonce,
                digest: self.digest,
                _phantom: PhantomData,
            },
        )
    }
}

impl<VT, VU, VP, VDG, VDI> Block<VT, Yet, VU, VP, VDG, VDI> {
    /// Check the transactions' relation to the block: none newer than the
    /// block, sorted by timestamp, and conservation of value under the
    /// given reward.
    pub fn verify_transaction_relation(self, reward: Coin) -> (r: Result<
        Block<VT, Verified, VU, VP, VDG, VDI>,
        BlockError,
    >)
        requires
            spec_txs_inputs_sum(self@.transactions) + reward@ <= u64::MAX,
            spec_txs_outputs_sum(self@.transactions) <= u64::MAX,
        ensures
            match r {
                Ok(b) => {
                    &&& b@ == self@
                    &&& self@.tx_timestamps_ok()
                    &&& self@.txs_sorted()
                    &&& self@.conserves(reward@)
                },
                Err(e) => {
                    &&& !(self@.tx_timestamps_ok() && self@.txs_sorted() && self@.conserves(
                        reward@,
                    ))
                    &&& e == if !self@.tx_timestamps_ok() || !self@.txs_sorted() {
                        BlockError::TransactionTimestamp
                    } else {
                        BlockError::TransactionQuantity
                    }
                },
            },
    {
        if !all_tx_timestamps_le(&self.transactions, self.timestamp) {
            return Err(BlockError::TransactionTimestamp);
        }
        if !txs_sorted_by_timestamp(&self.transactions) {
            return Err(BlockError::TransactionTimestamp);
        }
        proof {
            lemma_txs_sums_nonneg(self@.transactions);
        }
        let in_qty = sum_txs_inputs(&self.transactions);
        let o_qty = sum_txs_outputs(&self.transactions);
        let r_qty = reward.value() as u128;
        if in_qty + r_qty != o_qty {
            return Err(BlockError::TransactionQuantity);
        }
        Ok(
            Block {
                height: self.height,
                transactions: self.transactions,
                timestamp: self.timestamp,
                previous_digest: self.previous_digest,
                difficulty: self.difficulty,
                nonce: self.nonce,
                digest: self.digest,
                _phantom: PhantomData,
            },
        )
    }
}

impl<VP, VDG, VDI> Block<Verified, Verified, Yet, VP, VDG, VDI> {
    /// Record the UTXO oracle's judgement on this block's transactions:
    /// the caller must have checked that every input is a live UTXO and
    /// every output is not yet present.
    pub fn verify_utxo(self, all_utxo: bool) -> (r: Result<
        Block<Verified, Verified, Verified, VP, VDG, VDI>,
        BlockError,
    >)
        ensures
            match r {
                Ok(b) => b@ == self@ && all_utxo,
                Err(e) => e == BlockError::Utxo && !all_utxo,
            },
    {
        if all_utxo {
            Ok(
                Block {
                    height: self.height,
                    transactions: self.transactions,
                    timestamp: self.timestamp,
                    previous_digest: self.previous_digest,
                    difficulty: self.difficulty,
                    nonce: self.nonce,
                    digest: self.digest,
                    _phantom: PhantomData,
                },
            )
        } else {
            Err(BlockError::Utxo)
        }
    }
}

impl<VT, VTS, VU, VDG, VDI> Block<VT, VTS, VU, Yet, VDG, VDI> {
    /// Check the previous-block link against what the chain context knows
    /// of the height below: its digest and its timestamp. A genesis block
    /// has no link and passes.
    pub fn verify_previous_block(
        self,
        previous_digest: Option<&BlockDigest>,
        previous_timestamp: Option<Timestamp>,
    ) -> (r: Result<Block<VT, VTS, VU, Verified, VDG, VDI>, BlockError>)
        ensures
            match r {
                Ok(b) => {
                    &&& b@ == self@
                    &&& self@.height > 0 ==> {
                        &&& previous_digest is Some
                        &&& previous_timestamp is Some
                        &&& previous_digest->0@ == self@.previous_digest
                        &&& previous_timestamp->0@ < self@.timestamp
                    }
                },
                Err(e) => {
                    &&& e == BlockError::Chain
                    &&& self@.height > 0
                    &&& !{
                        &&& previous_digest is Some
                        &&& previous_timestamp is Some
                        &&& previous_digest->0@ == self@.previous_digest
                        &&& previous_timestamp->0@ < self@.timestamp
                    }
                },
            },
    {
        match self.height.previous() {
            Some(_) => {
                let link_ok = match (previous_digest, previous_timestamp) {
                    (Some(digest), Some(stamp)) => {
                        digest == &self.previous_digest && stamp.lt(&self.timestamp)
                    },
                    _ => false,
                };
                if link_ok {
                    Ok(
                        Block {
                            height: self.height,
                            transactions: self.transactions,
                            timestamp: self.timestamp,
                            previous_digest: self.previous_digest,
                            difficulty: self.difficulty,
                            nonce: self.nonce,
                            digest: self.digest,
                            _phantom: PhantomData,
                        },
                    )
                } else {
                    Err(BlockError::Chain)
                }
            },
            None => Ok(
                Block {
                    height: self.height,
                    transactions: self.transactions,
                    timestamp: self.timestamp,
                    previous_digest: self.previous_digest,
                    difficulty: self.difficulty,
                    nonce: self.nonce,
                    digest: self.digest,
                    _phantom: PhantomData,
                },
            ),
        }
    }
}

impl<VT, VTS, VU, VP, VDI> Block<VT, VTS, VU, VP, Yet, VDI> {
    /// Recompute the digest from the canonical encoding of all fields and
    /// compare it with the stored one.
    pub fn verify_digest(self) -> (r: Result<Block<VT, VTS, VU, VP, Verified, VDI>, BlockError>)
        ensures
            match r {
                Ok(b) => b@ == self@ && self@.digest_ok(),
                Err(e) => e == BlockError::Digest && !self@.digest_ok(),
            },
    {
        let mut builder = SignatureBuilder::new();
        build_digest_source_except_nonce(
            self.height,
            &self.transactions,
            self.timestamp,
            &self.previous_digest,
            &self.difficulty,
            &mut builder,
        );
        let nonce_bytes = u64_to_le_bytes(self.nonce);
        builder.write_bytes(nonce_bytes.as_slice());
        let source = builder.finalize();
        proof {
            assert(source@ =~= self@.source());
        }
        let digest = BlockDigest::digest(&source);
        if digest == self.digest {
            Ok(
                Block {
                    height: self.height,
                    transactions: self.transactions,
                    timestamp: self.timestamp,
                    previous_digest: self.previous_digest,
                    difficulty: self.difficulty,
                    nonce: self.nonce,
                    digest: self.digest,
                    _phantom: PhantomData,
                },
            )
        } else {
            Err(BlockError::Digest)
        }
    }
}

impl<VT, VTS, VU, VP, VDG> Block<VT, VTS, VU, VP, VDG, Yet> {
    /// Check the proof of work: the block claims at least the expected
    /// difficulty, and its digest meets the expected difficulty.
    pub fn verify_difficulty(self, expected_difficulty: &Difficulty) -> (r: Result<
        Block<VT, VTS, VU, VP, VDG, Verified>,
        BlockError,
    >)
        ensures
            match r {
                Ok(b) => b@ == self@ && self@.pow_ok(expected_difficulty@),
                Err(e) => {
                    &&& !self@.pow_ok(expected_difficulty@)
                    &&& e == if self@.difficulty < expected_difficulty@ {
                        BlockError::InsufficientDifficulty
                    } else {
                        BlockError::PoWFailure
                    }
                },
            },
    {
        if !expected_difficulty.le(&self.difficulty) {
            return Err(BlockError::InsufficientDifficulty);
        }
        if expected_difficulty.verify_digest(&self.digest) {
            Ok(
                Block {
                    height: self.height,
                    transactions: self.transactions,
                    timestamp: self.timestamp,
                    previous_digest: self.previous_digest,
                    difficulty: self.difficulty,
                    nonce: self.nonce,
                    digest: self.digest,
                    _phantom: PhantomData,
                },
            )
        } else {
            Err(BlockError::PoWFailure)
        }
    }
}

impl<VT, VTS, VU, VP, VDG, VDI> Clone for Block<VT, VTS, VU, VP, VDG, VDI> {
    fn clone(&self) -> (r: Self)
        ensures
            r@ == self@,
    {
        Block {
            height: self.height,
            transactions: clone_txs(&self.transactions),
            timestamp: self.timestamp,
            previous_digest: self.previous_digest.clone(),
            difficulty: self.difficulty,
            nonce: self.nonce,
            digest: self.digest.clone(),
            _phantom: PhantomData,
        }
    }
}

/// A copy of a vector of transactions.
fn clone_txs<A, B>(v: &Vec<Transaction<A, B>>) -> (r: Vec<Transaction<A, B>>)
    ensures
        txs_view(r@) == txs_view(v@),
{
    let mut out: Vec<Transaction<A, B>> = Vec::new();
    let mut i: usize = 0;
    while i < v.len()
        invariant
            i <= v@.len(),
            txs_view(out@) == txs_view(v@).take(i as int),
        decreases v@.len() - i,
    {
        let ghost old_out = out@;
        out.push(v[i].clone());
        proof {
            lemma_txs_view_push(old_out, out@[i as int]);
            assert(txs_view(v@).take(i + 1) =~= txs_view(v@).take(i as int).push(
                txs_view(v@)[i as int],
            ));
            assert(txs_view(out@) =~= txs_view(v@).take(i + 1));
        }
        i = i + 1;
    }
    proof {
        assert(txs_view(v@).take(v@.len() as int) =~= txs_view(v@));
    }
    out
}

/// Whether every transaction's timestamp is at or before the bound.
fn all_tx_timestamps_le<A, B>(v: &Vec<Transaction<A, B>>, bound: Timestamp) -> (r: bool)
    ensures
        r == (forall|i: int|
            0 <= i < txs_view(v@).len() ==> (#[trigger] txs_view(v@)[i]).timestamp <= bound@),
{
    let ghost views = txs_view(v@);
    let mut i: usize = 0;
    while i < v.len()
        invariant
            i <= v@.len(),
            views == txs_view(v@),
            forall|j: int| 0 <= j < i ==> (#[trigger] views[j]).timestamp <= bound@,
        decreases v@.len() - i,
    {
        proof {
            assert(views[i as int] == v@[i as int]@);
        }
        let ts = v[i].timestamp();
        if !ts.le(&bound) {
            return false;
        }
        i = i + 1;
    }
    true
}

/// Whether the transactions are ordered by non-decreasing timestamp.
fn txs_sorted_by_timestamp<A, B>(v: &Vec<Transaction<A, B>>) -> (r: bool)
    ensures
        r == (forall|i: int, j: int|
            0 <= i < j < txs_view(v@).len() ==> (#[trigger] txs_view(v@)[i]).timestamp
                <= (#[trigger] txs_view(v@)[j]).timestamp),
{
    let ghost views = txs_view(v@);
    if v.len() == 0 {
        return true;
    }
    let mut i: usize = 1;
    while i < v.len()
        invariant
            1 <= i <= v@.len(),
            v@.len() >= 1,
            views == txs_view(v@),
            forall|j: int, k: int|
                0 <= j < k < i ==> (#[trigger] views[j]).timestamp <= (
                #[trigger] views[k]).timestamp,
        decreases v@.len() - i,
    {
        proof {
            assert(views[i - 1] == v@[i - 1]@);
            assert(views[i as int] == v@[i as int]@);
        }
        let a = v[i - 1].timestamp();
        let b = v[i].timestamp();
        if !a.le(&b) {
            return false;
        }
        proof {
            assert forall|j: int, k: int| 0 <= j < k < i + 1 implies (
            #[trigger] views[j]).timestamp <= (#[trigger] views[k]).timestamp by {
                if k < i as int {
                } else {
                    if j < i - 1 {
                        assert(views[j].timestamp <= views[i - 1].timestamp);
                    }
                }
            }
        }
        i = i + 1;
    }
    true
}

/// Well-formed, fully checked transactions stay so under any
/// rearrangement.
pub proof fn lemma_txs_multiset_all_ok(s: Seq<TransactionV>, t: Seq<TransactionV>)
    requires
        s.to_multiset() == t.to_multiset(),
        forall|i: int| 0 <= i < s.len() ==> (#[trigger] s[i]).wf(),
        forall|i: int| 0 <= i < s.len() ==> spec_tx_ok(#[trigger] s[i]),
    ensures
        forall|i: int| 0 <= i < t.len() ==> (#[trigger] t[i]).wf(),
        forall|i: int| 0 <= i < t.len() ==> spec_tx_ok(#[trigger] t[i]),
{
    broadcast use vstd::seq_lib::group_to_multiset_ensures;

    assert forall|i: int| 0 <= i < t.len() implies (#[trigger] t[i]).wf() && spec_tx_ok(t[i]) by {
        assert(t.contains(t[i]));
        assert(t.to_multiset().count(t[i]) > 0);
        assert(s.to_multiset().count(t[i]) > 0);
        assert(s.contains(t[i]));
        let j = choose|j: int| 0 <= j < s.len() && s[j] == t[i];
        assert(s[j].wf());
        assert(spec_tx_ok(s[j]));
    }
}

/// The index of a transaction with the earliest timestamp.
fn find_min_timestamp_index(v: &Vec<Transaction<Verified, Verified>>) -> (r: usize)
    requires
        v@.len() > 0,
    ensures
        r < v@.len(),
        forall|j: int| 0 <= j < txs_view(v@).len() ==> (#[trigger] txs_view(v@)[r as int]).timestamp
            <= (#[trigger] txs_view(v@)[j]).timestamp,
{
    let ghost views = txs_view(v@);
    let mut m: usize = 0;
    let mut k: usize = 1;
    while k < v.len()
        invariant
            m < k <= v@.len() || (m == 0 && k <= v@.len()),
            m < v@.len(),
            views == txs_view(v@),
            forall|j: int| 0 <= j < k ==> (#[trigger] views[m as int]).timestamp <= (
            #[trigger] views[j]).timestamp,
        decreases v@.len() - k,
    {
        proof {
            assert(views[k as int] == v@[k as int]@);
            assert(views[m as int] == v@[m as int]@);
        }
        let a = v[k].timestamp();
        let b = v[m].timestamp();
        if a.lt(&b) {
            m = k;
        }
        k = k + 1;
    }
    m
}

/// Sort the transactions by non-decreasing timestamp; the result holds
/// exactly the given transactions.
fn sort_txs_by_timestamp(v: Vec<Transaction<Verified, Verified>>) -> (r: Vec<
    Transaction<Verified, Verified>,
>)
    ensures
        txs_view(r@).to_multiset() == txs_view(v@).to_multiset(),
        forall|i: int, j: int|
            0 <= i < j < txs_view(r@).len() ==> (#[trigger] txs_view(r@)[i]).timestamp
                <= (#[trigger] txs_view(r@)[j]).timestamp,
{
    broadcast use vstd::seq_lib::group_to_multiset_ensures;

    let ghost orig = txs_view(v@);
    let mut rest = v;
    let mut out: Vec<Transaction<Verified, Verified>> = Vec::new();
    while rest.len() > 0
        invariant
            txs_view(out@).to_multiset().add(txs_view(rest@).to_multiset()) == orig.to_multiset(),
            forall|i: int, j: int|
                0 <= i < j < txs_view(out@).len() ==> (#[trigger] txs_view(out@)[i]).timestamp
                    <= (#[trigger] txs_view(out@)[j]).timestamp,
            forall|i: int, j: int|
                0 <= i < txs_view(out@).len() && 0 <= j < txs_view(rest@).len() ==> (
                #[trigger] txs_view(out@)[i]).timestamp <= (#[trigger] txs_view(
                    rest@,
                )[j]).timestamp,
        decreases rest@.len(),
    {
        let ghost rest_seq = rest@;
        let ghost rest_views = txs_view(rest@);
        let ghost out_views = txs_view(out@);
        let m = find_min_timestamp_index(&rest);
        let tx = rest.remove(m);
        let ghost x = rest_views[m as int];
        proof {
            broadcast use vstd::seq_lib::group_to_multiset_ensures;

            lemma_txs_view_remove(rest_seq, m as int);
            assert(tx@ == x);
            assert(rest_views.contains(x));
            assert(rest_views.to_multiset().count(x) > 0);
        }
        let ghost old_out = out@;
        out.push(tx);
        proof {
            broadcast use vstd::seq_lib::group_to_multiset_ensures;

            lemma_txs_view_push(old_out, tx);
            assert(txs_view(out@) == out_views.push(x));
            assert(txs_view(rest@) == rest_views.remove(m as int));
            assert(txs_view(out@).to_multiset() =~= out_views.to_multiset().insert(x));
            assert(txs_view(rest@).to_multiset() =~= rest_views.to_multiset().remove(x));
            assert(txs_view(out@).to_multiset().add(txs_view(rest@).to_multiset())
                =~= orig.to_multiset());
            // The appended transaction keeps the output sorted: it is no
            // earlier than anything already out, and no later than
            // anything still in.
            assert forall|i: int, j: int|
                0 <= i < j < txs_view(out@).len() implies (#[trigger] txs_view(
                out@,
            )[i]).timestamp <= (#[trigger] txs_view(out@)[j]).timestamp by {
                if j < out_views.len() {
                    assert(txs_view(out@)[i] == out_views[i]);
                    assert(txs_view(out@)[j] == out_views[j]);
                } else {
                    assert(txs_view(out@)[j] == x);
                    assert(txs_view(out@)[i] == out_views[i]);
                    assert(out_views[i].timestamp <= rest_views[m as int].timestamp);
                }
            }
            assert forall|i: int, j: int|
                0 <= i < txs_view(out@).len() && 0 <= j < txs_view(rest@).len() implies (
            #[trigger] txs_view(out@)[i]).timestamp <= (#[trigger] txs_view(
                rest@,
            )[j]).timestamp by {
                let rj = if j < m as int {
                    j
                } else {
                    j + 1
                };
                assert(txs_view(rest@)[j] == rest_views[rj]);
                if i < out_views.len() {
                    assert(txs_view(out@)[i] == out_views[i]);
                    assert(out_views[i].timestamp <= rest_views[rj].timestamp);
                } else {
                    assert(txs_view(out@)[i] == x);
                    assert(rest_views[m as int].timestamp <= rest_views[rj].timestamp);
                }
            }
        }
    }
    proof {
        assert(txs_view(rest@).len() == 0);
        assert(txs_view(rest@).to_multiset() =~= Multiset::<TransactionV>::empty());
        assert(txs_view(out@).to_multiset().add(Multiset::<TransactionV>::empty()) =~= txs_view(
            out@,
        ).to_multiset());
    }
    out
}

/// The mathematical value of a block candidate under assembly.
pub ghost struct BlockSourceV {
    pub height: u64,
    pub transactions: Seq<TransactionV>,
    pub timestamp: i64,
    pub previous_digest: Seq<u8>,
    pub difficulty: u8,
    pub nonce: u64,
    pub cached_prefix: Seq<u8>,
}

impl BlockSourceV {
    /// The block this candidate turns into under a given digest.
    pub open spec fn candidate(self, digest: Seq<u8>) -> BlockV {
        BlockV {
            height: self.height,
            transactions: self.transactions,
            timestamp: self.timestamp,
            previous_digest: self.previous_digest,
            difficulty: self.difficulty,
            nonce: self.nonce,
            digest: digest,
        }
    }

    /// The cached prefix is the canonical bytes of everything but the
    /// nonce, the transactions all pass verification, and sizes are as
    /// the primitives demand.
    pub open spec fn wf(self) -> bool {
        &&& self.cached_prefix == self.candidate(Seq::empty()).source_except_nonce()
        &&& self.previous_digest.len() == 32
        &&& forall|i: int| 0 <= i < self.transactions.len() ==> (#[trigger] self.transactions[
        i]).wf()
        &&& forall|i: int| 0 <= i < self.transactions.len() ==> spec_tx_ok(
            #[trigger] self.transactions[i],
        )
    }
}

/// A candidate block being mined: all fields are fixed but the nonce, and
/// the canonical bytes of everything but the nonce are cached so one
/// proof-of-work attempt only appends eight bytes and hashes.
#[derive(Debug)]
pub struct BlockSource {
    height: BlockHeight,
    transactions: Vec<Transaction<Verified, Verified>>,
    timestamp: Timestamp,
    previous_digest: BlockDigest,
    difficulty: Difficulty,
    nonce: u64,
    digest_source_except_nonce: Vec<u8>,
}

impl View for BlockSource {
    type V = BlockSourceV;

    closed spec fn view(&self) -> BlockSourceV {
        BlockSourceV {
            height: self.height@,
            transactions: txs_view(self.transactions@),
            timestamp: self.timestamp@,
            previous_digest: self.previous_digest@,
            difficulty: self.difficulty@,
            nonce: self.nonce,
            cached_prefix: self.digest_source_except_nonce@,
        }
    }
}

impl BlockSource {
    /// Assemble a block candidate: build and verify the coinbase
    /// transaction paying `reward` plus the fee surplus to the reward
    /// receiver, append it, sort all transactions by timestamp, stamp the
    /// current time, and cache the canonical bytes.
    ///
    /// The only failure is a coinbase stamped out of time order by the
    /// clock.
    pub fn new(
        height: BlockHeight,
        transactions: Vec<Transaction<Verified, Verified>>,
        previous_digest: BlockDigest,
        difficulty: Difficulty,
        nonce: u64,
        reward_receiver: &SecretAddress,
        reward: Coin,
    ) -> (r: Result<BlockSource, TransactionError>)
        requires
            secret_address_wf(*reward_receiver),
            crate::digest::digest_wf(previous_digest@),
            forall|i: int| 0 <= i < txs_view(transactions@).len() ==> (#[trigger] txs_view(
                transactions@,
            )[i]).wf(),
            forall|i: int| 0 <= i < txs_view(transactions@).len() ==> spec_tx_ok(
                #[trigger] txs_view(transactions@)[i],
            ),
            spec_txs_inputs_sum(txs_view(transactions@)) + reward@ <= u64::MAX,
            spec_txs_outputs_sum(txs_view(transactions@)) <= reward@ + spec_txs_inputs_sum(
                txs_view(transactions@),
            ),
            spec_txs_outputs_sum(txs_view(transactions@)) <= u64::MAX,
        ensures
            match r {
                Ok(s) => {
                    &&& s@.wf()
                    &&& s@.height == height@
                    &&& s@.previous_digest == previous_digest@
                    &&& s@.difficulty == difficulty@
                    &&& s@.nonce == nonce
                    &&& exists|c: TransactionV|
                        {
                            &&& #[trigger] spec_tx_ok(c)
                            &&& c.contractor == reward_receiver.public_view()
                            &&& c.inputs.len() == 0
                            &&& c.outputs.len() == 1
                            &&& c.outputs[0] matches TransitionV::Generation(g)
                                && g.receiver == reward_receiver.public_view() && g.quantity
                                == reward@ + spec_txs_inputs_sum(txs_view(transactions@))
                                - spec_txs_outputs_sum(txs_view(transactions@))
                            &&& s@.transactions.to_multiset() == txs_view(transactions@).push(
                                c,
                            ).to_multiset()
                        }
                    &&& forall|i: int, j: int|
                        0 <= i < j < s@.transactions.len() ==> (
                        #[trigger] s@.transactions[i]).timestamp <= (
                        #[trigger] s@.transactions[j]).timestamp
                },
                Err(e) => e == TransactionError::InvalidTimestamp,
            },
    {
        let ghost orig_views = txs_view(transactions@);
        proof {
            lemma_txs_sums_nonneg(orig_views);
        }
        let in_qty = sum_txs_inputs(&transactions);
        let o_qty = sum_txs_outputs(&transactions);
        let r_qty_wide = reward.value() as u128 + in_qty - o_qty;
        let r_qty = Coin::from(r_qty_wide as u64);

        proof {
            assert(r_qty@ == reward@ + spec_txs_inputs_sum(orig_views) - spec_txs_outputs_sum(
                orig_views,
            ));
        }
        let gen = Generation::offer(reward_receiver, r_qty);
        let ghost gen_view = gen@;
        let gen_transition = Transition::Generation(gen);
        let ghost gt = gen_transition@;
        proof {
            crate::transition::lemma_transition_view(&gen_transition);
        }
        let mut outputs: Vec<Transition<Verified>> = Vec::new();
        outputs.push(gen_transition);
        let inputs: Vec<Transition<Verified>> = Vec::new();
        proof {
            assert(gt == TransitionV::Generation(gen_view));
            assert(outputs@.len() == 1);
            assert(crate::transition::transitions_view(outputs@)[0] == outputs@[0]@);
            assert(outputs@[0]@ == gt);
            assert(crate::transition::transitions_view(outputs@) =~= seq![
                TransitionV::Generation(gen_view),
            ]);
            assert(crate::transition::transitions_view(inputs@) =~= Seq::<TransitionV>::empty());
        }
        let gen_tx_unverified = Transaction::offer(reward_receiver, inputs, outputs);
        let ghost gv = gen_tx_unverified@;
        proof {
            // Every transaction-level check but the timestamp one holds of
            // the coinbase by construction.
            assert(gv.outputs.len() == 1);
            assert(gv.inputs.len() == 0);
            assert(gv.inputs_from_contractor());
            assert(gv.outputs[0] == TransitionV::Generation(gen_view));
            assert(gv.outputs_by_contractor());
            assert(spec_quantity_sum(gv.inputs) == 0);
            assert(spec_transfer_quantity_sum(gv.outputs) == (if gv.outputs[0].is_transfer() {
                gv.outputs[0].quantity() as int
            } else {
                0
            }) + spec_transfer_quantity_sum(gv.outputs.drop_first()));
            assert(gv.outputs.drop_first().len() == 0);
            assert(spec_transfer_quantity_sum(gv.outputs.drop_first()) == 0);
            assert(gv.quantities_balanced());
            assert(gv.wf());
        }
        let gen_tx = match gen_tx_unverified.verify_transaction() {
            Ok(gen_tx) => gen_tx,
            Err(e) => {
                proof {
                    assert(e == TransactionError::InvalidTimestamp);
                }
                return Err(e);
            },
        };
        proof {
            assert(gen_tx@ == gv);
            assert(spec_tx_ok(gv));
        }

        let mut all_txs = transactions;
        let ghost before_push = all_txs@;
        all_txs.push(gen_tx);
        proof {
            lemma_txs_view_push(before_push, all_txs@[all_txs@.len() - 1]);
            assert(txs_view(all_txs@) == orig_views.push(gv));
        }
        let sorted_txs = sort_txs_by_timestamp(all_txs);
        proof {
            assert forall|i: int| 0 <= i < orig_views.push(gv).len() implies (
            #[trigger] orig_views.push(gv)[i]).wf() && spec_tx_ok(orig_views.push(gv)[i]) by {
                if i < orig_views.len() {
                    assert(orig_views.push(gv)[i] == orig_views[i]);
                } else {
                    assert(orig_views.push(gv)[i] == gv);
                }
            }
            lemma_txs_multiset_all_ok(orig_views.push(gv), txs_view(sorted_txs@));
        }

        let timestamp = Timestamp::now();
        let mut builder = SignatureBuilder::new();
        build_digest_source_except_nonce(
            height,
            &sorted_txs,
            timestamp,
            &previous_digest,
            &difficulty,
            &mut builder,
        );
        let digest_source_except_nonce = builder.finalize();
        let source = BlockSource {
            height,
            transactions: sorted_txs,
            timestamp,
            previous_digest,
            difficulty,
            nonce,
            digest_source_except_nonce,
        };
        proof {
            assert(source@.cached_prefix =~= source@.candidate(
                Seq::empty(),
            ).source_except_nonce());
            // The coinbase itself witnesses the promised shape of the
            // assembled transaction list.
            assert(spec_tx_ok(gv));
            assert(gv.contractor == reward_receiver.public_view());
            assert(gv.inputs.len() == 0);
            assert(gv.outputs.len() == 1);
            assert(gv.outputs[0] == TransitionV::Generation(gen_view));
            assert(gen_view.receiver == reward_receiver.public_view());
            assert(gen_view.quantity == reward@ + spec_txs_inputs_sum(orig_views)
                - spec_txs_outputs_sum(orig_views));
            assert(source@.transactions.to_multiset() == orig_views.push(gv).to_multiset());
            assert(exists|c: TransactionV|
                {
                    &&& #[trigger] spec_tx_ok(c)
                    &&& c.contractor == reward_receiver.public_view()
                    &&& c.inputs.len() == 0
                    &&& c.outputs.len() == 1
                    &&& c.outputs[0] matches TransitionV::Generation(g) && g.receiver
                        == reward_receiver.public_view() && g.quantity == reward@
                        + spec_txs_inputs_sum(txs_view(transactions@)) - spec_txs_outputs_sum(
                        txs_view(transactions@),
                    )
                    &&& source@.transactions.to_multiset() == txs_view(transactions@).push(
                        c,
                    ).to_multiset()
                }) by {
                assert(spec_tx_ok(gv));
                assert(gv.outputs[0] matches TransitionV::Generation(g) && g.receiver
                    == reward_receiver.public_view() && g.quantity == reward@
                    + spec_txs_inputs_sum(orig_views) - spec_txs_outputs_sum(orig_views));
            }
            assert(source@.wf());
            assert(source@.height == height@);
            assert(source@.previous_digest == previous_digest@);
            assert(source@.difficulty == difficulty@);
            assert(source@.nonce == nonce);
            assert(forall|i: int, j: int|
                0 <= i < j < source@.transactions.len() ==> (
                #[trigger] source@.transactions[i]).timestamp <= (
                #[trigger] source@.transactions[j]).timestamp);
        }
        Ok(source)
    }

    /// Replace the proof-of-work nonce.
    pub fn set_nonce(&mut self, nonce: u64)
        ensures
            final(self)@ == (BlockSourceV { nonce, ..old(self)@ }),
    {
        self.nonce = nonce;
    }

    /// The current proof-of-work nonce.
    pub fn nonce(&self) -> (r: u64)
        ensures
            r == self@.nonce,
    {
        self.nonce
    }

    /// One proof-of-work attempt: hash the cached prefix plus the nonce.
    /// If the digest meets this candidate's difficulty, the result is a
    /// block whose transactions are verified and whose digest is its
    /// canonical hash; otherwise the candidate comes back unchanged.
    pub fn try_into_block(self) -> (r: Result<
        Block<Verified, Yet, Yet, Yet, Yet, Yet>,
        BlockSource,
    >)
        requires
            self@.wf(),
        ensures
            match r {
                Ok(b) => {
                    &&& b@ == self@.candidate(spec_sha256(self@.candidate(Seq::empty()).source()))
                    &&& b@.digest_ok()
                    &&& b@.wf()
                    &&& b@.txs_verified()
                    &&& spec_leading_zeros(b@.digest) >= self@.difficulty
                },
                Err(s) => {
                    &&& s@ == self@
                    &&& spec_leading_zeros(
                        spec_sha256(self@.candidate(Seq::empty()).source()),
                    ) < self@.difficulty
                },
            },
    {
        let mut builder = SignatureBuilder::from(crate::bytesutil::clone_bytes(
            &self.digest_source_except_nonce,
        ));
        let nonce_bytes = u64_to_le_bytes(self.nonce);
        builder.write_bytes(nonce_bytes.as_slice());
        let source = builder.finalize();
        proof {
            assert(source@ =~= self@.candidate(Seq::empty()).source());
        }
        let digest = BlockDigest::digest(&source);
        if self.difficulty.verify_digest(&digest) {
            let block = Block {
                height: self.height,
                transactions: self.transactions,
                timestamp: self.timestamp,
                previous_digest: self.previous_digest,
                difficulty: self.difficulty,
                nonce: self.nonce,
                digest,
                _phantom: PhantomData,
            };
            proof {
                assert(block@.source() =~= self@.candidate(Seq::empty()).source());
            }
            Ok(block)
        } else {
            Err(self)
        }
    }
}

/// Append a block's canonical bytes, the nonce left out: height,
/// transactions, timestamp, previous digest, difficulty.
fn build_digest_source_except_nonce<A, B>(
    height: BlockHeight,
    transactions: &Vec<Transaction<A, B>>,
    timestamp: Timestamp,
    previous_digest: &BlockDigest,
    difficulty: &Difficulty,
    builder: &mut SignatureBuilder,
)
    ensures
        final(builder)@ == old(builder)@ + (spec_u64_to_le_bytes(height@) + spec_txs_source(
            txs_view(transactions@),
        ) + spec_u64_to_le_bytes(timestamp@ as u64) + previous_digest@ + seq![difficulty@]),
{
    height.write_bytes(builder);
    write_txs(transactions, builder);
    timestamp.write_bytes(builder);
    previous_digest.write_bytes(builder);
    difficulty.write_bytes(builder);
    proof {
        assert(builder@ =~= old(builder)@ + (spec_u64_to_le_bytes(height@) + spec_txs_source(
            txs_view(transactions@),
        ) + spec_u64_to_le_bytes(timestamp@ as u64) + previous_digest@ + seq![difficulty@]));
    }
}

} // verus!
