//! The block-tree ledger: fork storage, longest-chain lookup and UTXO
//! replay.

use vstd::prelude::*;
use crate::account::Address;
use crate::block::{Block, BlockError, BlockV, txs_view};
use crate::digest::BlockDigest;
use crate::signature::Signature;
use crate::transaction::{Transaction, TransactionV};
use crate::transition::{Transition, TransitionV, transitions_view};
use crate::verification::{Verified, Yet};
use crate::VerifiedBlock;

verus! {

/// Whether some live transition carries the given signature.
pub open spec fn spec_sign_in(utxos: Seq<TransitionV>, sign: Seq<u8>) -> bool {
    exists|i: int| 0 <= i < utxos.len() && (#[trigger] utxos[i]).sign() == sign
}

/// The live set with the first transition of the given signature removed.
pub open spec fn spec_remove_sign(utxos: Seq<TransitionV>, sign: Seq<u8>) -> Seq<TransitionV>
    decreases utxos.len(),
{
    if utxos.len() == 0 {
        utxos
    } else if utxos[0].sign() == sign {
        utxos.drop_first()
    } else {
        seq![utxos[0]] + spec_remove_sign(utxos.drop_first(), sign)
    }
}

/// Consume the inputs in order: each must be live by signature, and
/// leaves the set.
pub open spec fn spec_apply_inputs(utxos: Seq<TransitionV>, inputs: Seq<TransitionV>) -> Result<
    Seq<TransitionV>,
    TransferHistoryError,
>
    decreases inputs.len(),
{
    if inputs.len() == 0 {
        Ok(utxos)
    } else if !spec_sign_in(utxos, inputs[0].sign()) {
        Err(TransferHistoryError::Unlisted)
    } else {
        spec_apply_inputs(spec_remove_sign(utxos, inputs[0].sign()), inputs.drop_first())
    }
}

/// Add the outputs in order: none may be live by signature already.
pub open spec fn spec_apply_outputs(utxos: Seq<TransitionV>, outputs: Seq<TransitionV>) -> Result<
    Seq<TransitionV>,
    TransferHistoryError,
>
    decreases outputs.len(),
{
    if outputs.len() == 0 {
        Ok(utxos)
    } else if spec_sign_in(utxos, outputs[0].sign()) {
        Err(TransferHistoryError::Collision)
    } else {
        spec_apply_outputs(utxos.push(outputs[0]), outputs.drop_first())
    }
}

/// Replay one transaction: consume its inputs, then add its outputs.
pub open spec fn spec_apply_tx(utxos: Seq<TransitionV>, tx: TransactionV) -> Result<
    Seq<TransitionV>,
    TransferHistoryError,
> {
    match spec_apply_inputs(utxos, tx.inputs) {
        Ok(u) => spec_apply_outputs(u, tx.outputs),
        Err(e) => Err(e),
    }
}

/// Replay the transactions in block order.
pub open spec fn spec_apply_txs(utxos: Seq<TransitionV>, txs: Seq<TransactionV>) -> Result<
    Seq<TransitionV>,
    TransferHistoryError,
>
    decreases txs.len(),
{
    if txs.len() == 0 {
        Ok(utxos)
    } else {
        match spec_apply_tx(utxos, txs[0]) {
            Ok(u) => spec_apply_txs(u, txs.drop_first()),
            Err(e) => Err(e),
        }
    }
}

/// All input transitions of a block's transactions, flattened in order.
pub open spec fn spec_block_inputs(txs: Seq<TransactionV>) -> Seq<TransitionV>
    decreases txs.len(),
{
    if txs.len() == 0 {
        Seq::empty()
    } else {
        txs[0].inputs + spec_block_inputs(txs.drop_first())
    }
}

/// Flattened inputs grow one transaction at a time.
pub proof fn lemma_block_inputs_push(txs: Seq<TransactionV>, x: TransactionV)
    ensures
        spec_block_inputs(txs.push(x)) == spec_block_inputs(txs) + x.inputs,
    decreases txs.len(),
{
    if txs.len() == 0 {
        assert(txs.push(x)[0] == x);
        assert(txs.push(x).drop_first() =~= Seq::<TransactionV>::empty());
        assert(x.inputs + spec_block_inputs(Seq::<TransactionV>::empty()) =~= x.inputs);
        assert(spec_block_inputs(txs) + x.inputs =~= x.inputs);
    } else {
        assert(txs.push(x)[0] == txs[0]);
        assert(txs.push(x).drop_first() =~= txs.drop_first().push(x));
        lemma_block_inputs_push(txs.drop_first(), x);
        assert(txs[0].inputs + (spec_block_inputs(txs.drop_first()) + x.inputs) =~= (txs[0].inputs
            + spec_block_inputs(txs.drop_first())) + x.inputs);
    }
}

/// No two inputs anywhere in the block share a signature.
pub open spec fn spec_block_inputs_unique(b: BlockV) -> bool {
    forall|i: int, j: int|
        0 <= i < j < spec_block_inputs(b.transactions).len() ==> (#[trigger] spec_block_inputs(
            b.transactions,
        )[i]).sign() != (#[trigger] spec_block_inputs(b.transactions)[j]).sign()
}

/// Replay a whole block: its inputs must not double-spend among
/// themselves, then its transactions replay in order.
pub open spec fn spec_push_block(utxos: Seq<TransitionV>, b: BlockV) -> Result<
    Seq<TransitionV>,
    TransferHistoryError,
> {
    if !spec_block_inputs_unique(b) {
        Err(TransferHistoryError::DoubleSpending)
    } else {
        spec_apply_txs(utxos, b.transactions)
    }
}

/// Replay a chain of blocks, oldest first.
pub open spec fn spec_replay_chain(utxos: Seq<TransitionV>, blocks: Seq<BlockV>) -> Result<
    Seq<TransitionV>,
    TransferHistoryError,
>
    decreases blocks.len(),
{
    if blocks.len() == 0 {
        Ok(utxos)
    } else {
        match spec_push_block(utxos, blocks[0]) {
            Ok(u) => spec_replay_chain(u, blocks.drop_first()),
            Err(e) => Err(e),
        }
    }
}

/// All output transitions of a block's transactions, flattened in order.
pub open spec fn spec_block_outputs(txs: Seq<TransactionV>) -> Seq<TransitionV>
    decreases txs.len(),
{
    if txs.len() == 0 {
        Seq::empty()
    } else {
        txs[0].outputs + spec_block_outputs(txs.drop_first())
    }
}

/// How often a signature occurs in a list of transitions.
pub open spec fn spec_count_sign(s: Seq<TransitionV>, sign: Seq<u8>) -> int
    decreases s.len(),
{
    if s.len() == 0 {
        0
    } else {
        (if s[0].sign() == sign {
            1int
        } else {
            0int
        }) + spec_count_sign(s.drop_first(), sign)
    }
}

/// Signature counts are never negative.
pub proof fn lemma_count_sign_nonneg(s: Seq<TransitionV>, sign: Seq<u8>)
    ensures
        spec_count_sign(s, sign) >= 0,
    decreases s.len(),
{
    if s.len() > 0 {
        lemma_count_sign_nonneg(s.drop_first(), sign);
    }
}

/// A signature is live exactly when its count is positive.
pub proof fn lemma_sign_in_count(s: Seq<TransitionV>, sign: Seq<u8>)
    ensures
        spec_sign_in(s, sign) <==> spec_count_sign(s, sign) > 0,
    decreases s.len(),
{
    lemma_count_sign_nonneg(s, sign);
    if s.len() > 0 {
        lemma_sign_in_count(s.drop_first(), sign);
        lemma_count_sign_nonneg(s.drop_first(), sign);
        if s[0].sign() == sign {
            assert(spec_sign_in(s, sign));
        } else {
            if spec_sign_in(s, sign) {
                let i = choose|i: int| 0 <= i < s.len() && s[i].sign() == sign;
                assert(s.drop_first()[i - 1] == s[i]);
                assert(spec_sign_in(s.drop_first(), sign));
            }
            if spec_sign_in(s.drop_first(), sign) {
                let i = choose|i: int|
                    0 <= i < s.drop_first().len() && s.drop_first()[i].sign() == sign;
                assert(s[i + 1] == s.drop_first()[i]);
                assert(spec_sign_in(s, sign));
            }
        }
    }
}

/// Counts split over concatenation.
pub proof fn lemma_count_sign_concat(a: Seq<TransitionV>, b: Seq<TransitionV>, sign: Seq<u8>)
    ensures
        spec_count_sign(a + b, sign) == spec_count_sign(a, sign) + spec_count_sign(b, sign),
    decreases a.len(),
{
    if a.len() == 0 {
        assert(a + b =~= b);
    } else {
        assert((a + b)[0] == a[0]);
        assert((a + b).drop_first() =~= a.drop_first() + b);
        lemma_count_sign_concat(a.drop_first(), b, sign);
    }
}

/// Counts grow by one when a transition of the signature is appended.
pub proof fn lemma_count_sign_push(s: Seq<TransitionV>, x: TransitionV, sign: Seq<u8>)
    ensures
        spec_count_sign(s.push(x), sign) == spec_count_sign(s, sign) + (if x.sign() == sign {
            1int
        } else {
            0int
        }),
{
    assert(s.push(x) =~= s + seq![x]);
    lemma_count_sign_concat(s, seq![x], sign);
    assert(seq![x][0] == x);
    assert(seq![x].drop_first() =~= Seq::<TransitionV>::empty());
    assert(spec_count_sign(Seq::<TransitionV>::empty(), sign) == 0);
    assert(spec_count_sign(seq![x], sign) == (if x.sign() == sign {
        1int
    } else {
        0int
    }));
}

/// Removing a live signature takes exactly one occurrence of it away.
pub proof fn lemma_remove_sign_count(u: Seq<TransitionV>, sg: Seq<u8>, sign: Seq<u8>)
    requires
        spec_sign_in(u, sg),
    ensures
        spec_count_sign(spec_remove_sign(u, sg), sign) == spec_count_sign(u, sign) - (if sg == sign {
            1int
        } else {
            0int
        }),
    decreases u.len(),
{
    if u.len() > 0 {
        if u[0].sign() == sg {
            assert(spec_remove_sign(u, sg) == u.drop_first());
            assert(spec_count_sign(u, sign) == (if u[0].sign() == sign {
                1int
            } else {
                0int
            }) + spec_count_sign(u.drop_first(), sign));
        } else {
            assert(spec_sign_in(u.drop_first(), sg)) by {
                let i = choose|i: int| 0 <= i < u.len() && u[i].sign() == sg;
                assert(u.drop_first()[i - 1] == u[i]);
            }
            lemma_remove_sign_count(u.drop_first(), sg, sign);
            lemma_count_sign_concat(seq![u[0]], spec_remove_sign(u.drop_first(), sg), sign);
            assert(seq![u[0]][0] == u[0]);
            assert(seq![u[0]].drop_first() =~= Seq::<TransitionV>::empty());
            assert(spec_count_sign(Seq::<TransitionV>::empty(), sign) == 0);
            assert(spec_count_sign(seq![u[0]], sign) == (if u[0].sign() == sign {
                1int
            } else {
                0int
            }));
            assert(spec_remove_sign(u, sg) == seq![u[0]] + spec_remove_sign(u.drop_first(), sg));
            assert(spec_count_sign(u, sign) == (if u[0].sign() == sign {
                1int
            } else {
                0int
            }) + spec_count_sign(u.drop_first(), sign));
        }
    }
}

/// Consuming inputs lowers each signature's count by the inputs' own
/// count; no input can outrun what is live.
pub proof fn lemma_apply_inputs_counts(
    u: Seq<TransitionV>,
    ins: Seq<TransitionV>,
    f: Seq<TransitionV>,
    sign: Seq<u8>,
)
    requires
        spec_apply_inputs(u, ins) == Ok::<Seq<TransitionV>, TransferHistoryError>(f),
    ensures
        spec_count_sign(f, sign) == spec_count_sign(u, sign) - spec_count_sign(ins, sign),
    decreases ins.len(),
{
    if ins.len() == 0 {
        assert(f == u);
    } else {
        let u2 = spec_remove_sign(u, ins[0].sign());
        lemma_remove_sign_count(u, ins[0].sign(), sign);
        lemma_apply_inputs_counts(u2, ins.drop_first(), f, sign);
    }
}

/// Adding outputs raises each signature's count by the outputs' own
/// count.
pub proof fn lemma_apply_outputs_counts(
    u: Seq<TransitionV>,
    outs: Seq<TransitionV>,
    f: Seq<TransitionV>,
    sign: Seq<u8>,
)
    requires
        spec_apply_outputs(u, outs) == Ok::<Seq<TransitionV>, TransferHistoryError>(f),
    ensures
        spec_count_sign(f, sign) == spec_count_sign(u, sign) + spec_count_sign(outs, sign),
    decreases outs.len(),
{
    if outs.len() == 0 {
        assert(f == u);
    } else {
        lemma_count_sign_push(u, outs[0], sign);
        lemma_apply_outputs_counts(u.push(outs[0]), outs.drop_first(), f, sign);
    }
}

/// Replaying transactions balances each signature: what comes out is what
/// was live, minus all inputs, plus all outputs.
pub proof fn lemma_apply_txs_counts(
    u: Seq<TransitionV>,
    txs: Seq<TransactionV>,
    f: Seq<TransitionV>,
    sign: Seq<u8>,
)
    requires
        spec_apply_txs(u, txs) == Ok::<Seq<TransitionV>, TransferHistoryError>(f),
    ensures
        spec_count_sign(f, sign) == spec_count_sign(u, sign) - spec_count_sign(
            spec_block_inputs(txs),
            sign,
        ) + spec_count_sign(spec_block_outputs(txs), sign),
    decreases txs.len(),
{
    if txs.len() == 0 {
        assert(f == u);
        assert(spec_count_sign(spec_block_inputs(txs), sign) == 0);
        assert(spec_count_sign(spec_block_outputs(txs), sign) == 0);
    } else {
        let mid = spec_apply_tx(u, txs[0]);
        match spec_apply_inputs(u, txs[0].inputs) {
            Ok(u1) => {
                lemma_apply_inputs_counts(u, txs[0].inputs, u1, sign);
                match spec_apply_outputs(u1, txs[0].outputs) {
                    Ok(u2) => {
                        lemma_apply_outputs_counts(u1, txs[0].outputs, u2, sign);
                        lemma_apply_txs_counts(u2, txs.drop_first(), f, sign);
                        lemma_count_sign_concat(
                            txs[0].inputs,
                            spec_block_inputs(txs.drop_first()),
                            sign,
                        );
                        lemma_count_sign_concat(
                            txs[0].outputs,
                            spec_block_outputs(txs.drop_first()),
                            sign,
                        );
                    },
                    Err(_) => {
                        assert(false);
                    },
                }
            },
            Err(_) => {
                assert(false);
            },
        }
    }
}

/// The signature counts of a whole chain's inputs.
pub open spec fn spec_chain_in_count(blocks: Seq<BlockV>, sign: Seq<u8>) -> int
    decreases blocks.len(),
{
    if blocks.len() == 0 {
        0
    } else {
        spec_count_sign(spec_block_inputs(blocks[0].transactions), sign) + spec_chain_in_count(
            blocks.drop_first(),
            sign,
        )
    }
}

/// The signature counts of a whole chain's outputs.
pub open spec fn spec_chain_out_count(blocks: Seq<BlockV>, sign: Seq<u8>) -> int
    decreases blocks.len(),
{
    if blocks.len() == 0 {
        0
    } else {
        spec_count_sign(spec_block_outputs(blocks[0].transactions), sign) + spec_chain_out_count(
            blocks.drop_first(),
            sign,
        )
    }
}

/// No double spend on a replayed chain: when a chain replays cleanly from
/// a starting set, then for every signature, the chain's outputs cover
/// its inputs exactly, up to what was live before and what stays live
/// after. In particular, starting from nothing, every input along the
/// chain consumes a distinct earlier output, and what remains live is
/// exactly the outputs never spent.
pub proof fn lemma_replay_chain_counts(
    u: Seq<TransitionV>,
    blocks: Seq<BlockV>,
    f: Seq<TransitionV>,
    sign: Seq<u8>,
)
    requires
        spec_replay_chain(u, blocks) == Ok::<Seq<TransitionV>, TransferHistoryError>(f),
    ensures
        spec_count_sign(f, sign) == spec_count_sign(u, sign) - spec_chain_in_count(blocks, sign)
            + spec_chain_out_count(blocks, sign),
        spec_chain_in_count(blocks, sign) <= spec_count_sign(u, sign) + spec_chain_out_count(
            blocks,
            sign,
        ),
    decreases blocks.len(),
{
    lemma_count_sign_nonneg(f, sign);
    if blocks.len() == 0 {
        assert(f == u);
    } else {
        match spec_push_block(u, blocks[0]) {
            Ok(u1) => {
                lemma_apply_txs_counts(u, blocks[0].transactions, u1, sign);
                lemma_replay_chain_counts(u1, blocks.drop_first(), f, sign);
            },
            Err(_) => {
                assert(false);
            },
        }
    }
}

/// Why a block's transitions cannot join the UTXO history.
#[derive(Debug, Clone, Copy, PartialEq, Eq, Structural)]
pub enum TransferHistoryError {
    /// An input spends a transition spent earlier in the same block.
    DoubleSpending,
    /// An output's signature is already live.
    Collision,
    /// An input's signature was never a live output.
    Unlisted,
}

/// The set of live (unspent) transitions, keyed by signature.
#[derive(Debug)]
pub(crate) struct TransferHistory {
    utxos: Vec<Transition<Verified>>,
}

impl View for TransferHistory {
    type V = Seq<TransitionV>;

    closed spec fn view(&self) -> Seq<TransitionV> {
        transitions_view(self.utxos@)
    }
}

/// The first live transition carrying the given signature.
fn find_sign_index(v: &Vec<Transition<Verified>>, sign: &Signature) -> (r: Option<usize>)
    ensures
        match r {
            Some(i) => {
                &&& i < transitions_view(v@).len()
                &&& transitions_view(v@)[i as int].sign() == sign@
                &&& forall|j: int|
                    0 <= j < i ==> (#[trigger] transitions_view(v@)[j]).sign() != sign@
            },
            None => !spec_sign_in(transitions_view(v@), sign@),
        },
{
    let ghost views = transitions_view(v@);
    let mut i: usize = 0;
    while i < v.len()
        invariant
            i <= v@.len(),
            views == transitions_view(v@),
            forall|j: int| 0 <= j < i ==> (#[trigger] views[j]).sign() != sign@,
        decreases v@.len() - i,
    {
        proof {
            assert(views[i as int] == v@[i as int]@);
        }
        if v[i].sign() == sign {
            return Some(i);
        }
        i = i + 1;
    }
    proof {
        assert(forall|j: int| 0 <= j < views.len() ==> (#[trigger] views[j]).sign() != sign@);
    }
    None
}

/// Removing the first occurrence of a signature at its found index is
/// what the spec removal does.
proof fn lemma_remove_sign_at(s: Seq<TransitionV>, sign: Seq<u8>, i: int)
    requires
        0 <= i < s.len(),
        s[i].sign() == sign,
        forall|j: int| 0 <= j < i ==> (#[trigger] s[j]).sign() != sign,
    ensures
        spec_remove_sign(s, sign) == s.remove(i),
    decreases i,
{
    if i == 0 {
        assert(s.remove(0) =~= s.drop_first());
    } else {
        assert(s[0].sign() != sign);
        lemma_remove_sign_at(s.drop_first(), sign, i - 1);
        assert(s.drop_first()[i - 1] == s[i]);
        assert(seq![s[0]] + s.drop_first().remove(i - 1) =~= s.remove(i));
    }
}

impl TransferHistory {
    /// An empty history: nothing is live.
    pub(crate) fn new() -> (r: Self)
        ensures
            r@ == Seq::<TransitionV>::empty(),
    {
        proof {
            assert(transitions_view(Seq::<Transition<Verified>>::empty())
                =~= Seq::<TransitionV>::empty());
        }
        TransferHistory { utxos: Vec::new() }
    }

    /// The live transitions, in insertion order.
    pub(crate) fn utxos(&self) -> (r: &Vec<Transition<Verified>>)
        ensures
            transitions_view(r@) == self@,
    {
        &self.utxos
    }

    /// Whether the given transition is live, judged by its signature.
    pub(crate) fn is_utxo(&self, transition: &Transition<Verified>) -> (r: bool)
        ensures
            r == spec_sign_in(self@, transition@.sign()),
    {
        match find_sign_index(&self.utxos, transition.sign()) {
            Some(_) => true,
            None => false,
        }
    }

    /// Replay one block on top of the current history. On any failure the
    /// history is unchanged.
    pub(crate) fn push_block(&mut self, block: &VerifiedBlock) -> (r: Result<
        (),
        TransferHistoryError,
    >)
        ensures
            match r {
                Ok(()) => spec_push_block(old(self)@, block@) == Ok::<_, TransferHistoryError>(
                    final(self)@,
                ),
                Err(e) => spec_push_block(old(self)@, block@) == Err::<Seq<TransitionV>, _>(e)
                    && final(self)@ == old(self)@,
            },
    {
        if !block_inputs_unique(block.transactions()) {
            return Err(TransferHistoryError::DoubleSpending);
        }
        let ghost txs = block@.transactions;
        let ghost start = self@;
        let transactions = block.transactions();
        let mut next = crate::transaction::clone_transitions(&self.utxos);
        proof {
            assert(txs.skip(0) =~= txs);
            assert(transitions_view(next@) == start);
        }
        let mut i: usize = 0;
        while i < transactions.len()
            invariant
                i <= transactions@.len(),
                txs == txs_view(transactions@),
                start == old(self)@,
                self@ == old(self)@,
                spec_block_inputs_unique(block@),
                txs == block@.transactions,
                spec_apply_txs(start, txs) == spec_apply_txs(
                    transitions_view(next@),
                    txs.skip(i as int),
                ),
            decreases transactions@.len() - i,
        {
            proof {
                assert(txs[i as int] == transactions@[i as int]@);
                assert(txs.skip(i as int)[0] == txs[i as int]);
                assert(txs.skip(i as int).drop_first() =~= txs.skip(i + 1));
            }
            match apply_tx(&mut next, &transactions[i]) {
                Ok(()) => {},
                Err(e) => {
                    return Err(e);
                },
            }
            i = i + 1;
        }
        proof {
            assert(txs.skip(txs.len() as int).len() == 0);
        }
        self.utxos = next;
        proof {
            assert(self@ == transitions_view(self.utxos@));
        }
        Ok(())
    }
}

/// Whether no two inputs across the transactions share a signature.
fn block_inputs_unique<A, B>(txs: &Vec<Transaction<A, B>>) -> (r: bool)
    ensures
        r == (forall|i: int, j: int|
            0 <= i < j < spec_block_inputs(txs_view(txs@)).len() ==> (#[trigger] spec_block_inputs(
                txs_view(txs@),
            )[i]).sign() != (#[trigger] spec_block_inputs(txs_view(txs@))[j]).sign()),
{
    let flat = flatten_inputs(txs);
    let ghost fv = spec_block_inputs(txs_view(txs@));
    let mut i: usize = 0;
    while i < flat.len()
        invariant
            i <= flat@.len(),
            transitions_view(flat@) == fv,
            fv == spec_block_inputs(txs_view(txs@)),
            forall|a: int, b: int|
                0 <= a < b < fv.len() && a < i ==> (#[trigger] fv[a]).sign() != (
                #[trigger] fv[b]).sign(),
        decreases flat@.len() - i,
    {
        let mut j: usize = i + 1;
        while j < flat.len()
            invariant
                i < j <= flat@.len(),
                i < flat@.len(),
                transitions_view(flat@) == fv,
                fv == spec_block_inputs(txs_view(txs@)),
                forall|b: int| i < b < j ==> (#[trigger] fv[b]).sign() != fv[i as int].sign(),
            decreases flat@.len() - j,
        {
            proof {
                assert(fv[i as int] == flat@[i as int]@);
                assert(fv[j as int] == flat@[j as int]@);
            }
            if flat[i].sign() == flat[j].sign() {
                proof {
                    assert(fv[i as int].sign() == fv[j as int].sign());
                }
                return false;
            }
            j = j + 1;
        }
        i = i + 1;
    }
    true
}

/// All input transitions of the transactions, flattened in order.
fn flatten_inputs<A, B>(txs: &Vec<Transaction<A, B>>) -> (r: Vec<Transition<A>>)
    ensures
        transitions_view(r@) == spec_block_inputs(txs_view(txs@)),
{
    let ghost views = txs_view(txs@);
    let mut out: Vec<Transition<A>> = Vec::new();
    let mut i: usize = 0;
    while i < txs.len()
        invariant
            i <= txs@.len(),
            views == txs_view(txs@),
            transitions_view(out@) == spec_block_inputs(views.take(i as int)),
        decreases txs@.len() - i,
    {
        proof {
            assert(views[i as int] == txs@[i as int]@);
            assert(views.take(i + 1) =~= views.take(i as int).push(views[i as int]));
            lemma_block_inputs_push(views.take(i as int), views[i as int]);
        }
        let inputs = txs[i].inputs();
        let mut k: usize = 0;
        while k < inputs.len()
            invariant
                k <= inputs@.len(),
                transitions_view(inputs@) == views[i as int].inputs,
                i < views.len(),
                transitions_view(out@) == spec_block_inputs(views.take(i as int))
                    + views[i as int].inputs.take(k as int),
            decreases inputs@.len() - k,
        {
            let ghost old_out = out@;
            out.push(inputs[k].clone());
            proof {
                crate::transition::lemma_transitions_view_push(old_out, out@[out@.len() - 1]);
                assert(out@[out@.len() - 1]@ == views[i as int].inputs[k as int]);
                assert(views[i as int].inputs.take(k + 1) =~= views[i as int].inputs.take(
                    k as int,
                ).push(views[i as int].inputs[k as int]));
                assert(transitions_view(out@) =~= spec_block_inputs(views.take(i as int))
                    + views[i as int].inputs.take(k + 1));
            }
            k = k + 1;
        }
        proof {
            assert(views[i as int].inputs.take(views[i as int].inputs.len() as int)
                =~= views[i as int].inputs);
        }
        i = i + 1;
    }
    proof {
        assert(views.take(views.len() as int) =~= views);
    }
    out
}

/// Replay one transaction on the working set: consume the inputs, then
/// add the outputs. On failure the set may be partially changed; the
/// caller discards it.
fn apply_tx(next: &mut Vec<Transition<Verified>>, tx: &Transaction<Verified, Verified>) -> (r: Result<
    (),
    TransferHistoryError,
>)
    ensures
        match r {
            Ok(()) => spec_apply_tx(transitions_view(old(next)@), tx@) == Ok::<
                _,
                TransferHistoryError,
            >(transitions_view(final(next)@)),
            Err(e) => spec_apply_tx(transitions_view(old(next)@), tx@) == Err::<
                Seq<TransitionV>,
                _,
            >(e),
        },
{
    let ghost start = transitions_view(next@);
    let inputs = tx.inputs();
    proof {
        assert(tx@.inputs.skip(0) =~= tx@.inputs);
    }
    let mut i: usize = 0;
    while i < inputs.len()
        invariant
            i <= inputs@.len(),
            transitions_view(inputs@) == tx@.inputs,
            start == transitions_view(old(next)@),
            spec_apply_inputs(start, tx@.inputs) == spec_apply_inputs(
                transitions_view(next@),
                tx@.inputs.skip(i as int),
            ),
        decreases inputs@.len() - i,
    {
        proof {
            assert(tx@.inputs[i as int] == inputs@[i as int]@);
            assert(tx@.inputs.skip(i as int)[0] == tx@.inputs[i as int]);
            assert(tx@.inputs.skip(i as int).drop_first() =~= tx@.inputs.skip(i + 1));
        }
        match find_sign_index(next, inputs[i].sign()) {
            Some(idx) => {
                let ghost before = next@;
                next.remove(idx);
                proof {
                    crate::transition::lemma_transitions_view_remove(before, idx as int);
                    lemma_remove_sign_at(
                        transitions_view(before),
                        tx@.inputs[i as int].sign(),
                        idx as int,
                    );
                }
            },
            None => {
                return Err(TransferHistoryError::Unlisted);
            },
        }
        i = i + 1;
    }
    proof {
        assert(tx@.inputs.skip(tx@.inputs.len() as int).len() == 0);
    }
    let ghost mid = transitions_view(next@);
    let outputs = tx.outputs();
    proof {
        assert(tx@.outputs.skip(0) =~= tx@.outputs);
    }
    let mut k: usize = 0;
    while k < outputs.len()
        invariant
            k <= outputs@.len(),
            transitions_view(outputs@) == tx@.outputs,
            start == transitions_view(old(next)@),
            spec_apply_inputs(start, tx@.inputs) == Ok::<_, TransferHistoryError>(mid),
            spec_apply_outputs(mid, tx@.outputs) == spec_apply_outputs(
                transitions_view(next@),
                tx@.outputs.skip(k as int),
            ),
        decreases outputs@.len() - k,
    {
        proof {
            assert(tx@.outputs[k as int] == outputs@[k as int]@);
            assert(tx@.outputs.skip(k as int)[0] == tx@.outputs[k as int]);
            assert(tx@.outputs.skip(k as int).drop_first() =~= tx@.outputs.skip(k + 1));
        }
        match find_sign_index(next, outputs[k].sign()) {
            Some(_) => {
                return Err(TransferHistoryError::Collision);
            },
            None => {
                let ghost before = next@;
                next.push(outputs[k].clone());
                proof {
                    crate::transition::lemma_transitions_view_push(before, next@[next@.len() - 1]);
                    assert(next@[next@.len() - 1]@ == tx@.outputs[k as int]);
                }
            },
        }
        k = k + 1;
    }
    proof {
        assert(tx@.outputs.skip(tx@.outputs.len() as int).len() == 0);
    }
    Ok(())
}

/// The mathematical value of one tree node: a block and its parent's
/// index, if any.
pub ghost struct LedgerNodeV {
    pub block: BlockV,
    pub parent: Option<int>,
}

/// One node of the block tree.
#[derive(Debug)]
struct LedgerNode {
    block: VerifiedBlock,
    parent: Option<usize>,
}

impl View for LedgerNode {
    type V = LedgerNodeV;

    closed spec fn view(&self) -> LedgerNodeV {
        LedgerNodeV {
            block: self.block@,
            parent: match self.parent {
                Some(p) => Some(p as int),
                None => None,
            },
        }
    }
}

/// What the ledger knows of every stored block: it went through the
/// pipeline, so its transactions are verified, its digest is its canonical
/// hash, its transactions are ordered and no newer than the block, and
/// its inputs never exceed its outputs.
pub open spec fn stored_block_ok(b: BlockV) -> bool {
    &&& b.wf()
    &&& b.txs_verified()
    &&& b.digest_ok()
    &&& b.txs_sorted()
    &&& b.tx_timestamps_ok()
    &&& crate::block::spec_txs_inputs_sum(b.transactions) <= crate::block::spec_txs_outputs_sum(
        b.transactions,
    )
}

/// The ledger's invariant: node 0 is the only root and sits at height 0;
/// every other node points at an earlier parent whose digest it links to,
/// whose height it tops by one and whose timestamp it follows; digests
/// are unique; and every stored block passed the pipeline.
pub open spec fn ledger_wf(l: Seq<LedgerNodeV>) -> bool {
    &&& forall|i: int|
        0 <= i < l.len() ==> match (#[trigger] l[i]).parent {
            None => i == 0,
            Some(p) => {
                &&& 0 <= p < i
                &&& l[i].block.previous_digest == l[p].block.digest
                &&& l[i].block.height == l[p].block.height + 1
                &&& l[p].block.timestamp < l[i].block.timestamp
            },
        }
    &&& l.len() > 0 ==> l[0].block.height == 0
    &&& forall|i: int, j: int|
        0 <= i < j < l.len() ==> (#[trigger] l[i]).block.digest != (#[trigger] l[j]).block.digest
    &&& forall|i: int| 0 <= i < l.len() ==> stored_block_ok((#[trigger] l[i]).block)
}

/// The first node holding the given digest, or the node count when none
/// does, scanning from `i`.
pub open spec fn spec_find_digest_from(l: Seq<LedgerNodeV>, d: Seq<u8>, i: int) -> int
    decreases l.len() - i,
{
    if i < 0 || i >= l.len() {
        l.len() as int
    } else if l[i].block.digest == d {
        i
    } else {
        spec_find_digest_from(l, d, i + 1)
    }
}

/// The first node holding the given digest, or the node count.
pub open spec fn spec_find_digest(l: Seq<LedgerNodeV>, d: Seq<u8>) -> int {
    spec_find_digest_from(l, d, 0)
}

/// The chain from the root down to node `i`, oldest first.
pub open spec fn spec_chain_to_root(l: Seq<LedgerNodeV>, i: int) -> Seq<BlockV>
    decreases i,
{
    if !(0 <= i < l.len()) {
        Seq::empty()
    } else {
        match l[i].parent {
            Some(p) => if 0 <= p < i {
                spec_chain_to_root(l, p).push(l[i].block)
            } else {
                seq![l[i].block]
            },
            None => seq![l[i].block],
        }
    }
}

/// The chain from node `i` up to the root, newest first.
pub open spec fn spec_chain_up(l: Seq<LedgerNodeV>, i: int) -> Seq<BlockV>
    decreases i,
{
    if !(0 <= i < l.len()) {
        Seq::empty()
    } else {
        match l[i].parent {
            Some(p) => if 0 <= p < i {
                seq![l[i].block] + spec_chain_up(l, p)
            } else {
                seq![l[i].block]
            },
            None => seq![l[i].block],
        }
    }
}

/// Whether, over the given live set, every input of the transactions is
/// live and no output is.
pub open spec fn spec_block_utxo_ok(u: Seq<TransitionV>, txs: Seq<TransactionV>) -> bool {
    &&& forall|i: int, k: int|
        0 <= i < txs.len() && 0 <= k < (#[trigger] txs[i]).inputs.len() ==> spec_sign_in(
            u,
            (#[trigger] txs[i].inputs[k]).sign(),
        )
    &&& forall|i: int, k: int|
        0 <= i < txs.len() && 0 <= k < (#[trigger] txs[i]).outputs.len() ==> !spec_sign_in(
            u,
            (#[trigger] txs[i].outputs[k]).sign(),
        )
}

/// What the ledger answers for a block whose own checks are done and
/// which now asks for its chain link and its UTXO judgement.
pub open spec fn spec_verify_block_outcome(l: Seq<LedgerNodeV>, b: BlockV) -> Result<
    (),
    LedgerError,
> {
    let pi = spec_find_digest(l, b.previous_digest);
    if b.height == 0 {
        if pi < l.len() {
            Err(LedgerError::Block(BlockError::Chain))
        } else if spec_block_utxo_ok(Seq::empty(), b.transactions) {
            Ok(())
        } else {
            Err(LedgerError::Block(BlockError::Utxo))
        }
    } else {
        if pi >= l.len() {
            Err(LedgerError::Block(BlockError::Chain))
        } else if l[pi].block.height + 1 != b.height || !(l[pi].block.timestamp < b.timestamp) {
            Err(LedgerError::Block(BlockError::Chain))
        } else {
            match spec_replay_chain(Seq::empty(), spec_chain_to_root(l, pi)) {
                Err(e) => Err(LedgerError::Transfer(e)),
                Ok(u) => if spec_block_utxo_ok(u, b.transactions) {
                    Ok(())
                } else {
                    Err(LedgerError::Block(BlockError::Utxo))
                },
            }
        }
    }
}

/// Why `entry` turns a block away, or nothing when it is taken: a second
/// genesis, a missing or mismatched parent, or a digest already stored.
pub open spec fn spec_entry_error(l: Seq<LedgerNodeV>, b: BlockV) -> Option<LedgerError> {
    if b.height == 0 {
        if l.len() > 0 {
            Some(LedgerError::DuplicatedGenesisBlock)
        } else {
            None
        }
    } else {
        let pi = spec_find_digest(l, b.previous_digest);
        if pi >= l.len() {
            Some(LedgerError::IsolatedBlock)
        } else if l[pi].block.height + 1 != b.height {
            Some(LedgerError::IsolatedBlock)
        } else if spec_find_digest(l, b.digest) < l.len() {
            Some(LedgerError::DuplicatedBlock)
        } else {
            None
        }
    }
}

/// Why a block cannot enter the ledger.
#[derive(Debug, Clone, Copy, PartialEq, Eq, Structural)]
pub enum LedgerError {
    /// No stored parent matches the block's link.
    IsolatedBlock,
    /// The block is already stored.
    DuplicatedBlock,
    /// The ledger already has a genesis block.
    DuplicatedGenesisBlock,
    /// Replaying the chain or the block against it fails.
    Transfer(TransferHistoryError),
    /// A pipeline stage run by the ledger fails.
    Block(BlockError),
}

/// The views of a sequence of blocks.
pub open spec fn blocks_view(s: Seq<VerifiedBlock>) -> Seq<BlockV> {
    s.map_values(|b: VerifiedBlock| b@)
}

/// The block tree: fork storage keyed by digest, rooted at genesis.
#[derive(Debug)]
pub struct Ledger {
    nodes: Vec<LedgerNode>,
}

/// The views of a sequence of nodes.
spec fn nodes_view(s: Seq<LedgerNode>) -> Seq<LedgerNodeV> {
    s.map_values(|n: LedgerNode| n@)
}

/// Node views distribute over push.
proof fn lemma_nodes_view_push(s: Seq<LedgerNode>, x: LedgerNode)
    ensures
        nodes_view(s.push(x)) == nodes_view(s).push(x@),
{
    assert forall|j: int| 0 <= j < s.len() + 1 implies #[trigger] nodes_view(s.push(x))[j]
        == nodes_view(s).push(x@)[j] by {
        if j < s.len() {
            assert(s.push(x)[j] == s[j]);
        } else {
            assert(s.push(x)[j] == x);
        }
    }
    assert(nodes_view(s.push(x)) =~= nodes_view(s).push(x@));
}

impl View for Ledger {
    type V = Seq<LedgerNodeV>;

    closed spec fn view(&self) -> Seq<LedgerNodeV> {
        nodes_view(self.nodes@)
    }
}

impl Ledger {
    /// The ledger's invariant.
    pub open spec fn wf(&self) -> bool {
        ledger_wf(self@)
    }

    /// An empty ledger: no root yet.
    pub fn new() -> (r: Self)
        ensures
            r@.len() == 0,
            r.wf(),
    {
        let r = Ledger { nodes: Vec::new() };
        proof {
            assert(r@ =~= Seq::<LedgerNodeV>::empty());
        }
        r
    }

    /// The first node holding the given digest.
    fn find_index_by_digest(&self, digest: &BlockDigest) -> (r: Option<usize>)
        ensures
            match r {
                Some(i) => i < self@.len() && spec_find_digest(self@, digest@) == i,
                None => spec_find_digest(self@, digest@) == self@.len(),
            },
    {
        let ghost l = self@;
        let mut i: usize = 0;
        while i < self.nodes.len()
            invariant
                i <= self.nodes@.len(),
                l == self@,
                l.len() == self.nodes@.len(),
                spec_find_digest(l, digest@) == spec_find_digest_from(l, digest@, i as int),
            decreases self.nodes@.len() - i,
        {
            proof {
                assert(l[i as int] == self.nodes@[i as int]@);
            }
            if self.nodes[i].block.digest() == digest {
                return Some(i);
            }
            i = i + 1;
        }
        None
    }

    /// The stored block with the given digest, if any.
    pub fn get(&self, digest: &BlockDigest) -> (r: Option<&VerifiedBlock>)
        ensures
            match r {
                Some(b) => {
                    &&& spec_find_digest(self@, digest@) < self@.len()
                    &&& b@ == self@[spec_find_digest(self@, digest@)].block
                    &&& b@.digest == digest@
                },
                None => spec_find_digest(self@, digest@) == self@.len(),
            },
    {
        match self.find_index_by_digest(digest) {
            Some(i) => {
                proof {
                    assert(self@[i as int] == self.nodes@[i as int]@);
                    lemma_find_digest_hit(self@, digest@);
                }
                Some(&self.nodes[i].block)
            },
            None => None,
        }
    }

    /// Append a fully verified block. A genesis block is accepted only
    /// into an empty ledger; any other block must link to a stored parent
    /// one height below it, and must not be stored already.
    pub fn entry(&mut self, block: VerifiedBlock) -> (r: Result<(), LedgerError>)
        requires
            old(self).wf(),
            stored_block_ok(block@),
            forall|p: int|
                0 <= p < old(self)@.len() && (#[trigger] old(self)@[p]).block.digest
                    == block@.previous_digest ==> old(self)@[p].block.timestamp
                    < block@.timestamp,
        ensures
            final(self).wf(),
            match r {
                Ok(()) => {
                    &&& spec_entry_error(old(self)@, block@) is None
                    &&& if block@.height == 0 {
                        old(self)@.len() == 0 && final(self)@ == old(self)@.push(
                            LedgerNodeV { block: block@, parent: None },
                        )
                    } else {
                        exists|p: int|
                            {
                                &&& 0 <= p < old(self)@.len()
                                &&& (#[trigger] old(self)@[p]).block.digest == block@.previous_digest
                                &&& old(self)@[p].block.height + 1 == block@.height
                                &&& final(self)@ == old(self)@.push(
                                    LedgerNodeV { block: block@, parent: Some(p) },
                                )
                            }
                    }
                    &&& forall|j: int|
                        0 <= j < old(self)@.len() ==> (#[trigger] old(self)@[j]).block.digest
                            != block@.digest
                },
                Err(e) => {
                    &&& final(self)@ == old(self)@
                    &&& spec_entry_error(old(self)@, block@) == Some(e)
                },
            },
    {
        let ghost l = self@;
        match block.height().previous() {
            Some(previous_height) => {
                let parent = match self.find_index_by_digest(block.previous_digest()) {
                    Some(p) => p,
                    None => {
                        return Err(LedgerError::IsolatedBlock);
                    },
                };
                proof {
                    lemma_find_digest_hit(l, block@.previous_digest);
                    assert(l[parent as int] == self.nodes@[parent as int]@);
                }
                if self.nodes[parent].block.height().value() != previous_height.value() {
                    return Err(LedgerError::IsolatedBlock);
                }
                match self.find_index_by_digest(block.digest()) {
                    Some(dup) => {
                        proof {
                            lemma_find_digest_hit(l, block@.digest);
                        }
                        return Err(LedgerError::DuplicatedBlock);
                    },
                    None => {},
                }
                proof {
                    lemma_find_digest_miss(l, block@.digest);
                }
                let ghost before = self.nodes@;
                self.nodes.push(LedgerNode { block, parent: Some(parent) });
                proof {
                    lemma_nodes_view_push(before, self.nodes@[self.nodes@.len() - 1]);
                    assert(self@ == l.push(
                        LedgerNodeV { block: block@, parent: Some(parent as int) },
                    ));
                    lemma_ledger_wf_push(
                        l,
                        LedgerNodeV { block: block@, parent: Some(parent as int) },
                    );
                }
                Ok(())
            },
            None => {
                if self.nodes.len() > 0 {
                    return Err(LedgerError::DuplicatedGenesisBlock);
                }
                let ghost before = self.nodes@;
                self.nodes.push(LedgerNode { block, parent: None });
                proof {
                    lemma_nodes_view_push(before, self.nodes@[self.nodes@.len() - 1]);
                    assert(self@ == l.push(LedgerNodeV { block: block@, parent: None }));
                    assert(l.len() == 0);
                    lemma_ledger_wf_push(l, LedgerNodeV { block: block@, parent: None });
                }
                Ok(())
            },
        }
    }
}

/// Block views distribute over push.
proof fn lemma_blocks_view_push(s: Seq<VerifiedBlock>, x: VerifiedBlock)
    ensures
        blocks_view(s.push(x)) == blocks_view(s).push(x@),
{
    assert forall|j: int| 0 <= j < s.len() + 1 implies #[trigger] blocks_view(s.push(x))[j]
        == blocks_view(s).push(x@)[j] by {
        if j < s.len() {
            assert(s.push(x)[j] == s[j]);
        } else {
            assert(s.push(x)[j] == x);
        }
    }
    assert(blocks_view(s.push(x)) =~= blocks_view(s).push(x@));
}

/// The live transitions owned by one holder, in order.
pub open spec fn spec_utxos_of(utxos: Seq<TransitionV>, holder: Seq<u8>) -> Seq<TransitionV>
    decreases utxos.len(),
{
    if utxos.len() == 0 {
        Seq::empty()
    } else {
        (if utxos[0].receiver() == holder {
            seq![utxos[0]]
        } else {
            Seq::empty()
        }) + spec_utxos_of(utxos.drop_first(), holder)
    }
}

/// The holder's transitions grow one at a time.
proof fn lemma_utxos_of_push(s: Seq<TransitionV>, x: TransitionV, holder: Seq<u8>)
    ensures
        spec_utxos_of(s.push(x), holder) == spec_utxos_of(s, holder) + (if x.receiver() == holder {
            seq![x]
        } else {
            Seq::<TransitionV>::empty()
        }),
    decreases s.len(),
{
    let tail: Seq<TransitionV> = if x.receiver() == holder {
        seq![x]
    } else {
        Seq::empty()
    };
    if s.len() == 0 {
        assert(s.push(x)[0] == x);
        assert(s.push(x).drop_first() =~= Seq::<TransitionV>::empty());
        assert(spec_utxos_of(Seq::<TransitionV>::empty(), holder) =~= Seq::<TransitionV>::empty());
        assert(tail + Seq::<TransitionV>::empty() =~= tail);
        assert(spec_utxos_of(s, holder) + tail =~= tail);
    } else {
        assert(s.push(x)[0] == s[0]);
        assert(s.push(x).drop_first() =~= s.drop_first().push(x));
        lemma_utxos_of_push(s.drop_first(), x, holder);
        let head: Seq<TransitionV> = if s[0].receiver() == holder {
            seq![s[0]]
        } else {
            Seq::empty()
        };
        assert(head + (spec_utxos_of(s.drop_first(), holder) + tail) =~= (head + spec_utxos_of(
            s.drop_first(),
            holder,
        )) + tail);
    }
}

/// The best-effort replay of a chain: a block that does not apply is
/// skipped and the set stands.
pub open spec fn spec_replay_lenient(utxos: Seq<TransitionV>, blocks: Seq<BlockV>) -> Seq<
    TransitionV,
>
    decreases blocks.len(),
{
    if blocks.len() == 0 {
        utxos
    } else {
        match spec_push_block(utxos, blocks[0]) {
            Ok(u) => spec_replay_lenient(u, blocks.drop_first()),
            Err(_) => spec_replay_lenient(utxos, blocks.drop_first()),
        }
    }
}

impl Ledger {
    /// The index of the highest block; among equals, the first inserted.
    fn latest_index(&self) -> (r: Option<usize>)
        ensures
            match r {
                Some(i) => {
                    &&& i < self@.len()
                    &&& forall|j: int|
                        0 <= j < self@.len() ==> (#[trigger] self@[j]).block.height
                            <= self@[i as int].block.height
                    &&& forall|j: int|
                        0 <= j < i ==> (#[trigger] self@[j]).block.height < self@[
                        i as int].block.height
                },
                None => self@.len() == 0,
            },
    {
        let ghost l = self@;
        if self.nodes.len() == 0 {
            return None;
        }
        let mut best: usize = 0;
        let mut i: usize = 1;
        while i < self.nodes.len()
            invariant
                best < i <= self.nodes@.len(),
                l == self@,
                l.len() == self.nodes@.len(),
                forall|j: int| 0 <= j < i ==> (#[trigger] l[j]).block.height <= l[
                best as int].block.height,
                forall|j: int| 0 <= j < best ==> (#[trigger] l[j]).block.height < l[
                best as int].block.height,
            decreases self.nodes@.len() - i,
        {
            proof {
                assert(l[i as int] == self.nodes@[i as int]@);
                assert(l[best as int] == self.nodes@[best as int]@);
            }
            if self.nodes[i].block.height().value() > self.nodes[best].block.height().value() {
                best = i;
            }
            i = i + 1;
        }
        Some(best)
    }

    /// The block of greatest height, or nothing in an empty ledger; ties
    /// go to the block inserted first.
    pub fn search_latest_block(&self) -> (r: Option<&VerifiedBlock>)
        ensures
            match r {
                Some(b) => exists|i: int|
                    {
                        &&& 0 <= i < self@.len()
                        &&& b@ == (#[trigger] self@[i]).block
                        &&& forall|j: int|
                            0 <= j < self@.len() ==> (#[trigger] self@[j]).block.height
                                <= self@[i].block.height
                        &&& forall|j: int| 0 <= j < i ==> (#[trigger] self@[j]).block.height < self@[
                        i].block.height
                    },
                None => self@.len() == 0,
            },
    {
        match self.latest_index() {
            Some(i) => {
                proof {
                    assert(self@[i as int] == self.nodes@[i as int]@);
                }
                Some(&self.nodes[i].block)
            },
            None => None,
        }
    }

    /// The chain from the node with the given digest up to the root,
    /// newest first; empty when the digest is unknown.
    pub fn upstream_chain_from(&self, digest: &BlockDigest) -> (r: Vec<VerifiedBlock>)
        requires
            self.wf(),
        ensures
            ({
                let pi = spec_find_digest(self@, digest@);
                if pi < self@.len() {
                    blocks_view(r@) == spec_chain_up(self@, pi)
                } else {
                    r@.len() == 0
                }
            }),
    {
        match self.find_index_by_digest(digest) {
            Some(i) => self.chain_up_from(i),
            None => Vec::new(),
        }
    }

    /// The chain from the highest block up to the root, newest first;
    /// empty in an empty ledger.
    pub fn search_latest_chain(&self) -> (r: Vec<VerifiedBlock>)
        requires
            self.wf(),
        ensures
            self@.len() == 0 ==> r@.len() == 0,
            self@.len() > 0 ==> exists|i: int|
                {
                    &&& 0 <= i < self@.len()
                    &&& forall|j: int|
                        0 <= j < self@.len() ==> (#[trigger] self@[j]).block.height
                            <= self@[i].block.height
                    &&& forall|j: int| 0 <= j < i ==> (#[trigger] self@[j]).block.height < self@[
                    i].block.height
                    &&& blocks_view(r@) == spec_chain_up(self@, #[trigger] (i + 0))
                },
    {
        match self.latest_index() {
            Some(i) => {
                let r = self.chain_up_from(i);
                proof {
                    assert(blocks_view(r@) == spec_chain_up(self@, i + 0));
                }
                r
            },
            None => Vec::new(),
        }
    }

    /// The chain from node `i` up to the root, newest first.
    fn chain_up_from(&self, i: usize) -> (r: Vec<VerifiedBlock>)
        requires
            self.wf(),
            i < self@.len(),
        ensures
            blocks_view(r@) == spec_chain_up(self@, i as int),
    {
        let ghost l = self@;
        let mut out: Vec<VerifiedBlock> = Vec::new();
        let mut cur: usize = i;
        proof {
            assert(blocks_view(out@) =~= Seq::<BlockV>::empty());
        }
        loop
            invariant
                self.wf(),
                l == self@,
                l.len() == self.nodes@.len(),
                cur < l.len(),
                spec_chain_up(l, i as int) == blocks_view(out@) + spec_chain_up(l, cur as int),
            decreases cur,
        {
            proof {
                assert(l[cur as int] == self.nodes@[cur as int]@);
            }
            let ghost before = out@;
            out.push(self.nodes[cur].block.clone());
            proof {
                lemma_blocks_view_push(before, out@[out@.len() - 1]);
            }
            match self.nodes[cur].parent {
                Some(p) => {
                    proof {
                        assert(blocks_view(out@) + spec_chain_up(l, p as int) =~= (blocks_view(
                            before,
                        ) + seq![l[cur as int].block]) + spec_chain_up(l, p as int));
                        assert(spec_chain_up(l, cur as int) =~= seq![l[cur as int].block]
                            + spec_chain_up(l, p as int));
                        assert(blocks_view(before) + (seq![l[cur as int].block] + spec_chain_up(
                            l,
                            p as int,
                        )) =~= (blocks_view(before) + seq![l[cur as int].block]) + spec_chain_up(
                            l,
                            p as int,
                        ));
                    }
                    cur = p;
                },
                None => {
                    proof {
                        assert(spec_chain_up(l, cur as int) =~= seq![l[cur as int].block]);
                        assert(blocks_view(out@) =~= blocks_view(before) + seq![
                            l[cur as int].block,
                        ]);
                        assert(blocks_view(out@) =~= spec_chain_up(l, i as int));
                    }
                    return out;
                },
            }
        }
    }

    /// The chain from the root down to node `i`, oldest first.
    fn chain_from_root(&self, i: usize) -> (r: Vec<VerifiedBlock>)
        requires
            self.wf(),
            i < self@.len(),
        ensures
            blocks_view(r@) == spec_chain_to_root(self@, i as int),
        decreases i,
    {
        proof {
            assert(self@[i as int] == self.nodes@[i as int]@);
        }
        let mut out: Vec<VerifiedBlock> = match self.nodes[i].parent {
            Some(p) => self.chain_from_root(p),
            None => Vec::new(),
        };
        let ghost before = out@;
        out.push(self.nodes[i].block.clone());
        proof {
            lemma_blocks_view_push(before, out@[out@.len() - 1]);
            match self@[i as int].parent {
                Some(p) => {},
                None => {
                    assert(blocks_view(before) =~= Seq::<BlockV>::empty());
                    assert(blocks_view(out@) =~= seq![self@[i as int].block]);
                },
            }
        }
        out
    }

    /// Check the chain link and the UTXO judgement for a block whose own
    /// checks are done, against this ledger, and raise the two remaining
    /// stages.
    pub fn verify_block(
        &self,
        block: Block<Verified, Verified, Yet, Yet, Verified, Verified>,
    ) -> (r: Result<VerifiedBlock, LedgerError>)
        requires
            self.wf(),
        ensures
            match r {
                Ok(b) => b@ == block@ && spec_verify_block_outcome(self@, block@) == Ok::<
                    (),
                    LedgerError,
                >(()),
                Err(e) => spec_verify_block_outcome(self@, block@) == Err::<(), LedgerError>(e),
            },
    {
        let ghost l = self@;
        let parent_found = self.find_index_by_digest(block.previous_digest());
        match block.height().previous() {
            None => {
                match parent_found {
                    Some(_) => {
                        return Err(LedgerError::Block(BlockError::Chain));
                    },
                    None => {},
                }
                let history = TransferHistory::new();
                let all_utxo = check_block_utxo(&history, block.transactions());
                let block = match block.verify_previous_block(None, None) {
                    Ok(b) => b,
                    Err(_) => {
                        proof {
                            assert(false);
                        }
                        return Err(LedgerError::Block(BlockError::Chain));
                    },
                };
                match block.verify_utxo(all_utxo) {
                    Ok(b) => Ok(b),
                    Err(e) => Err(LedgerError::Block(e)),
                }
            },
            Some(previous_height) => {
                let parent = match parent_found {
                    Some(p) => p,
                    None => {
                        return Err(LedgerError::Block(BlockError::Chain));
                    },
                };
                proof {
                    lemma_find_digest_hit(l, block@.previous_digest);
                    assert(l[parent as int] == self.nodes@[parent as int]@);
                }
                if self.nodes[parent].block.height().value() != previous_height.value() {
                    return Err(LedgerError::Block(BlockError::Chain));
                }
                let ghost bv = block@;
                let block = match block.verify_previous_block(
                    Some(self.nodes[parent].block.digest()),
                    Some(self.nodes[parent].block.timestamp()),
                ) {
                    Ok(b) => b,
                    Err(e) => {
                        return Err(LedgerError::Block(e));
                    },
                };
                let chain = self.chain_from_root(parent);
                let ghost chain_views = spec_chain_to_root(l, parent as int);
                let mut history = TransferHistory::new();
                proof {
                    assert(chain_views.skip(0) =~= chain_views);
                }
                let mut k: usize = 0;
                #[verifier::loop_isolation(false)]
                while k < chain.len()
                    invariant
                        k <= chain@.len(),
                        l == self@,
                        block@ == bv,
                        blocks_view(chain@) == chain_views,
                        chain_views == spec_chain_to_root(l, parent as int),
                        parent < l.len(),
                        spec_find_digest(l, bv.previous_digest) == parent as int,
                        l[parent as int].block.height + 1 == bv.height,
                        l[parent as int].block.timestamp < bv.timestamp,
                        bv.height > 0,
                        spec_replay_chain(Seq::empty(), chain_views) == spec_replay_chain(
                            history@,
                            chain_views.skip(k as int),
                        ),
                    decreases chain@.len() - k,
                {
                    proof {
                        assert(chain_views[k as int] == chain@[k as int]@);
                        assert(chain_views.skip(k as int)[0] == chain_views[k as int]);
                        assert(chain_views.skip(k as int).drop_first() =~= chain_views.skip(
                            k + 1,
                        ));
                    }
                    match history.push_block(&chain[k]) {
                        Ok(()) => {},
                        Err(e) => {
                            proof {
                                assert(spec_replay_chain(history@, chain_views.skip(k as int))
                                    == Err::<Seq<TransitionV>, _>(e));
                                assert(spec_replay_chain(Seq::empty(), chain_views) == Err::<
                                    Seq<TransitionV>,
                                    _,
                                >(e));
                                assert(spec_verify_block_outcome(l, bv) == Err::<(), _>(
                                    LedgerError::Transfer(e),
                                ));
                            }
                            return Err(LedgerError::Transfer(e));
                        },
                    }
                    k = k + 1;
                }
                proof {
                    assert(chain_views.skip(chain_views.len() as int).len() == 0);
                }
                let all_utxo = check_block_utxo(&history, block.transactions());
                match block.verify_utxo(all_utxo) {
                    Ok(b) => Ok(b),
                    Err(e) => Err(LedgerError::Block(e)),
                }
            },
        }
    }

    /// The live transitions of one holder at the given tip: replay the
    /// chain from the root, best effort, and keep what the holder
    /// received and never spent.
    pub fn build_utxos(&self, digest: &BlockDigest, holder: &Address) -> (r: Vec<
        Transition<Verified>,
    >)
        requires
            self.wf(),
        ensures
            ({
                let pi = spec_find_digest(self@, digest@);
                if pi < self@.len() {
                    transitions_view(r@) == spec_utxos_of(
                        spec_replay_lenient(Seq::empty(), spec_chain_to_root(self@, pi)),
                        holder@,
                    )
                } else {
                    r@.len() == 0
                }
            }),
    {
        let ghost l = self@;
        let start = match self.find_index_by_digest(digest) {
            Some(i) => i,
            None => {
                return Vec::new();
            },
        };
        let chain = self.chain_from_root(start);
        let ghost chain_views = spec_chain_to_root(l, start as int);
        let mut history = TransferHistory::new();
        proof {
            assert(chain_views.skip(0) =~= chain_views);
        }
        let mut k: usize = 0;
        while k < chain.len()
            invariant
                k <= chain@.len(),
                blocks_view(chain@) == chain_views,
                spec_replay_lenient(Seq::empty(), chain_views) == spec_replay_lenient(
                    history@,
                    chain_views.skip(k as int),
                ),
            decreases chain@.len() - k,
        {
            proof {
                assert(chain_views[k as int] == chain@[k as int]@);
                assert(chain_views.skip(k as int)[0] == chain_views[k as int]);
                assert(chain_views.skip(k as int).drop_first() =~= chain_views.skip(k + 1));
            }
            let _ = history.push_block(&chain[k]);
            k = k + 1;
        }
        proof {
            assert(chain_views.skip(chain_views.len() as int).len() == 0);
        }
        let live = history.utxos();
        let ghost live_views = transitions_view(live@);
        let mut out: Vec<Transition<Verified>> = Vec::new();
        proof {
            assert(transitions_view(out@) =~= Seq::<TransitionV>::empty());
            assert(spec_utxos_of(live_views.take(0), holder@) =~= Seq::<TransitionV>::empty());
        }
        let mut i: usize = 0;
        while i < live.len()
            invariant
                i <= live@.len(),
                live_views == transitions_view(live@),
                transitions_view(out@) == spec_utxos_of(live_views.take(i as int), holder@),
            decreases live@.len() - i,
        {
            proof {
                assert(live_views[i as int] == live@[i as int]@);
                assert(live_views.take(i + 1) =~= live_views.take(i as int).push(
                    live_views[i as int],
                ));
                lemma_utxos_of_push(live_views.take(i as int), live_views[i as int], holder@);
            }
            if live[i].receiver() == holder {
                let ghost before = out@;
                out.push(live[i].clone());
                proof {
                    crate::transition::lemma_transitions_view_push(before, out@[out@.len() - 1]);
                    assert(transitions_view(out@) =~= spec_utxos_of(
                        live_views.take(i + 1),
                        holder@,
                    ));
                }
            } else {
                proof {
                    assert(transitions_view(out@) =~= spec_utxos_of(
                        live_views.take(i + 1),
                        holder@,
                    ));
                }
            }
            i = i + 1;
        }
        proof {
            assert(live_views.take(live_views.len() as int) =~= live_views);
        }
        out
    }
}

/// Whether, over the given history, every input of the transactions is
/// live and no output is.
fn check_block_utxo(
    history: &TransferHistory,
    txs: &Vec<Transaction<Verified, Verified>>,
) -> (r: bool)
    ensures
        r == spec_block_utxo_ok(history@, txs_view(txs@)),
{
    let ghost views = txs_view(txs@);
    let ghost u = history@;
    let mut i: usize = 0;
    while i < txs.len()
        invariant
            i <= txs@.len(),
            views == txs_view(txs@),
            u == history@,
            forall|a: int, k: int|
                0 <= a < i && 0 <= k < (#[trigger] views[a]).inputs.len() ==> spec_sign_in(
                    u,
                    (#[trigger] views[a].inputs[k]).sign(),
                ),
            forall|a: int, k: int|
                0 <= a < i && 0 <= k < (#[trigger] views[a]).outputs.len() ==> !spec_sign_in(
                    u,
                    (#[trigger] views[a].outputs[k]).sign(),
                ),
        decreases txs@.len() - i,
    {
        proof {
            assert(views[i as int] == txs@[i as int]@);
        }
        let inputs = txs[i].inputs();
        let mut k: usize = 0;
        while k < inputs.len()
            invariant
                k <= inputs@.len(),
                u == history@,
                views == txs_view(txs@),
                transitions_view(inputs@) == views[i as int].inputs,
                i < views.len(),
                forall|b: int|
                    0 <= b < k ==> spec_sign_in(u, (#[trigger] views[i as int].inputs[b]).sign()),
            decreases inputs@.len() - k,
        {
            proof {
                assert(views[i as int].inputs[k as int] == inputs@[k as int]@);
            }
            if !history.is_utxo(&inputs[k]) {
                proof {
                    assert(!spec_sign_in(u, views[i as int].inputs[k as int].sign()));
                    assert(!spec_block_utxo_ok(u, views));
                }
                return false;
            }
            k = k + 1;
        }
        let outputs = txs[i].outputs();
        let mut m: usize = 0;
        while m < outputs.len()
            invariant
                m <= outputs@.len(),
                u == history@,
                views == txs_view(txs@),
                transitions_view(outputs@) == views[i as int].outputs,
                i < views.len(),
                forall|b: int|
                    0 <= b < m ==> !spec_sign_in(
                        u,
                        (#[trigger] views[i as int].outputs[b]).sign(),
                    ),
            decreases outputs@.len() - m,
        {
            proof {
                assert(views[i as int].outputs[m as int] == outputs@[m as int]@);
            }
            if history.is_utxo(&outputs[m]) {
                proof {
                    assert(spec_sign_in(u, views[i as int].outputs[m as int].sign()));
                    assert(!spec_block_utxo_ok(u, views));
                }
                return false;
            }
            m = m + 1;
        }
        i = i + 1;
    }
    true
}

/// Whether node `j` lies in the subtree rooted at node `root`.
pub open spec fn spec_in_subtree(l: Seq<LedgerNodeV>, root: int, j: int) -> bool
    decreases j,
{
    if !(0 <= j < l.len()) {
        false
    } else if j == root {
        true
    } else if j < root {
        false
    } else {
        match l[j].parent {
            Some(p) => if 0 <= p < j {
                spec_in_subtree(l, root, p)
            } else {
                false
            },
            None => false,
        }
    }
}

impl Ledger {
    /// Drop the subtree rooted at the node with the given digest and hand
    /// its root block back; the rest of the tree stands unchanged.
    pub fn remove_branch(&mut self, digest: &BlockDigest) -> (r: Option<VerifiedBlock>)
        requires
            old(self).wf(),
        ensures
            final(self).wf(),
            match r {
                Some(b) => {
                    &&& spec_find_digest(old(self)@, digest@) < old(self)@.len()
                    &&& b@ == old(self)@[spec_find_digest(old(self)@, digest@)].block
                    &&& forall|k: int|
                        0 <= k < final(self)@.len() ==> exists|j: int|
                            {
                                &&& 0 <= j < old(self)@.len()
                                &&& !spec_in_subtree(
                                    old(self)@,
                                    spec_find_digest(old(self)@, digest@),
                                    j,
                                )
                                &&& (#[trigger] final(self)@[k]).block == old(self)@[j].block
                            }
                    &&& forall|j: int|
                        0 <= j < old(self)@.len() && !spec_in_subtree(
                            old(self)@,
                            spec_find_digest(old(self)@, digest@),
                            j,
                        ) ==> exists|k: int|
                            {
                                &&& 0 <= k < final(self)@.len()
                                &&& (#[trigger] final(self)@[k]).block == old(self)@[j].block
                            }
                },
                None => {
                    &&& spec_find_digest(old(self)@, digest@) == old(self)@.len()
                    &&& final(self)@ == old(self)@
                },
            },
    {
        let ghost l = self@;
        let root = match self.find_index_by_digest(digest) {
            Some(i) => i,
            None => {
                return None;
            },
        };
        proof {
            assert(l[root as int] == self.nodes@[root as int]@);
        }
        let removed_block = self.nodes[root].block.clone();

        // Mark the subtree: a node goes when it is the root or its parent
        // goes.
        let n = self.nodes.len();
        let mut removed: Vec<bool> = Vec::new();
        let mut j: usize = 0;
        while j < n
            invariant
                j <= n,
                n == l.len(),
                l == self@,
                l.len() == self.nodes@.len(),
                root < l.len(),
                ledger_wf(l),
                removed@.len() == j,
                forall|a: int| 0 <= a < j ==> removed@[a] == spec_in_subtree(l, root as int, a),
            decreases n - j,
        {
            proof {
                assert(l[j as int] == self.nodes@[j as int]@);
            }
            let gone = if j == root {
                true
            } else if j < root {
                false
            } else {
                match self.nodes[j].parent {
                    Some(p) => {
                        proof {
                            assert(l[j as int].parent == Some(p as int));
                        }
                        removed[p]
                    },
                    None => false,
                }
            };
            proof {
                assert(gone == spec_in_subtree(l, root as int, j as int));
            }
            removed.push(gone);
            j = j + 1;
        }

        // Rebuild the arena without the marked nodes, remapping parents.
        let mut out: Vec<LedgerNode> = Vec::new();
        let mut remap: Vec<Option<usize>> = Vec::new();
        let ghost mut orig: Seq<int> = Seq::empty();
        let mut j: usize = 0;
        while j < n
            invariant
                j <= n,
                n == l.len(),
                l == self@,
                l.len() == self.nodes@.len(),
                ledger_wf(l),
                root < l.len(),
                removed@.len() == n,
                forall|a: int| 0 <= a < n ==> removed@[a] == spec_in_subtree(l, root as int, a),
                remap@.len() == j,
                orig.len() == nodes_view(out@).len(),
                out@.len() == nodes_view(out@).len(),
                forall|k: int|
                    0 <= k < orig.len() ==> 0 <= #[trigger] orig[k] < j && !spec_in_subtree(
                        l,
                        root as int,
                        orig[k],
                    ),
                forall|k1: int, k2: int| 0 <= k1 < k2 < orig.len() ==> orig[k1] < orig[k2],
                forall|k: int|
                    0 <= k < orig.len() ==> (#[trigger] nodes_view(out@)[k]).block == l[
                    orig[k]].block,
                forall|a: int|
                    0 <= a < j ==> match #[trigger] remap@[a] {
                        Some(k) => {
                            &&& !spec_in_subtree(l, root as int, a)
                            &&& 0 <= k < orig.len()
                            &&& orig[k as int] == a
                        },
                        None => spec_in_subtree(l, root as int, a),
                    },
                forall|k: int|
                    0 <= k < orig.len() ==> match (#[trigger] nodes_view(out@)[k]).parent {
                        Some(np) => {
                            &&& 0 <= np < k
                            &&& l[orig[k]].parent == Some(orig[np])
                        },
                        None => l[orig[k]].parent is None,
                    },
                ledger_wf(nodes_view(out@)),
            decreases n - j,
        {
            proof {
                assert(l[j as int] == self.nodes@[j as int]@);
            }
            if removed[j] {
                remap.push(None);
            } else {
                let new_parent: Option<usize> = match self.nodes[j].parent {
                    Some(p) => {
                        proof {
                            // A kept node's parent is kept: a gone parent
                            // takes its children with it.
                            assert(removed@[p as int] == spec_in_subtree(l, root as int, p as int));
                            assert(!spec_in_subtree(l, root as int, p as int));
                        }
                        match remap[p] {
                            Some(np) => Some(np),
                            None => {
                                proof {
                                    assert(false);
                                }
                                None
                            },
                        }
                    },
                    None => None,
                };
                let ghost before = nodes_view(out@);
                let node = LedgerNode { block: self.nodes[j].block.clone(), parent: new_parent };
                let ghost node_view = node@;
                let ghost before_nodes = out@;
                out.push(node);
                remap.push(Some(out.len() - 1));
                proof {
                    lemma_nodes_view_push(before_nodes, out@[out@.len() - 1]);
                    assert(nodes_view(out@) == before.push(node_view));
                    match node_view.parent {
                        Some(np) => {
                            assert(l[j as int].parent == Some(orig[np as int]));
                            assert(before[np as int].block == l[orig[np as int]].block);
                        },
                        None => {
                            assert(l[j as int].parent is None);
                            assert(j == 0);
                            assert(orig.len() == 0);
                        },
                    }
                    assert forall|k: int|
                        0 <= k < before.len() implies (#[trigger] before[k]).block.digest
                        != node_view.block.digest by {
                        assert(before[k].block == l[orig[k]].block);
                        assert(orig[k] < j as int);
                        assert(l[orig[k]].block.digest != l[j as int].block.digest);
                    }
                    lemma_ledger_wf_push_survivor(before, node_view, l, orig, j as int);
                    orig = orig.push(j as int);
                    assert(orig[orig.len() - 1] == j as int);
                }
            }
            j = j + 1;
        }
        self.nodes = out;
        proof {
            assert(self@ == nodes_view(self.nodes@));
            assert forall|k: int| 0 <= k < self@.len() implies exists|a: int|
                {
                    &&& 0 <= a < l.len()
                    &&& !spec_in_subtree(l, root as int, a)
                    &&& (#[trigger] self@[k]).block == l[a].block
                } by {
                assert(self@[k].block == l[orig[k]].block);
                assert(!spec_in_subtree(l, root as int, orig[k]));
            }
            assert forall|a: int|
                0 <= a < l.len() && !spec_in_subtree(l, root as int, a) implies exists|k: int|
                {
                    &&& 0 <= k < self@.len()
                    &&& (#[trigger] self@[k]).block == l[a].block
                } by {
                match remap@[a] {
                    Some(k) => {
                        assert(self@[k as int].block == l[orig[k as int]].block);
                        assert(orig[k as int] == a);
                    },
                    None => {
                        assert(false);
                    },
                }
            }
        }
        Some(removed_block)
    }
}

/// Pushing a remapped survivor onto a well-formed rebuilt arena keeps it
/// well formed.
proof fn lemma_ledger_wf_push_survivor(
    t: Seq<LedgerNodeV>,
    n: LedgerNodeV,
    l: Seq<LedgerNodeV>,
    orig: Seq<int>,
    j: int,
)
    requires
        ledger_wf(t),
        ledger_wf(l),
        0 <= j < l.len(),
        orig.len() == t.len(),
        forall|k: int| 0 <= k < t.len() ==> 0 <= #[trigger] orig[k] < j,
        forall|k: int| 0 <= k < t.len() ==> (#[trigger] t[k]).block == l[orig[k]].block,
        n.block == l[j].block,
        match n.parent {
            Some(np) => 0 <= np < t.len() && l[j].parent == Some(orig[np]),
            None => l[j].parent is None,
        },
        forall|k: int| 0 <= k < t.len() ==> (#[trigger] t[k]).block.digest != n.block.digest,
    ensures
        ledger_wf(t.push(n)),
{
    let t2 = t.push(n);
    if l[j].parent is None {
        assert(j == 0);
        assert(forall|k: int| 0 <= k < t.len() ==> 0 <= #[trigger] orig[k] < 0);
        assert(t.len() == 0);
    }
    assert forall|i: int| 0 <= i < t2.len() implies match (#[trigger] t2[i]).parent {
        None => i == 0,
        Some(p) => {
            &&& 0 <= p < i
            &&& t2[i].block.previous_digest == t2[p].block.digest
            &&& t2[i].block.height == t2[p].block.height + 1
            &&& t2[p].block.timestamp < t2[i].block.timestamp
        },
    } by {
        if i < t.len() {
            assert(t2[i] == t[i]);
            match t[i].parent {
                Some(p) => {
                    assert(t2[p] == t[p]);
                },
                None => {},
            }
        } else {
            assert(t2[i] == n);
            match n.parent {
                Some(np) => {
                    assert(t2[np] == t[np]);
                    assert(t[np].block == l[orig[np]].block);
                    assert(l[j].parent == Some(orig[np]));
                    assert(l[j].block.previous_digest == l[orig[np]].block.digest);
                    assert(l[j].block.height == l[orig[np]].block.height + 1);
                    assert(l[orig[np]].block.timestamp < l[j].block.timestamp);
                },
                None => {
                    assert(i == 0);
                },
            }
        }
    }
    assert forall|a: int, b: int| 0 <= a < b < t2.len() implies (#[trigger] t2[a]).block.digest
        != (#[trigger] t2[b]).block.digest by {
        if b < t.len() {
            assert(t2[a] == t[a] && t2[b] == t[b]);
        } else {
            assert(t2[b] == n);
            assert(t2[a] == t[a]);
        }
    }
    assert forall|i: int| 0 <= i < t2.len() implies stored_block_ok((#[trigger] t2[i]).block) by {
        if i < t.len() {
            assert(t2[i] == t[i]);
        } else {
            assert(t2[i] == n);
            assert(stored_block_ok(l[j].block));
        }
    }
    if t2.len() > 0 {
        if t.len() > 0 {
            assert(t2[0] == t[0]);
        } else {
            assert(t2[0] == n);
            assert(n.parent is None || (n.parent matches Some(np) && 0 <= np < 0));
            assert(l[j].parent is None);
            assert(j == 0);
            assert(l[0].block.height == 0);
        }
    }
}

/// Digest integrity: every block in a well-formed ledger carries as its
/// digest the SHA-256 of its own canonical encoding.
pub proof fn lemma_ledger_digest_integrity(l: Seq<LedgerNodeV>)
    requires
        ledger_wf(l),
    ensures
        forall|i: int|
            0 <= i < l.len() ==> (#[trigger] l[i]).block.digest == crate::digest::spec_sha256(
                l[i].block.source(),
            ),
{
    assert forall|i: int| 0 <= i < l.len() implies (#[trigger] l[i]).block.digest
        == crate::digest::spec_sha256(l[i].block.source()) by {
        assert(stored_block_ok(l[i].block));
    }
}

/// Chain linkage: every non-genesis block in a well-formed ledger has a
/// stored parent whose digest it links to, whose height it tops by one
/// and whose timestamp comes earlier.
pub proof fn lemma_ledger_chain_linkage(l: Seq<LedgerNodeV>)
    requires
        ledger_wf(l),
    ensures
        forall|i: int|
            0 <= i < l.len() && (#[trigger] l[i]).block.height > 0 ==> exists|p: int|
                {
                    &&& 0 <= p < l.len()
                    &&& (#[trigger] l[p]).block.digest == l[i].block.previous_digest
                    &&& l[p].block.height + 1 == l[i].block.height
                    &&& l[p].block.timestamp < l[i].block.timestamp
                },
{
    assert forall|i: int| 0 <= i < l.len() && (#[trigger] l[i]).block.height > 0 implies exists|
        p: int,
    |
        {
            &&& 0 <= p < l.len()
            &&& (#[trigger] l[p]).block.digest == l[i].block.previous_digest
            &&& l[p].block.height + 1 == l[i].block.height
            &&& l[p].block.timestamp < l[i].block.timestamp
        } by {
        match l[i].parent {
            Some(p) => {
                assert(0 <= p < l.len() && l[p].block.digest == l[i].block.previous_digest && l[
                p].block.height + 1 == l[i].block.height && l[p].block.timestamp < l[
                i].block.timestamp);
            },
            None => {
                assert(i == 0);
                assert(l[0].block.height == 0);
            },
        }
    }
}

/// Conservation at the ledger: every stored block's outputs cover its
/// inputs; the difference is the block reward the relation stage checked
/// exactly when the block was verified.
pub proof fn lemma_ledger_conservation(l: Seq<LedgerNodeV>)
    requires
        ledger_wf(l),
    ensures
        forall|i: int|
            0 <= i < l.len() ==> crate::block::spec_txs_inputs_sum(
                (#[trigger] l[i]).block.transactions,
            ) <= crate::block::spec_txs_outputs_sum(l[i].block.transactions),
{
    assert forall|i: int| 0 <= i < l.len() implies crate::block::spec_txs_inputs_sum(
        (#[trigger] l[i]).block.transactions,
    ) <= crate::block::spec_txs_outputs_sum(l[i].block.transactions) by {
        assert(stored_block_ok(l[i].block));
    }
}

/// A found digest is at the index the search names, and nowhere earlier.
proof fn lemma_find_digest_from_props(l: Seq<LedgerNodeV>, d: Seq<u8>, i: int)
    requires
        0 <= i <= l.len(),
    ensures
        i <= spec_find_digest_from(l, d, i) <= l.len(),
        spec_find_digest_from(l, d, i) < l.len() ==> l[spec_find_digest_from(l, d, i)].block.digest
            == d,
        forall|j: int|
            i <= j < spec_find_digest_from(l, d, i) ==> (#[trigger] l[j]).block.digest != d,
        spec_find_digest_from(l, d, i) == l.len() ==> forall|j: int|
            i <= j < l.len() ==> (#[trigger] l[j]).block.digest != d,
    decreases l.len() - i,
{
    if i < l.len() {
        if l[i].block.digest == d {
        } else {
            lemma_find_digest_from_props(l, d, i + 1);
        }
    }
}

/// A hit of the digest search points at a node with that digest.
pub proof fn lemma_find_digest_hit(l: Seq<LedgerNodeV>, d: Seq<u8>)
    ensures
        0 <= spec_find_digest(l, d) <= l.len(),
        spec_find_digest(l, d) < l.len() ==> l[spec_find_digest(l, d)].block.digest == d,
        forall|j: int| 0 <= j < spec_find_digest(l, d) ==> (#[trigger] l[j]).block.digest != d,
{
    lemma_find_digest_from_props(l, d, 0);
}

/// A miss of the digest search means no node holds that digest.
pub proof fn lemma_find_digest_miss(l: Seq<LedgerNodeV>, d: Seq<u8>)
    requires
        spec_find_digest(l, d) == l.len(),
    ensures
        forall|j: int| 0 <= j < l.len() ==> (#[trigger] l[j]).block.digest != d,
{
    lemma_find_digest_from_props(l, d, 0);
}

/// Pushing a node that respects the invariant keeps the whole ledger
/// well formed.
proof fn lemma_ledger_wf_push(l: Seq<LedgerNodeV>, n: LedgerNodeV)
    requires
        ledger_wf(l),
        stored_block_ok(n.block),
        match n.parent {
            None => l.len() == 0 && n.block.height == 0,
            Some(p) => {
                &&& 0 <= p < l.len()
                &&& n.block.previous_digest == l[p].block.digest
                &&& n.block.height == l[p].block.height + 1
                &&& l[p].block.timestamp < n.block.timestamp
            },
        },
        forall|j: int| 0 <= j < l.len() ==> (#[trigger] l[j]).block.digest != n.block.digest,
    ensures
        ledger_wf(l.push(n)),
{
    let l2 = l.push(n);
    assert forall|i: int| 0 <= i < l2.len() implies match (#[trigger] l2[i]).parent {
        None => i == 0,
        Some(p) => {
            &&& 0 <= p < i
            &&& l2[i].block.previous_digest == l2[p].block.digest
            &&& l2[i].block.height == l2[p].block.height + 1
            &&& l2[p].block.timestamp < l2[i].block.timestamp
        },
    } by {
        if i < l.len() {
            assert(l2[i] == l[i]);
            match l[i].parent {
                Some(p) => {
                    assert(l2[p] == l[p]);
                },
                None => {},
            }
        } else {
            assert(l2[i] == n);
            match n.parent {
                Some(p) => {
                    assert(l2[p] == l[p]);
                },
                None => {},
            }
        }
    }
    assert forall|i: int, j: int| 0 <= i < j < l2.len() implies (#[trigger] l2[i]).block.digest
        != (#[trigger] l2[j]).block.digest by {
        if j < l.len() {
            assert(l2[i] == l[i] && l2[j] == l[j]);
        } else {
            assert(l2[j] == n);
            assert(l2[i] == l[i]);
        }
    }
    assert forall|i: int| 0 <= i < l2.len() implies stored_block_ok((#[trigger] l2[i]).block) by {
        if i < l.len() {
            assert(l2[i] == l[i]);
        } else {
            assert(l2[i] == n);
        }
    }
    if l2.len() > 0 {
        if l.len() > 0 {
            assert(l2[0] == l[0]);
        } else {
            assert(l2[0] == n);
        }
    }
}

} // verus!
