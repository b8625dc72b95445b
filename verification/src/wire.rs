//! The canonical wire form: little-endian fixed widths, byte tags for the
//! transition variants, and 64-bit counts before every sequence. What the
//! node publishes and consumes travels in this form.

use vstd::prelude::*;
use vstd::bytes::{
    spec_u64_to_le_bytes, u64_to_le_bytes, u64_from_le_bytes,
    lemma_auto_spec_u64_to_from_le_bytes,
};
use crate::account::Address;
use crate::block::{Block, BlockHeight, BlockV, txs_view};
use crate::coin::Coin;
use crate::digest::BlockDigest;
use crate::signature::Signature;
use crate::timestamp::Timestamp;
use crate::transaction::{Transaction, TransactionV};
use crate::transition::{Generation, Transfer, Transition, TransitionV, transitions_view};
use crate::verification::Yet;

verus! {

/// The wire form of one transition: a variant tag, then the fields in
/// order, quantities and timestamps little endian.
pub open spec fn spec_wire_transition(t: TransitionV) -> Seq<u8> {
    match t {
        TransitionV::Transfer(tr) => seq![0u8] + tr.sender + tr.receiver + spec_u64_to_le_bytes(
            tr.quantity,
        ) + spec_u64_to_le_bytes(tr.timestamp as u64) + tr.sign,
        TransitionV::Generation(g) => seq![1u8] + g.receiver + spec_u64_to_le_bytes(g.quantity)
            + spec_u64_to_le_bytes(g.timestamp as u64) + g.sign,
    }
}

/// The wire form of a list of transitions, concatenated.
pub open spec fn spec_wire_transitions(s: Seq<TransitionV>) -> Seq<u8>
    decreases s.len(),
{
    if s.len() == 0 {
        Seq::empty()
    } else {
        spec_wire_transition(s[0]) + spec_wire_transitions(s.drop_first())
    }
}

/// The wire form of a transaction: contractor, counted inputs, counted
/// outputs, timestamp, signature.
pub open spec fn spec_wire_tx(tx: TransactionV) -> Seq<u8> {
    tx.contractor + spec_u64_to_le_bytes(tx.inputs.len() as u64) + spec_wire_transitions(tx.inputs)
        + spec_u64_to_le_bytes(tx.outputs.len() as u64) + spec_wire_transitions(tx.outputs)
        + spec_u64_to_le_bytes(tx.timestamp as u64) + tx.sign
}

/// The wire form of a list of transactions, concatenated.
pub open spec fn spec_wire_txs(s: Seq<TransactionV>) -> Seq<u8>
    decreases s.len(),
{
    if s.len() == 0 {
        Seq::empty()
    } else {
        spec_wire_tx(s[0]) + spec_wire_txs(s.drop_first())
    }
}

/// The wire form of a block: height, counted transactions, timestamp,
/// previous digest, difficulty, nonce, digest.
pub open spec fn spec_wire_block(b: BlockV) -> Seq<u8> {
    spec_u64_to_le_bytes(b.height) + spec_u64_to_le_bytes(b.transactions.len() as u64)
        + spec_wire_txs(b.transactions) + spec_u64_to_le_bytes(b.timestamp as u64)
        + b.previous_digest + seq![b.difficulty] + spec_u64_to_le_bytes(b.nonce) + b.digest
}

/// Wire forms of transitions grow one at a time.
pub proof fn lemma_wire_transitions_push(s: Seq<TransitionV>, x: TransitionV)
    ensures
        spec_wire_transitions(s.push(x)) == spec_wire_transitions(s) + spec_wire_transition(x),
    decreases s.len(),
{
    if s.len() == 0 {
        assert(s.push(x)[0] == x);
        assert(s.push(x).drop_first() =~= Seq::<TransitionV>::empty());
        assert(spec_wire_transition(x) + spec_wire_transitions(Seq::<TransitionV>::empty())
            =~= spec_wire_transition(x));
        assert(spec_wire_transitions(s) + spec_wire_transition(x) =~= spec_wire_transition(x));
    } else {
        assert(s.push(x)[0] == s[0]);
        assert(s.push(x).drop_first() =~= s.drop_first().push(x));
        lemma_wire_transitions_push(s.drop_first(), x);
        assert(spec_wire_transition(s[0]) + (spec_wire_transitions(s.drop_first())
            + spec_wire_transition(x)) =~= (spec_wire_transition(s[0]) + spec_wire_transitions(
            s.drop_first(),
        )) + spec_wire_transition(x));
    }
}

/// Wire forms of transactions grow one at a time.
pub proof fn lemma_wire_txs_push(s: Seq<TransactionV>, x: TransactionV)
    ensures
        spec_wire_txs(s.push(x)) == spec_wire_txs(s) + spec_wire_tx(x),
    decreases s.len(),
{
    if s.len() == 0 {
        assert(s.push(x)[0] == x);
        assert(s.push(x).drop_first() =~= Seq::<TransactionV>::empty());
        assert(spec_wire_tx(x) + spec_wire_txs(Seq::<TransactionV>::empty()) =~= spec_wire_tx(x));
        assert(spec_wire_txs(s) + spec_wire_tx(x) =~= spec_wire_tx(x));
    } else {
        assert(s.push(x)[0] == s[0]);
        assert(s.push(x).drop_first() =~= s.drop_first().push(x));
        lemma_wire_txs_push(s.drop_first(), x);
        assert(spec_wire_tx(s[0]) + (spec_wire_txs(s.drop_first()) + spec_wire_tx(x)) =~= (
        spec_wire_tx(s[0]) + spec_wire_txs(s.drop_first())) + spec_wire_tx(x));
    }
}

/// The wire form never decodes two ways: a byte vector fails to decode or
/// names one value.
#[derive(Debug, Clone, Copy, PartialEq, Eq, Structural)]
pub struct WireError;

/// Equal concatenations with equally long heads split into equal parts.
proof fn lemma_split_fixed(x1: Seq<u8>, y1: Seq<u8>, x2: Seq<u8>, y2: Seq<u8>)
    requires
        x1.len() == x2.len(),
        x1 + y1 == x2 + y2,
    ensures
        x1 == x2,
        y1 == y2,
{
    assert((x1 + y1).len() == x1.len() + y1.len());
    assert((x2 + y2).len() == x2.len() + y2.len());
    assert forall|i: int| 0 <= i < x1.len() implies x1[i] == x2[i] by {
        assert((x1 + y1)[i] == x1[i]);
        assert((x2 + y2)[i] == x2[i]);
    }
    assert(x1 =~= x2);
    assert forall|i: int| 0 <= i < y1.len() implies y1[i] == y2[i] by {
        assert((x1 + y1)[x1.len() + i] == y1[i]);
        assert((x2 + y2)[x2.len() + i] == y2[i]);
    }
    assert(y1 =~= y2);
}

/// Little-endian bytes name their integer uniquely.
proof fn lemma_u64_le_injective(a: u64, b: u64)
    requires
        spec_u64_to_le_bytes(a) == spec_u64_to_le_bytes(b),
    ensures
        a == b,
{
    lemma_auto_spec_u64_to_from_le_bytes();
}

/// A transition's wire form names it uniquely, whatever follows it: equal
/// encodings with arbitrary tails force equal transitions and equal
/// tails.
pub proof fn lemma_wire_transition_unambiguous(
    t1: TransitionV,
    t2: TransitionV,
    r1: Seq<u8>,
    r2: Seq<u8>,
)
    requires
        t1.wf(),
        t2.wf(),
        spec_wire_transition(t1) + r1 == spec_wire_transition(t2) + r2,
    ensures
        t1 == t2,
        r1 == r2,
{
    lemma_auto_spec_u64_to_from_le_bytes();
    let w1 = spec_wire_transition(t1) + r1;
    let w2 = spec_wire_transition(t2) + r2;
    match (t1, t2) {
        (TransitionV::Transfer(a), TransitionV::Transfer(b)) => {
            let qa = spec_u64_to_le_bytes(a.quantity);
            let sa = spec_u64_to_le_bytes(a.timestamp as u64);
            let qb = spec_u64_to_le_bytes(b.quantity);
            let sb = spec_u64_to_le_bytes(b.timestamp as u64);
            assert(w1 =~= seq![0u8] + (a.sender + (a.receiver + (qa + (sa + (a.sign + r1))))));
            assert(w2 =~= seq![0u8] + (b.sender + (b.receiver + (qb + (sb + (b.sign + r2))))));
            lemma_split_fixed(
                seq![0u8],
                a.sender + (a.receiver + (qa + (sa + (a.sign + r1)))),
                seq![0u8],
                b.sender + (b.receiver + (qb + (sb + (b.sign + r2)))),
            );
            lemma_split_fixed(
                a.sender,
                a.receiver + (qa + (sa + (a.sign + r1))),
                b.sender,
                b.receiver + (qb + (sb + (b.sign + r2))),
            );
            lemma_split_fixed(
                a.receiver,
                qa + (sa + (a.sign + r1)),
                b.receiver,
                qb + (sb + (b.sign + r2)),
            );
            lemma_split_fixed(qa, sa + (a.sign + r1), qb, sb + (b.sign + r2));
            lemma_u64_le_injective(a.quantity, b.quantity);
            lemma_split_fixed(sa, a.sign + r1, sb, b.sign + r2);
            lemma_u64_le_injective(a.timestamp as u64, b.timestamp as u64);
            let x = a.timestamp;
            let y = b.timestamp;
            assert(x as u64 == y as u64 ==> x == y) by (bit_vector);
            lemma_split_fixed(a.sign, r1, b.sign, r2);
        },
        (TransitionV::Generation(a), TransitionV::Generation(b)) => {
            let qa = spec_u64_to_le_bytes(a.quantity);
            let sa = spec_u64_to_le_bytes(a.timestamp as u64);
            let qb = spec_u64_to_le_bytes(b.quantity);
            let sb = spec_u64_to_le_bytes(b.timestamp as u64);
            assert(w1 =~= seq![1u8] + (a.receiver + (qa + (sa + (a.sign + r1)))));
            assert(w2 =~= seq![1u8] + (b.receiver + (qb + (sb + (b.sign + r2)))));
            lemma_split_fixed(
                seq![1u8],
                a.receiver + (qa + (sa + (a.sign + r1))),
                seq![1u8],
                b.receiver + (qb + (sb + (b.sign + r2))),
            );
            lemma_split_fixed(a.receiver, qa + (sa + (a.sign + r1)), b.receiver, qb + (sb + (
            b.sign + r2)));
            lemma_split_fixed(qa, sa + (a.sign + r1), qb, sb + (b.sign + r2));
            lemma_u64_le_injective(a.quantity, b.quantity);
            lemma_split_fixed(sa, a.sign + r1, sb, b.sign + r2);
            lemma_u64_le_injective(a.timestamp as u64, b.timestamp as u64);
            let x = a.timestamp;
            let y = b.timestamp;
            assert(x as u64 == y as u64 ==> x == y) by (bit_vector);
            lemma_split_fixed(a.sign, r1, b.sign, r2);
        },
        (TransitionV::Transfer(a), TransitionV::Generation(b)) => {
            assert(w1[0] == 0u8) by {
                assert(spec_wire_transition(t1)[0] == 0u8);
            }
            assert(w2[0] == 1u8) by {
                assert(spec_wire_transition(t2)[0] == 1u8);
            }
            assert(false);
        },
        (TransitionV::Generation(a), TransitionV::Transfer(b)) => {
            assert(w1[0] == 1u8) by {
                assert(spec_wire_transition(t1)[0] == 1u8);
            }
            assert(w2[0] == 0u8) by {
                assert(spec_wire_transition(t2)[0] == 0u8);
            }
            assert(false);
        },
    }
}

/// Equally many transitions on the wire name their lists uniquely,
/// whatever follows them.
pub proof fn lemma_wire_transitions_unambiguous(
    s1: Seq<TransitionV>,
    s2: Seq<TransitionV>,
    r1: Seq<u8>,
    r2: Seq<u8>,
)
    requires
        s1.len() == s2.len(),
        forall|i: int| 0 <= i < s1.len() ==> (#[trigger] s1[i]).wf(),
        forall|i: int| 0 <= i < s2.len() ==> (#[trigger] s2[i]).wf(),
        spec_wire_transitions(s1) + r1 == spec_wire_transitions(s2) + r2,
    ensures
        s1 == s2,
        r1 == r2,
    decreases s1.len(),
{
    if s1.len() == 0 {
        assert(spec_wire_transitions(s1) + r1 =~= r1);
        assert(spec_wire_transitions(s2) + r2 =~= r2);
        assert(s1 =~= s2);
    } else {
        assert((spec_wire_transition(s1[0]) + spec_wire_transitions(s1.drop_first())) + r1
            =~= spec_wire_transition(s1[0]) + (spec_wire_transitions(s1.drop_first()) + r1));
        assert((spec_wire_transition(s2[0]) + spec_wire_transitions(s2.drop_first())) + r2
            =~= spec_wire_transition(s2[0]) + (spec_wire_transitions(s2.drop_first()) + r2));
        lemma_wire_transition_unambiguous(
            s1[0],
            s2[0],
            spec_wire_transitions(s1.drop_first()) + r1,
            spec_wire_transitions(s2.drop_first()) + r2,
        );
        assert forall|i: int| 0 <= i < s1.drop_first().len() implies (
        #[trigger] s1.drop_first()[i]).wf() && s2.drop_first()[i].wf() by {
            assert(s1.drop_first()[i] == s1[i + 1]);
            assert(s2.drop_first()[i] == s2[i + 1]);
        }
        lemma_wire_transitions_unambiguous(s1.drop_first(), s2.drop_first(), r1, r2);
        assert forall|i: int| 0 <= i < s1.len() implies s1[i] == s2[i] by {
            if i > 0 {
                assert(s1.drop_first()[i - 1] == s1[i]);
                assert(s2.drop_first()[i - 1] == s2[i]);
            }
        }
        assert(s1 =~= s2);
    }
}

/// The list lengths a transaction's wire form may carry.
pub open spec fn tx_wire_bounds(tx: TransactionV) -> bool {
    &&& tx.inputs.len() <= u64::MAX
    &&& tx.outputs.len() <= u64::MAX
}

/// A transaction's wire form names it uniquely, whatever follows it.
pub proof fn lemma_wire_tx_unambiguous(
    t1: TransactionV,
    t2: TransactionV,
    r1: Seq<u8>,
    r2: Seq<u8>,
)
    requires
        t1.wf(),
        t2.wf(),
        tx_wire_bounds(t1),
        tx_wire_bounds(t2),
        spec_wire_tx(t1) + r1 == spec_wire_tx(t2) + r2,
    ensures
        t1 == t2,
        r1 == r2,
{
    lemma_auto_spec_u64_to_from_le_bytes();
    let ca = spec_u64_to_le_bytes(t1.inputs.len() as u64);
    let cb = spec_u64_to_le_bytes(t2.inputs.len() as u64);
    let ia = spec_wire_transitions(t1.inputs);
    let ib = spec_wire_transitions(t2.inputs);
    let da = spec_u64_to_le_bytes(t1.outputs.len() as u64);
    let db = spec_u64_to_le_bytes(t2.outputs.len() as u64);
    let oa = spec_wire_transitions(t1.outputs);
    let ob = spec_wire_transitions(t2.outputs);
    let sa = spec_u64_to_le_bytes(t1.timestamp as u64);
    let sb = spec_u64_to_le_bytes(t2.timestamp as u64);
    assert(spec_wire_tx(t1) + r1 =~= t1.contractor + (ca + (ia + (da + (oa + (sa + (t1.sign
        + r1)))))));
    assert(spec_wire_tx(t2) + r2 =~= t2.contractor + (cb + (ib + (db + (ob + (sb + (t2.sign
        + r2)))))));
    lemma_split_fixed(
        t1.contractor,
        ca + (ia + (da + (oa + (sa + (t1.sign + r1))))),
        t2.contractor,
        cb + (ib + (db + (ob + (sb + (t2.sign + r2))))),
    );
    lemma_split_fixed(
        ca,
        ia + (da + (oa + (sa + (t1.sign + r1)))),
        cb,
        ib + (db + (ob + (sb + (t2.sign + r2)))),
    );
    lemma_u64_le_injective(t1.inputs.len() as u64, t2.inputs.len() as u64);
    assert(t1.inputs.len() == t2.inputs.len());
    lemma_wire_transitions_unambiguous(
        t1.inputs,
        t2.inputs,
        da + (oa + (sa + (t1.sign + r1))),
        db + (ob + (sb + (t2.sign + r2))),
    );
    lemma_split_fixed(da, oa + (sa + (t1.sign + r1)), db, ob + (sb + (t2.sign + r2)));
    lemma_u64_le_injective(t1.outputs.len() as u64, t2.outputs.len() as u64);
    assert(t1.outputs.len() == t2.outputs.len());
    lemma_wire_transitions_unambiguous(
        t1.outputs,
        t2.outputs,
        sa + (t1.sign + r1),
        sb + (t2.sign + r2),
    );
    lemma_split_fixed(sa, t1.sign + r1, sb, t2.sign + r2);
    lemma_u64_le_injective(t1.timestamp as u64, t2.timestamp as u64);
    let x = t1.timestamp;
    let y = t2.timestamp;
    assert(x as u64 == y as u64 ==> x == y) by (bit_vector);
    lemma_split_fixed(t1.sign, r1, t2.sign, r2);
}

/// Equally many transactions on the wire name their lists uniquely,
/// whatever follows them.
pub proof fn lemma_wire_txs_unambiguous(
    s1: Seq<TransactionV>,
    s2: Seq<TransactionV>,
    r1: Seq<u8>,
    r2: Seq<u8>,
)
    requires
        s1.len() == s2.len(),
        forall|i: int| 0 <= i < s1.len() ==> (#[trigger] s1[i]).wf() && tx_wire_bounds(s1[i]),
        forall|i: int| 0 <= i < s2.len() ==> (#[trigger] s2[i]).wf() && tx_wire_bounds(s2[i]),
        spec_wire_txs(s1) + r1 == spec_wire_txs(s2) + r2,
    ensures
        s1 == s2,
        r1 == r2,
    decreases s1.len(),
{
    if s1.len() == 0 {
        assert(spec_wire_txs(s1) + r1 =~= r1);
        assert(spec_wire_txs(s2) + r2 =~= r2);
        assert(s1 =~= s2);
    } else {
        assert((spec_wire_tx(s1[0]) + spec_wire_txs(s1.drop_first())) + r1 =~= spec_wire_tx(
            s1[0],
        ) + (spec_wire_txs(s1.drop_first()) + r1));
        assert((spec_wire_tx(s2[0]) + spec_wire_txs(s2.drop_first())) + r2 =~= spec_wire_tx(
            s2[0],
        ) + (spec_wire_txs(s2.drop_first()) + r2));
        lemma_wire_tx_unambiguous(
            s1[0],
            s2[0],
            spec_wire_txs(s1.drop_first()) + r1,
            spec_wire_txs(s2.drop_first()) + r2,
        );
        assert forall|i: int| 0 <= i < s1.drop_first().len() implies (
        #[trigger] s1.drop_first()[i]).wf() && tx_wire_bounds(s1.drop_first()[i])
            && s2.drop_first()[i].wf() && tx_wire_bounds(s2.drop_first()[i]) by {
            assert(s1.drop_first()[i] == s1[i + 1]);
            assert(s2.drop_first()[i] == s2[i + 1]);
        }
        lemma_wire_txs_unambiguous(s1.drop_first(), s2.drop_first(), r1, r2);
        assert forall|i: int| 0 <= i < s1.len() implies s1[i] == s2[i] by {
            if i > 0 {
                assert(s1.drop_first()[i - 1] == s1[i]);
                assert(s2.drop_first()[i - 1] == s2[i]);
            }
        }
        assert(s1 =~= s2);
    }
}

/// The list lengths a block's wire form may carry.
pub open spec fn block_wire_bounds(b: BlockV) -> bool {
    &&& b.transactions.len() <= u64::MAX
    &&& forall|i: int| 0 <= i < b.transactions.len() ==> tx_wire_bounds(
        #[trigger] b.transactions[i],
    )
}

/// Round trip: a block's wire form names it uniquely. Together with the
/// decoder's contract — whatever decodes re-encodes to the very same
/// bytes — encoding a block, decoding the bytes and verifying again can
/// only yield the block one started from.
pub proof fn lemma_wire_block_injective(b1: BlockV, b2: BlockV)
    requires
        b1.wf(),
        b2.wf(),
        block_wire_bounds(b1),
        block_wire_bounds(b2),
        spec_wire_block(b1) == spec_wire_block(b2),
    ensures
        b1 == b2,
{
    lemma_auto_spec_u64_to_from_le_bytes();
    let ha = spec_u64_to_le_bytes(b1.height);
    let hb = spec_u64_to_le_bytes(b2.height);
    let ca = spec_u64_to_le_bytes(b1.transactions.len() as u64);
    let cb = spec_u64_to_le_bytes(b2.transactions.len() as u64);
    let ta = spec_wire_txs(b1.transactions);
    let tb = spec_wire_txs(b2.transactions);
    let sa = spec_u64_to_le_bytes(b1.timestamp as u64);
    let sb = spec_u64_to_le_bytes(b2.timestamp as u64);
    let na = spec_u64_to_le_bytes(b1.nonce);
    let nb = spec_u64_to_le_bytes(b2.nonce);
    assert(spec_wire_block(b1) =~= ha + (ca + (ta + (sa + (b1.previous_digest + (seq![
        b1.difficulty,
    ] + (na + b1.digest)))))));
    assert(spec_wire_block(b2) =~= hb + (cb + (tb + (sb + (b2.previous_digest + (seq![
        b2.difficulty,
    ] + (nb + b2.digest)))))));
    lemma_split_fixed(
        ha,
        ca + (ta + (sa + (b1.previous_digest + (seq![b1.difficulty] + (na + b1.digest))))),
        hb,
        cb + (tb + (sb + (b2.previous_digest + (seq![b2.difficulty] + (nb + b2.digest))))),
    );
    lemma_u64_le_injective(b1.height, b2.height);
    lemma_split_fixed(
        ca,
        ta + (sa + (b1.previous_digest + (seq![b1.difficulty] + (na + b1.digest)))),
        cb,
        tb + (sb + (b2.previous_digest + (seq![b2.difficulty] + (nb + b2.digest)))),
    );
    lemma_u64_le_injective(b1.transactions.len() as u64, b2.transactions.len() as u64);
    assert(b1.transactions.len() == b2.transactions.len());
    lemma_wire_txs_unambiguous(
        b1.transactions,
        b2.transactions,
        sa + (b1.previous_digest + (seq![b1.difficulty] + (na + b1.digest))),
        sb + (b2.previous_digest + (seq![b2.difficulty] + (nb + b2.digest))),
    );
    lemma_split_fixed(
        sa,
        b1.previous_digest + (seq![b1.difficulty] + (na + b1.digest)),
        sb,
        b2.previous_digest + (seq![b2.difficulty] + (nb + b2.digest)),
    );
    lemma_u64_le_injective(b1.timestamp as u64, b2.timestamp as u64);
    let x = b1.timestamp;
    let y = b2.timestamp;
    assert(x as u64 == y as u64 ==> x == y) by (bit_vector);
    lemma_split_fixed(
        b1.previous_digest,
        seq![b1.difficulty] + (na + b1.digest),
        b2.previous_digest,
        seq![b2.difficulty] + (nb + b2.digest),
    );
    lemma_split_fixed(
        seq![b1.difficulty],
        na + b1.digest,
        seq![b2.difficulty],
        nb + b2.digest,
    );
    assert(seq![b1.difficulty][0] == b1.difficulty);
    assert(seq![b2.difficulty][0] == b2.difficulty);
    lemma_split_fixed(na, b1.digest, nb, b2.digest);
    lemma_u64_le_injective(b1.nonce, b2.nonce);
}

/// A transition's wire form names it uniquely.
pub proof fn lemma_wire_transition_injective(t1: TransitionV, t2: TransitionV)
    requires
        t1.wf(),
        t2.wf(),
        spec_wire_transition(t1) == spec_wire_transition(t2),
    ensures
        t1 == t2,
{
    assert(spec_wire_transition(t1) + Seq::<u8>::empty() =~= spec_wire_transition(t1));
    assert(spec_wire_transition(t2) + Seq::<u8>::empty() =~= spec_wire_transition(t2));
    lemma_wire_transition_unambiguous(t1, t2, Seq::empty(), Seq::empty());
}

/// A transaction's wire form names it uniquely.
pub proof fn lemma_wire_tx_injective(t1: TransactionV, t2: TransactionV)
    requires
        t1.wf(),
        t2.wf(),
        tx_wire_bounds(t1),
        tx_wire_bounds(t2),
        spec_wire_tx(t1) == spec_wire_tx(t2),
    ensures
        t1 == t2,
{
    assert(spec_wire_tx(t1) + Seq::<u8>::empty() =~= spec_wire_tx(t1));
    assert(spec_wire_tx(t2) + Seq::<u8>::empty() =~= spec_wire_tx(t2));
    lemma_wire_tx_unambiguous(t1, t2, Seq::empty(), Seq::empty());
}

/// Whether a counted list of transitions sits in `bytes` at `pos`: its
/// length as eight little-endian bytes, then each member's wire form.
pub open spec fn is_wire_transitions_at(bytes: Seq<u8>, pos: int, s: Seq<TransitionV>) -> bool {
    &&& pos + 8 + spec_wire_transitions(s).len() <= bytes.len()
    &&& bytes.subrange(pos, pos + 8) == spec_u64_to_le_bytes(s.len() as u64)
    &&& bytes.subrange(pos + 8, pos + 8 + spec_wire_transitions(s).len())
        == spec_wire_transitions(s)
}

/// Whether a transaction's wire form sits in `bytes` at `pos`.
pub open spec fn is_wire_tx_at(bytes: Seq<u8>, pos: int, t: TransactionV) -> bool {
    &&& pos + spec_wire_tx(t).len() <= bytes.len()
    &&& bytes.subrange(pos, pos + spec_wire_tx(t).len()) == spec_wire_tx(t)
}

/// Whether a counted list of transactions sits in `bytes` at `pos`.
pub open spec fn is_wire_txs_at(bytes: Seq<u8>, pos: int, s: Seq<TransactionV>) -> bool {
    &&& pos + 8 + spec_wire_txs(s).len() <= bytes.len()
    &&& bytes.subrange(pos, pos + 8) == spec_u64_to_le_bytes(s.len() as u64)
    &&& bytes.subrange(pos + 8, pos + 8 + spec_wire_txs(s).len()) == spec_wire_txs(s)
}

/// Every transition in the list is well formed.
pub open spec fn transitions_all_wf(s: Seq<TransitionV>) -> bool {
    forall|i: int| 0 <= i < s.len() ==> (#[trigger] s[i]).wf()
}

/// Every transaction in the list is well formed and within wire bounds.
pub open spec fn txs_all_wf_bounded(s: Seq<TransactionV>) -> bool {
    forall|i: int| 0 <= i < s.len() ==> (#[trigger] s[i]).wf() && tx_wire_bounds(s[i])
}

/// A subrange equal to a concatenation splits at the seam.
proof fn lemma_subrange_concat(bytes: Seq<u8>, pos: int, a: Seq<u8>, b: Seq<u8>)
    requires
        0 <= pos,
        pos + a.len() + b.len() <= bytes.len(),
        bytes.subrange(pos, pos + a.len() + b.len()) == a + b,
    ensures
        bytes.subrange(pos, pos + a.len()) == a,
        bytes.subrange(pos + a.len(), pos + a.len() + b.len()) == b,
{
    assert forall|i: int| 0 <= i < a.len() implies bytes.subrange(pos, pos + a.len())[i]
        == a[i] by {
        assert((a + b)[i] == a[i]);
        assert(bytes.subrange(pos, pos + a.len() + b.len())[i] == bytes[pos + i]);
    }
    assert(bytes.subrange(pos, pos + a.len()) =~= a);
    assert forall|i: int| 0 <= i < b.len() implies bytes.subrange(
        pos + a.len(),
        pos + a.len() + b.len(),
    )[i] == b[i] by {
        assert((a + b)[a.len() + i] == b[i]);
        assert(bytes.subrange(pos, pos + a.len() + b.len())[a.len() + i] == bytes[pos + a.len()
            + i]);
    }
    assert(bytes.subrange(pos + a.len(), pos + a.len() + b.len()) =~= b);
}

/// Well-formed transitions take at least 113 wire bytes each.
proof fn lemma_wire_transitions_min_len(s: Seq<TransitionV>)
    requires
        transitions_all_wf(s),
    ensures
        spec_wire_transitions(s).len() >= 113 * s.len(),
    decreases s.len(),
{
    if s.len() > 0 {
        assert(s[0].wf());
        lemma_wire_transition_len(s[0]);
        assert forall|i: int| 0 <= i < s.drop_first().len() implies (
        #[trigger] s.drop_first()[i]).wf() by {
            assert(s.drop_first()[i] == s[i + 1]);
        }
        lemma_wire_transitions_min_len(s.drop_first());
    }
}

/// A well-formed transaction's wire length: a fixed 120 bytes plus its
/// two transition lists.
proof fn lemma_wire_tx_len(t: TransactionV)
    requires
        t.wf(),
    ensures
        spec_wire_tx(t).len() == 120 + spec_wire_transitions(t.inputs).len()
            + spec_wire_transitions(t.outputs).len(),
{
    lemma_auto_spec_u64_to_from_le_bytes();
}

/// Well-formed transactions take at least 120 wire bytes each.
proof fn lemma_wire_txs_min_len(s: Seq<TransactionV>)
    requires
        forall|i: int| 0 <= i < s.len() ==> (#[trigger] s[i]).wf(),
    ensures
        spec_wire_txs(s).len() >= 120 * s.len(),
    decreases s.len(),
{
    if s.len() > 0 {
        assert(s[0].wf());
        lemma_wire_tx_len(s[0]);
        assert forall|i: int| 0 <= i < s.drop_first().len() implies (
        #[trigger] s.drop_first()[i]).wf() by {
            assert(s.drop_first()[i] == s[i + 1]);
        }
        lemma_wire_txs_min_len(s.drop_first());
    }
}

/// Two counted transition lists at one position are the same list.
proof fn lemma_wire_transitions_at_align(
    bytes: Seq<u8>,
    pos: int,
    s1: Seq<TransitionV>,
    s2: Seq<TransitionV>,
)
    requires
        0 <= pos,
        transitions_all_wf(s1),
        transitions_all_wf(s2),
        s1.len() <= u64::MAX,
        s2.len() <= u64::MAX,
        is_wire_transitions_at(bytes, pos, s1),
        is_wire_transitions_at(bytes, pos, s2),
    ensures
        s1 == s2,
{
    lemma_u64_le_injective(s1.len() as u64, s2.len() as u64);
    assert(s1.len() == s2.len());
    let w1 = spec_wire_transitions(s1);
    let w2 = spec_wire_transitions(s2);
    let n = bytes.len() as int;
    assert(bytes.subrange(pos + 8, n) =~= bytes.subrange(pos + 8, pos + 8 + w1.len())
        + bytes.subrange(pos + 8 + w1.len(), n));
    assert(bytes.subrange(pos + 8, n) =~= bytes.subrange(pos + 8, pos + 8 + w2.len())
        + bytes.subrange(pos + 8 + w2.len(), n));
    lemma_wire_transitions_unambiguous(
        s1,
        s2,
        bytes.subrange(pos + 8 + w1.len(), n),
        bytes.subrange(pos + 8 + w2.len(), n),
    );
}

/// Two counted transaction lists at one position are the same list.
proof fn lemma_wire_txs_at_align(
    bytes: Seq<u8>,
    pos: int,
    s1: Seq<TransactionV>,
    s2: Seq<TransactionV>,
)
    requires
        0 <= pos,
        txs_all_wf_bounded(s1),
        txs_all_wf_bounded(s2),
        s1.len() <= u64::MAX,
        s2.len() <= u64::MAX,
        is_wire_txs_at(bytes, pos, s1),
        is_wire_txs_at(bytes, pos, s2),
    ensures
        s1 == s2,
{
    lemma_u64_le_injective(s1.len() as u64, s2.len() as u64);
    assert(s1.len() == s2.len());
    let w1 = spec_wire_txs(s1);
    let w2 = spec_wire_txs(s2);
    let n = bytes.len() as int;
    assert(bytes.subrange(pos + 8, n) =~= bytes.subrange(pos + 8, pos + 8 + w1.len())
        + bytes.subrange(pos + 8 + w1.len(), n));
    assert(bytes.subrange(pos + 8, n) =~= bytes.subrange(pos + 8, pos + 8 + w2.len())
        + bytes.subrange(pos + 8 + w2.len(), n));
    lemma_wire_txs_unambiguous(
        s1,
        s2,
        bytes.subrange(pos + 8 + w1.len(), n),
        bytes.subrange(pos + 8 + w2.len(), n),
    );
}

/// Where each field of a transaction's wire form sits in the bytes that
/// hold it.
proof fn lemma_wire_tx_layout(bytes: Seq<u8>, pos: int, t: TransactionV)
    requires
        0 <= pos,
        t.wf(),
        tx_wire_bounds(t),
        is_wire_tx_at(bytes, pos, t),
    ensures
        ({
            let wi = spec_wire_transitions(t.inputs).len() as int;
            let wo = spec_wire_transitions(t.outputs).len() as int;
            &&& pos + 120 + wi + wo <= bytes.len()
            &&& spec_wire_tx(t).len() == 120 + wi + wo
            &&& bytes.subrange(pos, pos + 32) == t.contractor
            &&& is_wire_transitions_at(bytes, pos + 32, t.inputs)
            &&& is_wire_transitions_at(bytes, pos + 40 + wi, t.outputs)
            &&& bytes.subrange(pos + 48 + wi + wo, pos + 56 + wi + wo) == spec_u64_to_le_bytes(
                t.timestamp as u64,
            )
            &&& bytes.subrange(pos + 56 + wi + wo, pos + 120 + wi + wo) == t.sign
        }),
{
    lemma_auto_spec_u64_to_from_le_bytes();
    lemma_wire_tx_len(t);
    let wi = spec_wire_transitions(t.inputs).len() as int;
    let wo = spec_wire_transitions(t.outputs).len() as int;
    let ci = spec_u64_to_le_bytes(t.inputs.len() as u64);
    let co = spec_u64_to_le_bytes(t.outputs.len() as u64);
    let ts = spec_u64_to_le_bytes(t.timestamp as u64);
    let r1 = ci + (spec_wire_transitions(t.inputs) + (co + (spec_wire_transitions(t.outputs) + (ts
        + t.sign))));
    assert(spec_wire_tx(t) =~= t.contractor + r1);
    lemma_subrange_concat(bytes, pos, t.contractor, r1);
    let r2 = spec_wire_transitions(t.inputs) + (co + (spec_wire_transitions(t.outputs) + (ts
        + t.sign)));
    assert(r1 =~= ci + r2);
    lemma_subrange_concat(bytes, pos + 32, ci, r2);
    let r3 = co + (spec_wire_transitions(t.outputs) + (ts + t.sign));
    assert(r2 =~= spec_wire_transitions(t.inputs) + r3);
    lemma_subrange_concat(bytes, pos + 40, spec_wire_transitions(t.inputs), r3);
    let r4 = spec_wire_transitions(t.outputs) + (ts + t.sign);
    assert(r3 =~= co + r4);
    lemma_subrange_concat(bytes, pos + 40 + wi, co, r4);
    let r5 = ts + t.sign;
    assert(r4 =~= spec_wire_transitions(t.outputs) + r5);
    lemma_subrange_concat(bytes, pos + 48 + wi, spec_wire_transitions(t.outputs), r5);
    lemma_subrange_concat(bytes, pos + 48 + wi + wo, ts, t.sign);
}

/// Where each field of a block's wire form sits when the bytes hold
/// exactly one block.
proof fn lemma_wire_block_layout(bytes: Seq<u8>, b: BlockV)
    requires
        b.wf(),
        block_wire_bounds(b),
        spec_wire_block(b) == bytes,
    ensures
        ({
            let wt = spec_wire_txs(b.transactions).len() as int;
            &&& bytes.len() == 97 + wt
            &&& bytes.subrange(0, 8) == spec_u64_to_le_bytes(b.height)
            &&& is_wire_txs_at(bytes, 8, b.transactions)
            &&& bytes.subrange(16 + wt, 24 + wt) == spec_u64_to_le_bytes(b.timestamp as u64)
            &&& bytes.subrange(24 + wt, 56 + wt) == b.previous_digest
            &&& bytes.subrange(56 + wt, 57 + wt) == seq![b.difficulty]
            &&& bytes.subrange(57 + wt, 65 + wt) == spec_u64_to_le_bytes(b.nonce)
            &&& bytes.subrange(65 + wt, 97 + wt) == b.digest
        }),
{
    lemma_auto_spec_u64_to_from_le_bytes();
    let wt = spec_wire_txs(b.transactions).len() as int;
    let h = spec_u64_to_le_bytes(b.height);
    let c = spec_u64_to_le_bytes(b.transactions.len() as u64);
    let ts = spec_u64_to_le_bytes(b.timestamp as u64);
    let nn = spec_u64_to_le_bytes(b.nonce);
    assert(bytes.subrange(0, bytes.len() as int) =~= bytes);
    let r1 = c + (spec_wire_txs(b.transactions) + (ts + (b.previous_digest + (seq![b.difficulty]
        + (nn + b.digest)))));
    assert(spec_wire_block(b) =~= h + r1);
    assert(bytes.len() == 97 + wt);
    lemma_subrange_concat(bytes, 0, h, r1);
    let r2 = spec_wire_txs(b.transactions) + (ts + (b.previous_digest + (seq![b.difficulty] + (nn
        + b.digest))));
    assert(r1 =~= c + r2);
    lemma_subrange_concat(bytes, 8, c, r2);
    let r3 = ts + (b.previous_digest + (seq![b.difficulty] + (nn + b.digest)));
    assert(r2 =~= spec_wire_txs(b.transactions) + r3);
    lemma_subrange_concat(bytes, 16, spec_wire_txs(b.transactions), r3);
    let r4 = b.previous_digest + (seq![b.difficulty] + (nn + b.digest));
    assert(r3 =~= ts + r4);
    lemma_subrange_concat(bytes, 16 + wt, ts, r4);
    let r5 = seq![b.difficulty] + (nn + b.digest);
    assert(r4 =~= b.previous_digest + r5);
    lemma_subrange_concat(bytes, 24 + wt, b.previous_digest, r5);
    let r6 = nn + b.digest;
    assert(r5 =~= seq![b.difficulty] + r6);
    lemma_subrange_concat(bytes, 56 + wt, seq![b.difficulty], r6);
    lemma_subrange_concat(bytes, 57 + wt, nn, b.digest);
}

/// Append the wire form of one transition.
fn write_wire_transition<T>(t: &Transition<T>, out: &mut Vec<u8>)
    ensures
        final(out)@ == old(out)@ + spec_wire_transition(t@),
{
    match t {
        Transition::Transfer(tr) => {
            out.push(0u8);
            crate::bytesutil::append_bytes(out, tr.sender().bytes());
            crate::bytesutil::append_bytes(out, tr.receiver().bytes());
            let q = u64_to_le_bytes(tr.quantity().value());
            crate::bytesutil::append_bytes(out, &q);
            let ts = u64_to_le_bytes(tr.timestamp().nanos() as u64);
            crate::bytesutil::append_bytes(out, &ts);
            crate::bytesutil::append_bytes(out, tr.sign().bytes());
            proof {
                crate::transition::lemma_transition_view(t);
                assert(out@ =~= old(out)@ + spec_wire_transition(t@));
            }
        },
        Transition::Generation(g) => {
            out.push(1u8);
            crate::bytesutil::append_bytes(out, g.receiver().bytes());
            let q = u64_to_le_bytes(g.quantity().value());
            crate::bytesutil::append_bytes(out, &q);
            let ts = u64_to_le_bytes(g.timestamp().nanos() as u64);
            crate::bytesutil::append_bytes(out, &ts);
            crate::bytesutil::append_bytes(out, g.sign().bytes());
            proof {
                crate::transition::lemma_transition_view(t);
                assert(out@ =~= old(out)@ + spec_wire_transition(t@));
            }
        },
    }
}

/// Append the counted wire form of a list of transitions.
fn write_wire_transitions<T>(v: &Vec<Transition<T>>, out: &mut Vec<u8>)
    ensures
        final(out)@ == old(out)@ + spec_u64_to_le_bytes(transitions_view(v@).len() as u64)
            + spec_wire_transitions(transitions_view(v@)),
{
    let ghost views = transitions_view(v@);
    let count = u64_to_le_bytes(v.len() as u64);
    crate::bytesutil::append_bytes(out, &count);
    let ghost mark = out@;
    let mut i: usize = 0;
    while i < v.len()
        invariant
            i <= v@.len(),
            views == transitions_view(v@),
            out@ == mark + spec_wire_transitions(views.take(i as int)),
        decreases v@.len() - i,
    {
        write_wire_transition(&v[i], out);
        proof {
            assert(views.take(i + 1) =~= views.take(i as int).push(views[i as int]));
            lemma_wire_transitions_push(views.take(i as int), views[i as int]);
            assert(views[i as int] == v@[i as int]@);
            assert(mark + spec_wire_transitions(views.take(i as int)) + spec_wire_transition(
                views[i as int],
            ) =~= mark + (spec_wire_transitions(views.take(i as int)) + spec_wire_transition(
                views[i as int],
            )));
        }
        i = i + 1;
    }
    proof {
        assert(views.take(views.len() as int) =~= views);
        assert(out@ =~= old(out)@ + spec_u64_to_le_bytes(views.len() as u64)
            + spec_wire_transitions(views));
    }
}

/// The wire form of one transition.
pub fn encode_transition<T>(t: &Transition<T>) -> (r: Vec<u8>)
    ensures
        r@ == spec_wire_transition(t@),
{
    let mut out: Vec<u8> = Vec::new();
    write_wire_transition(t, &mut out);
    proof {
        assert(Seq::<u8>::empty() + spec_wire_transition(t@) =~= spec_wire_transition(t@));
    }
    out
}

/// Append the wire form of one transaction.
fn write_wire_tx<A, B>(tx: &Transaction<A, B>, out: &mut Vec<u8>)
    ensures
        final(out)@ == old(out)@ + spec_wire_tx(tx@),
{
    crate::bytesutil::append_bytes(out, tx.contractor().bytes());
    write_wire_transitions(tx.inputs(), out);
    write_wire_transitions(tx.outputs(), out);
    let ts = u64_to_le_bytes(tx.timestamp().nanos() as u64);
    crate::bytesutil::append_bytes(out, &ts);
    crate::bytesutil::append_bytes(out, tx.sign().bytes());
    proof {
        assert(out@ =~= old(out)@ + spec_wire_tx(tx@));
    }
}

/// The wire form of one transaction.
pub fn encode_transaction<A, B>(tx: &Transaction<A, B>) -> (r: Vec<u8>)
    ensures
        r@ == spec_wire_tx(tx@),
{
    let mut out: Vec<u8> = Vec::new();
    write_wire_tx(tx, &mut out);
    proof {
        assert(Seq::<u8>::empty() + spec_wire_tx(tx@) =~= spec_wire_tx(tx@));
    }
    out
}

/// The wire form of one block.
pub fn encode_block<VT, VTS, VU, VP, VDG, VDI>(b: &Block<VT, VTS, VU, VP, VDG, VDI>) -> (r: Vec<
    u8,
>)
    ensures
        r@ == spec_wire_block(b@),
{
    let mut out: Vec<u8> = Vec::new();
    let h = u64_to_le_bytes(b.height().value());
    crate::bytesutil::append_bytes(&mut out, &h);
    let txs = b.transactions();
    let count = u64_to_le_bytes(txs.len() as u64);
    crate::bytesutil::append_bytes(&mut out, &count);
    let ghost views = txs_view(txs@);
    let ghost mark = out@;
    let mut i: usize = 0;
    while i < txs.len()
        invariant
            i <= txs@.len(),
            views == txs_view(txs@),
            out@ == mark + spec_wire_txs(views.take(i as int)),
        decreases txs@.len() - i,
    {
        write_wire_tx(&txs[i], &mut out);
        proof {
            assert(views.take(i + 1) =~= views.take(i as int).push(views[i as int]));
            lemma_wire_txs_push(views.take(i as int), views[i as int]);
            assert(views[i as int] == txs@[i as int]@);
            assert(mark + spec_wire_txs(views.take(i as int)) + spec_wire_tx(views[i as int]) =~=
            mark + (spec_wire_txs(views.take(i as int)) + spec_wire_tx(views[i as int])));
        }
        i = i + 1;
    }
    proof {
        assert(views.take(views.len() as int) =~= views);
    }
    let ts = u64_to_le_bytes(b.timestamp().nanos() as u64);
    crate::bytesutil::append_bytes(&mut out, &ts);
    crate::bytesutil::append_bytes(&mut out, b.previous_digest().bytes());
    let mut diff: Vec<u8> = Vec::new();
    diff.push(b.difficulty().value());
    crate::bytesutil::append_bytes(&mut out, &diff);
    let nonce = u64_to_le_bytes(b.nonce());
    crate::bytesutil::append_bytes(&mut out, &nonce);
    crate::bytesutil::append_bytes(&mut out, b.digest().bytes());
    proof {
        assert(diff@ =~= seq![b@.difficulty]);
        assert(out@ =~= spec_wire_block(b@));
    }
    out
}

/// Read exactly `n` bytes at the cursor.
fn read_bytes(bytes: &Vec<u8>, pos: &mut usize, n: usize) -> (r: Result<Vec<u8>, WireError>)
    requires
        *old(pos) <= bytes@.len(),
    ensures
        match r {
            Ok(v) => {
                &&& *old(pos) + n <= bytes@.len()
                &&& *final(pos) == *old(pos) + n
                &&& v@ == bytes@.subrange(*old(pos) as int, *final(pos) as int)
                &&& v@.len() == n
            },
            Err(e) => *old(pos) + n > bytes@.len() && *final(pos) == *old(pos),
        },
{
    if n > bytes.len() - *pos {
        return Err(WireError);
    }
    let start = *pos;
    let blen = bytes.len();
    let mut out: Vec<u8> = Vec::new();
    let mut i: usize = 0;
    while i < n
        invariant
            i <= n,
            blen == bytes@.len(),
            start + n <= bytes@.len(),
            out@ == bytes@.subrange(start as int, start + i),
        decreases n - i,
    {
        out.push(bytes[start + i]);
        proof {
            assert(bytes@.subrange(start as int, start + i + 1) =~= bytes@.subrange(
                start as int,
                start + i,
            ).push(bytes@[start + i]));
        }
        i = i + 1;
    }
    *pos = start + n;
    Ok(out)
}

/// Read one little-endian 64-bit integer at the cursor.
fn read_u64(bytes: &Vec<u8>, pos: &mut usize) -> (r: Result<u64, WireError>)
    requires
        *old(pos) <= bytes@.len(),
    ensures
        match r {
            Ok(x) => {
                &&& *old(pos) + 8 <= bytes@.len()
                &&& *final(pos) == *old(pos) + 8
                &&& spec_u64_to_le_bytes(x) == bytes@.subrange(
                    *old(pos) as int,
                    *final(pos) as int,
                )
            },
            Err(e) => *old(pos) + 8 > bytes@.len() && *final(pos) == *old(pos),
        },
{
    let v = match read_bytes(bytes, pos, 8) {
        Ok(v) => v,
        Err(e) => {
            return Err(e);
        },
    };
    let x = u64_from_le_bytes(v.as_slice());
    proof {
        lemma_auto_spec_u64_to_from_le_bytes();
    }
    Ok(x)
}

/// Whether a well-formed transition's wire form sits in `bytes` at `pos`.
pub open spec fn is_wire_transition_at(bytes: Seq<u8>, pos: int, t: TransitionV) -> bool {
    &&& pos + spec_wire_transition(t).len() <= bytes.len()
    &&& bytes.subrange(pos, pos + spec_wire_transition(t).len()) == spec_wire_transition(t)
}

/// A well-formed transition's wire form has a fixed length and leads with
/// its variant tag.
pub proof fn lemma_wire_transition_len(t: TransitionV)
    requires
        t.wf(),
    ensures
        spec_wire_transition(t).len() == (if t.is_transfer() {
            145int
        } else {
            113int
        }),
        spec_wire_transition(t)[0] == (if t.is_transfer() {
            0u8
        } else {
            1u8
        }),
{
    lemma_auto_spec_u64_to_from_le_bytes();
    match t {
        TransitionV::Transfer(a) => {
            assert(spec_wire_transition(t)[0] == 0u8);
        },
        TransitionV::Generation(a) => {
            assert(spec_wire_transition(t)[0] == 1u8);
        },
    }
}

/// Decode one transition at the cursor.
fn decode_transition_at(bytes: &Vec<u8>, pos: &mut usize) -> (r: Result<
    Transition<Yet>,
    WireError,
>)
    requires
        *old(pos) <= bytes@.len(),
    ensures
        match r {
            Ok(t) => {
                &&& *old(pos) <= *final(pos) <= bytes@.len()
                &&& bytes@.subrange(*old(pos) as int, *final(pos) as int) == spec_wire_transition(
                    t@,
                )
                &&& t@.wf()
            },
            Err(e) => {
                &&& *final(pos) <= bytes@.len()
                &&& forall|t: TransitionV| t.wf() ==> !is_wire_transition_at(
                    bytes@,
                    *old(pos) as int,
                    t,
                )
            },
        },
{
    let ghost start = *pos;
    let tag = match read_bytes(bytes, pos, 1) {
        Ok(v) => v[0],
        Err(e) => {
            proof {
                assert forall|t: TransitionV| t.wf() implies !is_wire_transition_at(
                    bytes@,
                    start as int,
                    t,
                ) by {
                    lemma_wire_transition_len(t);
                }
            }
            return Err(e);
        },
    };
    proof {
        assert(bytes@[start as int] == tag);
    }
    if tag == 0 {
        let sender = match read_bytes(bytes, pos, 32) {
            Ok(v) => v,
            Err(e) => {
                proof {
                    assert forall|t: TransitionV| t.wf() implies !is_wire_transition_at(
                        bytes@,
                        start as int,
                        t,
                    ) by {
                        lemma_wire_transition_len(t);
                        if !t.is_transfer() && start + 113 <= bytes@.len() {
                            assert(bytes@.subrange(start as int, start + 113)[0] == bytes@[
                            start as int]);
                            assert(spec_wire_transition(t)[0] == 1u8);
                        }
                    }
                }
                return Err(e);
            },
        };
        let receiver = match read_bytes(bytes, pos, 32) {
            Ok(v) => v,
            Err(e) => {
                proof {
                    assert forall|t: TransitionV| t.wf() implies !is_wire_transition_at(
                        bytes@,
                        start as int,
                        t,
                    ) by {
                        lemma_wire_transition_len(t);
                        if !t.is_transfer() && start + 113 <= bytes@.len() {
                            assert(bytes@.subrange(start as int, start + 113)[0] == bytes@[
                            start as int]);
                            assert(spec_wire_transition(t)[0] == 1u8);
                        }
                    }
                }
                return Err(e);
            },
        };
        let quantity = match read_u64(bytes, pos) {
            Ok(x) => x,
            Err(e) => {
                proof {
                    assert forall|t: TransitionV| t.wf() implies !is_wire_transition_at(
                        bytes@,
                        start as int,
                        t,
                    ) by {
                        lemma_wire_transition_len(t);
                        if !t.is_transfer() && start + 113 <= bytes@.len() {
                            assert(bytes@.subrange(start as int, start + 113)[0] == bytes@[
                            start as int]);
                            assert(spec_wire_transition(t)[0] == 1u8);
                        }
                    }
                }
                return Err(e);
            },
        };
        let timestamp = match read_u64(bytes, pos) {
            Ok(x) => x,
            Err(e) => {
                proof {
                    assert forall|t: TransitionV| t.wf() implies !is_wire_transition_at(
                        bytes@,
                        start as int,
                        t,
                    ) by {
                        lemma_wire_transition_len(t);
                        if !t.is_transfer() && start + 113 <= bytes@.len() {
                            assert(bytes@.subrange(start as int, start + 113)[0] == bytes@[
                            start as int]);
                            assert(spec_wire_transition(t)[0] == 1u8);
                        }
                    }
                }
                return Err(e);
            },
        };
        let sign = match read_bytes(bytes, pos, 64) {
            Ok(v) => v,
            Err(e) => {
                proof {
                    assert forall|t: TransitionV| t.wf() implies !is_wire_transition_at(
                        bytes@,
                        start as int,
                        t,
                    ) by {
                        lemma_wire_transition_len(t);
                        if !t.is_transfer() && start + 113 <= bytes@.len() {
                            assert(bytes@.subrange(start as int, start + 113)[0] == bytes@[
                            start as int]);
                            assert(spec_wire_transition(t)[0] == 1u8);
                        }
                    }
                }
                return Err(e);
            },
        };
        let sender = match Address::from_bytes(sender) {
            Ok(a) => a,
            Err(()) => {
                proof {
                    assert(false);
                }
                return Err(WireError);
            },
        };
        let receiver = match Address::from_bytes(receiver) {
            Ok(a) => a,
            Err(()) => {
                proof {
                    assert(false);
                }
                return Err(WireError);
            },
        };
        let sign = match Signature::from_bytes(sign) {
            Ok(s) => s,
            Err(()) => {
                proof {
                    assert(false);
                }
                return Err(WireError);
            },
        };
        let t = Transition::Transfer(
            Transfer::from_parts(
                sender,
                receiver,
                Coin::from(quantity),
                Timestamp::from_nanos(#[verifier::truncate] (timestamp as i64)),
                sign,
            ),
        );
        proof {
            crate::transition::lemma_transition_view(&t);
            assert((timestamp as i64) as u64 == timestamp) by (bit_vector);
            assert(bytes@.subrange(start as int, *pos as int) =~= spec_wire_transition(t@));
        }
        Ok(t)
    } else if tag == 1 {
        let receiver = match read_bytes(bytes, pos, 32) {
            Ok(v) => v,
            Err(e) => {
                proof {
                    assert forall|t: TransitionV| t.wf() implies !is_wire_transition_at(
                        bytes@,
                        start as int,
                        t,
                    ) by {
                        lemma_wire_transition_len(t);
                    }
                }
                return Err(e);
            },
        };
        let quantity = match read_u64(bytes, pos) {
            Ok(x) => x,
            Err(e) => {
                proof {
                    assert forall|t: TransitionV| t.wf() implies !is_wire_transition_at(
                        bytes@,
                        start as int,
                        t,
                    ) by {
                        lemma_wire_transition_len(t);
                    }
                }
                return Err(e);
            },
        };
        let timestamp = match read_u64(bytes, pos) {
            Ok(x) => x,
            Err(e) => {
                proof {
                    assert forall|t: TransitionV| t.wf() implies !is_wire_transition_at(
                        bytes@,
                        start as int,
                        t,
                    ) by {
                        lemma_wire_transition_len(t);
                    }
                }
                return Err(e);
            },
        };
        let sign = match read_bytes(bytes, pos, 64) {
            Ok(v) => v,
            Err(e) => {
                proof {
                    assert forall|t: TransitionV| t.wf() implies !is_wire_transition_at(
                        bytes@,
                        start as int,
                        t,
                    ) by {
                        lemma_wire_transition_len(t);
                    }
                }
                return Err(e);
            },
        };
        let receiver = match Address::from_bytes(receiver) {
            Ok(a) => a,
            Err(()) => {
                proof {
                    assert(false);
                }
                return Err(WireError);
            },
        };
        let sign = match Signature::from_bytes(sign) {
            Ok(s) => s,
            Err(()) => {
                proof {
                    assert(false);
                }
                return Err(WireError);
            },
        };
        let t = Transition::Generation(
            Generation::from_parts(
                receiver,
                Coin::from(quantity),
                Timestamp::from_nanos(#[verifier::truncate] (timestamp as i64)),
                sign,
            ),
        );
        proof {
            crate::transition::lemma_transition_view(&t);
            assert((timestamp as i64) as u64 == timestamp) by (bit_vector);
            assert(bytes@.subrange(start as int, *pos as int) =~= spec_wire_transition(t@));
        }
        Ok(t)
    } else {
        proof {
            assert forall|t: TransitionV| t.wf() implies !is_wire_transition_at(
                bytes@,
                start as int,
                t,
            ) by {
                lemma_wire_transition_len(t);
                let n = spec_wire_transition(t).len();
                if start + n <= bytes@.len() {
                    assert(bytes@.subrange(start as int, start + n)[0] == bytes@[start as int]);
                }
            }
        }
        Err(WireError)
    }
}

/// The tail of a counted transition list, from its `i`th member on,
/// sits in `bytes` at `pos`.
spec fn wire_transitions_tail_at(bytes: Seq<u8>, pos: int, s: Seq<TransitionV>, i: int) -> bool {
    &&& pos + spec_wire_transitions(s.skip(i)).len() <= bytes.len()
    &&& bytes.subrange(pos, pos + spec_wire_transitions(s.skip(i)).len())
        == spec_wire_transitions(s.skip(i))
}

/// Decode a counted list of transitions at the cursor. Failure means no
/// well-formed counted list sits there.
#[verifier::rlimit(60)]
fn decode_transitions_at(bytes: &Vec<u8>, pos: &mut usize) -> (r: Result<
    Vec<Transition<Yet>>,
    WireError,
>)
    requires
        *old(pos) <= bytes@.len(),
    ensures
        match r {
            Ok(v) => {
                &&& *old(pos) <= *final(pos) <= bytes@.len()
                &&& transitions_all_wf(transitions_view(v@))
                &&& transitions_view(v@).len() <= u64::MAX
                &&& is_wire_transitions_at(bytes@, *old(pos) as int, transitions_view(v@))
                &&& *final(pos) == *old(pos) + 8 + spec_wire_transitions(
                    transitions_view(v@),
                ).len()
            },
            Err(e) => forall|s: Seq<TransitionV>|
                transitions_all_wf(s) && s.len() <= u64::MAX ==> !is_wire_transitions_at(
                    bytes@,
                    *old(pos) as int,
                    s,
                ),
        },
{
    let ghost start = *pos;
    let count64 = match read_u64(bytes, pos) {
        Ok(x) => x,
        Err(e) => {
            proof {
                assert forall|s: Seq<TransitionV>|
                    transitions_all_wf(s) && s.len() <= u64::MAX implies !is_wire_transitions_at(
                    bytes@,
                    start as int,
                    s,
                ) by {}
            }
            return Err(e);
        },
    };
    if count64 > bytes.len() as u64 {
        proof {
            assert forall|s: Seq<TransitionV>|
                transitions_all_wf(s) && s.len() <= u64::MAX implies !is_wire_transitions_at(
                bytes@,
                start as int,
                s,
            ) by {
                if is_wire_transitions_at(bytes@, start as int, s) {
                    lemma_u64_le_injective(s.len() as u64, count64);
                    assert(s.len() == count64);
                    lemma_wire_transitions_min_len(s);
                    assert(false);
                }
            }
        }
        return Err(WireError);
    }
    let count = count64 as usize;
    let ghost count_mark = *pos;
    let mut out: Vec<Transition<Yet>> = Vec::new();
    proof {
        assert forall|s: Seq<TransitionV>|
            transitions_all_wf(s) && s.len() == count && is_wire_transitions_at(
                bytes@,
                start as int,
                s,
            ) implies wire_transitions_tail_at(bytes@, count_mark as int, s, 0) by {
            assert(s.skip(0) =~= s);
        }
    }
    let mut i: usize = 0;
    while i < count
        invariant
            i <= count,
            start == *old(pos),
            count <= bytes@.len(),
            start + 8 == count_mark,
            count_mark <= *pos <= bytes@.len(),
            spec_u64_to_le_bytes(count as u64) == bytes@.subrange(start as int, start + 8),
            transitions_view(out@).len() == i,
            bytes@.subrange(count_mark as int, *pos as int) == spec_wire_transitions(
                transitions_view(out@),
            ),
            transitions_all_wf(transitions_view(out@)),
            forall|s: Seq<TransitionV>|
                transitions_all_wf(s) && s.len() == count && is_wire_transitions_at(
                    bytes@,
                    start as int,
                    s,
                ) ==> wire_transitions_tail_at(bytes@, *pos as int, s, i as int),
        decreases count - i,
    {
        let ghost before_pos = *pos;
        let ghost before_out = out@;
        let t = match decode_transition_at(bytes, pos) {
            Ok(t) => t,
            Err(e) => {
                proof {
                    assert forall|s: Seq<TransitionV>|
                        transitions_all_wf(s) && s.len()
                        <= u64::MAX implies !is_wire_transitions_at(bytes@, start as int, s) by {
                        if is_wire_transitions_at(bytes@, start as int, s) {
                            lemma_u64_le_injective(s.len() as u64, count as u64);
                            assert(s.len() == count);
                            assert(wire_transitions_tail_at(
                                bytes@,
                                before_pos as int,
                                s,
                                i as int,
                            ));
                            let w = s.skip(i as int);
                            assert(w[0] == s[i as int]);
                            assert(w.drop_first() =~= s.skip(i + 1));
                            assert(spec_wire_transitions(w) == spec_wire_transition(s[i as int])
                                + spec_wire_transitions(s.skip(i + 1)));
                            assert(s[i as int].wf());
                            lemma_subrange_concat(
                                bytes@,
                                before_pos as int,
                                spec_wire_transition(s[i as int]),
                                spec_wire_transitions(s.skip(i + 1)),
                            );
                            assert(is_wire_transition_at(bytes@, before_pos as int, s[i as int]));
                            assert(false);
                        }
                    }
                }
                return Err(e);
            },
        };
        out.push(t);
        proof {
            crate::transition::lemma_transitions_view_push(before_out, out@[out@.len() - 1]);
            lemma_wire_transitions_push(transitions_view(before_out), out@[out@.len() - 1]@);
            assert(bytes@.subrange(count_mark as int, *pos as int) =~= bytes@.subrange(
                count_mark as int,
                before_pos as int,
            ) + bytes@.subrange(before_pos as int, *pos as int));
            let n = bytes@.len() as int;
            assert forall|s: Seq<TransitionV>|
                transitions_all_wf(s) && s.len() == count && is_wire_transitions_at(
                    bytes@,
                    start as int,
                    s,
                ) implies wire_transitions_tail_at(bytes@, *pos as int, s, i + 1) by {
                assert(wire_transitions_tail_at(bytes@, before_pos as int, s, i as int));
                let w = s.skip(i as int);
                let wlen = spec_wire_transitions(w).len() as int;
                assert(w[0] == s[i as int]);
                assert(w.drop_first() =~= s.skip(i + 1));
                assert(spec_wire_transitions(w) == spec_wire_transition(s[i as int])
                    + spec_wire_transitions(s.skip(i + 1)));
                assert(s[i as int].wf());
                assert(bytes@.subrange(before_pos as int, n) =~= bytes@.subrange(
                    before_pos as int,
                    *pos as int,
                ) + bytes@.subrange(*pos as int, n));
                assert(bytes@.subrange(before_pos as int, n) =~= bytes@.subrange(
                    before_pos as int,
                    before_pos + wlen,
                ) + bytes@.subrange(before_pos + wlen, n));
                assert((spec_wire_transition(s[i as int]) + spec_wire_transitions(s.skip(i + 1)))
                    + bytes@.subrange(before_pos + wlen, n) =~= spec_wire_transition(s[i as int])
                    + (spec_wire_transitions(s.skip(i + 1)) + bytes@.subrange(
                    before_pos + wlen,
                    n,
                )));
                lemma_wire_transition_unambiguous(
                    t@,
                    s[i as int],
                    bytes@.subrange(*pos as int, n),
                    spec_wire_transitions(s.skip(i + 1)) + bytes@.subrange(before_pos + wlen, n),
                );
                lemma_subrange_concat(
                    bytes@,
                    *pos as int,
                    spec_wire_transitions(s.skip(i + 1)),
                    bytes@.subrange(before_pos + wlen, n),
                );
            }
        }
        i = i + 1;
    }
    proof {
        assert(transitions_view(out@).len() as u64 == count as u64);
        assert(bytes@.subrange(start as int, count_mark as int) == spec_u64_to_le_bytes(
            transitions_view(out@).len() as u64,
        ));
        assert(is_wire_transitions_at(bytes@, start as int, transitions_view(out@)));
    }
    Ok(out)
}

/// Decode one transaction at the cursor. Failure means no well-formed,
/// wire-bounded transaction sits there.
#[verifier::rlimit(60)]
fn decode_transaction_at(bytes: &Vec<u8>, pos: &mut usize) -> (r: Result<
    Transaction<Yet, Yet>,
    WireError,
>)
    requires
        *old(pos) <= bytes@.len(),
    ensures
        match r {
            Ok(t) => {
                &&& *old(pos) <= *final(pos) <= bytes@.len()
                &&& bytes@.subrange(*old(pos) as int, *final(pos) as int) == spec_wire_tx(t@)
                &&& t@.wf()
                &&& tx_wire_bounds(t@)
            },
            Err(e) => forall|t: TransactionV|
                t.wf() && tx_wire_bounds(t) ==> !is_wire_tx_at(bytes@, *old(pos) as int, t),
        },
{
    let ghost start = *pos;
    let contractor = match read_bytes(bytes, pos, 32) {
        Ok(v) => v,
        Err(e) => {
            proof {
                assert forall|t: TransactionV|
                    t.wf() && tx_wire_bounds(t) implies !is_wire_tx_at(
                    bytes@,
                    start as int,
                    t,
                ) by {
                    if is_wire_tx_at(bytes@, start as int, t) {
                        lemma_wire_tx_len(t);
                        assert(false);
                    }
                }
            }
            return Err(e);
        },
    };
    let ghost m1 = *pos;
    let inputs = match decode_transitions_at(bytes, pos) {
        Ok(v) => v,
        Err(e) => {
            proof {
                assert forall|t: TransactionV|
                    t.wf() && tx_wire_bounds(t) implies !is_wire_tx_at(
                    bytes@,
                    start as int,
                    t,
                ) by {
                    if is_wire_tx_at(bytes@, start as int, t) {
                        lemma_wire_tx_layout(bytes@, start as int, t);
                        assert(is_wire_transitions_at(bytes@, m1 as int, t.inputs));
                        assert(transitions_all_wf(t.inputs));
                        assert(false);
                    }
                }
            }
            return Err(e);
        },
    };
    let ghost iv = transitions_view(inputs@);
    let ghost m2 = *pos;
    let outputs = match decode_transitions_at(bytes, pos) {
        Ok(v) => v,
        Err(e) => {
            proof {
                assert forall|t: TransactionV|
                    t.wf() && tx_wire_bounds(t) implies !is_wire_tx_at(
                    bytes@,
                    start as int,
                    t,
                ) by {
                    if is_wire_tx_at(bytes@, start as int, t) {
                        lemma_wire_tx_layout(bytes@, start as int, t);
                        assert(transitions_all_wf(t.inputs));
                        lemma_wire_transitions_at_align(bytes@, m1 as int, iv, t.inputs);
                        assert(is_wire_transitions_at(bytes@, m2 as int, t.outputs));
                        assert(transitions_all_wf(t.outputs));
                        assert(false);
                    }
                }
            }
            return Err(e);
        },
    };
    let ghost ov = transitions_view(outputs@);
    let ghost m3 = *pos;
    let timestamp = match read_u64(bytes, pos) {
        Ok(x) => x,
        Err(e) => {
            proof {
                assert forall|t: TransactionV|
                    t.wf() && tx_wire_bounds(t) implies !is_wire_tx_at(
                    bytes@,
                    start as int,
                    t,
                ) by {
                    if is_wire_tx_at(bytes@, start as int, t) {
                        lemma_wire_tx_layout(bytes@, start as int, t);
                        assert(transitions_all_wf(t.inputs));
                        assert(transitions_all_wf(t.outputs));
                        lemma_wire_transitions_at_align(bytes@, m1 as int, iv, t.inputs);
                        lemma_wire_transitions_at_align(bytes@, m2 as int, ov, t.outputs);
                        assert(false);
                    }
                }
            }
            return Err(e);
        },
    };
    let ghost m4 = *pos;
    let sign = match read_bytes(bytes, pos, 64) {
        Ok(v) => v,
        Err(e) => {
            proof {
                assert forall|t: TransactionV|
                    t.wf() && tx_wire_bounds(t) implies !is_wire_tx_at(
                    bytes@,
                    start as int,
                    t,
                ) by {
                    if is_wire_tx_at(bytes@, start as int, t) {
                        lemma_wire_tx_layout(bytes@, start as int, t);
                        assert(transitions_all_wf(t.inputs));
                        assert(transitions_all_wf(t.outputs));
                        lemma_wire_transitions_at_align(bytes@, m1 as int, iv, t.inputs);
                        lemma_wire_transitions_at_align(bytes@, m2 as int, ov, t.outputs);
                        assert(false);
                    }
                }
            }
            return Err(e);
        },
    };
    let contractor = match Address::from_bytes(contractor) {
        Ok(a) => a,
        Err(()) => {
            proof {
                assert(false);
            }
            return Err(WireError);
        },
    };
    let sign = match Signature::from_bytes(sign) {
        Ok(s) => s,
        Err(()) => {
            proof {
                assert(false);
            }
            return Err(WireError);
        },
    };
    let t = Transaction::from_parts(
        contractor,
        inputs,
        outputs,
        Timestamp::from_nanos(#[verifier::truncate] (timestamp as i64)),
        sign,
    );
    proof {
        assert((#[verifier::truncate] (timestamp as i64)) as u64 == timestamp) by (bit_vector);
        assert(bytes@.subrange(m1 as int, m2 as int) =~= bytes@.subrange(m1 as int, m1 + 8)
            + bytes@.subrange(m1 + 8, m2 as int));
        assert(bytes@.subrange(m2 as int, m3 as int) =~= bytes@.subrange(m2 as int, m2 + 8)
            + bytes@.subrange(m2 + 8, m3 as int));
        assert(bytes@.subrange(start as int, m2 as int) =~= bytes@.subrange(
            start as int,
            m1 as int,
        ) + bytes@.subrange(m1 as int, m2 as int));
        assert(bytes@.subrange(start as int, m3 as int) =~= bytes@.subrange(
            start as int,
            m2 as int,
        ) + bytes@.subrange(m2 as int, m3 as int));
        assert(bytes@.subrange(start as int, m4 as int) =~= bytes@.subrange(
            start as int,
            m3 as int,
        ) + bytes@.subrange(m3 as int, m4 as int));
        assert(bytes@.subrange(start as int, *pos as int) =~= bytes@.subrange(
            start as int,
            m4 as int,
        ) + bytes@.subrange(m4 as int, *pos as int));
        assert(bytes@.subrange(start as int, *pos as int) =~= spec_wire_tx(t@));
    }
    Ok(t)
}

/// Decode one transition; the bytes must hold exactly one, and decoding
/// fails exactly when no well-formed transition encodes to them.
pub fn decode_transition(bytes: &Vec<u8>) -> (r: Result<Transition<Yet>, WireError>)
    ensures
        match r {
            Ok(t) => bytes@ == spec_wire_transition(t@) && t@.wf(),
            Err(e) => !exists|t: TransitionV|
                t.wf() && spec_wire_transition(t) == bytes@,
        },
{
    let mut pos: usize = 0;
    let t = match decode_transition_at(bytes, &mut pos) {
        Ok(t) => t,
        Err(e) => {
            proof {
                assert forall|v: TransitionV| v.wf() implies spec_wire_transition(v) != bytes@ by {
                    if spec_wire_transition(v) == bytes@ {
                        assert(bytes@.subrange(0, spec_wire_transition(v).len() as int)
                            =~= bytes@);
                        assert(is_wire_transition_at(bytes@, 0, v));
                    }
                }
            }
            return Err(e);
        },
    };
    if pos != bytes.len() {
        proof {
            assert forall|v: TransitionV| v.wf() implies spec_wire_transition(v) != bytes@ by {
                if spec_wire_transition(v) == bytes@ {
                    // The decoded transition and the claimed one lead with
                    // the same tag, so their wire forms are equally long;
                    // but one stops short of the bytes' end.
                    lemma_wire_transition_len(v);
                    lemma_wire_transition_len(t@);
                    assert(bytes@.subrange(0, pos as int)[0] == bytes@[0]);
                    assert(spec_wire_transition(t@)[0] == bytes@[0]);
                    assert(spec_wire_transition(v)[0] == bytes@[0]);
                    assert(t@.is_transfer() == v.is_transfer());
                    assert(pos == spec_wire_transition(t@).len());
                    assert(false);
                }
            }
        }
        return Err(WireError);
    }
    proof {
        assert(bytes@.subrange(0, bytes@.len() as int) =~= bytes@);
    }
    Ok(t)
}

/// The tail of a counted transaction list, from its `i`th member on,
/// sits in `bytes` at `pos`.
spec fn wire_txs_tail_at(bytes: Seq<u8>, pos: int, s: Seq<TransactionV>, i: int) -> bool {
    &&& pos + spec_wire_txs(s.skip(i)).len() <= bytes.len()
    &&& bytes.subrange(pos, pos + spec_wire_txs(s.skip(i)).len()) == spec_wire_txs(s.skip(i))
}

/// A list tail that sits at a position starts with its head's wire form.
proof fn lemma_txs_tail_head_at(bytes: Seq<u8>, p: int, s: Seq<TransactionV>, i: int)
    requires
        0 <= p,
        0 <= i < s.len(),
        txs_all_wf_bounded(s),
        wire_txs_tail_at(bytes, p, s, i),
    ensures
        is_wire_tx_at(bytes, p, s[i]),
{
    let w = s.skip(i);
    assert(w[0] == s[i]);
    assert(w.drop_first() =~= s.skip(i + 1));
    assert(spec_wire_txs(w) == spec_wire_tx(s[i]) + spec_wire_txs(s.skip(i + 1)));
    assert(s[i].wf() && tx_wire_bounds(s[i]));
    lemma_subrange_concat(bytes, p, spec_wire_tx(s[i]), spec_wire_txs(s.skip(i + 1)));
}

/// Consuming one transaction's wire form advances a sitting list tail by
/// one member, which must be the transaction read.
proof fn lemma_txs_tail_step(
    bytes: Seq<u8>,
    before_pos: int,
    new_pos: int,
    tparsed: TransactionV,
    s: Seq<TransactionV>,
    i: int,
)
    requires
        0 <= before_pos <= new_pos <= bytes.len(),
        tparsed.wf(),
        tx_wire_bounds(tparsed),
        bytes.subrange(before_pos, new_pos) == spec_wire_tx(tparsed),
        0 <= i < s.len(),
        txs_all_wf_bounded(s),
        wire_txs_tail_at(bytes, before_pos, s, i),
    ensures
        s[i] == tparsed,
        wire_txs_tail_at(bytes, new_pos, s, i + 1),
{
    let n = bytes.len() as int;
    let w = s.skip(i);
    let wlen = spec_wire_txs(w).len() as int;
    assert(w[0] == s[i]);
    assert(w.drop_first() =~= s.skip(i + 1));
    assert(spec_wire_txs(w) == spec_wire_tx(s[i]) + spec_wire_txs(s.skip(i + 1)));
    assert(s[i].wf() && tx_wire_bounds(s[i]));
    assert(bytes.subrange(before_pos, n) =~= bytes.subrange(before_pos, new_pos)
        + bytes.subrange(new_pos, n));
    assert(bytes.subrange(before_pos, n) =~= bytes.subrange(before_pos, before_pos + wlen)
        + bytes.subrange(before_pos + wlen, n));
    assert((spec_wire_tx(s[i]) + spec_wire_txs(s.skip(i + 1))) + bytes.subrange(
        before_pos + wlen,
        n,
    ) =~= spec_wire_tx(s[i]) + (spec_wire_txs(s.skip(i + 1)) + bytes.subrange(
        before_pos + wlen,
        n,
    )));
    lemma_wire_tx_unambiguous(
        tparsed,
        s[i],
        bytes.subrange(new_pos, n),
        spec_wire_txs(s.skip(i + 1)) + bytes.subrange(before_pos + wlen, n),
    );
    lemma_subrange_concat(
        bytes,
        new_pos,
        spec_wire_txs(s.skip(i + 1)),
        bytes.subrange(before_pos + wlen, n),
    );
}

/// Decode a counted list of transactions at the cursor. Failure means no
/// well-formed counted list sits there.
#[verifier::rlimit(60)]
fn decode_txs_at(bytes: &Vec<u8>, pos: &mut usize) -> (r: Result<
    Vec<Transaction<Yet, Yet>>,
    WireError,
>)
    requires
        *old(pos) <= bytes@.len(),
    ensures
        match r {
            Ok(v) => {
                &&& *old(pos) <= *final(pos) <= bytes@.len()
                &&& txs_all_wf_bounded(txs_view(v@))
                &&& txs_view(v@).len() <= u64::MAX
                &&& is_wire_txs_at(bytes@, *old(pos) as int, txs_view(v@))
                &&& *final(pos) == *old(pos) + 8 + spec_wire_txs(txs_view(v@)).len()
            },
            Err(e) => forall|s: Seq<TransactionV>|
                txs_all_wf_bounded(s) && s.len() <= u64::MAX ==> !is_wire_txs_at(
                    bytes@,
                    *old(pos) as int,
                    s,
                ),
        },
{
    let ghost start = *pos;
    let count64 = match read_u64(bytes, pos) {
        Ok(x) => x,
        Err(e) => {
            proof {
                assert forall|s: Seq<TransactionV>|
                    txs_all_wf_bounded(s) && s.len() <= u64::MAX implies !is_wire_txs_at(
                    bytes@,
                    start as int,
                    s,
                ) by {}
            }
            return Err(e);
        },
    };
    if count64 > bytes.len() as u64 {
        proof {
            assert forall|s: Seq<TransactionV>|
                txs_all_wf_bounded(s) && s.len() <= u64::MAX implies !is_wire_txs_at(
                bytes@,
                start as int,
                s,
            ) by {
                if is_wire_txs_at(bytes@, start as int, s) {
                    lemma_u64_le_injective(s.len() as u64, count64);
                    assert(s.len() == count64);
                    lemma_wire_txs_min_len(s);
                    assert(false);
                }
            }
        }
        return Err(WireError);
    }
    let count = count64 as usize;
    let ghost count_mark = *pos;
    let mut out: Vec<Transaction<Yet, Yet>> = Vec::new();
    proof {
        assert forall|s: Seq<TransactionV>|
            txs_all_wf_bounded(s) && s.len() == count && is_wire_txs_at(
                bytes@,
                start as int,
                s,
            ) implies wire_txs_tail_at(bytes@, count_mark as int, s, 0) by {
            assert(s.skip(0) =~= s);
        }
    }
    let mut i: usize = 0;
    while i < count
        invariant
            i <= count,
            start == *old(pos),
            count <= bytes@.len(),
            start + 8 == count_mark,
            count_mark <= *pos <= bytes@.len(),
            spec_u64_to_le_bytes(count as u64) == bytes@.subrange(start as int, start + 8),
            txs_view(out@).len() == i,
            bytes@.subrange(count_mark as int, *pos as int) == spec_wire_txs(txs_view(out@)),
            txs_all_wf_bounded(txs_view(out@)),
            forall|s: Seq<TransactionV>|
                txs_all_wf_bounded(s) && s.len() == count && is_wire_txs_at(
                    bytes@,
                    start as int,
                    s,
                ) ==> wire_txs_tail_at(bytes@, *pos as int, s, i as int),
        decreases count - i,
    {
        let ghost before_pos = *pos;
        let ghost before_out = out@;
        let t = match decode_transaction_at(bytes, pos) {
            Ok(t) => t,
            Err(e) => {
                proof {
                    assert forall|s: Seq<TransactionV>|
                        txs_all_wf_bounded(s) && s.len() <= u64::MAX implies !is_wire_txs_at(
                        bytes@,
                        start as int,
                        s,
                    ) by {
                        if is_wire_txs_at(bytes@, start as int, s) {
                            lemma_u64_le_injective(s.len() as u64, count as u64);
                            assert(s.len() == count);
                            assert(wire_txs_tail_at(bytes@, before_pos as int, s, i as int));
                            lemma_txs_tail_head_at(bytes@, before_pos as int, s, i as int);
                            assert(false);
                        }
                    }
                }
                return Err(e);
            },
        };
        out.push(t);
        proof {
            crate::block::lemma_txs_view_push(before_out, out@[out@.len() - 1]);
            lemma_wire_txs_push(txs_view(before_out), out@[out@.len() - 1]@);
            assert(bytes@.subrange(count_mark as int, *pos as int) =~= bytes@.subrange(
                count_mark as int,
                before_pos as int,
            ) + bytes@.subrange(before_pos as int, *pos as int));
            assert forall|s: Seq<TransactionV>|
                txs_all_wf_bounded(s) && s.len() == count && is_wire_txs_at(
                    bytes@,
                    start as int,
                    s,
                ) implies wire_txs_tail_at(bytes@, *pos as int, s, i + 1) by {
                assert(wire_txs_tail_at(bytes@, before_pos as int, s, i as int));
                lemma_txs_tail_step(bytes@, before_pos as int, *pos as int, t@, s, i as int);
            }
        }
        i = i + 1;
    }
    proof {
        assert(txs_view(out@).len() as u64 == count as u64);
        assert(bytes@.subrange(start as int, count_mark as int) == spec_u64_to_le_bytes(
            txs_view(out@).len() as u64,
        ));
        assert(is_wire_txs_at(bytes@, start as int, txs_view(out@)));
    }
    Ok(out)
}

/// Decode one transaction; the bytes must hold exactly one, and decoding
/// fails exactly when no well-formed, wire-bounded transaction encodes
/// to them.
pub fn decode_transaction(bytes: &Vec<u8>) -> (r: Result<Transaction<Yet, Yet>, WireError>)
    ensures
        match r {
            Ok(t) => bytes@ == spec_wire_tx(t@) && t@.wf() && tx_wire_bounds(t@),
            Err(e) => !exists|t: TransactionV|
                t.wf() && tx_wire_bounds(t) && spec_wire_tx(t) == bytes@,
        },
{
    let mut pos: usize = 0;
    let t = match decode_transaction_at(bytes, &mut pos) {
        Ok(t) => t,
        Err(e) => {
            proof {
                assert forall|v: TransactionV|
                    v.wf() && tx_wire_bounds(v) implies spec_wire_tx(v) != bytes@ by {
                    if spec_wire_tx(v) == bytes@ {
                        assert(bytes@.subrange(0, spec_wire_tx(v).len() as int) =~= bytes@);
                        assert(is_wire_tx_at(bytes@, 0, v));
                    }
                }
            }
            return Err(e);
        },
    };
    if pos != bytes.len() {
        proof {
            assert forall|v: TransactionV|
                v.wf() && tx_wire_bounds(v) implies spec_wire_tx(v) != bytes@ by {
                if spec_wire_tx(v) == bytes@ {
                    // The decoded transaction and the claimed one occupy
                    // the same prefix, so they are the same and end at
                    // the same place; but one stops short of the bytes'
                    // end.
                    let n = bytes@.len() as int;
                    assert(bytes@.subrange(0, n) =~= bytes@);
                    assert(bytes@.subrange(0, n) =~= bytes@.subrange(0, pos as int)
                        + bytes@.subrange(pos as int, n));
                    assert(spec_wire_tx(v) + Seq::<u8>::empty() =~= bytes@);
                    lemma_wire_tx_unambiguous(
                        t@,
                        v,
                        bytes@.subrange(pos as int, n),
                        Seq::empty(),
                    );
                    assert(false);
                }
            }
        }
        return Err(WireError);
    }
    proof {
        assert(bytes@.subrange(0, bytes@.len() as int) =~= bytes@);
    }
    Ok(t)
}

/// Decode one block; the bytes must hold exactly one, and decoding fails
/// exactly when no well-formed, wire-bounded block encodes to them.
#[verifier::rlimit(60)]
pub fn decode_block(bytes: &Vec<u8>) -> (r: Result<
    Block<Yet, Yet, Yet, Yet, Yet, Yet>,
    WireError,
>)
    ensures
        match r {
            Ok(b) => bytes@ == spec_wire_block(b@) && b@.wf() && block_wire_bounds(b@),
            Err(e) => !exists|b: BlockV|
                b.wf() && block_wire_bounds(b) && spec_wire_block(b) == bytes@,
        },
{
    let mut pos: usize = 0;
    let height = match read_u64(bytes, &mut pos) {
        Ok(x) => x,
        Err(e) => {
            proof {
                assert forall|b: BlockV|
                    b.wf() && block_wire_bounds(b) implies spec_wire_block(b) != bytes@ by {
                    if spec_wire_block(b) == bytes@ {
                        lemma_wire_block_layout(bytes@, b);
                        assert(false);
                    }
                }
            }
            return Err(e);
        },
    };
    let txs = match decode_txs_at(bytes, &mut pos) {
        Ok(v) => v,
        Err(e) => {
            proof {
                assert forall|b: BlockV|
                    b.wf() && block_wire_bounds(b) implies spec_wire_block(b) != bytes@ by {
                    if spec_wire_block(b) == bytes@ {
                        lemma_wire_block_layout(bytes@, b);
                        assert(forall|i: int|
                            0 <= i < b.transactions.len() ==> (#[trigger] b.transactions[
                            i]).wf());
                        assert(txs_all_wf_bounded(b.transactions));
                        assert(is_wire_txs_at(bytes@, 8, b.transactions));
                        assert(false);
                    }
                }
            }
            return Err(e);
        },
    };
    let ghost tv = txs_view(txs@);
    let ghost m2 = pos;
    let timestamp = match read_u64(bytes, &mut pos) {
        Ok(x) => x,
        Err(e) => {
            proof {
                assert forall|b: BlockV|
                    b.wf() && block_wire_bounds(b) implies spec_wire_block(b) != bytes@ by {
                    if spec_wire_block(b) == bytes@ {
                        lemma_wire_block_layout(bytes@, b);
                        assert(txs_all_wf_bounded(b.transactions));
                        lemma_wire_txs_at_align(bytes@, 8, tv, b.transactions);
                        assert(false);
                    }
                }
            }
            return Err(e);
        },
    };
    let ghost m3 = pos;
    let previous_digest = match read_bytes(bytes, &mut pos, 32) {
        Ok(v) => v,
        Err(e) => {
            proof {
                assert forall|b: BlockV|
                    b.wf() && block_wire_bounds(b) implies spec_wire_block(b) != bytes@ by {
                    if spec_wire_block(b) == bytes@ {
                        lemma_wire_block_layout(bytes@, b);
                        assert(txs_all_wf_bounded(b.transactions));
                        lemma_wire_txs_at_align(bytes@, 8, tv, b.transactions);
                        assert(false);
                    }
                }
            }
            return Err(e);
        },
    };
    let ghost m4 = pos;
    let difficulty = match read_bytes(bytes, &mut pos, 1) {
        Ok(v) => v[0],
        Err(e) => {
            proof {
                assert forall|b: BlockV|
                    b.wf() && block_wire_bounds(b) implies spec_wire_block(b) != bytes@ by {
                    if spec_wire_block(b) == bytes@ {
                        lemma_wire_block_layout(bytes@, b);
                        assert(txs_all_wf_bounded(b.transactions));
                        lemma_wire_txs_at_align(bytes@, 8, tv, b.transactions);
                        assert(false);
                    }
                }
            }
            return Err(e);
        },
    };
    let ghost m5 = pos;
    let nonce = match read_u64(bytes, &mut pos) {
        Ok(x) => x,
        Err(e) => {
            proof {
                assert forall|b: BlockV|
                    b.wf() && block_wire_bounds(b) implies spec_wire_block(b) != bytes@ by {
                    if spec_wire_block(b) == bytes@ {
                        lemma_wire_block_layout(bytes@, b);
                        assert(txs_all_wf_bounded(b.transactions));
                        lemma_wire_txs_at_align(bytes@, 8, tv, b.transactions);
                        assert(false);
                    }
                }
            }
            return Err(e);
        },
    };
    let ghost m6 = pos;
    let digest = match read_bytes(bytes, &mut pos, 32) {
        Ok(v) => v,
        Err(e) => {
            proof {
                assert forall|b: BlockV|
                    b.wf() && block_wire_bounds(b) implies spec_wire_block(b) != bytes@ by {
                    if spec_wire_block(b) == bytes@ {
                        lemma_wire_block_layout(bytes@, b);
                        assert(txs_all_wf_bounded(b.transactions));
                        lemma_wire_txs_at_align(bytes@, 8, tv, b.transactions);
                        assert(false);
                    }
                }
            }
            return Err(e);
        },
    };
    if pos != bytes.len() {
        proof {
            assert forall|b: BlockV|
                b.wf() && block_wire_bounds(b) implies spec_wire_block(b) != bytes@ by {
                if spec_wire_block(b) == bytes@ {
                    lemma_wire_block_layout(bytes@, b);
                    assert(txs_all_wf_bounded(b.transactions));
                    lemma_wire_txs_at_align(bytes@, 8, tv, b.transactions);
                    assert(false);
                }
            }
        }
        return Err(WireError);
    }
    let previous_digest = match BlockDigest::from_bytes(previous_digest) {
        Ok(d) => d,
        Err(()) => {
            proof {
                assert(false);
            }
            return Err(WireError);
        },
    };
    let digest = match BlockDigest::from_bytes(digest) {
        Ok(d) => d,
        Err(()) => {
            proof {
                assert(false);
            }
            return Err(WireError);
        },
    };
    let b = Block::from_parts(
        BlockHeight::from_value(height),
        txs,
        Timestamp::from_nanos(#[verifier::truncate] (timestamp as i64)),
        previous_digest,
        crate::difficulty::Difficulty::new(difficulty),
        nonce,
        digest,
    );
    proof {
        assert((timestamp as i64) as u64 == timestamp) by (bit_vector);
        assert(bytes@.subrange(8, m2 as int) =~= bytes@.subrange(8, 16) + bytes@.subrange(
            16,
            m2 as int,
        ));
        assert(bytes@.subrange(0, m2 as int) =~= bytes@.subrange(0, 8) + bytes@.subrange(
            8,
            m2 as int,
        ));
        assert(bytes@.subrange(0, m3 as int) =~= bytes@.subrange(0, m2 as int) + bytes@.subrange(
            m2 as int,
            m3 as int,
        ));
        assert(bytes@.subrange(0, m4 as int) =~= bytes@.subrange(0, m3 as int) + bytes@.subrange(
            m3 as int,
            m4 as int,
        ));
        assert(bytes@.subrange(0, m5 as int) =~= bytes@.subrange(0, m4 as int) + bytes@.subrange(
            m4 as int,
            m5 as int,
        ));
        assert(bytes@.subrange(m4 as int, m5 as int) =~= seq![difficulty]);
        assert(bytes@.subrange(0, m6 as int) =~= bytes@.subrange(0, m5 as int) + bytes@.subrange(
            m5 as int,
            m6 as int,
        ));
        assert(bytes@.subrange(0, pos as int) =~= bytes@.subrange(0, m6 as int) + bytes@.subrange(
            m6 as int,
            pos as int,
        ));
        assert(bytes@.subrange(0, bytes@.len() as int) =~= bytes@);
        assert(bytes@ =~= spec_wire_block(b@));
    }
    Ok(b)
}

} // verus!
