//! Transactions: contractor-signed bundles of input and output transitions.

use vstd::prelude::*;
use core::marker::PhantomData;
use vstd::bytes::spec_u64_to_le_bytes;
use crate::account::{Address, SecretAddress, secret_address_wf, spec_ed25519_sign, spec_ed25519_verify};
use crate::signature::{Signature, SignatureBuilder, SignatureSource};
use crate::timestamp::Timestamp;
use crate::transition::{
    Transition, TransitionV, TransferError, spec_quantity_sum, spec_transfer_quantity_sum,
    spec_transitions_source, sum_quantities, sum_transfer_quantities, transitions_view,
    write_transitions,
};
use crate::verification::{Verified, Yet};

verus! {

/// The mathematical value of a transaction.
pub ghost struct TransactionV {
    pub contractor: Seq<u8>,
    pub inputs: Seq<TransitionV>,
    pub outputs: Seq<TransitionV>,
    pub timestamp: i64,
    pub sign: Seq<u8>,
}

impl TransactionV {
    /// The canonical signature source: contractor, inputs, outputs and
    /// timestamp.
    pub open spec fn source(self) -> Seq<u8> {
        self.contractor + spec_transitions_source(self.inputs) + spec_transitions_source(
            self.outputs,
        ) + spec_u64_to_le_bytes(self.timestamp as u64)
    }

    /// Field sizes are as Ed25519 demands, all transitions included.
    pub open spec fn wf(self) -> bool {
        &&& self.contractor.len() == 32
        &&& self.sign.len() == 64
        &&& forall|i: int| 0 <= i < self.inputs.len() ==> (#[trigger] self.inputs[i]).wf()
        &&& forall|i: int| 0 <= i < self.outputs.len() ==> (#[trigger] self.outputs[i]).wf()
    }

    /// The contractor's signature verifies over the canonical source.
    pub open spec fn sig_ok(self) -> bool {
        spec_ed25519_verify(self.contractor, self.source(), self.sign)
    }

    /// Every embedded transition's own signature verifies.
    pub open spec fn branch_sigs_ok(self) -> bool {
        &&& forall|i: int| 0 <= i < self.inputs.len() ==> (#[trigger] self.inputs[i]).sig_ok()
        &&& forall|i: int| 0 <= i < self.outputs.len() ==> (#[trigger] self.outputs[i]).sig_ok()
    }

    /// Every input is addressed to the contractor.
    pub open spec fn inputs_from_contractor(self) -> bool {
        forall|i: int| 0 <= i < self.inputs.len() ==> (#[trigger] self.inputs[i]).receiver()
            == self.contractor
    }

    /// Every output transfer is sent by the contractor; output generations
    /// are not checked.
    pub open spec fn outputs_by_contractor(self) -> bool {
        forall|i: int|
            0 <= i < self.outputs.len() ==> match #[trigger] self.outputs[i] {
                TransitionV::Transfer(t) => t.sender == self.contractor,
                TransitionV::Generation(_) => true,
            }
    }

    /// The inputs cover the output transfers; generations are new issue
    /// and need no cover.
    pub open spec fn quantities_balanced(self) -> bool {
        spec_quantity_sum(self.inputs) >= spec_transfer_quantity_sum(self.outputs)
    }

    /// No embedded transition is newer than the transaction.
    pub open spec fn timestamps_ok(self) -> bool {
        &&& forall|i: int| 0 <= i < self.inputs.len() ==> (#[trigger] self.inputs[i]).timestamp()
            <= self.timestamp
        &&& forall|i: int| 0 <= i < self.outputs.len() ==> (#[trigger] self.outputs[i]).timestamp()
            <= self.timestamp
    }

    /// All transaction-level checks pass.
    pub open spec fn valid(self) -> bool {
        &&& self.outputs.len() > 0
        &&& self.inputs_from_contractor()
        &&& self.outputs_by_contractor()
        &&& self.quantities_balanced()
        &&& self.timestamps_ok()
        &&& self.sig_ok()
    }

    /// The first transaction-level check that fails, in the order the
    /// checks run.
    pub open spec fn verify_error(self) -> TransactionError {
        if self.outputs.len() == 0 {
            TransactionError::EmptyOutput
        } else if !self.inputs_from_contractor() {
            TransactionError::SenderMismatch
        } else if !self.outputs_by_contractor() {
            TransactionError::ReceiverMismatch
        } else if !self.quantities_balanced() {
            TransactionError::QuantityMismatch
        } else if !self.timestamps_ok() {
            TransactionError::InvalidTimestamp
        } else {
            TransactionError::InvalidSign
        }
    }
}

/// A bundle of input and output transitions signed by a contractor.
/// `VTF` marks whether the embedded transitions have been verified, `VTX`
/// whether the transaction-level checks have run.
#[derive(Debug, PartialEq)]
pub struct Transaction<VTF, VTX> {
    contractor: Address,
    inputs: Vec<Transition<VTF>>,
    outputs: Vec<Transition<VTF>>,
    timestamp: Timestamp,
    sign: Signature,
    _phantom: PhantomData<VTX>,
}

impl<VTF, VTX> View for Transaction<VTF, VTX> {
    type V = TransactionV;

    closed spec fn view(&self) -> TransactionV {
        TransactionV {
            contractor: self.contractor@,
            inputs: transitions_view(self.inputs@),
            outputs: transitions_view(self.outputs@),
            timestamp: self.timestamp@,
            sign: self.sign@,
        }
    }
}

impl<VTF, VTX> Transaction<VTF, VTX> {
    /// The contracting address.
    pub fn contractor(&self) -> (r: &Address)
        ensures
            r@ == self@.contractor,
    {
        &self.contractor
    }

    /// The input transitions.
    pub fn inputs(&self) -> (r: &Vec<Transition<VTF>>)
        ensures
            transitions_view(r@) == self@.inputs,
    {
        &self.inputs
    }

    /// The output transitions.
    pub fn outputs(&self) -> (r: &Vec<Transition<VTF>>)
        ensures
            transitions_view(r@) == self@.outputs,
    {
        &self.outputs
    }

    /// The creation instant.
    pub fn timestamp(&self) -> (r: Timestamp)
        ensures
            r@ == self@.timestamp,
    {
        self.timestamp
    }

    /// The contractor's signature.
    pub fn sign(&self) -> (r: &Signature)
        ensures
            r@ == self@.sign,
    {
        &self.sign
    }
}

impl<VTF> Transaction<VTF, Yet> {
    /// Offer a transaction: stamp the current time and sign contractor,
    /// inputs, outputs and timestamp with the contractor's key.
    pub fn offer(
        contractor: &SecretAddress,
        inputs: Vec<Transition<VTF>>,
        outputs: Vec<Transition<VTF>>,
    ) -> (r: Transaction<VTF, Yet>)
        requires
            secret_address_wf(*contractor),
        ensures
            r@.contractor == contractor.public_view(),
            r@.inputs == transitions_view(inputs@),
            r@.outputs == transitions_view(outputs@),
            r@.sign == spec_ed25519_sign(contractor.seed_view(), r@.source()),
            r@.sig_ok(),
            r@.contractor.len() == 32,
            r@.sign.len() == 64,
    {
        let contractor_address = contractor.to_public_address();
        let timestamp = Timestamp::now();
        let sign = {
            let mut builder = SignatureBuilder::new();
            build_signature_source(&contractor_address, &inputs, &outputs, timestamp, &mut builder);
            let source = builder.finalize();
            contractor.sign(&source)
        };
        let r = Transaction {
            contractor: contractor_address,
            inputs,
            outputs,
            timestamp,
            sign,
            _phantom: PhantomData,
        };
        proof {
            assert(r@.source() =~= contractor.public_view() + spec_transitions_source(
                transitions_view(inputs@),
            ) + spec_transitions_source(transitions_view(outputs@)) + spec_u64_to_le_bytes(
                timestamp@ as u64,
            ));
        }
        r
    }

    /// Rebuild an unverified transaction from its parts, as a wire decoder
    /// or a test does.
    pub fn from_parts(
        contractor: Address,
        inputs: Vec<Transition<VTF>>,
        outputs: Vec<Transition<VTF>>,
        timestamp: Timestamp,
        sign: Signature,
    ) -> (r: Transaction<VTF, Yet>)
        ensures
            r@ == (TransactionV {
                contractor: contractor@,
                inputs: transitions_view(inputs@),
                outputs: transitions_view(outputs@),
                timestamp: timestamp@,
                sign: sign@,
            }),
    {
        Transaction { contractor, inputs, outputs, timestamp, sign, _phantom: PhantomData }
    }

    /// Run the transaction-level checks, in order: outputs present, input
    /// receivers, output senders, quantity balance, timestamps, signature.
    pub fn verify_transaction(self) -> (r: Result<Transaction<VTF, Verified>, TransactionError>)
        requires
            self@.wf(),
        ensures
            match r {
                Ok(t) => t@ == self@ && self@.valid(),
                Err(e) => !self@.valid() && e == self@.verify_error(),
            },
    {
        if self.outputs.len() == 0 {
            return Err(TransactionError::EmptyOutput);
        }
        if !all_receivers_match(&self.inputs, &self.contractor) {
            return Err(TransactionError::SenderMismatch);
        }
        if !all_transfer_senders_match(&self.outputs, &self.contractor) {
            return Err(TransactionError::ReceiverMismatch);
        }
        let input_sum = sum_quantities(&self.inputs);
        let output_sum_except_gen = sum_transfer_quantities(&self.outputs);
        if input_sum < output_sum_except_gen {
            return Err(TransactionError::QuantityMismatch);
        }
        if !all_timestamps_le(&self.inputs, self.timestamp) || !all_timestamps_le(
            &self.outputs,
            self.timestamp,
        ) {
            return Err(TransactionError::InvalidTimestamp);
        }
        let signature_source = self.build_signature_source();
        if !self.contractor.verify(&signature_source, &self.sign) {
            return Err(TransactionError::InvalidSign);
        }
        Ok(
            Transaction {
                contractor: self.contractor,
                inputs: self.inputs,
                outputs: self.outputs,
                timestamp: self.timestamp,
                sign: self.sign,
                _phantom: PhantomData,
            },
        )
    }
}

impl<VTX> Transaction<Yet, VTX> {
    /// Verify every embedded transition's own signature.
    pub fn verify_branch(self) -> (r: Result<Transaction<Verified, VTX>, TransactionError>)
        requires
            self@.wf(),
        ensures
            match r {
                Ok(t) => t@ == self@ && self@.branch_sigs_ok(),
                Err(e) => !self@.branch_sigs_ok() && e == TransactionError::Transfer(
                    TransferError,
                ),
            },
    {
        proof {
            assert(self@.inputs == transitions_view(self.inputs@));
            assert(self@.outputs == transitions_view(self.outputs@));
        }
        let inputs = match verify_transitions(&self.inputs) {
            Ok(inputs) => inputs,
            Err(e) => {
                return Err(TransactionError::Transfer(e));
            },
        };
        let outputs = match verify_transitions(&self.outputs) {
            Ok(outputs) => outputs,
            Err(e) => {
                return Err(TransactionError::Transfer(e));
            },
        };
        Ok(
            Transaction {
                contractor: self.contractor,
                inputs,
                outputs,
                timestamp: self.timestamp,
                sign: self.sign,
                _phantom: PhantomData,
            },
        )
    }
}

impl Transaction<Yet, Yet> {
    /// Verify the embedded transitions, then the transaction itself.
    pub fn verify(self) -> (r: Result<Transaction<Verified, Verified>, TransactionError>)
        requires
            self@.wf(),
        ensures
            match r {
                Ok(t) => t@ == self@ && self@.branch_sigs_ok() && self@.valid(),
                Err(e) => {
                    &&& !(self@.branch_sigs_ok() && self@.valid())
                    &&& e == if !self@.branch_sigs_ok() {
                        TransactionError::Transfer(TransferError)
                    } else {
                        self@.verify_error()
                    }
                },
            },
    {
        match self.verify_branch() {
            Ok(t) => t.verify_transaction(),
            Err(e) => Err(e),
        }
    }
}

impl<VTF, VTX> Clone for Transaction<VTF, VTX> {
    fn clone(&self) -> (r: Self)
        ensures
            r@ == self@,
    {
        Transaction {
            contractor: self.contractor.clone(),
            inputs: clone_transitions(&self.inputs),
            outputs: clone_transitions(&self.outputs),
            timestamp: self.timestamp,
            sign: self.sign.clone(),
            _phantom: PhantomData,
        }
    }
}

impl<VTF, VTX> SignatureSource for Transaction<VTF, VTX> {
    open spec fn source_bytes(&self) -> Seq<u8> {
        self@.source()
    }

    fn write_bytes(&self, builder: &mut SignatureBuilder) {
        build_signature_source(
            &self.contractor,
            &self.inputs,
            &self.outputs,
            self.timestamp,
            builder,
        );
    }
}

/// Why a transaction fails verification.
#[derive(Debug, Clone, Copy, PartialEq, Eq, Structural)]
pub enum TransactionError {
    /// A contained transition's signature is invalid.
    Transfer(TransferError),
    /// The transaction has no output.
    EmptyOutput,
    /// An input's receiver is not the contractor.
    SenderMismatch,
    /// An output transfer's sender is not the contractor.
    ReceiverMismatch,
    /// The inputs do not cover the output transfers.
    QuantityMismatch,
    /// A contained transition is newer than the transaction.
    InvalidTimestamp,
    /// The contractor's signature is invalid.
    InvalidSign,
}

/// Append a transaction's canonical signature source: contractor, inputs,
/// outputs, timestamp.
fn build_signature_source<T>(
    contractor: &Address,
    inputs: &Vec<Transition<T>>,
    outputs: &Vec<Transition<T>>,
    timestamp: Timestamp,
    builder: &mut SignatureBuilder,
)
    ensures
        final(builder)@ == old(builder)@ + (contractor@ + spec_transitions_source(
            transitions_view(inputs@),
        ) + spec_transitions_source(transitions_view(outputs@)) + spec_u64_to_le_bytes(
            timestamp@ as u64,
        )),
{
    contractor.write_bytes(builder);
    write_transitions(inputs, builder);
    write_transitions(outputs, builder);
    timestamp.write_bytes(builder);
    proof {
        assert(builder@ =~= old(builder)@ + (contractor@ + spec_transitions_source(
            transitions_view(inputs@),
        ) + spec_transitions_source(transitions_view(outputs@)) + spec_u64_to_le_bytes(
            timestamp@ as u64,
        )));
    }
}

/// Whether every transition's receiver is the given address.
fn all_receivers_match<T>(v: &Vec<Transition<T>>, addr: &Address) -> (r: bool)
    ensures
        r == (forall|i: int|
            0 <= i < transitions_view(v@).len() ==> (#[trigger] transitions_view(v@)[i]).receiver()
                == addr@),
{
    let ghost views = transitions_view(v@);
    let mut i: usize = 0;
    while i < v.len()
        invariant
            i <= v@.len(),
            views == transitions_view(v@),
            forall|j: int| 0 <= j < i ==> (#[trigger] views[j]).receiver() == addr@,
        decreases v@.len() - i,
    {
        proof {
            assert(views[i as int] == v@[i as int]@);
        }
        if !(v[i].receiver() == addr) {
            return false;
        }
        i = i + 1;
    }
    true
}

/// Whether every transfer in the list is sent by the given address;
/// generations pass.
fn all_transfer_senders_match<T>(v: &Vec<Transition<T>>, addr: &Address) -> (r: bool)
    ensures
        r == (forall|i: int|
            0 <= i < transitions_view(v@).len() ==> match #[trigger] transitions_view(v@)[i] {
                TransitionV::Transfer(t) => t.sender == addr@,
                TransitionV::Generation(_) => true,
            }),
{
    let ghost views = transitions_view(v@);
    let mut i: usize = 0;
    while i < v.len()
        invariant
            i <= v@.len(),
            views == transitions_view(v@),
            forall|j: int|
                0 <= j < i ==> match #[trigger] views[j] {
                    TransitionV::Transfer(t) => t.sender == addr@,
                    TransitionV::Generation(_) => true,
                },
        decreases v@.len() - i,
    {
        proof {
            assert(views[i as int] == v@[i as int]@);
        }
        match v[i].try_as_transfer() {
            Some(t) => {
                if !(t.sender() == addr) {
                    return false;
                }
            },
            None => {},
        }
        i = i + 1;
    }
    true
}

/// Whether every transition's timestamp is at or before the bound.
fn all_timestamps_le<T>(v: &Vec<Transition<T>>, bound: Timestamp) -> (r: bool)
    ensures
        r == (forall|i: int|
            0 <= i < transitions_view(v@).len() ==> (#[trigger] transitions_view(
                v@,
            )[i]).timestamp() <= bound@),
{
    let ghost views = transitions_view(v@);
    let mut i: usize = 0;
    while i < v.len()
        invariant
            i <= v@.len(),
            views == transitions_view(v@),
            forall|j: int| 0 <= j < i ==> (#[trigger] views[j]).timestamp() <= bound@,
        decreases v@.len() - i,
    {
        proof {
            assert(views[i as int] == v@[i as int]@);
        }
        let ts = v[i].timestamp();
        if !ts.le(&bound) {
            return false;
        }
        i = i + 1;
    }
    true
}

/// Verify each transition in order; the first bad signature stops the
/// walk.
fn verify_transitions(v: &Vec<Transition<Yet>>) -> (r: Result<
    Vec<Transition<Verified>>,
    TransferError,
>)
    requires
        forall|i: int| 0 <= i < transitions_view(v@).len() ==> (#[trigger] transitions_view(
            v@,
        )[i]).wf(),
    ensures
        match r {
            Ok(out) => {
                &&& transitions_view(out@) == transitions_view(v@)
                &&& forall|i: int|
                    0 <= i < transitions_view(v@).len() ==> (#[trigger] transitions_view(
                        v@,
                    )[i]).sig_ok()
            },
            Err(e) => {
                &&& e == TransferError
                &&& exists|i: int|
                    0 <= i < transitions_view(v@).len() && !(#[trigger] transitions_view(
                        v@,
                    )[i]).sig_ok()
            },
        },
{
    let ghost views = transitions_view(v@);
    let mut out: Vec<Transition<Verified>> = Vec::new();
    let mut i: usize = 0;
    while i < v.len()
        invariant
            i <= v@.len(),
            views == transitions_view(v@),
            forall|j: int| 0 <= j < views.len() ==> (#[trigger] views[j]).wf(),
            transitions_view(out@) == views.take(i as int),
            forall|j: int| 0 <= j < i ==> (#[trigger] views[j]).sig_ok(),
        decreases v@.len() - i,
    {
        proof {
            assert(views[i as int] == v@[i as int]@);
        }
        let t = v[i].clone();
        match t.verify() {
            Ok(vt) => {
                let ghost old_out = out@;
                out.push(vt);
                proof {
                    crate::transition::lemma_transitions_view_push(old_out, out@[i as int]);
                    assert(views.take(i + 1) =~= views.take(i as int).push(views[i as int]));
                    assert(transitions_view(out@) =~= views.take(i + 1));
                }
            },
            Err(e) => {
                return Err(e);
            },
        }
        i = i + 1;
    }
    proof {
        assert(views.take(views.len() as int) =~= views);
    }
    Ok(out)
}

/// A copy of a vector of transitions.
pub(crate) fn clone_transitions<T>(v: &Vec<Transition<T>>) -> (r: Vec<Transition<T>>)
    ensures
        transitions_view(r@) == transitions_view(v@),
{
    let mut out: Vec<Transition<T>> = Vec::new();
    let mut i: usize = 0;
    while i < v.len()
        invariant
            i <= v@.len(),
            transitions_view(out@) == transitions_view(v@).take(i as int),
        decreases v@.len() - i,
    {
        let ghost old_out = out@;
        out.push(v[i].clone());
        proof {
            crate::transition::lemma_transitions_view_push(old_out, out@[i as int]);
            assert(transitions_view(v@).take(i + 1) =~= transitions_view(v@).take(i as int).push(
                transitions_view(v@)[i as int],
            ));
            assert(transitions_view(out@) =~= transitions_view(v@).take(i + 1));
        }
        i = i + 1;
    }
    proof {
        assert(transitions_view(v@).take(v@.len() as int) =~= transitions_view(v@));
    }
    out
}

} // verus!
