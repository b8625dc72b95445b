//! Transitions: single movements of value, either transfers or new issue.

use vstd::prelude::*;
use core::marker::PhantomData;
use vstd::bytes::spec_u64_to_le_bytes;
use crate::account::{
    Address, SecretAddress, address_wf, secret_address_wf, spec_ed25519_sign, spec_ed25519_verify,
};
use crate::coin::Coin;
use crate::signature::{Signature, SignatureBuilder, SignatureSource, signature_wf};
use crate::timestamp::Timestamp;
use crate::verification::{Verified, Yet};

verus! {

/// The mathematical value of a transfer.
pub ghost struct TransferV {
    pub sender: Seq<u8>,
    pub receiver: Seq<u8>,
    pub quantity: u64,
    pub timestamp: i64,
    pub sign: Seq<u8>,
}

/// The mathematical value of a coin generation.
pub ghost struct GenerationV {
    pub receiver: Seq<u8>,
    pub quantity: u64,
    pub timestamp: i64,
    pub sign: Seq<u8>,
}

/// The mathematical value of a transition.
pub ghost enum TransitionV {
    Transfer(TransferV),
    Generation(GenerationV),
}

/// The canonical signature source of a transfer:
/// sender, receiver, quantity and timestamp, all little endian.
pub open spec fn spec_transfer_source(
    sender: Seq<u8>,
    receiver: Seq<u8>,
    quantity: u64,
    timestamp: i64,
) -> Seq<u8> {
    sender + receiver + spec_u64_to_le_bytes(quantity) + spec_u64_to_le_bytes(timestamp as u64)
}

/// The canonical signature source of a generation:
/// receiver, quantity and timestamp, all little endian.
pub open spec fn spec_generation_source(receiver: Seq<u8>, quantity: u64, timestamp: i64) -> Seq<
    u8,
> {
    receiver + spec_u64_to_le_bytes(quantity) + spec_u64_to_le_bytes(timestamp as u64)
}

impl TransferV {
    /// The canonical signature source of this transfer.
    pub open spec fn source(self) -> Seq<u8> {
        spec_transfer_source(self.sender, self.receiver, self.quantity, self.timestamp)
    }

    /// Field sizes are as Ed25519 demands.
    pub open spec fn wf(self) -> bool {
        &&& self.sender.len() == 32
        &&& self.receiver.len() == 32
        &&& self.sign.len() == 64
    }

    /// The signature is by the sender over the canonical source.
    pub open spec fn sig_ok(self) -> bool {
        spec_ed25519_verify(self.sender, self.source(), self.sign)
    }
}

impl GenerationV {
    /// The canonical signature source of this generation.
    pub open spec fn source(self) -> Seq<u8> {
        spec_generation_source(self.receiver, self.quantity, self.timestamp)
    }

    /// Field sizes are as Ed25519 demands.
    pub open spec fn wf(self) -> bool {
        &&& self.receiver.len() == 32
        &&& self.sign.len() == 64
    }

    /// The signature is by the receiver over the canonical source.
    pub open spec fn sig_ok(self) -> bool {
        spec_ed25519_verify(self.receiver, self.source(), self.sign)
    }
}

impl TransitionV {
    /// The canonical signature source of this transition.
    pub open spec fn source(self) -> Seq<u8> {
        match self {
            TransitionV::Transfer(t) => t.source(),
            TransitionV::Generation(g) => g.source(),
        }
    }

    /// Field sizes are as Ed25519 demands.
    pub open spec fn wf(self) -> bool {
        match self {
            TransitionV::Transfer(t) => t.wf(),
            TransitionV::Generation(g) => g.wf(),
        }
    }

    /// The variant-specific signature verifies.
    pub open spec fn sig_ok(self) -> bool {
        match self {
            TransitionV::Transfer(t) => t.sig_ok(),
            TransitionV::Generation(g) => g.sig_ok(),
        }
    }

    /// The receiving address.
    pub open spec fn receiver(self) -> Seq<u8> {
        match self {
            TransitionV::Transfer(t) => t.receiver,
            TransitionV::Generation(g) => g.receiver,
        }
    }

    /// The quantity moved.
    pub open spec fn quantity(self) -> u64 {
        match self {
            TransitionV::Transfer(t) => t.quantity,
            TransitionV::Generation(g) => g.quantity,
        }
    }

    /// The creation instant.
    pub open spec fn timestamp(self) -> i64 {
        match self {
            TransitionV::Transfer(t) => t.timestamp,
            TransitionV::Generation(g) => g.timestamp,
        }
    }

    /// The signature, which identifies the transition.
    pub open spec fn sign(self) -> Seq<u8> {
        match self {
            TransitionV::Transfer(t) => t.sign,
            TransitionV::Generation(g) => g.sign,
        }
    }

    /// Whether the transition is a transfer.
    pub open spec fn is_transfer(self) -> bool {
        self is Transfer
    }
}

/// An action of removing coin from a sender and giving it to a receiver.
/// `T` marks whether the signature has been verified.
#[derive(Debug, PartialEq)]
pub struct Transfer<T> {
    sender: Address,
    receiver: Address,
    quantity: Coin,
    timestamp: Timestamp,
    sign: Signature,
    _phantom: PhantomData<T>,
}

impl<T> View for Transfer<T> {
    type V = TransferV;

    closed spec fn view(&self) -> TransferV {
        TransferV {
            sender: self.sender@,
            receiver: self.receiver@,
            quantity: self.quantity@,
            timestamp: self.timestamp@,
            sign: self.sign@,
        }
    }
}

impl<T> Transfer<T> {
    /// The sending address.
    pub fn sender(&self) -> (r: &Address)
        ensures
            r@ == self@.sender,
    {
        &self.sender
    }

    /// The receiving address.
    pub fn receiver(&self) -> (r: &Address)
        ensures
            r@ == self@.receiver,
    {
        &self.receiver
    }

    /// The quantity moved.
    pub fn quantity(&self) -> (r: Coin)
        ensures
            r@ == self@.quantity,
    {
        self.quantity
    }

    /// The creation instant.
    pub fn timestamp(&self) -> (r: Timestamp)
        ensures
            r@ == self@.timestamp,
    {
        self.timestamp
    }

    /// The sender's signature.
    pub fn sign(&self) -> (r: &Signature)
        ensures
            r@ == self@.sign,
    {
        &self.sign
    }
}

impl Transfer<Yet> {
    /// Rebuild an unverified transfer from its parts, as a wire decoder or
    /// a test does.
    pub fn from_parts(
        sender: Address,
        receiver: Address,
        quantity: Coin,
        timestamp: Timestamp,
        sign: Signature,
    ) -> (r: Transfer<Yet>)
        ensures
            r@ == (TransferV {
                sender: sender@,
                receiver: receiver@,
                quantity: quantity@,
                timestamp: timestamp@,
                sign: sign@,
            }),
    {
        Transfer { sender, receiver, quantity, timestamp, sign, _phantom: PhantomData }
    }

    /// Check the sender's signature over the canonical source.
    pub fn verify(self) -> (r: Result<Transfer<Verified>, TransferError>)
        requires
            self@.wf(),
        ensures
            match r {
                Ok(t) => t@ == self@ && self@.sig_ok(),
                Err(e) => e == TransferError && !self@.sig_ok(),
            },
    {
        let signature_source = {
            let mut builder = SignatureBuilder::new();
            build_transfer_signature_source(
                &self.sender,
                &self.receiver,
                self.quantity,
                self.timestamp,
                &mut builder,
            );
            builder.finalize()
        };
        if self.sender.verify(&signature_source, &self.sign) {
            Ok(
                Transfer {
                    sender: self.sender,
                    receiver: self.receiver,
                    quantity: self.quantity,
                    timestamp: self.timestamp,
                    sign: self.sign,
                    _phantom: PhantomData,
                },
            )
        } else {
            Err(TransferError)
        }
    }
}

impl Transfer<Verified> {
    /// Offer a transfer: stamp the current time and sign the canonical
    /// source with the sender's key.
    pub fn offer(sender: &SecretAddress, receiver: Address, quantity: Coin) -> (r: Transfer<
        Verified,
    >)
        requires
            secret_address_wf(*sender),
            address_wf(receiver@),
        ensures
            r@.sender == sender.public_view(),
            r@.receiver == receiver@,
            r@.quantity == quantity@,
            r@.sign == spec_ed25519_sign(sender.seed_view(), r@.source()),
            r@.wf(),
            r@.sig_ok(),
    {
        let timestamp = Timestamp::now();
        let sign = {
            let mut builder = SignatureBuilder::new();
            build_transfer_signature_source(
                &sender.to_public_address(),
                &receiver,
                quantity,
                timestamp,
                &mut builder,
            );
            let signature_source = builder.finalize();
            sender.sign(&signature_source)
        };
        Transfer {
            sender: sender.to_public_address(),
            receiver,
            quantity,
            timestamp,
            sign,
            _phantom: PhantomData,
        }
    }
}

impl<T> Clone for Transfer<T> {
    fn clone(&self) -> (r: Self)
        ensures
            r@ == self@,
    {
        Transfer {
            sender: self.sender.clone(),
            receiver: self.receiver.clone(),
            quantity: self.quantity,
            timestamp: self.timestamp,
            sign: self.sign.clone(),
            _phantom: PhantomData,
        }
    }
}

impl<T> SignatureSource for Transfer<T> {
    open spec fn source_bytes(&self) -> Seq<u8> {
        self@.source()
    }

    fn write_bytes(&self, builder: &mut SignatureBuilder) {
        build_transfer_signature_source(
            &self.sender,
            &self.receiver,
            self.quantity,
            self.timestamp,
            builder,
        );
        proof {
            assert(self.source_bytes() == spec_transfer_source(
                self.sender@,
                self.receiver@,
                self.quantity@,
                self.timestamp@,
            ));
        }
    }
}

/// New issue of coin to an address. `T` marks whether the signature has
/// been verified.
#[derive(Debug, PartialEq)]
pub struct Generation<T> {
    receiver: Address,
    quantity: Coin,
    timestamp: Timestamp,
    sign: Signature,
    _phantom: PhantomData<T>,
}

impl<T> View for Generation<T> {
    type V = GenerationV;

    closed spec fn view(&self) -> GenerationV {
        GenerationV {
            receiver: self.receiver@,
            quantity: self.quantity@,
            timestamp: self.timestamp@,
            sign: self.sign@,
        }
    }
}

impl<T> Generation<T> {
    /// The receiving address.
    pub fn receiver(&self) -> (r: &Address)
        ensures
            r@ == self@.receiver,
    {
        &self.receiver
    }

    /// The quantity issued.
    pub fn quantity(&self) -> (r: Coin)
        ensures
            r@ == self@.quantity,
    {
        self.quantity
    }

    /// The creation instant.
    pub fn timestamp(&self) -> (r: Timestamp)
        ensures
            r@ == self@.timestamp,
    {
        self.timestamp
    }

    /// The receiver's signature.
    pub fn sign(&self) -> (r: &Signature)
        ensures
            r@ == self@.sign,
    {
        &self.sign
    }
}

impl Generation<Yet> {
    /// Rebuild an unverified generation from its parts.
    pub fn from_parts(
        receiver: Address,
        quantity: Coin,
        timestamp: Timestamp,
        sign: Signature,
    ) -> (r: Generation<Yet>)
        ensures
            r@ == (GenerationV {
                receiver: receiver@,
                quantity: quantity@,
                timestamp: timestamp@,
                sign: sign@,
            }),
    {
        Generation { receiver, quantity, timestamp, sign, _phantom: PhantomData }
    }

    /// Check the receiver's signature over the canonical source.
    pub fn verify(self) -> (r: Result<Generation<Verified>, TransferError>)
        requires
            self@.wf(),
        ensures
            match r {
                Ok(g) => g@ == self@ && self@.sig_ok(),
                Err(e) => e == TransferError && !self@.sig_ok(),
            },
    {
        let signature_source = {
            let mut builder = SignatureBuilder::new();
            build_generation_signature_source(
                &self.receiver,
                self.quantity,
                self.timestamp,
                &mut builder,
            );
            builder.finalize()
        };
        if self.receiver.verify(&signature_source, &self.sign) {
            Ok(
                Generation {
                    receiver: self.receiver,
                    quantity: self.quantity,
                    timestamp: self.timestamp,
                    sign: self.sign,
                    _phantom: PhantomData,
                },
            )
        } else {
            Err(TransferError)
        }
    }
}

impl Generation<Verified> {
    /// Offer a generation: stamp the current time and sign the canonical
    /// source with the receiver's own key.
    pub fn offer(receiver: &SecretAddress, quantity: Coin) -> (r: Generation<Verified>)
        requires
            secret_address_wf(*receiver),
        ensures
            r@.receiver == receiver.public_view(),
            r@.quantity == quantity@,
            r@.sign == spec_ed25519_sign(receiver.seed_view(), r@.source()),
            r@.wf(),
            r@.sig_ok(),
    {
        let timestamp = Timestamp::now();
        let sign = {
            let mut builder = SignatureBuilder::new();
            build_generation_signature_source(
                &receiver.to_public_address(),
                quantity,
                timestamp,
                &mut builder,
            );
            let signature_source = builder.finalize();
            receiver.sign(&signature_source)
        };
        Generation { receiver: receiver.to_public_address(), quantity, timestamp, sign, _phantom: PhantomData }
    }
}

impl<T> Clone for Generation<T> {
    fn clone(&self) -> (r: Self)
        ensures
            r@ == self@,
    {
        Generation {
            receiver: self.receiver.clone(),
            quantity: self.quantity,
            timestamp: self.timestamp,
            sign: self.sign.clone(),
            _phantom: PhantomData,
        }
    }
}

impl<T> SignatureSource for Generation<T> {
    open spec fn source_bytes(&self) -> Seq<u8> {
        self@.source()
    }

    fn write_bytes(&self, builder: &mut SignatureBuilder) {
        build_generation_signature_source(&self.receiver, self.quantity, self.timestamp, builder);
        proof {
            assert(self.source_bytes() == spec_generation_source(
                self.receiver@,
                self.quantity@,
                self.timestamp@,
            ));
        }
    }
}

/// A transfer or a generation of coin. `T` marks whether the signature
/// has been verified.
#[derive(Debug, PartialEq)]
pub enum Transition<T> {
    Transfer(Transfer<T>),
    Generation(Generation<T>),
}

impl<T> View for Transition<T> {
    type V = TransitionV;

    closed spec fn view(&self) -> TransitionV {
        match self {
            Transition::Transfer(t) => TransitionV::Transfer(t@),
            Transition::Generation(g) => TransitionV::Generation(g@),
        }
    }
}

impl<T> Transition<T> {
    /// The receiving address.
    pub fn receiver(&self) -> (r: &Address)
        ensures
            r@ == self@.receiver(),
    {
        match self {
            Transition::Transfer(t) => t.receiver(),
            Transition::Generation(g) => g.receiver(),
        }
    }

    /// The quantity moved.
    pub fn quantity(&self) -> (r: Coin)
        ensures
            r@ == self@.quantity(),
    {
        match self {
            Transition::Transfer(t) => t.quantity(),
            Transition::Generation(g) => g.quantity(),
        }
    }

    /// The creation instant.
    pub fn timestamp(&self) -> (r: Timestamp)
        ensures
            r@ == self@.timestamp(),
    {
        match self {
            Transition::Transfer(t) => t.timestamp(),
            Transition::Generation(g) => g.timestamp(),
        }
    }

    /// The signature, which identifies the transition.
    pub fn sign(&self) -> (r: &Signature)
        ensures
            r@ == self@.sign(),
    {
        match self {
            Transition::Transfer(t) => t.sign(),
            Transition::Generation(g) => g.sign(),
        }
    }

    /// The transfer inside, if this is one.
    pub fn try_as_transfer(&self) -> (r: Option<&Transfer<T>>)
        ensures
            match r {
                Some(t) => self@ == TransitionV::Transfer(t@),
                None => !self@.is_transfer(),
            },
    {
        match self {
            Transition::Transfer(t) => Some(t),
            Transition::Generation(_) => None,
        }
    }
}

impl Transition<Yet> {
    /// Check the variant-specific signature.
    pub fn verify(self) -> (r: Result<Transition<Verified>, TransferError>)
        requires
            self@.wf(),
        ensures
            match r {
                Ok(t) => t@ == self@ && self@.sig_ok(),
                Err(e) => e == TransferError && !self@.sig_ok(),
            },
    {
        match self {
            Transition::Transfer(t) => match t.verify() {
                Ok(t) => Ok(Transition::Transfer(t)),
                Err(e) => Err(e),
            },
            Transition::Generation(g) => match g.verify() {
                Ok(g) => Ok(Transition::Generation(g)),
                Err(e) => Err(e),
            },
        }
    }
}

impl<T> Clone for Transition<T> {
    fn clone(&self) -> (r: Self)
        ensures
            r@ == self@,
    {
        match self {
            Transition::Transfer(t) => Transition::Transfer(t.clone()),
            Transition::Generation(g) => Transition::Generation(g.clone()),
        }
    }
}

impl<T> From<Transfer<T>> for Transition<T> {
    fn from(t: Transfer<T>) -> (r: Self) {
        Transition::Transfer(t)
    }
}

impl<T> vstd::std_specs::convert::FromSpecImpl<Transfer<T>> for Transition<T> {
    open spec fn obeys_from_spec() -> bool {
        true
    }

    open spec fn from_spec(t: Transfer<T>) -> Self {
        Transition::Transfer(t)
    }
}

impl<T> From<Generation<T>> for Transition<T> {
    fn from(g: Generation<T>) -> (r: Self) {
        Transition::Generation(g)
    }
}

impl<T> vstd::std_specs::convert::FromSpecImpl<Generation<T>> for Transition<T> {
    open spec fn obeys_from_spec() -> bool {
        true
    }

    open spec fn from_spec(g: Generation<T>) -> Self {
        Transition::Generation(g)
    }
}

impl<T> SignatureSource for Transition<T> {
    open spec fn source_bytes(&self) -> Seq<u8> {
        self@.source()
    }

    fn write_bytes(&self, builder: &mut SignatureBuilder) {
        match self {
            Transition::Transfer(t) => {
                t.write_bytes(builder);
                proof {
                    assert(self.source_bytes() == t.source_bytes());
                }
            },
            Transition::Generation(g) => {
                g.write_bytes(builder);
                proof {
                    assert(self.source_bytes() == g.source_bytes());
                }
            },
        }
    }
}

/// An invalid transition signature.
#[derive(Debug, Clone, Copy, PartialEq, Eq, Structural)]
pub struct TransferError;

/// How a transition's view wraps the view of what it holds.
pub proof fn lemma_transition_view<T>(t: &Transition<T>)
    ensures
        match t {
            Transition::Transfer(tr) => t@ == TransitionV::Transfer(tr@),
            Transition::Generation(g) => t@ == TransitionV::Generation(g@),
        },
{
}

/// The views of a sequence of transitions.
pub open spec fn transitions_view<T>(s: Seq<Transition<T>>) -> Seq<TransitionV> {
    s.map_values(|t: Transition<T>| t@)
}

/// Views distribute over push.
pub proof fn lemma_transitions_view_push<T>(s: Seq<Transition<T>>, x: Transition<T>)
    ensures
        transitions_view(s.push(x)) == transitions_view(s).push(x@),
{
    assert forall|j: int| 0 <= j < s.len() + 1 implies #[trigger] transitions_view(s.push(x))[j]
        == transitions_view(s).push(x@)[j] by {
        if j < s.len() {
            assert(s.push(x)[j] == s[j]);
        } else {
            assert(s.push(x)[j] == x);
        }
    }
    assert(transitions_view(s.push(x)) =~= transitions_view(s).push(x@));
}

/// Views distribute over removal.
pub proof fn lemma_transitions_view_remove<T>(s: Seq<Transition<T>>, i: int)
    requires
        0 <= i < s.len(),
    ensures
        transitions_view(s.remove(i)) == transitions_view(s).remove(i),
{
    assert forall|j: int| 0 <= j < s.len() - 1 implies #[trigger] transitions_view(s.remove(i))[j]
        == transitions_view(s).remove(i)[j] by {
        if j < i {
            assert(s.remove(i)[j] == s[j]);
        } else {
            assert(s.remove(i)[j] == s[j + 1]);
        }
    }
    assert(transitions_view(s.remove(i)) =~= transitions_view(s).remove(i));
}

/// The canonical bytes of a sequence of transitions: each one's source,
/// concatenated with no delimiter.
pub open spec fn spec_transitions_source(s: Seq<TransitionV>) -> Seq<u8>
    decreases s.len(),
{
    if s.len() == 0 {
        Seq::empty()
    } else {
        s[0].source() + spec_transitions_source(s.drop_first())
    }
}

/// Concatenated sources grow one source at a time.
pub proof fn lemma_transitions_source_push(s: Seq<TransitionV>, x: TransitionV)
    ensures
        spec_transitions_source(s.push(x)) == spec_transitions_source(s) + x.source(),
    decreases s.len(),
{
    if s.len() == 0 {
        assert(s.push(x)[0] == x);
        assert(s.push(x).drop_first() =~= Seq::<TransitionV>::empty());
        assert(x.source() + spec_transitions_source(Seq::<TransitionV>::empty()) =~= x.source());
        assert(spec_transitions_source(s) + x.source() =~= x.source());
    } else {
        assert(s.push(x).drop_first() =~= s.drop_first().push(x));
        assert(s.push(x)[0] == s[0]);
        lemma_transitions_source_push(s.drop_first(), x);
        assert(spec_transitions_source(s.push(x)) == s[0].source() + (spec_transitions_source(
            s.drop_first(),
        ) + x.source()));
        assert(s[0].source() + (spec_transitions_source(s.drop_first()) + x.source()) =~= (
        s[0].source() + spec_transitions_source(s.drop_first())) + x.source());
    }
}

/// Append the canonical bytes of each transition in order.
pub fn write_transitions<T>(transitions: &Vec<Transition<T>>, builder: &mut SignatureBuilder)
    ensures
        final(builder)@ == old(builder)@ + spec_transitions_source(transitions_view(transitions@)),
{
    let ghost views = transitions_view(transitions@);
    let mut i: usize = 0;
    while i < transitions.len()
        invariant
            i <= transitions@.len(),
            views == transitions_view(transitions@),
            builder@ == old(builder)@ + spec_transitions_source(views.take(i as int)),
        decreases transitions@.len() - i,
    {
        transitions[i].write_bytes(builder);
        proof {
            assert(views.take(i + 1) =~= views.take(i as int).push(views[i as int]));
            lemma_transitions_source_push(views.take(i as int), views[i as int]);
            assert(views[i as int] == transitions@[i as int]@);
        }
        i = i + 1;
    }
    proof {
        assert(views.take(views.len() as int) =~= views);
    }
}

/// The sum of the quantities of a sequence of transitions.
pub open spec fn spec_quantity_sum(s: Seq<TransitionV>) -> int
    decreases s.len(),
{
    if s.len() == 0 {
        0
    } else {
        s[0].quantity() + spec_quantity_sum(s.drop_first())
    }
}

/// The sum of the quantities of the transfers alone; generations are new
/// issue and do not count.
pub open spec fn spec_transfer_quantity_sum(s: Seq<TransitionV>) -> int
    decreases s.len(),
{
    if s.len() == 0 {
        0
    } else {
        (if s[0].is_transfer() {
            s[0].quantity() as int
        } else {
            0
        }) + spec_transfer_quantity_sum(s.drop_first())
    }
}

/// Quantity sums grow one element at a time.
pub proof fn lemma_quantity_sum_push(s: Seq<TransitionV>, x: TransitionV)
    ensures
        spec_quantity_sum(s.push(x)) == spec_quantity_sum(s) + x.quantity(),
        spec_transfer_quantity_sum(s.push(x)) == spec_transfer_quantity_sum(s) + (
        if x.is_transfer() {
            x.quantity() as int
        } else {
            0
        }),
    decreases s.len(),
{
    assert(s.push(x).len() == s.len() + 1);
    if s.len() == 0 {
        assert(s.push(x)[0] == x);
        assert(s.push(x).drop_first() =~= Seq::<TransitionV>::empty());
        assert(spec_quantity_sum(s.push(x)) == x.quantity() + spec_quantity_sum(
            s.push(x).drop_first(),
        ));
        assert(spec_quantity_sum(Seq::<TransitionV>::empty()) == 0);
        assert(spec_transfer_quantity_sum(Seq::<TransitionV>::empty()) == 0);
    } else {
        assert(s.push(x)[0] == s[0]);
        assert(s.push(x).drop_first() =~= s.drop_first().push(x));
        lemma_quantity_sum_push(s.drop_first(), x);
        assert(spec_quantity_sum(s.push(x)) == s[0].quantity() + spec_quantity_sum(
            s.drop_first().push(x),
        ));
        assert(spec_quantity_sum(s) == s[0].quantity() + spec_quantity_sum(s.drop_first()));
        assert(spec_transfer_quantity_sum(s) == (if s[0].is_transfer() {
            s[0].quantity() as int
        } else {
            0
        }) + spec_transfer_quantity_sum(s.drop_first()));
    }
}

/// Quantity sums lie between zero and the element count times the largest
/// quantity.
pub proof fn lemma_quantity_sum_bounds(s: Seq<TransitionV>)
    ensures
        0 <= spec_quantity_sum(s) <= s.len() * (u64::MAX as int),
        0 <= spec_transfer_quantity_sum(s) <= s.len() * (u64::MAX as int),
        spec_transfer_quantity_sum(s) <= spec_quantity_sum(s),
    decreases s.len(),
{
    if s.len() > 0 {
        lemma_quantity_sum_bounds(s.drop_first());
    }
}

/// The sum of the quantities, exact in 128 bits.
pub fn sum_quantities<T>(v: &Vec<Transition<T>>) -> (r: u128)
    ensures
        r == spec_quantity_sum(transitions_view(v@)),
{
    let ghost views = transitions_view(v@);
    let mut acc: u128 = 0;
    let mut i: usize = 0;
    while i < v.len()
        invariant
            i <= v@.len(),
            views == transitions_view(v@),
            acc == spec_quantity_sum(views.take(i as int)),
            acc <= (i as int) * (u64::MAX as int),
        decreases v@.len() - i,
    {
        let q = v[i].quantity();
        proof {
            assert(views.take(i + 1) =~= views.take(i as int).push(views[i as int]));
            lemma_quantity_sum_push(views.take(i as int), views[i as int]);
            assert(views[i as int] == v@[i as int]@);
        }
        acc = acc + q.value() as u128;
        i = i + 1;
    }
    proof {
        assert(views.take(views.len() as int) =~= views);
    }
    acc
}

/// The sum of the transfers' quantities alone, exact in 128 bits.
pub fn sum_transfer_quantities<T>(v: &Vec<Transition<T>>) -> (r: u128)
    ensures
        r == spec_transfer_quantity_sum(transitions_view(v@)),
{
    let ghost views = transitions_view(v@);
    let mut acc: u128 = 0;
    let mut i: usize = 0;
    while i < v.len()
        invariant
            i <= v@.len(),
            views == transitions_view(v@),
            acc == spec_transfer_quantity_sum(views.take(i as int)),
            acc <= (i as int) * (u64::MAX as int),
        decreases v@.len() - i,
    {
        proof {
            assert(views.take(i + 1) =~= views.take(i as int).push(views[i as int]));
            lemma_quantity_sum_push(views.take(i as int), views[i as int]);
            assert(views[i as int] == v@[i as int]@);
        }
        match v[i].try_as_transfer() {
            Some(t) => {
                let q = t.quantity();
                acc = acc + q.value() as u128;
            },
            None => {},
        }
        i = i + 1;
    }
    proof {
        assert(views.take(views.len() as int) =~= views);
    }
    acc
}

/// Append a transfer's canonical signature source to the accumulator.
fn build_transfer_signature_source(
    sender: &Address,
    receiver: &Address,
    quantity: Coin,
    timestamp: Timestamp,
    builder: &mut SignatureBuilder,
)
    ensures
        final(builder)@ == old(builder)@ + spec_transfer_source(
            sender@,
            receiver@,
            quantity@,
            timestamp@,
        ),
{
    sender.write_bytes(builder);
    receiver.write_bytes(builder);
    quantity.write_bytes(builder);
    timestamp.write_bytes(builder);
    proof {
        assert(builder@ =~= old(builder)@ + spec_transfer_source(
            sender@,
            receiver@,
            quantity@,
            timestamp@,
        ));
    }
}

/// Append a generation's canonical signature source to the accumulator.
fn build_generation_signature_source(
    receiver: &Address,
    quantity: Coin,
    timestamp: Timestamp,
    builder: &mut SignatureBuilder,
)
    ensures
        final(builder)@ == old(builder)@ + spec_generation_source(
            receiver@,
            quantity@,
            timestamp@,
        ),
{
    receiver.write_bytes(builder);
    quantity.write_bytes(builder);
    timestamp.write_bytes(builder);
    proof {
        assert(builder@ =~= old(builder)@ + spec_generation_source(
            receiver@,
            quantity@,
            timestamp@,
        ));
    }
}

} // verus!
