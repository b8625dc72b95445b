//! The coin value scalar.

use vstd::prelude::*;
use vstd::bytes::{spec_u64_to_le_bytes, u64_to_le_bytes};
use crate::signature::{SignatureBuilder, SignatureSource};

verus! {

/// An unsigned 64-bit quantity of coin.
#[derive(Debug, Clone, Copy, PartialEq, Eq, Structural)]
pub struct Coin(u64);

impl View for Coin {
    type V = u64;

    closed spec fn view(&self) -> u64 {
        self.0
    }
}

impl Coin {
    /// Wrap a raw quantity.
    pub fn from(quantity: u64) -> (r: Self)
        ensures
            r@ == quantity,
    {
        Self(quantity)
    }

    /// The raw quantity.
    pub fn value(&self) -> (r: u64)
        ensures
            r == self@,
    {
        self.0
    }

    /// Addition; the sum must fit in 64 bits.
    pub fn add(self, rhs: Self) -> (r: Self)
        requires
            self@ + rhs@ <= u64::MAX,
        ensures
            r@ == self@ + rhs@,
    {
        Self(self.0 + rhs.0)
    }

    /// Subtraction; the difference must not go below zero.
    pub fn sub(self, rhs: Self) -> (r: Self)
        requires
            rhs@ <= self@,
        ensures
            r@ == self@ - rhs@,
    {
        Self(self.0 - rhs.0)
    }

    /// `self <= other` on the raw quantities.
    pub fn le(&self, other: &Self) -> (r: bool)
        ensures
            r == (self@ <= other@),
    {
        self.0 <= other.0
    }

    /// `self < other` on the raw quantities.
    pub fn lt(&self, other: &Self) -> (r: bool)
        ensures
            r == (self@ < other@),
    {
        self.0 < other.0
    }
}

impl SignatureSource for Coin {
    open spec fn source_bytes(&self) -> Seq<u8> {
        spec_u64_to_le_bytes(self@)
    }

    fn write_bytes(&self, builder: &mut SignatureBuilder) {
        let bytes = u64_to_le_bytes(self.0);
        builder.write_bytes(bytes.as_slice());
    }
}

} // verus!
