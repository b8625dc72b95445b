//! Proof-of-work difficulty: a required count of leading zero bits.

use vstd::prelude::*;
use crate::digest::BlockDigest;
use crate::signature::{SignatureBuilder, SignatureSource};

verus! {

/// How many leading zero bits a block digest must have, scanning the digest
/// bytes in order and each byte from its most significant bit.
#[derive(Debug, Clone, Copy, PartialEq, Eq, Structural)]
pub struct Difficulty(u8);

impl View for Difficulty {
    type V = u8;

    closed spec fn view(&self) -> u8 {
        self.0
    }
}

/// Leading zero bits of one byte, counted from the most significant bit.
pub open spec fn spec_leading_zeros_byte(b: u8) -> u8 {
    if b >= 128 {
        0
    } else if b >= 64 {
        1
    } else if b >= 32 {
        2
    } else if b >= 16 {
        3
    } else if b >= 8 {
        4
    } else if b >= 4 {
        5
    } else if b >= 2 {
        6
    } else if b >= 1 {
        7
    } else {
        8
    }
}

/// Leading zero bits of a byte sequence: full bytes of zeros accumulate,
/// the first non-zero byte contributes its own leading zeros and stops the
/// count.
pub open spec fn spec_leading_zeros(bytes: Seq<u8>) -> nat
    decreases bytes.len(),
{
    if bytes.len() == 0 {
        0
    } else if bytes[0] == 0 {
        8 + spec_leading_zeros(bytes.drop_first())
    } else {
        spec_leading_zeros_byte(bytes[0]) as nat
    }
}

/// Leading zero bits of one byte.
fn leading_zeros_byte(b: u8) -> (r: u8)
    ensures
        r == spec_leading_zeros_byte(b),
{
    if b >= 128 {
        0
    } else if b >= 64 {
        1
    } else if b >= 32 {
        2
    } else if b >= 16 {
        3
    } else if b >= 8 {
        4
    } else if b >= 4 {
        5
    } else if b >= 2 {
        6
    } else if b >= 1 {
        7
    } else {
        8
    }
}

/// An all-zero prefix contributes eight leading zero bits per byte.
proof fn lemma_leading_zeros_prefix(bytes: Seq<u8>, i: int)
    requires
        0 <= i <= bytes.len(),
        forall|j: int| 0 <= j < i ==> bytes[j] == 0,
    ensures
        spec_leading_zeros(bytes) == 8 * i + spec_leading_zeros(bytes.skip(i)),
    decreases i,
{
    if i == 0 {
        assert(bytes.skip(0) =~= bytes);
    } else {
        assert(bytes[0] == 0);
        assert(bytes.drop_first().skip(i - 1) =~= bytes.skip(i));
        lemma_leading_zeros_prefix(bytes.drop_first(), i - 1);
    }
}

/// Whether `bytes` has at least `d` leading zero bits. Scanning stops at
/// the first non-zero byte, or as soon as `d` bits are reached.
fn has_leading_zeros(bytes: &Vec<u8>, d: u8) -> (r: bool)
    ensures
        r == (spec_leading_zeros(bytes@) >= d),
{
    let mut i: usize = 0;
    while i < bytes.len()
        invariant
            i <= bytes@.len(),
            8 * i <= 256,
            forall|j: int| 0 <= j < i ==> bytes@[j] == 0,
        decreases bytes@.len() - i,
    {
        proof {
            lemma_leading_zeros_prefix(bytes@, i as int);
            assert(bytes@.skip(i as int)[0] == bytes@[i as int]);
        }
        if 8 * (i as u64) >= d as u64 {
            return true;
        }
        let b = bytes[i];
        if b != 0 {
            let z = leading_zeros_byte(b);
            return 8 * (i as u64) + z as u64 >= d as u64;
        }
        i = i + 1;
    }
    proof {
        lemma_leading_zeros_prefix(bytes@, i as int);
        assert(bytes@.skip(i as int).len() == 0);
    }
    8 * (i as u64) >= d as u64
}

impl Difficulty {
    /// Wrap a raw leading-zero-bit requirement.
    pub fn new(difficulty: u8) -> (r: Self)
        ensures
            r@ == difficulty,
    {
        Self(difficulty)
    }

    /// The raw requirement.
    pub fn value(&self) -> (r: u8)
        ensures
            r == self@,
    {
        self.0
    }

    /// One notch harder; saturates at 255.
    pub fn raise(self) -> (r: Self)
        ensures
            r@ == if self@ == u8::MAX {
                u8::MAX
            } else {
                (self@ + 1) as u8
            },
    {
        match self.0.checked_add(1) {
            Some(v) => Self(v),
            None => Self(u8::MAX),
        }
    }

    /// One notch easier; saturates at 0.
    pub fn ease(self) -> (r: Self)
        ensures
            r@ == if self@ == 0 {
                0
            } else {
                (self@ - 1) as u8
            },
    {
        match self.0.checked_sub(1) {
            Some(v) => Self(v),
            None => Self(0),
        }
    }

    /// `self <= other` on the raw requirement.
    pub fn le(&self, other: &Self) -> (r: bool)
        ensures
            r == (self@ <= other@),
    {
        self.0 <= other.0
    }

    /// Whether `digest` meets this difficulty.
    pub fn verify_digest(&self, digest: &BlockDigest) -> (r: bool)
        ensures
            r == (spec_leading_zeros(digest@) >= self@),
    {
        self.verify_bytes(digest.bytes())
    }

    /// Whether a raw byte sequence meets this difficulty.
    pub fn verify_bytes(&self, bytes: &Vec<u8>) -> (r: bool)
        ensures
            r == (spec_leading_zeros(bytes@) >= self@),
    {
        has_leading_zeros(bytes, self.0)
    }
}

impl SignatureSource for Difficulty {
    open spec fn source_bytes(&self) -> Seq<u8> {
        seq![self@]
    }

    fn write_bytes(&self, builder: &mut SignatureBuilder) {
        builder.write_byte(self.0);
    }
}

} // verus!
