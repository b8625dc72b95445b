//! Signatures and the canonical byte accumulator that feeds them.

use vstd::prelude::*;
use crate::bytesutil::{bytes_eq, clone_bytes};

verus! {

/// A 64-byte Ed25519 signature, held as raw bytes.
#[derive(Debug)]
pub struct Signature {
    bytes: Vec<u8>,
}

impl View for Signature {
    type V = Seq<u8>;

    closed spec fn view(&self) -> Seq<u8> {
        self.bytes@
    }
}

/// A signature value is well formed when it holds exactly 64 bytes.
pub open spec fn signature_wf(s: Seq<u8>) -> bool {
    s.len() == 64
}

impl Signature {
    /// Wrap raw signature bytes; they must be exactly 64.
    pub fn from_bytes(bytes: Vec<u8>) -> (r: Result<Self, ()>)
        ensures
            match r {
                Ok(s) => s@ == bytes@ && signature_wf(s@),
                Err(()) => !signature_wf(bytes@),
            },
    {
        if bytes.len() == 64 {
            Ok(Signature { bytes })
        } else {
            Err(())
        }
    }

    /// The raw signature bytes.
    pub fn bytes(&self) -> (r: &Vec<u8>)
        ensures
            r@ == self@,
    {
        &self.bytes
    }

    /// Wrap raw signature bytes already known to be 64 long.
    pub(crate) fn new_unchecked(bytes: Vec<u8>) -> (r: Self)
        requires
            signature_wf(bytes@),
        ensures
            r@ == bytes@,
    {
        Signature { bytes }
    }
}

impl Clone for Signature {
    fn clone(&self) -> (r: Self)
        ensures
            r@ == self@,
    {
        Signature { bytes: clone_bytes(&self.bytes) }
    }
}

impl PartialEq for Signature {
    fn eq(&self, other: &Self) -> (r: bool) {
        bytes_eq(&self.bytes, &other.bytes)
    }
}

impl vstd::std_specs::cmp::PartialEqSpecImpl for Signature {
    open spec fn obeys_eq_spec() -> bool {
        true
    }

    open spec fn eq_spec(&self, other: &Self) -> bool {
        self@ == other@
    }
}

impl SignatureSource for Signature {
    open spec fn source_bytes(&self) -> Seq<u8> {
        self@
    }

    fn write_bytes(&self, builder: &mut SignatureBuilder) {
        builder.write_bytes(self.bytes.as_slice());
    }
}

/// A write-only byte accumulator for canonical serializations.
#[derive(Debug)]
pub struct SignatureBuilder {
    bytes: Vec<u8>,
}

impl View for SignatureBuilder {
    type V = Seq<u8>;

    closed spec fn view(&self) -> Seq<u8> {
        self.bytes@
    }
}

impl SignatureBuilder {
    /// An empty accumulator.
    pub fn new() -> (r: Self)
        ensures
            r@ == Seq::<u8>::empty(),
    {
        Self { bytes: Vec::new() }
    }

    /// An accumulator that starts with the given bytes.
    pub fn from(bytes: Vec<u8>) -> (r: Self)
        ensures
            r@ == bytes@,
    {
        Self { bytes }
    }

    /// Append raw bytes.
    pub fn write_bytes(&mut self, bytes: &[u8])
        ensures
            final(self)@ == old(self)@ + bytes@,
    {
        let mut i: usize = 0;
        while i < bytes.len()
            invariant
                i <= bytes@.len(),
                self.bytes@ == old(self)@ + bytes@.take(i as int),
            decreases bytes@.len() - i,
        {
            self.bytes.push(bytes[i]);
            proof {
                assert(old(self)@ + bytes@.take(i + 1) =~= (old(self)@ + bytes@.take(
                    i as int,
                )).push(bytes@[i as int]));
            }
            i = i + 1;
        }
        proof {
            assert(old(self)@ + bytes@.take(bytes@.len() as int) =~= old(self)@ + bytes@);
        }
    }

    /// Append one byte.
    pub fn write_byte(&mut self, byte: u8)
        ensures
            final(self)@ == old(self)@ + seq![byte],
    {
        self.bytes.push(byte);
        proof {
            assert(self.bytes@ =~= old(self)@ + seq![byte]);
        }
    }

    /// The accumulated bytes.
    pub fn finalize(self) -> (r: Vec<u8>)
        ensures
            r@ == self@,
    {
        self.bytes
    }
}

/// A value with a fixed, deterministic canonical serialization; everything
/// that enters a digest or a signature implements this.
pub trait SignatureSource {
    /// The canonical bytes of this value.
    spec fn source_bytes(&self) -> Seq<u8>;

    /// Append the canonical bytes of this value to the accumulator.
    fn write_bytes(&self, builder: &mut SignatureBuilder)
        ensures
            final(builder)@ == old(builder)@ + self.source_bytes(),
    ;

    /// The canonical bytes of this value, as a fresh vector.
    fn build_signature_source(&self) -> (r: Vec<u8>)
        ensures
            r@ == self.source_bytes(),
    {
        let mut builder = SignatureBuilder::new();
        self.write_bytes(&mut builder);
        builder.finalize()
    }
}

} // verus!
