//! The SHA-256 block digest.

use vstd::prelude::*;
use crate::signature::{SignatureBuilder, SignatureSource};

verus! {

/// What SHA-256 returns for a byte sequence. The function is far too large
/// to state here; the name only records that the digest depends on the
/// input bytes alone.
pub uninterp spec fn spec_sha256(input: Seq<u8>) -> Seq<u8>;

/// Relies on sha2's `Sha256`: a one-shot digest of the input bytes,
/// always 32 bytes long and a function of the input alone.
#[verifier::external_body]
fn sha256(input: &Vec<u8>) -> (r: Vec<u8>)
    ensures
        r@ == spec_sha256(input@),
        r@.len() == 32,
{
    let mut hasher = <sha2::Sha256 as sha2::Digest>::new();
    sha2::Digest::update(&mut hasher, input.as_slice());
    sha2::Digest::finalize(hasher).to_vec()
}

/// A 32-byte SHA-256 digest.
#[derive(Debug)]
pub struct BlockDigest {
    bytes: Vec<u8>,
}

impl View for BlockDigest {
    type V = Seq<u8>;

    closed spec fn view(&self) -> Seq<u8> {
        self.bytes@
    }
}

/// A digest value is well formed when it holds exactly 32 bytes.
pub open spec fn digest_wf(d: Seq<u8>) -> bool {
    d.len() == 32
}

impl BlockDigest {
    /// Hash a byte sequence.
    pub fn digest(input: &Vec<u8>) -> (r: Self)
        ensures
            r@ == spec_sha256(input@),
            digest_wf(r@),
    {
        BlockDigest { bytes: sha256(input) }
    }

    /// Wrap raw digest bytes; they must be exactly 32.
    pub fn from_bytes(bytes: Vec<u8>) -> (r: Result<Self, ()>)
        ensures
            match r {
                Ok(d) => d@ == bytes@ && digest_wf(d@),
                Err(()) => !digest_wf(bytes@),
            },
    {
        if bytes.len() == 32 {
            Ok(BlockDigest { bytes })
        } else {
            Err(())
        }
    }

    /// The raw digest bytes.
    pub fn bytes(&self) -> (r: &Vec<u8>)
        ensures
            r@ == self@,
    {
        &self.bytes
    }
}

impl Clone for BlockDigest {
    fn clone(&self) -> (r: Self)
        ensures
            r@ == self@,
    {
        BlockDigest { bytes: crate::bytesutil::clone_bytes(&self.bytes) }
    }
}

impl PartialEq for BlockDigest {
    fn eq(&self, other: &Self) -> (r: bool) {
        crate::bytesutil::bytes_eq(&self.bytes, &other.bytes)
    }
}

impl vstd::std_specs::cmp::PartialEqSpecImpl for BlockDigest {
    open spec fn obeys_eq_spec() -> bool {
        true
    }

    open spec fn eq_spec(&self, other: &Self) -> bool {
        self@ == other@
    }
}

impl SignatureSource for BlockDigest {
    open spec fn source_bytes(&self) -> Seq<u8> {
        self@
    }

    fn write_bytes(&self, builder: &mut SignatureBuilder) {
        builder.write_bytes(self.bytes.as_slice());
    }
}

} // verus!
