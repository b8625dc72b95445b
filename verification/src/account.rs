//! Addresses and signing keys.

use vstd::prelude::*;
use crate::bytesutil::{bytes_eq, clone_bytes};
use crate::signature::{Signature, SignatureBuilder, SignatureSource, signature_wf};

verus! {

/// What Ed25519 key derivation returns for a 32-byte seed: the matching
/// 32-byte public key, a function of the seed alone.
pub uninterp spec fn spec_ed25519_public(seed: Seq<u8>) -> Seq<u8>;

/// What Ed25519 signing returns for a 32-byte seed and a message: the
/// 64-byte signature, a function of seed and message alone (Ed25519
/// signatures are deterministic).
pub uninterp spec fn spec_ed25519_sign(seed: Seq<u8>, msg: Seq<u8>) -> Seq<u8>;

/// What Ed25519 verification returns for a 32-byte public key, a message
/// and a 64-byte signature; a function of its arguments alone.
pub uninterp spec fn spec_ed25519_verify(pk: Seq<u8>, msg: Seq<u8>, sig: Seq<u8>) -> bool;

/// Relies on rand's `random`: 32 bytes drawn from the operating system's
/// entropy source. Nothing is assumed of the value but its length.
#[verifier::external_body]
fn random_seed() -> (r: Vec<u8>)
    ensures
        r@.len() == 32,
{
    let seed: [u8; 32] = rand::random();
    seed.to_vec()
}

/// Relies on ed25519_dalek's `SigningKey::from_bytes` and
/// `VerifyingKey::to_bytes`: the public key that belongs to a seed,
/// 32 bytes and a function of the seed alone.
#[verifier::external_body]
fn ed25519_public(seed: &Vec<u8>) -> (r: Vec<u8>)
    requires
        seed@.len() == 32,
    ensures
        r@ == spec_ed25519_public(seed@),
        r@.len() == 32,
{
    let seed_arr: [u8; 32] = seed.as_slice().try_into().unwrap();
    let key = ed25519_dalek::SigningKey::from_bytes(&seed_arr);
    key.verifying_key().to_bytes().to_vec()
}

/// Relies on ed25519_dalek's `Signer::sign`: the RFC 8032 signature of the
/// message under the seed's key, 64 bytes, deterministic, and valid under
/// the matching public key.
#[verifier::external_body]
fn ed25519_sign(seed: &Vec<u8>, msg: &Vec<u8>) -> (r: Vec<u8>)
    requires
        seed@.len() == 32,
    ensures
        r@ == spec_ed25519_sign(seed@, msg@),
        r@.len() == 64,
        spec_ed25519_verify(spec_ed25519_public(seed@), msg@, r@),
{
    let seed_arr: [u8; 32] = seed.as_slice().try_into().unwrap();
    let key = ed25519_dalek::SigningKey::from_bytes(&seed_arr);
    let sig = ed25519_dalek::Signer::sign(&key, msg.as_slice());
    sig.to_bytes().to_vec()
}

/// Relies on ed25519_dalek's `VerifyingKey::from_bytes` and
/// `Verifier::verify`: whether the signature is valid for the message
/// under the public key; bytes that are no valid key verify nothing.
#[verifier::external_body]
fn ed25519_verify(pk: &Vec<u8>, msg: &Vec<u8>, sig: &Vec<u8>) -> (r: bool)
    requires
        pk@.len() == 32,
        sig@.len() == 64,
    ensures
        r == spec_ed25519_verify(pk@, msg@, sig@),
{
    let pk_arr: [u8; 32] = pk.as_slice().try_into().unwrap();
    let sig_arr: [u8; 64] = sig.as_slice().try_into().unwrap();
    let key = match ed25519_dalek::VerifyingKey::from_bytes(&pk_arr) {
        Ok(key) => key,
        Err(_) => return false,
    };
    let sig = ed25519_dalek::Signature::from_bytes(&sig_arr);
    ed25519_dalek::Verifier::verify(&key, msg.as_slice(), &sig).is_ok()
}

/// The lower-case hex digit for a value below 16.
pub open spec fn spec_hex_digit(n: u8) -> char
    recommends
        n < 16,
{
    if n < 10 {
        (('0' as u8) + n) as char
    } else {
        (('a' as u8) + (n - 10)) as char
    }
}

/// The lower-case hex encoding of a byte sequence: two digits per byte,
/// high nibble first.
pub open spec fn spec_hex_lower(bytes: Seq<u8>) -> Seq<char>
    decreases bytes.len(),
{
    if bytes.len() == 0 {
        Seq::empty()
    } else {
        seq![spec_hex_digit(bytes[0] / 16), spec_hex_digit(bytes[0] % 16)] + spec_hex_lower(
            bytes.drop_first(),
        )
    }
}

/// The value of one hex digit, upper or lower case; 16 marks an invalid
/// character.
pub open spec fn spec_hex_val(c: char) -> u8 {
    let n = c as u32;
    if ('0' as u32) <= n <= ('9' as u32) {
        (n - ('0' as u32)) as u8
    } else if ('a' as u32) <= n <= ('f' as u32) {
        (n - ('a' as u32) + 10) as u8
    } else if ('A' as u32) <= n <= ('F' as u32) {
        (n - ('A' as u32) + 10) as u8
    } else {
        16
    }
}

/// The bytes a hex string stands for: `None` unless the length is even and
/// every character is a hex digit.
pub open spec fn spec_hex_decode(s: Seq<char>) -> Option<Seq<u8>>
    decreases s.len(),
{
    if s.len() == 0 {
        Some(Seq::empty())
    } else if s.len() == 1 {
        None
    } else if spec_hex_val(s[0]) == 16 || spec_hex_val(s[1]) == 16 {
        None
    } else {
        match spec_hex_decode(s.skip(2)) {
            Some(rest) => Some(
                seq![(spec_hex_val(s[0]) * 16 + spec_hex_val(s[1])) as u8] + rest,
            ),
            None => None,
        }
    }
}

/// Relies on hex's `encode`: the lower-case hex string of the bytes, two
/// digits per byte, high nibble first.
#[verifier::external_body]
fn hex_encode(bytes: &Vec<u8>) -> (r: String)
    ensures
        r@ == spec_hex_lower(bytes@),
{
    hex::encode(bytes.as_slice())
}

/// Relies on hex's `decode`: the bytes a hex string stands for, accepting
/// both cases; `Err` exactly on an odd length or a character that is no
/// hex digit.
#[verifier::external_body]
fn hex_decode(s: &str) -> (r: Result<Vec<u8>, hex::FromHexError>)
    ensures
        match r {
            Ok(v) => spec_hex_decode(s@) == Some(v@),
            Err(_) => spec_hex_decode(s@) is None,
        },
{
    hex::decode(s)
}

/// hex's error type, carried through unchanged.
#[verifier::external_type_specification]
#[verifier::external_body]
pub struct ExFromHexError(hex::FromHexError);

/// A 32-byte Ed25519 public key: the public identity that holds coin.
#[derive(Debug)]
pub struct Address {
    publickey: Vec<u8>,
}

impl View for Address {
    type V = Seq<u8>;

    closed spec fn view(&self) -> Seq<u8> {
        self.publickey@
    }
}

/// An address is well formed when it holds exactly 32 bytes.
pub open spec fn address_wf(a: Seq<u8>) -> bool {
    a.len() == 32
}

impl Address {
    /// Whether `signature` is a valid signature of `message` by this
    /// address's key.
    pub fn verify(&self, message: &Vec<u8>, signature: &Signature) -> (r: bool)
        requires
            address_wf(self@),
            signature_wf(signature@),
        ensures
            r == spec_ed25519_verify(self@, message@, signature@),
    {
        ed25519_verify(&self.publickey, message, signature.bytes())
    }

    /// The raw public-key bytes.
    pub fn bytes(&self) -> (r: &Vec<u8>)
        ensures
            r@ == self@,
    {
        &self.publickey
    }

    /// Wrap raw public-key bytes; they must be exactly 32.
    pub fn from_bytes(bytes: Vec<u8>) -> (r: Result<Self, ()>)
        ensures
            match r {
                Ok(a) => a@ == bytes@ && address_wf(a@),
                Err(()) => !address_wf(bytes@),
            },
    {
        if bytes.len() == 32 {
            Ok(Address { publickey: bytes })
        } else {
            Err(())
        }
    }

    /// The lower-case hex form of this address.
    pub fn to_hex_string(&self) -> (r: String)
        ensures
            r@ == spec_hex_lower(self@),
    {
        hex_encode(&self.publickey)
    }

    /// Parse an address from hex; the string must decode to exactly
    /// 32 bytes.
    pub fn from_hex_str(s: &str) -> (r: Result<Self, AddressError>)
        ensures
            match r {
                Ok(a) => spec_hex_decode(s@) == Some(a@) && address_wf(a@),
                Err(AddressError::HexDecode(_)) => spec_hex_decode(s@) is None,
                Err(AddressError::Ed25519) => match spec_hex_decode(s@) {
                    Some(v) => !address_wf(v),
                    None => false,
                },
            },
    {
        let bytes = match hex_decode(s) {
            Ok(bytes) => bytes,
            Err(e) => {
                return Err(AddressError::HexDecode(e));
            },
        };
        if bytes.len() == 32 {
            Ok(Address { publickey: bytes })
        } else {
            Err(AddressError::Ed25519)
        }
    }
}

impl Clone for Address {
    fn clone(&self) -> (r: Self)
        ensures
            r@ == self@,
    {
        Address { publickey: clone_bytes(&self.publickey) }
    }
}

impl PartialEq for Address {
    fn eq(&self, other: &Self) -> (r: bool) {
        bytes_eq(&self.publickey, &other.publickey)
    }
}

impl vstd::std_specs::cmp::PartialEqSpecImpl for Address {
    open spec fn obeys_eq_spec() -> bool {
        true
    }

    open spec fn eq_spec(&self, other: &Self) -> bool {
        self@ == other@
    }
}

impl SignatureSource for Address {
    open spec fn source_bytes(&self) -> Seq<u8> {
        self@
    }

    fn write_bytes(&self, builder: &mut SignatureBuilder) {
        builder.write_bytes(self.publickey.as_slice());
    }
}

/// Why a hex string is no address.
#[derive(Debug)]
pub enum AddressError {
    /// The string is no valid hex.
    HexDecode(hex::FromHexError),
    /// The decoded bytes are no Ed25519 public key.
    Ed25519,
}

/// An Ed25519 keypair: the secret seed together with its public key.
/// It exists only in the node that owns it and produces signatures.
#[derive(Debug)]
pub struct SecretAddress {
    seed: Vec<u8>,
    publickey: Vec<u8>,
}

/// A secret address is well formed when the seed has 32 bytes and the
/// public key is the one derived from the seed.
pub open spec fn secret_address_wf(s: SecretAddress) -> bool {
    &&& s.seed_view().len() == 32
    &&& s.public_view().len() == 32
    &&& s.public_view() == spec_ed25519_public(s.seed_view())
}

impl SecretAddress {
    /// The seed bytes, as a spec value.
    pub closed spec fn seed_view(&self) -> Seq<u8> {
        self.seed@
    }

    /// The public-key bytes, as a spec value.
    pub closed spec fn public_view(&self) -> Seq<u8> {
        self.publickey@
    }

    /// Create a fresh keypair from the system's entropy source.
    pub fn create() -> (r: Self)
        ensures
            secret_address_wf(r),
    {
        let seed = random_seed();
        let publickey = ed25519_public(&seed);
        SecretAddress { seed, publickey }
    }

    /// Rebuild a keypair from its seed; the seed must be exactly 32 bytes.
    pub fn from_seed(seed: Vec<u8>) -> (r: Result<Self, ()>)
        ensures
            match r {
                Ok(s) => secret_address_wf(s) && s.seed_view() == seed@,
                Err(()) => seed@.len() != 32,
            },
    {
        if seed.len() == 32 {
            let publickey = ed25519_public(&seed);
            Ok(SecretAddress { seed, publickey })
        } else {
            Err(())
        }
    }

    /// The seed bytes.
    pub fn seed_bytes(&self) -> (r: &Vec<u8>)
        ensures
            r@ == self.seed_view(),
    {
        &self.seed
    }

    /// Sign a message; the result is valid under this keypair's address.
    pub fn sign(&self, message: &Vec<u8>) -> (r: Signature)
        requires
            secret_address_wf(*self),
        ensures
            r@ == spec_ed25519_sign(self.seed_view(), message@),
            signature_wf(r@),
            spec_ed25519_verify(self.public_view(), message@, r@),
    {
        let bytes = ed25519_sign(&self.seed, message);
        Signature::new_unchecked(bytes)
    }

    /// The public address of this keypair.
    pub fn to_public_address(&self) -> (r: Address)
        requires
            secret_address_wf(*self),
        ensures
            r@ == self.public_view(),
            r@ == spec_ed25519_public(self.seed_view()),
            address_wf(r@),
    {
        Address { publickey: clone_bytes(&self.publickey) }
    }
}

} // verus!
