//! UTC instants at nanosecond resolution.

use vstd::prelude::*;
use vstd::bytes::{spec_u64_to_le_bytes, u64_to_le_bytes};
use crate::signature::{SignatureBuilder, SignatureSource};

verus! {

/// A UTC instant, held as signed nanoseconds since the Unix epoch.
#[derive(Debug, Clone, Copy, PartialEq, Eq, Structural)]
pub struct Timestamp(i64);

impl View for Timestamp {
    type V = i64;

    closed spec fn view(&self) -> i64 {
        self.0
    }
}

/// Relies on chrono's `DateTime<Utc>` view of the system clock: the
/// current wall-clock time in nanoseconds since the Unix epoch. Nothing
/// is assumed of the value. The conversion from the system clock handles
/// instants before the epoch; one that nanoseconds cannot hold is
/// reported as the epoch itself.
#[verifier::external_body]
fn utc_now_nanos() -> i64 {
    let now: chrono::DateTime<chrono::Utc> = std::time::SystemTime::now().into();
    match now.timestamp_nanos_opt() {
        Some(n) => n,
        None => 0,
    }
}

impl Timestamp {
    /// The current wall-clock time. Nothing is known of the value.
    pub fn now() -> Self {
        Self(utc_now_nanos())
    }

    /// The Unix epoch.
    pub fn enix_epoch() -> (r: Self)
        ensures
            r@ == 0,
    {
        Self(0)
    }

    /// Wrap raw nanoseconds since the Unix epoch.
    pub fn from_nanos(nanos: i64) -> (r: Self)
        ensures
            r@ == nanos,
    {
        Self(nanos)
    }

    /// The raw nanoseconds since the Unix epoch.
    pub fn nanos(&self) -> (r: i64)
        ensures
            r == self@,
    {
        self.0
    }

    /// `self <= other` in time order.
    pub fn le(&self, other: &Self) -> (r: bool)
        ensures
            r == (self@ <= other@),
    {
        self.0 <= other.0
    }

    /// `self < other` in time order.
    pub fn lt(&self, other: &Self) -> (r: bool)
        ensures
            r == (self@ < other@),
    {
        self.0 < other.0
    }
}

impl SignatureSource for Timestamp {
    open spec fn source_bytes(&self) -> Seq<u8> {
        spec_u64_to_le_bytes(self@ as u64)
    }

    fn write_bytes(&self, builder: &mut SignatureBuilder) {
        let bytes = u64_to_le_bytes(self.0 as u64);
        builder.write_bytes(bytes.as_slice());
    }
}

} // verus!
