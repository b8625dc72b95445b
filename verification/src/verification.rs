//! Marker types for the staged verification pipeline.

use vstd::prelude::*;

verus! {

/// A stage that has not been checked yet.
#[derive(Debug, Clone, Copy, PartialEq, Eq, Structural)]
pub struct Yet;

/// A stage that has been checked.
#[derive(Debug, Clone, Copy, PartialEq, Eq, Structural)]
pub struct Verified;

} // verus!
