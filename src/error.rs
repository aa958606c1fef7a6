//! What the protocol's operations report when they cannot proceed.

use vstd::prelude::*;

verus! {

/// A failure that is surfaced to the caller.
#[derive(Debug, Clone, Copy, PartialEq, Eq, Structural)]
pub enum PunchError {
    /// A group element or a scalar failed to decode from its wire bytes.
    MalformedEncoding,
}

} // verus!
