//! The failures that the accumulator machine reports.

use vstd::prelude::*;

verus! {

/// Why a request against an accumulator was turned down. Each of these is
/// final: the request had no effect, and repeating it unchanged fails again.
#[derive(Clone, Copy, Debug, PartialEq, Eq, Structural)]
pub enum AccumulatorError {
    /// The caller is not allowed to append to this accumulator.
    PermissionDenied,
    /// The address names no accumulator, or the index names no leaf.
    NotFound,
    /// The height is not one at which the request can be served.
    InvalidHeight,
    /// The payload is larger than the machine accepts.
    SerializationError,
}

} // verus!
