//! Error kinds shared by the simulator core.

use vstd::prelude::*;

verus! {

/// Failure conditions of the simulation core.
#[derive(Clone, Copy, Debug, PartialEq, Eq, Structural)]
pub enum Error {
    /// An operation needed a non-empty sequence and got an empty one.
    EmptyInput,
    /// A node has no owning rank in the node-to-rank map.
    MissingMapping,
    /// A wire payload could not be decoded.
    SerializationError,
    /// A startup or coverage check failed.
    InvariantViolation,
    /// A remaining, unclassified failure.
    Generic,
}

} // verus!
