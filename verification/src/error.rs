//! The error type of the storage operations.

use vstd::prelude::*;

verus! {

/// Why an operation was refused.
#[derive(Debug, Clone, Copy, PartialEq, Eq, Structural)]
pub enum Error {
    /// There is no element to take out, or no slot to put one in.
    Exhausted,
    /// The operation is not permitted in the current state.
    Illegal,
    /// The other side has closed the connection, and all its data was received.
    Finished,
}

} // verus!
