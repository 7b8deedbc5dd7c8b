//! The ways in which building or transforming a state can fail.

use vstd::prelude::*;

verus! {

/// Why a state could not be built or transformed.
#[derive(Clone, Copy, Debug, PartialEq, Eq, Structural)]
pub enum Error {
    /// Every amplitude is zero, so there is no direction to normalize.
    ZeroVector,
    /// A gate was applied to a state of another dimension, or a matrix is not square.
    DimensionMismatch,
    /// A basis index is not below the dimension of its space.
    IndexOutOfRange,
    /// A dimension or an amplitude is beyond what the machine types hold.
    Overflow,
}

} // verus!
