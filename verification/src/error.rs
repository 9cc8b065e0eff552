//! The error taxonomy of the training stack.  Every failure is a
//! local-construction-time invariant violation, fatal to the operation that
//! met it.

use vstd::prelude::*;

verus! {

/// What can go wrong inside the core.
#[derive(Clone, Copy, Debug, PartialEq, Eq, Structural)]
pub enum MlError {
    /// An input vector's length disagrees with the network topology.
    ShapeMismatch,
    /// A gradient vector disagrees with the parameter count, or a predicted
    /// vector with the expected one.
    LengthMismatch,
    /// A gradient was requested of a constant, or with respect to a value
    /// that is not on the current tape.
    InvalidDifferentiation,
    /// An error function was invoked on empty vectors.
    EmptyInput,
    /// An operation left the domain it is defined on (a zero divisor, a
    /// non-positive logarithm argument).
    NumericInstability,
}

impl MlError {
    /// A short description of the error.
    pub fn describe(self) -> (r: &'static str)
    {
        match self {
            MlError::ShapeMismatch => "input length disagrees with the network topology",
            MlError::LengthMismatch => "vector lengths disagree",
            MlError::InvalidDifferentiation => "gradient requested of a value the tape does not track",
            MlError::EmptyInput => "error function invoked on empty vectors",
            MlError::NumericInstability => "operation left its numeric domain",
        }
    }
}

} // verus!
