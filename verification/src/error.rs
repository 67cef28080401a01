//! The ways in which an operation of the scheme can refuse its input.

use vstd::prelude::*;

verus! {

/// A structural precondition that an operation found violated.
#[derive(Clone, Copy, Debug, PartialEq, Eq, Structural)]
pub enum GlweError {
    /// Two operands disagree in length, ring degree or polynomial count.
    DimensionMismatch,
    /// A coefficient of a key was neither `0` nor `1`.
    NotBinary,
    /// A secret key's Hamming weight is at or below the safety floor.
    DegenerateKey,
    /// A plaintext symbol lies outside the open interval `(-p/2, p/2)`.
    OutOfRangePlaintext,
}

impl GlweError {
    /// A short description of the error.
    pub fn message(&self) -> (text: String)
        ensures
            text@ == self.spec_message()@,
    {
        match self {
            GlweError::DimensionMismatch => "operand dimensions disagree".to_string(),
            GlweError::NotBinary => "not a binary vector".to_string(),
            GlweError::DegenerateKey => "secret key is too sparse".to_string(),
            GlweError::OutOfRangePlaintext => "plaintext symbol out of range".to_string(),
        }
    }

    /// The text that [`GlweError::message`] returns.
    pub open spec fn spec_message(&self) -> &'static str {
        match self {
            GlweError::DimensionMismatch => "operand dimensions disagree",
            GlweError::NotBinary => "not a binary vector",
            GlweError::DegenerateKey => "secret key is too sparse",
            GlweError::OutOfRangePlaintext => "plaintext symbol out of range",
        }
    }
}

} // verus!
