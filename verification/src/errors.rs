//! The errors of the library.
use vstd::prelude::*;

verus! {

/// What can go wrong when a relation is built, folded or checked.
#[derive(Clone, Debug, PartialEq, Eq)]
pub enum NovaError {
    /// The sum-check polynomial does not match its claim.
    InvalidSumcheckProof,
    /// A value that has to be inverted is zero.
    DivideByZero,
    /// A witness does not have the length that the relation demands.
    InvalidWitnessLength,
    /// A public input does not have the length that the relation demands.
    InvalidInputLength,
    /// A matrix entry lies outside the matrix.
    InvalidIndex,
    /// The relation is not satisfied.
    UnSat {
        /// What failed.
        reason: String,
    },
}

/// What can go wrong when a circuit is synthesized.
#[derive(Clone, Debug, PartialEq, Eq)]
pub enum SynthesisError {
    /// A value is needed that the witness does not hold.
    AssignmentMissing,
    /// A value that has to be inverted is zero.
    DivisionByZero,
    /// There is no constraint system to synthesize into.
    MissingCS,
    /// The circuit cannot be satisfied.
    Unsatisfiable(String),
}

} // verus!
