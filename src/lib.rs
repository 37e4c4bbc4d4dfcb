//! Super fair division: zero-sum monetary transfers among participants who
//! bid on one shared item, with equal or with positive integer weights.
//!
//! All arithmetic is done in `i128` and checked: where an intermediate value
//! of the computation leaves the `i128` range, the call reports
//! [`Error::CalculationFailed`] instead of wrapping.
use vstd::prelude::*;

pub mod model;
mod algorithm;
pub mod laws;

pub use algorithm::{calculate_fair_division_equal_weights, calculate_fair_division_weighted};

verus! {

/// Why an allocation could not be computed.
#[derive(Debug, Clone, Copy, PartialEq, Eq, Structural)]
pub enum Error {
    /// The input is empty, the two lists differ in length, or a weight is not positive.
    InvalidInput,
    /// An intermediate value of the computation does not fit in `i128`.
    CalculationFailed,
    /// Fewer than two participants were given.
    NotEnoughParticipants,
}

} // verus!
