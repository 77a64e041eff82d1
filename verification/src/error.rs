//! The failures that the simulation reports to its caller.

use vstd::prelude::*;

verus! {

/// Why a hand or a simulation could not be produced.
#[derive(Debug, Clone, Copy, PartialEq, Eq, Structural)]
pub enum PorkerError {
    /// The pool did not give five different cards within the allowed draws.
    InvalidCardPool,
    /// A number does not fit the width that the engine works in, or names no card.
    ConversionError,
}

impl PorkerError {
    /// The text shown for this failure.
    pub fn message(&self) -> (text: &'static str)
        ensures
            text@ == match *self {
                PorkerError::InvalidCardPool => "Error: Invalid useCards"@,
                PorkerError::ConversionError => "Error: number out of range"@,
            },
    {
        match self {
            PorkerError::InvalidCardPool => "Error: Invalid useCards",
            PorkerError::ConversionError => "Error: number out of range",
        }
    }
}

} // verus!
