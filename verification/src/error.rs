//! Recoverable outcomes of attempting an illegal placement.

use vstd::prelude::*;

verus! {

/// Why a requested placement was refused.  All variants are expected,
/// recoverable outcomes returned as values, never a fatal abort.
#[derive(PartialEq, Eq, Structural, Clone, Copy, Debug)]
pub enum PlacementError {
    /// The coordinate lies outside the grid on at least one axis.
    OutOfBounds,
    /// The targeted cell already holds a stone.
    NotEmpty,
    /// The input could not be understood as a coordinate at all.
    IncorrectPlacement,
    /// The stone would create two or more free threes at once.
    DoubleFreeThree,
}

impl PlacementError {
    /// A short human-readable description of the error.
    pub fn describe(&self) -> (r: &'static str)
        ensures
            *self is OutOfBounds ==> r@ == "Out Of Bounds"@,
            *self is NotEmpty ==> r@ == "Not Empty"@,
            *self is IncorrectPlacement ==> r@ == "Incorrect placement"@,
            *self is DoubleFreeThree ==> r@ == "Double Free Three"@,
    {
        match self {
            PlacementError::OutOfBounds => "Out Of Bounds",
            PlacementError::NotEmpty => "Not Empty",
            PlacementError::IncorrectPlacement => "Incorrect placement",
            PlacementError::DoubleFreeThree => "Double Free Three",
        }
    }
}

} // verus!
