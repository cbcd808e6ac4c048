//! The two stone colours and the involutive swap between them.

use vstd::prelude::*;

verus! {

/// Identity of one of the two sides.
#[derive(PartialEq, Eq, Structural, Clone, Copy, Debug, Hash)]
pub enum Color {
    Black,
    White,
}

/// The opposite side of `c`.
pub open spec fn spec_inverse(c: Color) -> Color {
    match c {
        Color::Black => Color::White,
        Color::White => Color::Black,
    }
}

impl Color {
    /// The opposite side: Black for White and White for Black.
    pub fn get_inverse_color(&self) -> (r: Color)
        ensures
            r == spec_inverse(*self),
    {
        match self {
            Color::Black => Color::White,
            _ => Color::Black,
        }
    }
}

/// Swapping sides twice returns to the starting side.
pub proof fn lemma_inverse_involutive(c: Color)
    ensures
        spec_inverse(spec_inverse(c)) == c,
{
}

} // verus!
