//! Fundamental operator and spin labels shared by the SSE implementation.

use vstd::prelude::*;

verus! {

/// Classification of an entry in a fixed-length SSE operator string.
///
/// Identity, diagonal, and off-diagonal vertices are kept in this stable
/// order.
#[derive(Clone, Copy, Debug, PartialEq, Eq, Structural)]
pub enum OperatorKind {
    /// An unused position in the padded operator string.
    Identity,
    /// A local operator diagonal in the sampled spin basis.
    Diagonal,
    /// A local operator that changes the sampled spin basis state.
    OffDiagonal,
}

/// A spin-1/2 basis value in the Pauli-z convention.
///
/// `Up` and `Down` have eigenvalues `+1` and `-1`, respectively. For Rydberg
/// models, the same values represent occupied and empty sites.
#[derive(Clone, Copy, Debug, PartialEq, Eq, Structural)]
pub enum Spin {
    /// The `+1` Pauli-z eigenstate, interpreted as occupied by Rydberg models.
    Up,
    /// The `-1` Pauli-z eigenstate, interpreted as empty by Rydberg models.
    Down,
}

/// The spin with the opposite Pauli-z eigenvalue.
pub open spec fn flipped(spin: Spin) -> Spin {
    match spin {
        Spin::Up => Spin::Down,
        Spin::Down => Spin::Up,
    }
}

/// The Pauli-z eigenvalue of a spin.
pub open spec fn eigenvalue(spin: Spin) -> int {
    match spin {
        Spin::Up => 1,
        Spin::Down => -1,
    }
}

/// The Rydberg occupation number of a spin: `Down -> 0`, `Up -> 1`.
pub open spec fn occupation_number(spin: Spin) -> int {
    match spin {
        Spin::Up => 1,
        Spin::Down => 0,
    }
}

impl Spin {
    /// Returns the opposite spin value.
    #[must_use]
    pub fn flip(self) -> (flipped_spin: Self)
        ensures
            flipped_spin == flipped(self),
    {
        match self {
            Self::Down => Self::Up,
            Self::Up => Self::Down,
        }
    }

    /// Returns the Pauli-z eigenvalue, either `+1` or `-1`.
    #[must_use]
    pub fn value(self) -> (value: i8)
        ensures
            value == eigenvalue(self),
    {
        match self {
            Self::Up => 1,
            Self::Down => -1,
        }
    }
}

/// Flipping a spin twice gives it back, flipping always changes it, and the
/// eigenvalue of a flipped spin is the negated eigenvalue.
pub proof fn lemma_flip_involution(spin: Spin)
    ensures
        flipped(flipped(spin)) == spin,
        flipped(spin) != spin,
        eigenvalue(flipped(spin)) == -eigenvalue(spin),
        eigenvalue(spin) == 1 || eigenvalue(spin) == -1,
        occupation_number(spin) == (eigenvalue(spin) + 1) / 2,
{
}

} // verus!
