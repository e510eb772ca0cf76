//! Spin classification enums used by placement metadata.

use vstd::prelude::*;

verus! {

/// Spin outcome classification for a concrete placement.
#[derive(Debug, Clone, Copy, PartialEq, Eq, Hash, Structural)]
pub enum Spin {
    /// Not a spin.
    NoSpin,
    /// Mini spin.
    Mini,
    /// Full spin.
    Full,
}

/// Number of spin outcome variants.
pub const SPIN_NB: usize = 3;

/// The index of a spin outcome.
pub open spec fn spin_index(s: Spin) -> int {
    match s {
        Spin::NoSpin => 0,
        Spin::Mini => 1,
        Spin::Full => 2,
    }
}

impl Spin {
    /// All spin outcomes in index order.
    pub fn all() -> (r: [Spin; 3])
        ensures
            forall|i: int| 0 <= i < 3 ==> spin_index(#[trigger] r@[i]) == i,
    {
        [Spin::NoSpin, Spin::Mini, Spin::Full]
    }

    /// Returns the index of this spin outcome.
    pub fn index(self) -> (r: u8)
        ensures
            r as int == spin_index(self),
    {
        match self {
            Spin::NoSpin => 0,
            Spin::Mini => 1,
            Spin::Full => 2,
        }
    }
}

/// Spin allowance policy for move generation.
#[derive(Debug, Clone, Copy, PartialEq, Eq, Hash, Structural)]
pub enum Spins {
    /// Disable spins entirely.
    Disabled,
    /// Only allow T-spins via 3-corner detection.
    T,
    /// T-spins via 3-corner detection, plus immobile T spins marked as mini.
    TPlus,
    /// [`Spins::T`], plus immobile spins for all non-T pieces, marked as mini.
    AllMini,
    /// [`Spins::TPlus`], plus immobile spins for all non-T pieces, marked as mini.
    AllMiniPlus,
    /// [`Spins::T`], plus immobile spins for all non-T pieces, marked as full.
    All,
    /// [`Spins::TPlus`], plus immobile spins for all non-T pieces, marked as full.
    AllPlus,
    /// All placements reached via rotation are a spin, marked as full.
    Stupid,
}

} // verus!
