//! Gameplay rules governing move generation and placement.

use vstd::prelude::*;
use crate::spin::Spins;

verus! {

/// Ruleset parameters for move generation and placement logic.
#[derive(Debug, Clone, Copy, PartialEq, Eq, Structural)]
pub struct Rule {
    /// Spin allowance policy used during move generation.
    pub spins: Spins,
    /// Enables infinite soft drop, lowering the piece as far as possible per input.
    pub inf_sdf: bool,
    /// Allows 180-degree rotations during move generation.
    pub allow_180: bool,
    /// Enables extended lateral movement along a row.
    pub das: bool,
    /// Spawn column for new pieces.
    pub spawn_x: i32,
    /// Spawn row for new pieces.
    pub spawn_y: i32,
}

/// The default rule for move generation.
pub fn default_rule() -> (r: Rule)
    ensures
        r == (Rule {
            spins: Spins::AllMini,
            inf_sdf: true,
            allow_180: true,
            das: true,
            spawn_x: 4,
            spawn_y: 21,
        }),
{
    Rule { spins: Spins::AllMini, inf_sdf: true, allow_180: true, das: true, spawn_x: 4, spawn_y: 21 }
}

impl Rule {
    /// Returns `true` if the rule uses 3-corner detection for T-spin classification.
    pub fn has_t_corner_spins(&self) -> (r: bool)
        ensures
            r == (self.spins != Spins::Disabled),
    {
        !matches!(self.spins, Spins::Disabled)
    }

    /// Returns `true` if the rule uses immobile detection for T-spin classification.
    pub fn has_immobile_t_spins(&self) -> (r: bool)
        ensures
            r == (self.spins == Spins::TPlus || self.spins == Spins::AllMiniPlus || self.spins
                == Spins::AllPlus),
    {
        matches!(self.spins, Spins::TPlus | Spins::AllMiniPlus | Spins::AllPlus)
    }

    /// Returns `true` if the rule uses immobile detection for any non-T piece.
    pub fn has_immobile_non_t_spins(&self) -> (r: bool)
        ensures
            r == (self.spins == Spins::AllMini || self.spins == Spins::AllMiniPlus || self.spins
                == Spins::All || self.spins == Spins::AllPlus),
    {
        matches!(self.spins, Spins::AllMini | Spins::AllMiniPlus | Spins::All | Spins::AllPlus)
    }

    /// Returns `true` if spins are upgraded to full spins when immobile.
    pub fn is_full(&self) -> (r: bool)
        ensures
            r == (self.spins == Spins::AllPlus || self.spins == Spins::All),
    {
        matches!(self.spins, Spins::AllPlus | Spins::All)
    }
}

} // verus!
