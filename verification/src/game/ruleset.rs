//! Combo table kinds and the base attack of a clear.

use vstd::prelude::*;
use crate::spin::Spin;

verus! {

/// A ruleset's combo table.
#[derive(Clone, Copy, Debug, PartialEq, Eq, Structural)]
pub enum ComboTable {
    /// No combo bonus.
    NoBonus,
    /// Classic combo table, from older guideline games.
    Classic,
    /// Modern combo table, from newer guideline games.
    Modern,
    /// Multiplier combo table.
    Multiplier,
}

/// The base attack of each kind of clear, before bonuses.
#[derive(Clone, Copy, Debug, PartialEq, Eq, Structural)]
pub struct AttackTable {
    pub single: u32,
    pub double: u32,
    pub triple: u32,
    pub quad: u32,
    pub penta: u32,
    pub spin_mini_zero: u32,
    pub spin_zero: u32,
    pub spin_mini_single: u32,
    pub spin_single: u32,
    pub spin_mini_double: u32,
    pub spin_double: u32,
    pub spin_mini_triple: u32,
    pub spin_triple: u32,
    pub spin_quad: u32,
    pub spin_penta: u32,
}

impl AttackTable {
    /// Base garbage of a clear of `lines` lines with `spin`. Beyond the
    /// table, each extra line adds one (two for spins).
    pub open spec fn base(self, lines: int, spin: Spin) -> int {
        match spin {
            Spin::NoSpin => if lines == 0 {
                0
            } else if lines == 1 {
                self.single as int
            } else if lines == 2 {
                self.double as int
            } else if lines == 3 {
                self.triple as int
            } else if lines == 4 {
                self.quad as int
            } else if lines == 5 {
                self.penta as int
            } else {
                self.penta + (lines - 5)
            },
            Spin::Mini => if lines == 0 {
                self.spin_mini_zero as int
            } else if lines == 1 {
                self.spin_mini_single as int
            } else if lines == 2 {
                self.spin_mini_double as int
            } else if lines == 3 {
                self.spin_mini_triple as int
            } else if lines == 4 {
                self.spin_quad as int
            } else {
                self.spin_quad + 2 * (lines - 4)
            },
            Spin::Full => if lines == 0 {
                self.spin_zero as int
            } else if lines == 1 {
                self.spin_single as int
            } else if lines == 2 {
                self.spin_double as int
            } else if lines == 3 {
                self.spin_triple as int
            } else if lines == 4 {
                self.spin_quad as int
            } else if lines == 5 {
                self.spin_penta as int
            } else {
                self.spin_penta + 2 * (lines - 5)
            },
        }
    }

    /// Returns base garbage before combo, back-to-back, surge and multipliers.
    pub fn base_attack(&self, lines: u32, spin: Spin) -> (r: u32)
        requires
            self.base(lines as int, spin) <= u32::MAX,
        ensures
            r == self.base(lines as int, spin),
    {
        match spin {
            Spin::NoSpin => match lines {
                0 => 0,
                1 => self.single,
                2 => self.double,
                3 => self.triple,
                4 => self.quad,
                5 => self.penta,
                _ => self.penta + (lines - 5),
            },
            Spin::Mini => match lines {
                0 => self.spin_mini_zero,
                1 => self.spin_mini_single,
                2 => self.spin_mini_double,
                3 => self.spin_mini_triple,
                4 => self.spin_quad,
                _ => self.spin_quad + 2 * (lines - 4),
            },
            Spin::Full => match lines {
                0 => self.spin_zero,
                1 => self.spin_single,
                2 => self.spin_double,
                3 => self.spin_triple,
                4 => self.spin_quad,
                5 => self.spin_penta,
                _ => self.spin_penta + 2 * (lines - 5),
            },
        }
    }
}

/// Each clear draws on the table entry named for it: a plain clear of one
/// to five lines gives the single, double, triple, quad or penta entry; a
/// spin of zero to five lines gives its spin entry (a mini quad or more
/// counts as a spin quad); no plain clear of zero lines attacks; and past
/// the table each extra line adds one, or two for a spin.
pub proof fn law_base_uses_named_entry(t: AttackTable, n: int)
    ensures
        t.base(0, Spin::NoSpin) == 0,
        t.base(1, Spin::NoSpin) == t.single,
        t.base(2, Spin::NoSpin) == t.double,
        t.base(3, Spin::NoSpin) == t.triple,
        t.base(4, Spin::NoSpin) == t.quad,
        t.base(5, Spin::NoSpin) == t.penta,
        t.base(0, Spin::Full) == t.spin_zero,
        t.base(1, Spin::Full) == t.spin_single,
        t.base(2, Spin::Full) == t.spin_double,
        t.base(3, Spin::Full) == t.spin_triple,
        t.base(4, Spin::Full) == t.spin_quad,
        t.base(5, Spin::Full) == t.spin_penta,
        t.base(0, Spin::Mini) == t.spin_mini_zero,
        t.base(1, Spin::Mini) == t.spin_mini_single,
        t.base(2, Spin::Mini) == t.spin_mini_double,
        t.base(3, Spin::Mini) == t.spin_mini_triple,
        t.base(4, Spin::Mini) == t.spin_quad,
        n >= 5 ==> t.base(n + 1, Spin::NoSpin) == t.base(n, Spin::NoSpin) + 1,
        n >= 5 ==> t.base(n + 1, Spin::Full) == t.base(n, Spin::Full) + 2,
        n >= 4 ==> t.base(n + 1, Spin::Mini) == t.base(n, Spin::Mini) + 2,
{
}

/// The attack table of the current competitive season.
pub fn season_2_table() -> (t: AttackTable)
    ensures
        t.single == 0 && t.double == 1 && t.triple == 2 && t.quad == 4 && t.penta == 5,
        t.spin_mini_zero == 0 && t.spin_zero == 0 && t.spin_mini_single == 0 && t.spin_single == 2,
        t.spin_mini_double == 1 && t.spin_double == 4 && t.spin_mini_triple == 2 && t.spin_triple
            == 6,
        t.spin_quad == 10 && t.spin_penta == 12,
{
    AttackTable {
        single: 0,
        double: 1,
        triple: 2,
        quad: 4,
        penta: 5,
        spin_mini_zero: 0,
        spin_zero: 0,
        spin_mini_single: 0,
        spin_single: 2,
        spin_mini_double: 1,
        spin_double: 4,
        spin_mini_triple: 2,
        spin_triple: 6,
        spin_quad: 10,
        spin_penta: 12,
    }
}

} // verus!
