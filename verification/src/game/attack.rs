//! The attack a placement produces.

use vstd::prelude::*;
use crate::spin::Spin;
use crate::game::ruleset::AttackTable;

verus! {

/// How many lines a placement cleared, by name.
#[derive(Clone, Copy, Debug, PartialEq, Eq, Structural)]
pub enum Clear {
    /// No line cleared.
    NoLines,
    /// One line.
    Single,
    /// Two lines.
    Double,
    /// Three lines.
    Triple,
    /// Four lines.
    Quad,
    /// Five lines.
    Penta,
}

/// The name of a clear of `lines` lines; counts above five have no name.
pub open spec fn clear_of(lines: int) -> Clear {
    if lines == 1 {
        Clear::Single
    } else if lines == 2 {
        Clear::Double
    } else if lines == 3 {
        Clear::Triple
    } else if lines == 4 {
        Clear::Quad
    } else if lines == 5 {
        Clear::Penta
    } else {
        Clear::NoLines
    }
}

/// Names a clear of `line_clears` lines.
pub fn clear_type(line_clears: u32) -> (c: Clear)
    ensures
        c == clear_of(line_clears as int),
{
    match line_clears {
        1 => Clear::Single,
        2 => Clear::Double,
        3 => Clear::Triple,
        4 => Clear::Quad,
        5 => Clear::Penta,
        _ => Clear::NoLines,
    }
}

/// Whether a clear counts for back-to-back: any spin, or four lines or more.
pub open spec fn special(spin: Spin, line_clears: int) -> bool {
    spin != Spin::NoSpin || line_clears >= 4
}

/// The result of a placement.
#[derive(Clone, Copy, Debug, PartialEq, Eq, Structural)]
pub struct Attack {
    /// Named clear.
    pub clear_type: Clear,
    /// Spin of the placement.
    pub spin_type: Spin,
    /// Surge sent as the back-to-back chain ended, if any.
    pub surge_release: Option<u32>,
    /// Lines cleared.
    pub line_clears: u32,
    /// The board was left empty.
    pub is_perfect_clear: bool,
    /// Attack before bonuses.
    pub base_attack: u32,
    /// Total attack.
    pub total: u32,
    /// Part of the attack spent cancelling incoming garbage.
    pub canceled: u32,
    /// Back-to-back count before the placement.
    pub b2b_count: Option<u32>,
    /// Combo count before the placement.
    pub combo_count: Option<u32>,
    /// The back-to-back chain was broken.
    pub chain_broken: bool,
}

impl Attack {
    /// Total attack.
    pub fn total(&self) -> (r: u32)
        ensures
            r == self.total,
    {
        self.total
    }

    /// Attack left after cancelling incoming garbage.
    pub fn outgoing(&self) -> (r: u32)
        requires
            self.canceled <= self.total,
        ensures
            r == self.total - self.canceled,
    {
        self.total - self.canceled
    }

    /// Whether the placement cleared lines with a spin or four or more lines.
    pub fn is_special_clear(&self) -> (r: bool)
        ensures
            r == (self.line_clears > 0 && special(self.spin_type, self.line_clears as int)),
    {
        self.line_clears > 0 && (self.spin_type != Spin::NoSpin || self.line_clears >= 4)
    }
}

/// Whether a clear breaks the back-to-back chain: it is neither special
/// nor a perfect clear under a ruleset that keeps the chain on perfect
/// clears.
pub open spec fn breaks_chain(spin: Spin, line_clears: int, is_pc: bool, pc_b2b: bool) -> bool {
    !(special(spin, line_clears) || (is_pc && pc_b2b))
}

/// A clear that is not a perfect clear keeps the back-to-back chain
/// exactly when it is special: a spin, or four lines or more.
pub proof fn law_special_keeps_chain(spin: Spin, line_clears: int, pc_b2b: bool)
    requires
        line_clears > 0,
    ensures
        !breaks_chain(spin, line_clears, false, pc_b2b) == special(spin, line_clears),
        special(spin, line_clears) == (spin != Spin::NoSpin || line_clears >= 4),
{
}

/// The surge charge released as a chain breaks, before the garbage
/// multiplier: with charging on, a broken chain whose count before the
/// clear reached the charging start releases its count past the start,
/// plus the back-to-back bonus, plus one.
pub open spec fn surge_of(charging: bool, chain_broken: bool, pre_b2b: Option<u32>, start: u32, bonus: u32) -> Option<int> {
    match pre_b2b {
        Some(b) => if charging && chain_broken && b + 1 > start {
            Some(b - start + bonus + 1)
        } else {
            None
        },
        None => None,
    }
}

/// Computes the surge charge released by a clear, if any.
pub fn surge_charge(charging: bool, chain_broken: bool, pre_b2b: Option<u32>, start: u32, bonus: u32) -> (r: Option<u32>)
    requires
        surge_of(charging, chain_broken, pre_b2b, start, bonus) matches Some(v) ==> v <= u32::MAX,
    ensures
        r matches Some(v) ==> surge_of(charging, chain_broken, pre_b2b, start, bonus) == Some(v as int),
        r is None ==> surge_of(charging, chain_broken, pre_b2b, start, bonus) is None,
{
    if !charging || !chain_broken {
        return None;
    }
    match pre_b2b {
        Some(b) => if b >= start {
            Some(b - start + bonus + 1)
        } else {
            None
        },
        None => None,
    }
}

/// The garbage events of a clear after the multiplier, in whole lines: the
/// main event (base attack with back-to-back and combo bonuses), the surge
/// released, and the perfect-clear bonus.
#[derive(Clone, Copy, Debug, PartialEq, Eq, Structural)]
pub struct AttackEvents {
    pub main: u32,
    pub surge: u32,
    pub pc: u32,
}

/// Assembles the attack of a clear from its garbage events: a placement
/// that clears nothing sends nothing; otherwise the total is the sum of the
/// events, and a positive surge is reported as released. `pc_b2b` tells
/// whether perfect clears keep back-to-back; `pre_b2b` and `pre_combo` are
/// the counts before the clear.
pub fn compute_attack(
    table: &AttackTable,
    spin: Spin,
    line_clears: u32,
    is_pc: bool,
    pc_b2b: bool,
    pre_b2b: Option<u32>,
    pre_combo: Option<u32>,
    canceled: u32,
    events: AttackEvents,
) -> (a: Attack)
    requires
        table.base(line_clears as int, spin) <= u32::MAX,
        events.main + events.surge + events.pc <= u32::MAX,
    ensures
        a.clear_type == clear_of(line_clears as int),
        a.spin_type == spin,
        a.line_clears == line_clears,
        a.canceled == canceled,
        a.b2b_count == pre_b2b,
        a.combo_count == pre_combo,
        a.chain_broken == breaks_chain(spin, line_clears as int, is_pc, pc_b2b),
        line_clears == 0 ==> a.surge_release is None && !a.is_perfect_clear && a.base_attack == 0
            && a.total == 0,
        line_clears > 0 ==> {
            &&& a.is_perfect_clear == is_pc
            &&& a.base_attack == table.base(line_clears as int, spin)
            &&& a.total == events.main + events.surge + events.pc
            &&& a.surge_release == (if events.surge > 0 { Some(events.surge) } else { None })
        },
{
    let clear = clear_type(line_clears);
    let is_special_clear = spin != Spin::NoSpin || line_clears >= 4;
    let chain_broken = !(is_special_clear || is_pc && pc_b2b);
    if line_clears == 0 {
        return Attack {
            clear_type: clear,
            spin_type: spin,
            surge_release: None,
            line_clears: 0,
            is_perfect_clear: false,
            base_attack: 0,
            total: 0,
            canceled,
            b2b_count: pre_b2b,
            combo_count: pre_combo,
            chain_broken,
        };
    }
    Attack {
        clear_type: clear,
        spin_type: spin,
        surge_release: if events.surge > 0 { Some(events.surge) } else { None },
        line_clears,
        is_perfect_clear: is_pc,
        base_attack: table.base_attack(line_clears, spin),
        total: events.main + events.surge + events.pc,
        canceled,
        b2b_count: pre_b2b,
        combo_count: pre_combo,
        chain_broken,
    }
}

} // verus!
