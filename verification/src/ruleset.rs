//! Active gameplay rules and combo table kinds.

use vstd::prelude::*;

verus! {

/// Switches of the active ruleset.
#[derive(Copy, Clone, Debug, PartialEq, Eq, Structural)]
pub struct Rules {
    /// 180-degree rotations are enabled.
    pub enable_180: bool,
    /// T-spins are recognized.
    pub enable_tspin: bool,
    /// Spins of every piece are recognized.
    pub enable_allspin: bool,
    /// The SRS+ kick table is used.
    pub srs_plus: bool,
    /// Row on which new pieces spawn.
    pub spawn_row: i32,
}

/// The rules currently in force.
pub fn active_rules() -> (r: Rules)
    ensures
        r == (Rules {
            enable_180: true,
            enable_tspin: true,
            enable_allspin: false,
            srs_plus: true,
            spawn_row: 21,
        }),
{
    Rules { enable_180: true, enable_tspin: true, enable_allspin: false, srs_plus: true, spawn_row: 21 }
}

/// How consecutive clears add to the attack.
#[derive(Debug, Clone, Copy, PartialEq, Eq, Structural)]
pub enum ComboTable {
    /// A multiplier that grows with the combo.
    Multiplier,
    /// The classic sequential table.
    Classic,
    /// The modern sequential table.
    Modern,
    /// No combo bonus.
    NoBonus,
}

/// The classic sequential combo table.
pub open spec fn classic_combo(i: int) -> int {
    seq![0int, 1, 1, 2, 2, 3, 3, 4, 4, 4, 5][i]
}

/// The modern sequential combo table.
pub open spec fn modern_combo(i: int) -> int {
    seq![0int, 1, 1, 2, 2, 2, 3, 3, 3, 3, 3, 3, 4][i]
}

/// The lines a combo of `combo` clears adds under a sequential table: none
/// below a combo of two; otherwise the table entry at `combo - 2`, the last
/// entry past the end. The multiplier table scales the attack instead, so it
/// has no added lines (`None`).
pub open spec fn combo_added(combo: int, table: ComboTable) -> Option<int> {
    if combo <= 1 {
        Some(0)
    } else {
        match table {
            ComboTable::Multiplier => None,
            ComboTable::Classic => Some(classic_combo(if combo - 2 < 10 { combo - 2 } else { 10 })),
            ComboTable::Modern => Some(modern_combo(if combo - 2 < 12 { combo - 2 } else { 12 })),
            ComboTable::NoBonus => Some(0),
        }
    }
}

/// Looks up the lines a combo adds under a sequential combo table; `None`
/// for the multiplier table, whose bonus scales the attack.
pub fn combo_table_bonus(combo: u8, table: ComboTable) -> (r: Option<u8>)
    ensures
        r matches Some(v) ==> combo_added(combo as int, table) == Some(v as int),
        r is None <==> combo_added(combo as int, table) is None,
{
    if combo <= 1 {
        return Some(0);
    }
    let classic: [u8; 11] = [0, 1, 1, 2, 2, 3, 3, 4, 4, 4, 5];
    let modern: [u8; 13] = [0, 1, 1, 2, 2, 2, 3, 3, 3, 3, 3, 3, 4];
    match table {
        ComboTable::Multiplier => None,
        ComboTable::Classic => {
            let i = if (combo as usize) - 2 < 10 { (combo as usize) - 2 } else { 10 };
            Some(classic[i])
        },
        ComboTable::Modern => {
            let i = if (combo as usize) - 2 < 12 { (combo as usize) - 2 } else { 12 };
            Some(modern[i])
        },
        ComboTable::NoBonus => Some(0),
    }
}

} // verus!
