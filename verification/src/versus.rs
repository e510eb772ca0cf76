//! Matches between two players: who won, the search settings, and how the
//! garbage both sides send after a turn is settled between them.

use vstd::prelude::*;

verus! {

/// The winner of a match.
#[derive(Debug, Clone, Copy, PartialEq, Eq, Structural)]
pub enum MatchResult {
    Left,
    Right,
}

/// Search settings shared by both players of a match.
#[derive(Debug, Clone, Copy, PartialEq, Eq, Structural)]
pub struct GlobalConfig {
    /// How many pieces ahead the search looks.
    pub depth: usize,
    /// How many states the search keeps at each depth.
    pub width: usize,
    /// A time limit per move in milliseconds, if any.
    pub target_ms: Option<u64>,
}

/// The garbage each side receives after a turn in which the left player
/// sent `left` lines and the right player `right`: the attacks cancel,
/// and the larger one sends the difference to the other side. Gives the
/// lines for the left side and for the right side.
pub fn garbage_exchange(left: u32, right: u32) -> (r: (u32, u32))
    ensures
        left > right ==> r == (0u32, (left - right) as u32),
        right > left ==> r == ((right - left) as u32, 0u32),
        left == right ==> r == (0u32, 0u32),
{
    if left > right {
        (0, left - right)
    } else if right > left {
        (right - left, 0)
    } else {
        (0, 0)
    }
}

/// The result of a turn after which the left or right side may be unable
/// to spawn its next piece: the left side losing first, then the right.
pub fn turn_result(left_blocked: bool, right_blocked: bool) -> (r: Option<MatchResult>)
    ensures
        left_blocked ==> r == Some(MatchResult::Right),
        !left_blocked && right_blocked ==> r == Some(MatchResult::Left),
        !left_blocked && !right_blocked ==> r is None,
{
    if left_blocked {
        Some(MatchResult::Right)
    } else if right_blocked {
        Some(MatchResult::Left)
    } else {
        None
    }
}

} // verus!
