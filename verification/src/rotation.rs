//! Rotation states and orientation transforms.

use vstd::prelude::*;

verus! {

/// Cardinal orientation for piece geometry.
#[derive(Debug, Clone, Copy, PartialEq, Eq, Hash, Structural)]
pub enum Rotation {
    /// Spawn orientation.
    North,
    /// 90-degree clockwise from spawn.
    East,
    /// 180-degree rotation from spawn.
    South,
    /// 90-degree counterclockwise from spawn.
    West,
}

/// Number of rotation states.
pub const ROTATION_NB: usize = 4;

/// The quarter-turn count of a rotation, clockwise from North.
pub open spec fn rot_index(r: Rotation) -> int {
    match r {
        Rotation::North => 0,
        Rotation::East => 1,
        Rotation::South => 2,
        Rotation::West => 3,
    }
}

/// The rotation reached after `k` clockwise quarter turns from North.
pub open spec fn rot_of(k: int) -> Rotation {
    let m = k % 4;
    if m == 0 {
        Rotation::North
    } else if m == 1 {
        Rotation::East
    } else if m == 2 {
        Rotation::South
    } else {
        Rotation::West
    }
}

/// The rotation reached from `r` after `k` clockwise quarter turns.
pub open spec fn turn(r: Rotation, k: int) -> Rotation {
    rot_of(rot_index(r) + k)
}

impl Rotation {
    /// All rotation states in index order.
    pub fn all() -> (r: [Rotation; 4])
        ensures
            forall|i: int| 0 <= i < 4 ==> rot_index(#[trigger] r@[i]) == i,
    {
        [Rotation::North, Rotation::East, Rotation::South, Rotation::West]
    }

    /// Returns the quarter-turn count of this rotation.
    pub fn index(self) -> (r: u8)
        ensures
            r as int == rot_index(self),
    {
        match self {
            Rotation::North => 0,
            Rotation::East => 1,
            Rotation::South => 2,
            Rotation::West => 3,
        }
    }

    /// Returns the clockwise successor rotation.
    pub fn cw(self) -> (r: Self)
        ensures
            r == turn(self, 1),
    {
        match self {
            Rotation::North => Rotation::East,
            Rotation::East => Rotation::South,
            Rotation::South => Rotation::West,
            Rotation::West => Rotation::North,
        }
    }

    /// Returns the counterclockwise successor rotation.
    pub fn ccw(self) -> (r: Self)
        ensures
            r == turn(self, 3),
    {
        match self {
            Rotation::North => Rotation::West,
            Rotation::East => Rotation::North,
            Rotation::South => Rotation::East,
            Rotation::West => Rotation::South,
        }
    }

    /// Returns the half-turn successor rotation.
    pub fn flip(self) -> (r: Self)
        ensures
            r == turn(self, 2),
    {
        match self {
            Rotation::North => Rotation::South,
            Rotation::East => Rotation::West,
            Rotation::South => Rotation::North,
            Rotation::West => Rotation::East,
        }
    }

    /// Converts a compact integer to a rotation, wrapping the input modulo 4.
    pub fn from_u8(word: u8) -> (r: Self)
        ensures
            rot_index(r) == word % 4,
            r == rot_of(word as int),
    {
        match word % 4 {
            0 => Self::North,
            1 => Self::East,
            2 => Self::South,
            _ => Self::West,
        }
    }
}

/// A rotation is determined by its quarter-turn count, which reads back
/// the rotation it was taken from.
pub proof fn law_rotation_index(a: Rotation, b: Rotation)
    ensures
        rot_index(a) == rot_index(b) <==> a == b,
        0 <= rot_index(a) < 4,
        rot_of(rot_index(a)) == a,
{
}

/// Turning clockwise undoes turning counterclockwise and the reverse; two
/// clockwise turns make a half turn; a half turn undoes itself; four
/// clockwise turns return to the start. In general, turns compose by adding
/// their quarter-turn counts.
pub proof fn law_rotation_turns(r: Rotation, a: nat, b: nat)
    ensures
        turn(turn(r, a as int), b as int) == turn(r, (a + b) as int),
        turn(turn(r, 1), 3) == r,
        turn(turn(r, 3), 1) == r,
        turn(turn(r, 1), 1) == turn(r, 2),
        turn(turn(r, 2), 2) == r,
        turn(r, 4) == r,
{
}

} // verus!
