//! Pieces, their filled cells, and their rotation symmetry.

use vstd::prelude::*;
use crate::rotation::{Rotation, rot_index};

verus! {

/// A single tetromino type.
#[derive(Debug, Clone, Copy, PartialEq, Eq, Hash, Structural)]
pub enum Piece {
    T,
    I,
    J,
    L,
    O,
    S,
    Z,
}

/// Number of tetromino kinds.
pub const PIECE_NB: usize = 7;

/// The canonical index of a piece.
pub open spec fn piece_index(p: Piece) -> int {
    match p {
        Piece::T => 0,
        Piece::I => 1,
        Piece::J => 2,
        Piece::L => 3,
        Piece::O => 4,
        Piece::S => 5,
        Piece::Z => 6,
    }
}

/// The piece with canonical index `w`, if any.
pub open spec fn piece_of(w: int) -> Option<Piece> {
    if w == 0 {
        Some(Piece::T)
    } else if w == 1 {
        Some(Piece::I)
    } else if w == 2 {
        Some(Piece::J)
    } else if w == 3 {
        Some(Piece::L)
    } else if w == 4 {
        Some(Piece::O)
    } else if w == 5 {
        Some(Piece::S)
    } else if w == 6 {
        Some(Piece::Z)
    } else {
        None
    }
}

/// The three non-origin mino offsets of a piece in spawn orientation.
pub open spec fn base_cells_of(p: Piece) -> Seq<(i8, i8)> {
    match p {
        Piece::I => seq![(-1i8, 0i8), (1i8, 0i8), (2i8, 0i8)],
        Piece::O => seq![(1i8, 0i8), (0i8, 1i8), (1i8, 1i8)],
        Piece::T => seq![(-1i8, 0i8), (1i8, 0i8), (0i8, 1i8)],
        Piece::L => seq![(-1i8, 0i8), (1i8, 0i8), (1i8, 1i8)],
        Piece::J => seq![(-1i8, 0i8), (1i8, 0i8), (-1i8, 1i8)],
        Piece::S => seq![(-1i8, 0i8), (0i8, 1i8), (1i8, 1i8)],
        Piece::Z => seq![(-1i8, 1i8), (0i8, 1i8), (1i8, 0i8)],
    }
}

/// The one-letter name of a piece.
pub open spec fn piece_name(p: Piece) -> Seq<char> {
    match p {
        Piece::T => "T"@,
        Piece::I => "I"@,
        Piece::J => "J"@,
        Piece::L => "L"@,
        Piece::O => "O"@,
        Piece::S => "S"@,
        Piece::Z => "Z"@,
    }
}

/// The canonical representative of rotation `rot` for piece `p`.
pub open spec fn canonical_rotation_of(p: Piece, rot: Rotation) -> Rotation {
    match (p, rot) {
        (Piece::O, _) => Rotation::North,
        (Piece::I, Rotation::South) | (Piece::S, Rotation::South) | (
            Piece::Z,
            Rotation::South,
        ) => Rotation::North,
        (Piece::I, Rotation::West) | (Piece::S, Rotation::West) | (Piece::Z, Rotation::West) =>
            Rotation::East,
        _ => rot,
    }
}

/// The offset between rotation `r` and its canonical representative.
pub open spec fn canonical_offset_of(p: Piece, r: Rotation) -> (int, int) {
    match (p, r) {
        (Piece::I, Rotation::West) => (0, -1),
        (Piece::S, Rotation::South) | (Piece::Z, Rotation::South) | (Piece::O, Rotation::East) => (0, 1),
        (Piece::I, Rotation::South) | (Piece::S, Rotation::West) | (Piece::Z, Rotation::West) | (
            Piece::O,
            Rotation::West,
        ) => (1, 0),
        (Piece::O, Rotation::South) => (1, 1),
        _ => (0, 0),
    }
}

/// The number of distinct orientations of a piece.
pub open spec fn groups_of(p: Piece) -> int {
    match p {
        Piece::O => 1,
        Piece::I | Piece::S | Piece::Z => 2,
        _ => 4,
    }
}

impl Piece {
    /// All tetromino kinds in canonical index order.
    pub fn all() -> (r: [Piece; 7])
        ensures
            forall|i: int| 0 <= i < 7 ==> piece_index(#[trigger] r@[i]) == i,
    {
        [Piece::T, Piece::I, Piece::J, Piece::L, Piece::O, Piece::S, Piece::Z]
    }

    /// Returns the canonical index of this piece.
    pub fn index(self) -> (r: u8)
        ensures
            r as int == piece_index(self),
            r < 7,
    {
        match self {
            Piece::T => 0,
            Piece::I => 1,
            Piece::J => 2,
            Piece::L => 3,
            Piece::O => 4,
            Piece::S => 5,
            Piece::Z => 6,
        }
    }

    /// Converts a compact integer to a piece, returning `None` when out of range.
    pub fn from_u8(word: u8) -> (r: Option<Self>)
        ensures
            r == piece_of(word as int),
            r is Some <==> word < 7,
            r matches Some(p) ==> piece_index(p) == word,
    {
        match word {
            0 => Some(Piece::T),
            1 => Some(Piece::I),
            2 => Some(Piece::J),
            3 => Some(Piece::L),
            4 => Some(Piece::O),
            5 => Some(Piece::S),
            6 => Some(Piece::Z),
            _ => None,
        }
    }

    /// Three non-origin mino offsets for the spawn orientation.
    pub fn base_cells(self) -> (r: [(i8, i8); 3])
        ensures
            r@ == base_cells_of(self),
    {
        let r = match self {
            Piece::I => [(-1i8, 0i8), (1, 0), (2, 0)],
            Piece::O => [(1, 0), (0, 1), (1, 1)],
            Piece::T => [(-1, 0), (1, 0), (0, 1)],
            Piece::L => [(-1, 0), (1, 0), (1, 1)],
            Piece::J => [(-1, 0), (1, 0), (-1, 1)],
            Piece::S => [(-1, 0), (0, 1), (1, 1)],
            Piece::Z => [(-1, 1), (0, 1), (1, 0)],
        };
        assert(r@ =~= base_cells_of(self));
        r
    }

    /// Maps an arbitrary rotation to its canonical representative, if this
    /// piece has symmetry.
    pub fn canonical_rotation(self, rot: Rotation) -> (r: Rotation)
        ensures
            r == canonical_rotation_of(self, rot),
    {
        match (self, rot) {
            (Piece::O, _) => Rotation::North,
            (Piece::I, Rotation::South) | (Piece::S, Rotation::South) | (
                Piece::Z,
                Rotation::South,
            ) => Rotation::North,
            (Piece::I, Rotation::West) | (Piece::S, Rotation::West) | (Piece::Z, Rotation::West) =>
                Rotation::East,
            _ => rot,
        }
    }

    /// Returns `true` for pieces with 90-degree rotational symmetry.
    pub fn group1(self) -> (r: bool)
        ensures
            r <==> groups_of(self) == 1,
    {
        matches!(self, Piece::O)
    }

    /// Returns `true` for pieces with 180-degree rotational symmetry.
    pub fn group2(self) -> (r: bool)
        ensures
            r <==> groups_of(self) == 2,
    {
        matches!(self, Piece::I | Piece::S | Piece::Z)
    }

    /// Returns `true` for pieces with no rotational symmetries.
    pub fn group4(self) -> (r: bool)
        ensures
            r <==> groups_of(self) == 4,
    {
        matches!(self, Piece::T | Piece::J | Piece::L)
    }

    /// Returns the number of canonical rotations for this piece.
    pub fn groups(self) -> (r: usize)
        ensures
            r == groups_of(self),
    {
        match self {
            Piece::O => 1,
            Piece::I | Piece::S | Piece::Z => 2,
            Piece::T | Piece::J | Piece::L => 4,
        }
    }

    /// Returns the total search size for this piece.
    pub fn search_size(self) -> (r: usize)
        ensures
            r == if self == Piece::O { 1usize } else { 4usize },
    {
        match self {
            Piece::O => 1,
            _ => 4,
        }
    }

    /// Returns the offsets that align rotation frames with their canonical ones.
    pub fn canonical_offset(self, r: Rotation) -> (o: (i32, i32))
        ensures
            (o.0 as int, o.1 as int) == canonical_offset_of(self, r),
    {
        match (self, r) {
            (Piece::I, Rotation::West) => (0, -1),
            (Piece::S, Rotation::South) | (Piece::Z, Rotation::South) | (Piece::O, Rotation::East) => (0, 1),
            (Piece::I, Rotation::South) | (Piece::S, Rotation::West) | (Piece::Z, Rotation::West) | (
                Piece::O,
                Rotation::West,
            ) => (1, 0),
            (Piece::O, Rotation::South) => (1, 1),
            _ => (0, 0),
        }
    }

    /// Spawn height adjustment used by spawn placement logic.
    pub fn h_spawn(self) -> (r: i32)
        ensures
            r == if self == Piece::I {
                2i32
            } else if self == Piece::O {
                0i32
            } else {
                1i32
            },
    {
        if matches!(self, Piece::I) {
            2
        } else if matches!(self, Piece::O) {
            0
        } else {
            1
        }
    }

    /// Placement height adjustment used by grounded placement logic.
    pub fn h_place(self) -> (r: i32)
        ensures
            r == 2 + (if self == Piece::I { 1i32 } else { 0i32 }) - (if self == Piece::O {
                1i32
            } else {
                0i32
            }),
    {
        let i: i32 = if matches!(self, Piece::I) { 1 } else { 0 };
        let o: i32 = if matches!(self, Piece::O) { 1 } else { 0 };
        2 + i - o
    }

    /// Generation height adjustment used by placement generation.
    pub fn h_gen(self) -> (r: i32)
        ensures
            r == if self == Piece::I || self == Piece::T {
                2i32
            } else if self == Piece::O {
                0i32
            } else {
                1i32
            },
    {
        if matches!(self, Piece::I | Piece::T) {
            2
        } else if matches!(self, Piece::O) {
            0
        } else {
            1
        }
    }

    /// The one-letter name of this piece.
    pub fn name(self) -> (r: &'static str)
        ensures
            r@ == piece_name(self),
    {
        match self {
            Piece::T => "T",
            Piece::I => "I",
            Piece::J => "J",
            Piece::L => "L",
            Piece::O => "O",
            Piece::S => "S",
            Piece::Z => "Z",
        }
    }
}

/// Converting a piece to its index and back gives the piece; the canonical
/// rotation of any rotation is a fixed point; the orientation groups
/// partition the pieces.
pub proof fn law_piece_roundtrip(p: Piece, r: Rotation)
    ensures
        piece_of(piece_index(p)) == Some(p),
        canonical_rotation_of(p, canonical_rotation_of(p, r)) == canonical_rotation_of(p, r),
        rot_index(canonical_rotation_of(p, r)) < groups_of(p),
        groups_of(p) == 1 || groups_of(p) == 2 || groups_of(p) == 4,
{
}

impl Piece {
    /// Reads a piece from its one-letter name.
    pub fn from_name(s: &str) -> (r: Option<Piece>)
        ensures
            r matches Some(p) ==> s@ == piece_name(p),
            r is None ==> forall|p: Piece| s@ != #[trigger] piece_name(p),
    {
        let all = Piece::all();
        let mut i: usize = 0;
        while i < 7
            invariant
                i <= 7,
                forall|k: int| 0 <= k < 7 ==> piece_index(#[trigger] all@[k]) == k,
                forall|k: int| 0 <= k < i ==> s@ != piece_name(#[trigger] all@[k]),
            decreases 7 - i,
        {
            let p = all[i];
            if crate::text::str_eq(s, p.name()) {
                return Some(p);
            }
            i += 1;
        }
        proof {
            assert forall|p: Piece| s@ != #[trigger] piece_name(p) by {
                let k = piece_index(p);
                assert(piece_index(all@[k]) == k);
                assert(all@[k] == p);
            }
        }
        None
    }
}


/// The canonical rotations of a piece.
pub open spec fn canonical_set(p: Piece) -> Set<Rotation> {
    Set::new(|c: Rotation| exists|r: Rotation| c == #[trigger] canonical_rotation_of(p, r))
}

/// A piece's group count is the number of its distinct canonical
/// rotations: one for the O piece, two for I, S and Z, four for the others.
pub proof fn law_groups_count_canonical(p: Piece)
    ensures
        canonical_set(p).finite(),
        canonical_set(p).len() == groups_of(p),
{
    let n = Rotation::North;
    let e = Rotation::East;
    let so = Rotation::South;
    let w = Rotation::West;
    assert(canonical_rotation_of(p, n) == n);
    assert(canonical_rotation_of(p, e) == e || p == Piece::O);
    assert(canonical_rotation_of(p, so) == so || p == Piece::O || p == Piece::I || p == Piece::S || p == Piece::Z);
    assert(canonical_rotation_of(p, w) == w || p == Piece::O || p == Piece::I || p == Piece::S || p == Piece::Z);
    let four = Set::<Rotation>::empty().insert(n).insert(e).insert(so).insert(w);
    let two = Set::<Rotation>::empty().insert(n).insert(e);
    let one = Set::<Rotation>::empty().insert(n);
    match p {
        Piece::O => {
            assert(canonical_set(p) =~= one);
        },
        Piece::I | Piece::S | Piece::Z => {
            assert(canonical_set(p) =~= two);
            assert(two.len() == 2);
        },
        _ => {
            assert(canonical_set(p) =~= four) by {
                assert forall|c: Rotation| four.contains(c) implies canonical_set(p).contains(c) by {
                    assert(c == canonical_rotation_of(p, c));
                }
            }
            assert(four.len() == 4);
        },
    }
}

} // verus!
