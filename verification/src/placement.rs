//! Concrete piece placements packed into 17 bits.
//!
//! A move holds `piece` (3 bits), `x` (4 bits), `y` (6 bits),
//! `rotation` (2 bits) and `spin` (2 bits), from the least significant bit up.

use vstd::prelude::*;
use crate::data::{cells_of, lemma_cells_small, rot_cell, rot_cell_of};
use crate::piece::{Piece, base_cells_of, canonical_offset_of, canonical_rotation_of, groups_of, piece_index, piece_of};
use crate::rotation::{Rotation, rot_index, rot_of};
use crate::spin::{Spin, spin_index};
use crate::piece::piece_name;
use crate::text::{decimal, decimal_string};
use vstd::string::StringExecFns;

verus! {

/// A single location and rotation of a piece.
#[derive(Clone, Copy, PartialEq, Eq, Hash, Debug, Structural)]
pub struct Move(u32);

/// The spin stored in a two-bit field; the unused value 3 reads as no spin.
pub open spec fn spin_of(v: int) -> Spin {
    if v == 1 {
        Spin::Mini
    } else if v == 2 {
        Spin::Full
    } else {
        Spin::NoSpin
    }
}

/// Packing five fields and reading them back.
proof fn lemma_pack(p: u32, x: u32, y: u32, r: u32, s: u32)
    requires
        p < 8,
        x < 16,
        y < 64,
        r < 4,
        s < 4,
    ensures
        ({
            let raw = p | (x << 3u32) | (y << 7u32) | (r << 13u32) | (s << 15u32);
            &&& raw & 7 == p
            &&& (raw >> 3u32) & 15 == x
            &&& (raw >> 7u32) & 63 == y
            &&& (raw >> 13u32) & 3 == r
            &&& (raw >> 15u32) & 3 == s
        }),
{
    assert({
        let raw = p | (x << 3u32) | (y << 7u32) | (r << 13u32) | (s << 15u32);
        &&& raw & 7 == p
        &&& (raw >> 3u32) & 15 == x
        &&& (raw >> 7u32) & 63 == y
        &&& (raw >> 13u32) & 3 == r
        &&& (raw >> 15u32) & 3 == s
    }) by (bit_vector)
        requires
            p < 8,
            x < 16,
            y < 64,
            r < 4,
            s < 4,
    ;
}

/// Masked fields stay within their widths.
proof fn lemma_field_bounds(w: u32)
    ensures
        (w >> 7u32) & 63 < 64,
        (w >> 13u32) & 3 < 4,
        (w >> 15u32) & 3 < 4,
        w & 7 < 8,
        (w >> 3u32) & 15 < 16,
        w == 0 ==> w & 7 == 0 && (w >> 3u32) & 15 == 0 && (w >> 7u32) & 63 == 0 && (w >> 13u32) & 3
            == 0 && (w >> 15u32) & 3 == 0,
{
    assert((w >> 7u32) & 63 < 64 && (w >> 13u32) & 3 < 4 && (w >> 15u32) & 3 < 4 && w & 7 < 8 && (w
        >> 3u32) & 15 < 16 && (w == 0 ==> w & 7 == 0 && (w >> 3u32) & 15 == 0 && (w >> 7u32) & 63
        == 0 && (w >> 13u32) & 3 == 0 && (w >> 15u32) & 3 == 0)) by (bit_vector);
}

/// Whether a packed word holds a move: a piece number below seven and a
/// column below ten.
pub open spec fn valid_word(w: u32) -> bool {
    &&& w & 7 < 7
    &&& (w >> 3u32) & 15 < 10
}

impl Move {
    /// The packed word.
    pub closed spec fn word(self) -> u32 {
        self.0
    }

    #[verifier::type_invariant]
    spec fn inv(self) -> bool {
        &&& self.0 & 7 < 7
        &&& (self.0 >> 3u32) & 15 < 10
    }

    /// The piece field.
    pub closed spec fn piece_spec(self) -> Piece {
        piece_of((self.0 & 7) as int).unwrap()
    }

    /// The column field.
    pub closed spec fn x_spec(self) -> int {
        ((self.0 >> 3u32) & 15) as int
    }

    /// The row field.
    pub closed spec fn y_spec(self) -> int {
        ((self.0 >> 7u32) & 63) as int
    }

    /// The rotation field.
    pub closed spec fn rotation_spec(self) -> Rotation {
        rot_of(((self.0 >> 13u32) & 3) as int)
    }

    /// The spin field.
    pub closed spec fn spin_spec(self) -> Spin {
        spin_of(((self.0 >> 15u32) & 3) as int)
    }

    /// The four cells the placement occupies: the origin, then the three
    /// rotated offsets of the piece.
    pub open spec fn cells_spec(self) -> Seq<(int, int)> {
        let c = cells_of(self.piece_spec(), rot_index(self.rotation_spec()));
        seq![
            (self.x_spec(), self.y_spec()),
            (self.x_spec() + c[0].0, self.y_spec() + c[0].1),
            (self.x_spec() + c[1].0, self.y_spec() + c[1].1),
            (self.x_spec() + c[2].0, self.y_spec() + c[2].1),
        ]
    }

    /// Returns a null move: a T piece at the origin, facing north, with no
    /// spin.
    pub fn null() -> (m: Self)
        ensures
            m.word() == 0,
            m.piece_spec() == Piece::T,
            m.x_spec() == 0,
            m.y_spec() == 0,
            m.rotation_spec() == Rotation::North,
            m.spin_spec() == Spin::NoSpin,
    {
        proof {
            lemma_field_bounds(0);
        }
        Self(0)
    }

    /// Returns the raw 32-bit representation of the move.
    pub fn raw(self) -> (r: u32)
        ensures
            r == self.word(),
    {
        self.0
    }

    /// Creates a move from its packed word, which must hold a piece and
    /// a column in range.
    pub fn from_raw(raw: u32) -> (m: Self)
        requires
            valid_word(raw),
        ensures
            m.word() == raw,
    {
        Move(raw)
    }

    /// Creates a new move from its fields.
    pub fn new(piece: Piece, x: i32, y: i32, rotation: Rotation, spin: Spin) -> (m: Self)
        requires
            0 <= x < 10,
            0 <= y < 64,
        ensures
            m.word() == piece_index(piece) + 8 * x + 128 * y + 8192 * rot_index(rotation) + 32768
                * spin_index(spin),
            m.piece_spec() == piece,
            m.x_spec() == x,
            m.y_spec() == y,
            m.rotation_spec() == rotation,
            m.spin_spec() == spin,
    {
        let p = piece.index() as u32;
        let r = rotation.index() as u32;
        let s = spin.index() as u32;
        let xu = x as u32;
        let yu = y as u32;
        let raw = p | (xu << 3) | (yu << 7) | (r << 13) | (s << 15);
        proof {
            lemma_pack(p, xu, yu, r, s);
            assert(p | (xu << 3u32) | (yu << 7u32) | (r << 13u32) | (s << 15u32) == p + 8 * xu
                + 128 * yu + 8192 * r + 32768 * s) by (bit_vector)
                requires
                    p < 8,
                    xu < 16,
                    yu < 64,
                    r < 4,
                    s < 4,
            ;
        }
        Self(raw)
    }

    /// Decodes the piece field.
    pub fn piece(self) -> (p: Piece)
        ensures
            p == self.piece_spec(),
    {
        proof {
            use_type_invariant(self);
        }
        let w = (self.0 & 7) as u8;
        match Piece::from_u8(w) {
            Some(p) => p,
            None => Piece::T,
        }
    }

    /// Decodes the column field.
    pub fn x(self) -> (r: i32)
        ensures
            r == self.x_spec(),
            0 <= r < 10,
    {
        proof {
            use_type_invariant(self);
        }
        ((self.0 >> 3) & 15) as i32
    }

    /// Decodes the row field.
    pub fn y(self) -> (r: i32)
        ensures
            r == self.y_spec(),
            0 <= r < 64,
    {
        proof {
            lemma_field_bounds(self.0);
        }
        ((self.0 >> 7) & 63) as i32
    }

    /// Decodes the rotation field.
    pub fn rotation(self) -> (r: Rotation)
        ensures
            r == self.rotation_spec(),
    {
        proof {
            lemma_field_bounds(self.0);
        }
        Rotation::from_u8(((self.0 >> 13) & 3) as u8)
    }

    /// Decodes the spin field; the unused value 3 reads as no spin.
    pub fn spin(self) -> (r: Spin)
        ensures
            r == self.spin_spec(),
    {
        proof {
            lemma_field_bounds(self.0);
        }
        let val = ((self.0 >> 15) & 3) as u8;
        match val {
            1 => Spin::Mini,
            2 => Spin::Full,
            _ => Spin::NoSpin,
        }
    }

    /// Returns the four absolute cells this placement would occupy. These
    /// cells are not guaranteed to lie on the board.
    pub fn cells(self) -> (out: [(i32, i32); 4])
        ensures
            forall|i: int| 0 <= i < 4 ==> (#[trigger] out@[i].0 as int, out@[i].1 as int) == self.cells_spec()[i],
    {
        let p = self.piece();
        let r = self.rotation().index() as usize;
        let x = self.x();
        let y = self.y();
        let base = p.base_cells();
        let rotated = [rot_cell(base[0], r), rot_cell(base[1], r), rot_cell(base[2], r)];
        proof {
            lemma_cells_small(p, r as int, 0);
            lemma_cells_small(p, r as int, 1);
            lemma_cells_small(p, r as int, 2);
        }
        [
            (x, y),
            (x + rotated[0].0 as i32, y + rotated[0].1 as i32),
            (x + rotated[1].0 as i32, y + rotated[1].1 as i32),
            (x + rotated[2].0 as i32, y + rotated[2].1 as i32),
        ]
    }
}


impl Move {
    /// Whether this move is already in canonical form.
    pub open spec fn is_canonical(self) -> bool {
        groups_of(self.piece_spec()) == 4 || self.rotation_spec() == canonical_rotation_of(
            self.piece_spec(),
            self.rotation_spec(),
        )
    }

    /// Returns the canonical form of this move: symmetric pieces turned to
    /// their canonical rotation and moved so that they cover the same cells.
    pub fn canonicalize(self) -> (m: Self)
        requires
            !self.is_canonical() ==> ({
                let o = canonical_offset_of(self.piece_spec(), self.rotation_spec());
                &&& 0 <= self.x_spec() - o.0
                &&& 0 <= self.y_spec() - o.1 < 64
            }),
        ensures
            self.is_canonical() ==> m == self,
            !self.is_canonical() ==> ({
                let o = canonical_offset_of(self.piece_spec(), self.rotation_spec());
                &&& m.piece_spec() == self.piece_spec()
                &&& m.x_spec() == self.x_spec() - o.0
                &&& m.y_spec() == self.y_spec() - o.1
                &&& m.rotation_spec() == canonical_rotation_of(self.piece_spec(), self.rotation_spec())
                &&& m.spin_spec() == self.spin_spec()
            }),
    {
        let p = self.piece();
        let r = self.rotation();
        let cr = p.canonical_rotation(r);
        if p.group4() || r == cr {
            self
        } else {
            let (dx, dy) = p.canonical_offset(r);
            Self::new(p, self.x() - dx, self.y() - dy, cr, self.spin())
        }
    }
}

/// The cells of a placement made of piece `p`, rotation `r`, at `(x, y)`.
pub open spec fn placed_cells(p: Piece, r: Rotation, x: int, y: int) -> Seq<(int, int)> {
    let c = cells_of(p, rot_index(r));
    seq![(x, y), (x + c[0].0, y + c[0].1), (x + c[1].0, y + c[1].1), (x + c[2].0, y + c[2].1)]
}

/// Every entry of each four-element sequence occurs in the other.
pub open spec fn same_four(a: Seq<(int, int)>, b: Seq<(int, int)>) -> bool {
    &&& a[0] == b[0] || a[0] == b[1] || a[0] == b[2] || a[0] == b[3]
    &&& a[1] == b[0] || a[1] == b[1] || a[1] == b[2] || a[1] == b[3]
    &&& a[2] == b[0] || a[2] == b[1] || a[2] == b[2] || a[2] == b[3]
    &&& a[3] == b[0] || a[3] == b[1] || a[3] == b[2] || a[3] == b[3]
    &&& b[0] == a[0] || b[0] == a[1] || b[0] == a[2] || b[0] == a[3]
    &&& b[1] == a[0] || b[1] == a[1] || b[1] == a[2] || b[1] == a[3]
    &&& b[2] == a[0] || b[2] == a[1] || b[2] == a[2] || b[2] == a[3]
    &&& b[3] == a[0] || b[3] == a[1] || b[3] == a[2] || b[3] == a[3]
}

/// Canonicalizing a placement does not change the cells it covers.
pub proof fn law_canonical_same_cells(p: Piece, r: Rotation, x: int, y: int)
    ensures
        ({
            let cr = canonical_rotation_of(p, r);
            let o = canonical_offset_of(p, r);
            placed_cells(p, r, x, y).to_set() == placed_cells(p, cr, x - o.0, y - o.1).to_set()
        }),
{
    let cr = canonical_rotation_of(p, r);
    let o = canonical_offset_of(p, r);
    let a = placed_cells(p, r, x, y);
    let b = placed_cells(p, cr, x - o.0, y - o.1);
    assert(a.len() == 4 && b.len() == 4);
    match p {
        Piece::T => {
            match r {
                Rotation::North => assert(same_four(a, b)),
                Rotation::East => assert(same_four(a, b)),
                Rotation::South => assert(same_four(a, b)),
                Rotation::West => assert(same_four(a, b)),
            }
        },
        Piece::I => {
            match r {
                Rotation::North => assert(same_four(a, b)),
                Rotation::East => assert(same_four(a, b)),
                Rotation::South => assert(same_four(a, b)),
                Rotation::West => assert(same_four(a, b)),
            }
        },
        Piece::J => {
            match r {
                Rotation::North => assert(same_four(a, b)),
                Rotation::East => assert(same_four(a, b)),
                Rotation::South => assert(same_four(a, b)),
                Rotation::West => assert(same_four(a, b)),
            }
        },
        Piece::L => {
            match r {
                Rotation::North => assert(same_four(a, b)),
                Rotation::East => assert(same_four(a, b)),
                Rotation::South => assert(same_four(a, b)),
                Rotation::West => assert(same_four(a, b)),
            }
        },
        Piece::O => {
            match r {
                Rotation::North => assert(same_four(a, b)),
                Rotation::East => assert(same_four(a, b)),
                Rotation::South => assert(same_four(a, b)),
                Rotation::West => assert(same_four(a, b)),
            }
        },
        Piece::S => {
            match r {
                Rotation::North => assert(same_four(a, b)),
                Rotation::East => assert(same_four(a, b)),
                Rotation::South => assert(same_four(a, b)),
                Rotation::West => assert(same_four(a, b)),
            }
        },
        Piece::Z => {
            match r {
                Rotation::North => assert(same_four(a, b)),
                Rotation::East => assert(same_four(a, b)),
                Rotation::South => assert(same_four(a, b)),
                Rotation::West => assert(same_four(a, b)),
            }
        },
    }
    assert forall|c: (int, int)| a.contains(c) <==> b.contains(c) by {
        if a.contains(c) {
            let i = choose|i: int| 0 <= i < 4 && a[i] == c;
            assert(i == 0 || i == 1 || i == 2 || i == 3);
        }
        if b.contains(c) {
            let i = choose|i: int| 0 <= i < 4 && b[i] == c;
            assert(i == 0 || i == 1 || i == 2 || i == 3);
        }
    }
    assert(a.to_set() =~= b.to_set());
}

/// The cells of a move are the cells of its piece, rotation and position.
pub proof fn lemma_cells_spec(m: Move)
    ensures
        m.cells_spec() == placed_cells(m.piece_spec(), m.rotation_spec(), m.x_spec(), m.y_spec()),
{
}

/// Building a move and reading it back gives the fields it was built from.
pub proof fn law_move_fields(m: Move, piece: Piece, x: int, y: int, rotation: Rotation, spin: Spin)
    requires
        m.word() == piece_index(piece) + 8 * x + 128 * y + 8192 * rot_index(rotation) + 32768
            * spin_index(spin),
        0 <= x < 10,
        0 <= y < 64,
    ensures
        m.piece_spec() == piece,
        m.x_spec() == x,
        m.y_spec() == y,
        m.rotation_spec() == rotation,
        m.spin_spec() == spin,
{
    let p = piece_index(piece) as u32;
    let xu = x as u32;
    let yu = y as u32;
    let r = rot_index(rotation) as u32;
    let s = spin_index(spin) as u32;
    lemma_pack(p, xu, yu, r, s);
    assert(p | (xu << 3u32) | (yu << 7u32) | (r << 13u32) | (s << 15u32) == p + 8 * xu + 128 * yu
        + 8192 * r + 32768 * s) by (bit_vector)
        requires
            p < 8,
            xu < 16,
            yu < 64,
            r < 4,
            s < 4,
    ;
}

/// Moves built from fields are equal exactly when their fields are: the
/// packing loses nothing.
pub proof fn law_move_new_injective(
    a: Move,
    b: Move,
    p1: Piece,
    x1: int,
    y1: int,
    r1: Rotation,
    s1: Spin,
    p2: Piece,
    x2: int,
    y2: int,
    r2: Rotation,
    s2: Spin,
)
    requires
        a.word() == piece_index(p1) + 8 * x1 + 128 * y1 + 8192 * rot_index(r1) + 32768 * spin_index(s1),
        b.word() == piece_index(p2) + 8 * x2 + 128 * y2 + 8192 * rot_index(r2) + 32768 * spin_index(s2),
        0 <= x1 < 10,
        0 <= y1 < 64,
        0 <= x2 < 10,
        0 <= y2 < 64,
    ensures
        (a == b) <==> (p1 == p2 && x1 == x2 && y1 == y2 && r1 == r2 && s1 == s2),
{
    law_move_fields(a, p1, x1, y1, r1, s1);
    law_move_fields(b, p2, x2, y2, r2, s2);
    if p1 == p2 && x1 == x2 && y1 == y2 && r1 == r2 && s1 == s2 {
        assert(a.0 == b.0);
    }
}

/// A move built from its fields fits in seventeen bits.
pub proof fn law_move_fits_17_bits(piece: Piece, x: int, y: int, rotation: Rotation, spin: Spin)
    requires
        0 <= x < 10,
        0 <= y < 64,
    ensures
        0 <= piece_index(piece) + 8 * x + 128 * y + 8192 * rot_index(rotation) + 32768 * spin_index(spin) < 0x2_0000,
{
}

/// The letter of a rotation in a move's text.
pub open spec fn rotation_letter(r: Rotation) -> Seq<char> {
    match r {
        Rotation::North => "N"@,
        Rotation::East => "E"@,
        Rotation::South => "S"@,
        Rotation::West => "W"@,
    }
}

/// The letter of a spin in a move's text.
pub open spec fn spin_letter(s: Spin) -> Seq<char> {
    match s {
        Spin::NoSpin => "n"@,
        Spin::Mini => "m"@,
        Spin::Full => "f"@,
    }
}

/// A move as text: piece, column, `:`, row, rotation letter and spin
/// letter, such as `T4:3Nn`.
pub open spec fn move_text(m: Move) -> Seq<char> {
    piece_name(m.piece_spec()) + decimal(m.x_spec() as nat) + ":"@ + decimal(m.y_spec() as nat)
        + rotation_letter(m.rotation_spec()) + spin_letter(m.spin_spec())
}

impl Move {
    /// The move as text, such as `T4:3Nn`.
    pub fn text(self) -> (s: String)
        ensures
            s@ == move_text(self),
    {
        let mut s = String::from_str(self.piece().name());
        let x = decimal_string(self.x() as u32);
        s.append(x.as_str());
        s.append(":");
        let y = decimal_string(self.y() as u32);
        s.append(y.as_str());
        s.append(match self.rotation() {
            Rotation::North => "N",
            Rotation::East => "E",
            Rotation::South => "S",
            Rotation::West => "W",
        });
        s.append(match self.spin() {
            Spin::NoSpin => "n",
            Spin::Mini => "m",
            Spin::Full => "f",
        });
        s
    }
}

} // verus!
