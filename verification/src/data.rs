//! Rotated cell tables and the placement masks built from them.

use vstd::prelude::*;
use crate::piece::{Piece, base_cells_of, groups_of, piece_index, piece_of};
use crate::bits::bit;

verus! {

/// A cell offset rotated by `rot` clockwise quarter turns.
pub open spec fn rot_cell_of(c: (i8, i8), rot: int) -> (int, int) {
    let m = rot % 4;
    if m == 0 {
        (c.0 as int, c.1 as int)
    } else if m == 1 {
        (c.1 as int, -c.0)
    } else if m == 2 {
        (-c.0, -c.1)
    } else {
        (-c.1, c.0 as int)
    }
}

/// The three non-origin offsets of piece `p` in rotation index `r`.
pub open spec fn cells_of(p: Piece, r: int) -> Seq<(i8, i8)> {
    Seq::new(
        3,
        |i: int|
            {
                let c = rot_cell_of(base_cells_of(p)[i], r);
                (c.0 as i8, c.1 as i8)
            },
    )
}

/// Every offset of every piece lies within two cells of the origin.
pub proof fn lemma_cells_small(p: Piece, r: int, i: int)
    requires
        0 <= i < 3,
    ensures
        -2 <= rot_cell_of(base_cells_of(p)[i], r).0 <= 2,
        -2 <= rot_cell_of(base_cells_of(p)[i], r).1 <= 2,
        cells_of(p, r)[i].0 as int == rot_cell_of(base_cells_of(p)[i], r).0,
        cells_of(p, r)[i].1 as int == rot_cell_of(base_cells_of(p)[i], r).1,
{
}

/// Rotates an `(x, y)` cell offset by a canonical quarter-turn index.
pub fn rot_cell(c: (i8, i8), rot: usize) -> (r: (i8, i8))
    requires
        rot % 4 == 1 || rot % 4 == 2 ==> c.0 != -128,
        rot % 4 == 2 || rot % 4 == 3 ==> c.1 != -128,
    ensures
        (r.0 as int, r.1 as int) == rot_cell_of(c, rot as int),
{
    match rot % 4 {
        0 => c,
        1 => (c.1, -c.0),
        2 => (-c.0, -c.1),
        _ => (-c.1, c.0),
    }
}

/// Canonical rotated cell offsets for piece `p` and rotation index `r`.
pub fn rotated_cells(p: Piece, r: usize) -> (out: [(i8, i8); 3])
    ensures
        out@ == cells_of(p, r as int),
{
    let base = p.base_cells();
    let out = [rot_cell(base[0], r), rot_cell(base[1], r), rot_cell(base[2], r)];
    assert(out@ =~= cells_of(p, r as int));
    out
}

/// The four cells of piece `p` in rotation index `rc`, origin first.
#[verifier::opaque]
pub open spec fn shape(p: Piece, rc: int) -> Seq<(int, int)> {
    let c = cells_of(p, rc);
    seq![(0int, 0int), (c[0].0 as int, c[0].1 as int), (c[1].0 as int, c[1].1 as int), (c[2].0 as int, c[2].1 as int)]
}

/// The smaller of two integers.
pub open spec fn min_int(a: int, b: int) -> int {
    if a < b {
        a
    } else {
        b
    }
}

/// The leftmost column offset of a shape (never right of the origin).
pub open spec fn shape_min_x(p: Piece, rc: int) -> int {
    let s = shape(p, rc);
    min_int(min_int(min_int(s[0].0, s[1].0), s[2].0), s[3].0)
}

/// The lowest row offset of a shape (never above the origin).
pub open spec fn shape_min_y(p: Piece, rc: int) -> int {
    let s = shape(p, rc);
    min_int(min_int(min_int(s[0].1, s[1].1), s[2].1), s[3].1)
}

/// How far a mask is shifted right so that its leftmost cell is column 0.
pub open spec fn x_bias(p: Piece, rc: int) -> int {
    -shape_min_x(p, rc)
}

/// The band of the mask relative to the origin's band: one band lower when
/// the shape reaches below the origin's band from row `yr` of it.
pub open spec fn band_offset(p: Piece, rc: int, yr: int) -> int {
    if yr + shape_min_y(p, rc) < 0 {
        -1
    } else {
        0
    }
}

/// The row of cell `i` counted from the mask's first band.
pub open spec fn mask_row(p: Piece, rc: int, yr: int, i: int) -> int {
    yr + shape(p, rc)[i].1 - 6 * band_offset(p, rc, yr)
}

/// The column of cell `i` in the mask.
pub open spec fn mask_col(p: Piece, rc: int, i: int) -> int {
    shape(p, rc)[i].0 + x_bias(p, rc)
}

/// Whether cell `i` sets bit `q` of the low (`high` false) or high mask.
pub open spec fn mask_hit(p: Piece, rc: int, yr: int, high: bool, i: int, q: int) -> bool {
    &&& (mask_row(p, rc, yr, i) >= 6) == high
    &&& q == 10 * (mask_row(p, rc, yr, i) % 6) + mask_col(p, rc, i)
}

/// The mask word built from the first `n` cells.
pub open spec fn mask_word(p: Piece, rc: int, yr: int, high: bool, n: int) -> u64
    decreases n,
{
    if n <= 0 {
        0
    } else {
        let w = mask_word(p, rc, yr, high, n - 1);
        if (mask_row(p, rc, yr, n - 1) >= 6) == high {
            w | (1u64 << ((10 * (mask_row(p, rc, yr, n - 1) % 6) + mask_col(p, rc, n - 1)) as u64))
        } else {
            w
        }
    }
}

/// Whether one of the first `n` cells sets bit `q`.
pub open spec fn mask_any(p: Piece, rc: int, yr: int, high: bool, n: int, q: int) -> bool
    decreases n,
{
    n > 0 && (mask_any(p, rc, yr, high, n - 1, q) || mask_hit(p, rc, yr, high, n - 1, q))
}

/// The place mask of piece `p` in rotation index `rc` placed at row `yr` of
/// a band: low word, high word, band offset and column bias.
pub open spec fn place_mask_of(p: Piece, rc: int, yr: int) -> (u64, u64, i8, i8) {
    (mask_word(p, rc, yr, false, 4), mask_word(p, rc, yr, true, 4), band_offset(p, rc, yr) as i8, x_bias(p, rc) as i8)
}

/// The table entry of a piece, rotation and row: the place mask for the
/// piece's distinct rotations, zeros for the others.
pub open spec fn table_entry(p: Piece, rc: int, yr: int) -> (u64, u64, i8, i8) {
    if rc < groups_of(p) {
        place_mask_of(p, rc, yr)
    } else {
        (0u64, 0u64, 0i8, 0i8)
    }
}

/// Cells, rows and columns of a mask stay small.
pub proof fn lemma_mask_ranges(p: Piece, rc: int, yr: int, i: int)
    requires
        0 <= yr < 6,
        0 <= i < 4,
    ensures
        -2 <= shape(p, rc)[i].0 <= 2,
        -2 <= shape(p, rc)[i].1 <= 2,
        0 <= x_bias(p, rc) <= 2,
        0 <= mask_col(p, rc, i) <= 4,
        0 <= mask_row(p, rc, yr, i) < 12,
        -2 <= shape_min_y(p, rc) <= 0,
{
    reveal(shape);
    lemma_cells_small(p, rc, 0);
    lemma_cells_small(p, rc, 1);
    lemma_cells_small(p, rc, 2);
}

/// The bits of a mask word are the bits its cells set.
pub proof fn lemma_mask_word(p: Piece, rc: int, yr: int, high: bool, n: int, q: int)
    requires
        0 <= yr < 6,
        0 <= n <= 4,
        0 <= q < 64,
    ensures
        bit(mask_word(p, rc, yr, high, n), q) == mask_any(p, rc, yr, high, n, q),
    decreases n,
{
    if n > 0 {
        lemma_mask_word(p, rc, yr, high, n - 1, q);
        lemma_mask_ranges(p, rc, yr, n - 1);
        let k = (10 * (mask_row(p, rc, yr, n - 1) % 6) + mask_col(p, rc, n - 1)) as u64;
        if (mask_row(p, rc, yr, n - 1) >= 6) == high {
            crate::bits::lemma_bit_or(mask_word(p, rc, yr, high, n - 1), 1u64 << k, q as u64);
            crate::bits::lemma_bit_single(k, q as u64);
        }
    } else {
        crate::bits::lemma_bits_zero(0u64);
    }
}

/// Computes the place mask of piece `p` in rotation index `rc` placed at
/// row `yr` of a band.
pub fn place_mask(p: Piece, rc: usize, yr: usize) -> (m: (u64, u64, i8, i8))
    requires
        rc < 4,
        yr < 6,
    ensures
        m == place_mask_of(p, rc as int, yr as int),
{
    let rot = rotated_cells(p, rc);
    let cells = [(0i8, 0i8), rot[0], rot[1], rot[2]];
    proof {
        reveal(shape);
        lemma_mask_ranges(p, rc as int, yr as int, 0);
        assert forall|i: int| 0 <= i < 4 implies (#[trigger] cells@[i].0 as int, cells@[i].1 as int) == shape(p, rc as int)[i] by {}
    }
    let mut dx: i32 = 0;
    let mut dy: i32 = 0;
    let mut i: usize = 0;
    while i < 4
        invariant
            i <= 4,
            forall|k: int| 0 <= k < 4 ==> (#[trigger] cells@[k].0 as int, cells@[k].1 as int) == shape(p, rc as int)[k],
            dx == (if i == 0 { 0 } else if i == 1 { min_int(0, shape(p, rc as int)[0].0) } else if i == 2 { min_int(min_int(0, shape(p, rc as int)[0].0), shape(p, rc as int)[1].0) } else if i == 3 { min_int(min_int(min_int(0, shape(p, rc as int)[0].0), shape(p, rc as int)[1].0), shape(p, rc as int)[2].0) } else { min_int(min_int(min_int(min_int(0, shape(p, rc as int)[0].0), shape(p, rc as int)[1].0), shape(p, rc as int)[2].0), shape(p, rc as int)[3].0) }),
            dy == (if i == 0 { 0 } else if i == 1 { min_int(0, shape(p, rc as int)[0].1) } else if i == 2 { min_int(min_int(0, shape(p, rc as int)[0].1), shape(p, rc as int)[1].1) } else if i == 3 { min_int(min_int(min_int(0, shape(p, rc as int)[0].1), shape(p, rc as int)[1].1), shape(p, rc as int)[2].1) } else { min_int(min_int(min_int(min_int(0, shape(p, rc as int)[0].1), shape(p, rc as int)[1].1), shape(p, rc as int)[2].1), shape(p, rc as int)[3].1) }),
        decreases 4 - i,
    {
        if (cells[i].0 as i32) < dx {
            dx = cells[i].0 as i32;
        }
        if (cells[i].1 as i32) < dy {
            dy = cells[i].1 as i32;
        }
        i += 1;
    }
    assert(dx == shape_min_x(p, rc as int));
    assert(dy == shape_min_y(p, rc as int));
    let xb = -dx;
    let boff: i32 = if yr as i32 + dy < 0 { -1 } else { 0 };
    let mut lo = 0u64;
    let mut hi = 0u64;
    let mut i: usize = 0;
    while i < 4
        invariant
            i <= 4,
            rc < 4,
            yr < 6,
            forall|k: int| 0 <= k < 4 ==> (#[trigger] cells@[k].0 as int, cells@[k].1 as int) == shape(p, rc as int)[k],
            xb == x_bias(p, rc as int),
            boff == band_offset(p, rc as int, yr as int),
            lo == mask_word(p, rc as int, yr as int, false, i as int),
            hi == mask_word(p, rc as int, yr as int, true, i as int),
        decreases 4 - i,
    {
        proof {
            lemma_mask_ranges(p, rc as int, yr as int, i as int);
        }
        let rr = yr as i32 + cells[i].1 as i32 - 6 * boff;
        let c = cells[i].0 as i32 + xb;
        let b = 1u64 << (((rr % 6) * 10 + c) as u64);
        if rr < 6 {
            lo = lo | b;
        } else {
            hi = hi | b;
        }
        i += 1;
    }
    (lo, hi, boff as i8, xb as i8)
}

/// Computes the table entry of a piece, rotation and row: the place mask
/// for the piece's distinct rotations, zeros for the others.
pub fn place_mask_entry(p: Piece, rc: usize, yr: usize) -> (m: (u64, u64, i8, i8))
    requires
        rc < 4,
        yr < 6,
    ensures
        m == table_entry(p, rc as int, yr as int),
{
    if rc < p.groups() {
        place_mask(p, rc, yr)
    } else {
        (0u64, 0u64, 0i8, 0i8)
    }
}

/// Builds the table of place masks, indexed by piece, rotation index and
/// row within a band.
pub fn build_place_masks() -> (out: [[[(u64, u64, i8, i8); 6]; 4]; 7])
    ensures
        forall|pi: int, rc: int, yr: int| 0 <= pi < 7 && 0 <= rc < 4 && 0 <= yr < 6 ==> #[trigger] out@[pi]@[rc]@[yr] == table_entry(piece_of(pi).unwrap(), rc, yr),
{
    let mut out = [[[(0u64, 0u64, 0i8, 0i8); 6]; 4]; 7];
    let mut p: usize = 0;
    while p < 7
        invariant
            p <= 7,
            forall|pi: int, rc: int, yr: int| 0 <= pi < p && 0 <= rc < 4 && 0 <= yr < 6 ==> #[trigger] out@[pi]@[rc]@[yr] == table_entry(piece_of(pi).unwrap(), rc, yr),
        decreases 7 - p,
    {
        let piece = match Piece::from_u8(p as u8) {
            Some(q) => q,
            None => Piece::T,
        };
        assert(piece == piece_of(p as int).unwrap());
        let mut tab = [[(0u64, 0u64, 0i8, 0i8); 6]; 4];
        let mut rc: usize = 0;
        while rc < 4
            invariant
                rc <= 4,
                forall|r: int, yr: int| 0 <= r < rc && 0 <= yr < 6 ==> #[trigger] tab@[r]@[yr] == table_entry(piece, r, yr),
            decreases 4 - rc,
        {
            let mut row = [(0u64, 0u64, 0i8, 0i8); 6];
            let mut yr: usize = 0;
            while yr < 6
                invariant
                    yr <= 6,
                    rc < 4,
                    forall|k: int| 0 <= k < yr ==> #[trigger] row@[k] == table_entry(piece, rc as int, k),
                decreases 6 - yr,
            {
                row[yr] = place_mask_entry(piece, rc, yr);
                yr += 1;
            }
            tab[rc] = row;
            rc += 1;
        }
        out[p] = tab;
        p += 1;
    }
    out
}

/// The cells of piece `p` in rotation index `rc` with its origin at
/// `(x, y)`.
pub open spec fn placed_shape(p: Piece, rc: int, x: int, y: int) -> Seq<(int, int)> {
    Seq::new(4, |i: int| (x + shape(p, rc)[i].0, y + shape(p, rc)[i].1))
}

/// Whether every cell of a placed shape lies within ten columns and
/// `rows` rows.
pub open spec fn shape_fits(p: Piece, rc: int, x: int, y: int, rows: int) -> bool {
    forall|i: int| 0 <= i < 4 ==> 0 <= (#[trigger] placed_shape(p, rc, x, y)[i]).0 < 10 && 0 <= placed_shape(p, rc, x, y)[i].1 < rows
}

/// The shift of a mask placed with its origin at column `x`.
pub open spec fn mask_shift(p: Piece, rc: int, x: int) -> int {
    x - x_bias(p, rc)
}

/// The band of a mask placed with its origin at row `y`.
pub open spec fn mask_band(p: Piece, rc: int, y: int) -> int {
    y / 6 + band_offset(p, rc, y % 6)
}

/// Where the cells of a placed shape sit in its mask: column `col + shift`,
/// row `row` counted from the mask's band.
pub proof fn lemma_mask_facts(p: Piece, rc: int, x: int, y: int, rows: int)
    requires
        0 <= rc < 4,
        0 <= y,
        shape_fits(p, rc, x, y, rows),
    ensures
        0 <= mask_shift(p, rc, x) < 10,
        0 <= mask_band(p, rc, y),
        6 * mask_band(p, rc, y) <= y,
        forall|i: int| 0 <= i < 4 ==> {
            &&& mask_col(p, rc, i) + mask_shift(p, rc, x) == (#[trigger] placed_shape(p, rc, x, y)[i]).0
            &&& placed_shape(p, rc, x, y)[i].1 == 6 * mask_band(p, rc, y) + mask_row(p, rc, y % 6, i)
            &&& 0 <= mask_row(p, rc, y % 6, i) < 12
            &&& 0 <= placed_shape(p, rc, x, y)[i].0 < 10
        },
{
    let yr = y % 6;
    let ps = placed_shape(p, rc, x, y);
    reveal(shape);
    lemma_mask_ranges(p, rc, yr, 0);
    lemma_mask_ranges(p, rc, yr, 1);
    lemma_mask_ranges(p, rc, yr, 2);
    lemma_mask_ranges(p, rc, yr, 3);
    assert(ps[0].0 == x && ps[0].1 == y);
    assert(0 <= ps[1].0 && 0 <= ps[2].0 && 0 <= ps[3].0);
    assert(0 <= ps[1].1 && 0 <= ps[2].1 && 0 <= ps[3].1);
    assert(y == 6 * (y / 6) + yr);
}

/// One cell of a mask, read through the shift: it sets bit `q` exactly
/// when it is the cell at column `q % 10` and row `q / 10` of its band.
proof fn lemma_hit_iff(row: int, col: int, sh: int, w: int, cx: int, cy: int, high: bool, q: int)
    requires
        0 <= row < 12,
        0 <= cx < 10,
        0 <= col,
        col + sh == cx,
        cy == 6 * w + row,
        0 <= q < 64,
    ensures
        (q >= sh && (row >= 6) == high && q - sh == 10 * (row % 6) + col) == (q < 60 && (cx, cy) == (q % 10, 6 * (w + if high { 1int } else { 0int }) + q / 10)),
{
    if q >= sh && (row >= 6) == high && q - sh == 10 * (row % 6) + col {
        assert(q % 10 == cx && q / 10 == row % 6) by (nonlinear_arith)
            requires
                q == 10 * (row % 6) + cx,
                0 <= cx < 10,
                0 <= row % 6 < 6,
        ;
    }
    if q < 60 && (cx, cy) == (q % 10, 6 * (w + if high { 1int } else { 0int }) + q / 10) {
        assert(q == 10 * (q / 10) + q % 10);
        assert(0 <= q / 10 < 6);
        if high {
            assert(row == 6 + q / 10);
        } else {
            assert(row == q / 10);
        }
        assert(row % 6 == q / 10);
    }
}

/// A placed shape's mask lands in its bands: shifted right by
/// `mask_shift`, the low word holds the cells of band `mask_band` and the
/// high word those of the band above, bit `10 r + c` for cell `(c, r)`.
#[verifier::rlimit(40)]
pub proof fn lemma_mask_shift(p: Piece, rc: int, x: int, y: int, rows: int, high: bool, q: int)
    requires
        0 <= rc < 4,
        0 <= y,
        shape_fits(p, rc, x, y, rows),
        0 <= q < 64,
    ensures
        bit(mask_word(p, rc, y % 6, high, 4) << (mask_shift(p, rc, x) as u64), q) == (q < 60
            && placed_shape(p, rc, x, y).contains((q % 10, 6 * (mask_band(p, rc, y) + if high { 1int } else { 0int }) + q / 10))),
{
    let yr = y % 6;
    let sh = mask_shift(p, rc, x);
    let w = mask_band(p, rc, y);
    let ps = placed_shape(p, rc, x, y);
    lemma_mask_facts(p, rc, x, y, rows);
    let m = mask_word(p, rc, yr, high, 4);
    crate::bits::lemma_bit_shl(m, sh as u64, q as u64);
    if q >= sh {
        lemma_mask_word(p, rc, yr, high, 4, q - sh);
    }
    let hb = if high { 1int } else { 0int };
    let target = (q % 10, 6 * (w + hb) + q / 10);
    assert forall|i: int| 0 <= i < 4 implies ((q >= sh && mask_hit(p, rc, yr, high, i, q - sh)) == (q < 60 && #[trigger] ps[i] == target)) by {
        lemma_mask_ranges(p, rc, yr, i);
        lemma_hit_iff(mask_row(p, rc, yr, i), mask_col(p, rc, i), sh, w, ps[i].0, ps[i].1, high, q);
    }
    assert(mask_any(p, rc, yr, high, 4, q - sh) == (mask_hit(p, rc, yr, high, 0, q - sh) || mask_hit(p, rc, yr, high, 1, q - sh) || mask_hit(p, rc, yr, high, 2, q - sh) || mask_hit(p, rc, yr, high, 3, q - sh))) by {
        reveal_with_fuel(mask_any, 5);
    }
    if ps.contains(target) {
        let i = choose|i: int| 0 <= i < 4 && ps[i] == target;
        assert(i == 0 || i == 1 || i == 2 || i == 3);
    }
    if q < 60 && (ps[0] == target || ps[1] == target || ps[2] == target || ps[3] == target) {
        if ps[0] == target {
            assert(ps.contains(target));
        } else if ps[1] == target {
            assert(ps.contains(target));
        } else if ps[2] == target {
            assert(ps.contains(target));
        } else {
            assert(ps.contains(target));
        }
    }
}

/// A cell in the band above sets its bit of the high word.
pub proof fn lemma_high_nonzero(p: Piece, rc: int, yr: int, i: int)
    requires
        0 <= yr < 6,
        0 <= i < 4,
        mask_row(p, rc, yr, i) >= 6,
    ensures
        bit(mask_word(p, rc, yr, true, 4), 10 * (mask_row(p, rc, yr, i) - 6) + mask_col(p, rc, i)),
{
    lemma_mask_ranges(p, rc, yr, i);
    let q = 10 * (mask_row(p, rc, yr, i) - 6) + mask_col(p, rc, i);
    lemma_mask_word(p, rc, yr, true, 4, q);
    assert(mask_hit(p, rc, yr, true, i, q));
    reveal_with_fuel(mask_any, 5);
}

/// The cells a masked placement adds: the placed shape for the piece's
/// distinct rotations, nothing for the others.
pub open spec fn masked_cells(p: Piece, rc: int, x: int, y: int) -> Seq<(int, int)> {
    if rc < groups_of(p) {
        placed_shape(p, rc, x, y)
    } else {
        seq![]
    }
}

/// The table entry of a placement, read at its origin: shifted by the
/// entry's shift into the entry's band, its low word holds the cells the
/// placement adds to that band and its high word those it adds to the band
/// above, which exists whenever the high word is not zero; every added
/// cell lies in one of the two.
pub proof fn lemma_entry(p: Piece, rc: int, x: int, y: int, rows: int)
    requires
        0 <= rc < 4,
        shape_fits(p, rc, x, y, rows),
    ensures
        ({
            let e = table_entry(p, rc, y % 6);
            let sh = x - e.3;
            let w = y / 6 + e.2;
            let cs = masked_cells(p, rc, x, y);
            &&& 0 <= x < 10
            &&& 0 <= y < rows
            &&& 0 <= sh < 10
            &&& 0 <= w
            &&& 6 * w <= y
            &&& forall|q: int| 0 <= q < 64 ==> #[trigger] bit(e.0 << (sh as u64), q) == (q < 60 && cs.contains((q % 10, 6 * w + q / 10)))
            &&& forall|q: int| 0 <= q < 64 ==> #[trigger] bit(e.1 << (sh as u64), q) == (q < 60 && cs.contains((q % 10, 6 * (w + 1) + q / 10)))
            &&& e.1 != 0 ==> 6 * (w + 1) < rows
            &&& forall|cx: int, cy: int| #[trigger] cs.contains((cx, cy)) ==> 0 <= cx < 10 && (6 * w <= cy < 6 * w + 6 || (e.1 != 0 && 6 * w + 6 <= cy < 6 * w + 12))
        }),
{
    let yr = y % 6;
    let e = table_entry(p, rc, yr);
    let cs = masked_cells(p, rc, x, y);
    let ps = placed_shape(p, rc, x, y);
    assert(ps[0] == (x, y)) by {
        reveal(shape);
    }
    assert(0 <= ps[0].0 < 10 && 0 <= ps[0].1 < rows);
    if rc < groups_of(p) {
        lemma_mask_facts(p, rc, x, y, rows);
        let sh = x - e.3;
        let w = y / 6 + e.2;
        assert(sh == mask_shift(p, rc, x));
        assert(w == mask_band(p, rc, y));
        assert forall|q: int| 0 <= q < 64 implies #[trigger] bit(e.0 << (sh as u64), q) == (q < 60 && cs.contains((q % 10, 6 * w + q / 10))) by {
            lemma_mask_shift(p, rc, x, y, rows, false, q);
        }
        assert forall|q: int| 0 <= q < 64 implies #[trigger] bit(e.1 << (sh as u64), q) == (q < 60 && cs.contains((q % 10, 6 * (w + 1) + q / 10))) by {
            lemma_mask_shift(p, rc, x, y, rows, true, q);
        }
        assert forall|k: int| 0 <= k < 4 && mask_row(p, rc, yr, k) >= 6 implies e.1 != 0 && 6 * (w + 1) < rows by {
            lemma_high_nonzero(p, rc, yr, k);
            crate::bits::lemma_bits_zero(e.1);
            assert(ps[k].1 < rows);
        }
        if e.1 != 0 {
            crate::bits::lemma_bits_zero(e.1);
            let q = choose|q: int| 0 <= q < 64 && bit(e.1, q);
            lemma_mask_word(p, rc, yr, true, 4, q);
            reveal_with_fuel(mask_any, 5);
            if mask_hit(p, rc, yr, true, 0, q) {
                assert(mask_row(p, rc, yr, 0) >= 6);
            } else if mask_hit(p, rc, yr, true, 1, q) {
                assert(mask_row(p, rc, yr, 1) >= 6);
            } else if mask_hit(p, rc, yr, true, 2, q) {
                assert(mask_row(p, rc, yr, 2) >= 6);
            } else {
                assert(mask_row(p, rc, yr, 3) >= 6);
            }
        }
        assert forall|cx: int, cy: int| #[trigger] cs.contains((cx, cy)) implies 0 <= cx < 10 && (6 * w <= cy < 6 * w + 6 || (e.1 != 0 && 6 * w + 6 <= cy < 6 * w + 12)) by {
            let i = choose|i: int| 0 <= i < 4 && ps[i] == (cx, cy);
            assert(ps[i] == (cx, cy));
        }
    } else {
        crate::bits::lemma_bits_zero(0u64);
        assert forall|s: u64| s < 64 implies 0u64 << s == 0u64 by {
            assert(0u64 << s == 0u64) by (bit_vector);
        }
        assert(y == 6 * (y / 6) + yr);
    }
}

} // verus!
