//! Board features used by the evaluation, computed on packed rows and
//! columns.

use vstd::prelude::*;
use crate::bits::{bit, bits_below, count_ones, lemma_bit_place, lemma_bits_zero};
use crate::board::{Board, ROW_MASK, fits, lemma_row_word, lines_after, moved, moved_cells, open_rows_cells, row_word};
use crate::game::search::SearchGame;
use crate::piece::Piece;
use crate::placement::Move;
use crate::rotation::Rotation;
use crate::spin::Spin;

verus! {

/// Returns the occupancy bits of row `y` as a 10-bit mask.
pub fn row_bits<const N: usize>(board: &Board<N>, y: usize) -> (r: u64)
    requires
        y < 6 * N,
    ensures
        r == row_word(board.0@[y as int / 6], y as int % 6),
{
    let band = y / 6;
    let row = (y % 6) as u64;
    (board.0[band] >> (row * 10)) & ROW_MASK
}

/// The bits of a row are the cells of the row.
pub proof fn lemma_row_bits<const N: usize>(board: Board<N>, y: int, x: int)
    requires
        0 <= y < 6 * N,
        0 <= x < 64,
    ensures
        bit(row_word(board.0@[y as int / 6], y as int % 6), x) == (x < 10 && board.cell(x, y)),
{
    lemma_row_word(board.0@[y / 6], y % 6, x);
}

/// Returns, for each column, the column's cells below `max_height` as bits,
/// and the column's height below `max_height`.
pub fn cols_and_heights<const N: usize>(board: &Board<N>, max_height: usize) -> (r: (
    [u64; 10],
    [usize; 10],
))
    requires
        board.wf(),
        max_height <= 64,
        max_height <= 6 * N,
    ensures
        forall|x: int, y: int| 0 <= x < 10 && 0 <= y < 64 ==> #[trigger] bit(r.0@[x], y) == (y < max_height && board.cell(x, y)),
        forall|x: int| 0 <= x < 10 ==> #[trigger] r.1@[x] == board.top_filled(x, max_height as int),
{
    let mut cols = [0u64; 10];
    proof {
        lemma_bits_zero(0u64);
    }
    let mut y: usize = 0;
    while y < max_height
        invariant
            board.wf(),
            max_height <= 64,
            max_height <= 6 * N,
            y <= max_height,
            forall|x: int, yy: int| 0 <= x < 10 && 0 <= yy < 64 ==> #[trigger] bit(cols@[x], yy) == (yy < y && board.cell(x, yy)),
        decreases max_height - y,
    {
        let r = row_bits(board, y);
        let mut x: usize = 0;
        while x < 10
            invariant
                board.wf(),
                y < max_height,
                max_height <= 64,
                max_height <= 6 * N,
                x <= 10,
                r == row_word(board.0@[y as int / 6], y as int % 6),
                forall|c: int, yy: int| 0 <= c < 10 && 0 <= yy < 64 ==> #[trigger] bit(cols@[c], yy) == ((if c < x { yy < y + 1 } else { yy < y }) && board.cell(c, yy)),
            decreases 10 - x,
        {
            let nw = cols[x] | (((r >> (x as u64)) & 1) << (y as u64));
            proof {
                assert forall|yy: int| 0 <= yy < 64 implies bit(nw, yy) == (yy < y + 1 && board.cell(x as int, yy)) by {
                    crate::bits::lemma_bit_or(cols@[x as int], ((r >> (x as u64)) & 1) << (y as u64), yy as u64);
                    lemma_bit_place(r, x as u64, y as u64, yy as u64);
                    lemma_row_bits(*board, y as int, x as int);
                }
            }
            cols[x] = nw;
            x += 1;
        }
        y += 1;
    }
    let mut heights = [0usize; 10];
    let mut x: usize = 0;
    while x < 10
        invariant
            board.wf(),
            max_height <= 64,
            max_height <= 6 * N,
            x <= 10,
            forall|c: int, yy: int| 0 <= c < 10 && 0 <= yy < 64 ==> #[trigger] bit(cols@[c], yy) == (yy < max_height && board.cell(c, yy)),
            forall|c: int| 0 <= c < x ==> #[trigger] heights@[c] == board.top_filled(c, max_height as int),
        decreases 10 - x,
    {
        let c = cols[x];
        let h: usize = if c == 0 {
            0
        } else {
            let lz = c.leading_zeros();
            proof {
                vstd::std_specs::bits::axiom_u64_leading_zeros(c);
            }
            (64 - lz) as usize
        };
        proof {
            lemma_bits_zero(c);
            if c != 0 {
                let t = 63 - h + 1;
                crate::bits::lemma_low_bit(c >> ((h - 1) as u64));
                assert(bit(c, h - 1));
                assert forall|yy: int| h <= yy < max_height implies !#[trigger] board.cell(x as int, yy) by {
                    assert((c >> (yy as u64)) & 1u64 == 0u64);
                    assert(!bit(c, yy));
                }
                board.lemma_top_filled_unique(x as int, max_height as int, h as int);
            } else {
                assert forall|yy: int| 0 <= yy < max_height implies !#[trigger] board.cell(x as int, yy) by {
                    assert(!bit(c, yy));
                }
                board.lemma_top_filled_unique(x as int, max_height as int, 0);
            }
        }
        heights[x] = h;
        x += 1;
    }
    (cols, heights)
}


/// Absolute value.
pub open spec fn abs(v: int) -> int {
    if v < 0 {
        -v
    } else {
        v
    }
}

/// Whether the transition between columns `i` and `i + 1` involves the well column.
pub open spec fn skipped(well_col: Option<usize>, i: int) -> bool {
    match well_col {
        Some(wc) => i == wc || i + 1 == wc,
        None => false,
    }
}

/// Sum of `|h[i] - h[i + 1]|` over the transitions `i < n` not involving the well.
pub open spec fn bump_sum(h: Seq<usize>, well_col: Option<usize>, n: int) -> int
    decreases n,
{
    if n <= 0 {
        0
    } else {
        bump_sum(h, well_col, n - 1) + if skipped(well_col, n - 1) {
            0
        } else {
            abs(h[n - 1] - h[n])
        }
    }
}

/// Sum of `(h[i] - h[i + 1])^2` over the transitions `i < n` not involving the well.
pub open spec fn bump_sq_sum(h: Seq<usize>, well_col: Option<usize>, n: int) -> int
    decreases n,
{
    if n <= 0 {
        0
    } else {
        bump_sq_sum(h, well_col, n - 1) + if skipped(well_col, n - 1) {
            0
        } else {
            (h[n - 1] - h[n]) * (h[n - 1] - h[n])
        }
    }
}

/// The bumpiness and squared bumpiness of the column heights, skipping
/// transitions into and out of `well_col`.
pub fn bumpiness(heights: &[usize; 10], well_col: Option<usize>) -> (r: (i32, i32))
    requires
        forall|i: int| 0 <= i < 10 ==> #[trigger] heights@[i] <= 15000,
    ensures
        r.0 == bump_sum(heights@, well_col, 9),
        r.1 == bump_sq_sum(heights@, well_col, 9),
{
    let mut bump = 0i32;
    let mut bump_sq = 0i32;
    let mut i: usize = 0;
    while i < 9
        invariant
            i <= 9,
            forall|k: int| 0 <= k < 10 ==> #[trigger] heights@[k] <= 15000,
            bump == bump_sum(heights@, well_col, i as int),
            bump_sq == bump_sq_sum(heights@, well_col, i as int),
            0 <= bump <= 15000 * i,
            0 <= bump_sq <= 225_000_000 * i,
        decreases 9 - i,
    {
        let skip = match well_col {
            Some(wc) => i == wc || i + 1 == wc,
            None => false,
        };
        if !skip {
            let diff = (heights[i] as i32) - (heights[i + 1] as i32);
            let ad = if diff < 0 { -diff } else { diff };
            proof {
                assert(0 <= diff * diff <= 225_000_000) by (nonlinear_arith)
                    requires
                        -15000 <= diff <= 15000,
                ;
            }
            bump += ad;
            bump_sq += diff * diff;
        }
        i += 1;
    }
    (bump, bump_sq)
}

/// Depth of column `x` as a well: how far it sits below the lower of its two
/// neighbours (walls count as height 40), or zero when it is not below both.
pub open spec fn well_depth(h: Seq<usize>, x: int) -> int {
    let hv = h[x] as int;
    let left = if x == 0 { 40 } else { h[x - 1] as int };
    let right = if x == 9 { 40 } else { h[x + 1] as int };
    if left > hv && right > hv {
        if left < right {
            left - hv
        } else {
            right - hv
        }
    } else {
        0
    }
}

/// A column is a well when both sides are strictly taller, and the walls
/// beside the edge columns stand at height 40, taller than any column of a
/// board: an inner column below both neighbours is as deep as the lower
/// neighbour is above it; an edge column below its one neighbour is as deep
/// as that neighbour is above it, or as the wall where the neighbour stands
/// higher still; a column as tall as a neighbour is no well.
pub proof fn law_well_depth_walls(h: Seq<usize>, x: int)
    requires
        h.len() == 10,
        0 <= x < 10,
    ensures
        0 < x < 9 && h[x - 1] > h[x] && h[x + 1] > h[x] && h[x - 1] <= h[x + 1] ==> well_depth(h, x) == h[x - 1] - h[x],
        0 < x < 9 && h[x - 1] > h[x] && h[x + 1] > h[x] && h[x + 1] <= h[x - 1] ==> well_depth(h, x) == h[x + 1] - h[x],
        0 < x < 9 && (h[x - 1] <= h[x] || h[x + 1] <= h[x]) ==> well_depth(h, x) == 0,
        h[0] < h[1] <= 40 ==> well_depth(h, 0) == h[1] - h[0],
        h[9] < h[8] <= 40 ==> well_depth(h, 9) == h[8] - h[9],
        h[1] <= h[0] ==> well_depth(h, 0) == 0,
        h[8] <= h[9] ==> well_depth(h, 9) == 0,
        h[0] < 40 < h[1] ==> well_depth(h, 0) == 40 - h[0],
        h[9] < 40 < h[8] ==> well_depth(h, 9) == 40 - h[9],
        40 <= h[0] ==> well_depth(h, 0) == 0,
        40 <= h[9] ==> well_depth(h, 9) == 0,
        well_depth(h, x) >= 0,
{
}

/// Finds the deepest well, the leftmost one among equally deep wells, and
/// its depth; `(None, 0)` when no column is a well.
pub fn find_well(heights: &[usize; 10]) -> (r: (Option<usize>, i32))
    requires
        forall|i: int| 0 <= i < 10 ==> #[trigger] heights@[i] <= i32::MAX,
    ensures
        r.1 >= 0,
        forall|x: int| 0 <= x < 10 ==> well_depth(heights@, x) <= r.1,
        r.0 is None <==> r.1 == 0,
        r.0 matches Some(c) ==> c < 10 && well_depth(heights@, c as int) == r.1 && forall|x: int| 0 <= x < c ==> well_depth(heights@, x) < r.1,
        heights@[0] < heights@[1] <= 40 ==> r.0 is Some && r.1 >= heights@[1] - heights@[0],
        heights@[9] < heights@[8] <= 40 ==> r.0 is Some && r.1 >= heights@[8] - heights@[9],
{
    proof {
        law_well_depth_walls(heights@, 0);
        law_well_depth_walls(heights@, 9);
    }
    let mut best_col: Option<usize> = None;
    let mut best_depth = 0i32;
    let mut x: usize = 0;
    while x < 10
        invariant
            x <= 10,
            forall|i: int| 0 <= i < 10 ==> #[trigger] heights@[i] <= i32::MAX,
            best_depth >= 0,
            forall|k: int| 0 <= k < x ==> well_depth(heights@, k) <= best_depth,
            best_col is None <==> best_depth == 0,
            best_col matches Some(c) ==> c < x && well_depth(heights@, c as int) == best_depth && forall|k: int| 0 <= k < c ==> well_depth(heights@, k) < best_depth,
        decreases 10 - x,
    {
        let h = heights[x] as i32;
        let left = if x == 0 { 40 } else { heights[x - 1] as i32 };
        let right = if x == 9 { 40 } else { heights[x + 1] as i32 };
        if left > h && right > h {
            let depth = if left < right { left } else { right } - h;
            if depth > best_depth {
                best_depth = depth;
                best_col = Some(x);
            }
        }
        x += 1;
    }
    (best_col, best_depth)
}

/// One more than the highest row below `h` whose bit is clear in `c`, or zero.
pub open spec fn top_zero(c: u64, h: int) -> int
    decreases h,
{
    if h <= 0 {
        0
    } else if !bit(c, h - 1) {
        h
    } else {
        top_zero(c, h - 1)
    }
}

/// Holes of a column: empty cells below its height.
pub open spec fn col_holes(c: u64, h: int) -> int {
    if h <= 0 {
        0
    } else {
        h - bits_below(c, h as nat)
    }
}

/// Covered cells of a column: filled cells above its topmost hole, at most six.
pub open spec fn col_covered(c: u64, h: int) -> int {
    if h <= 0 || col_holes(c, h) == 0 {
        0
    } else {
        let cov = bits_below(c, h as nat) - bits_below(c, top_zero(c, h) as nat);
        if cov < 6 {
            cov
        } else {
            6
        }
    }
}

/// Sum of `col_holes` over the first `n` columns.
pub open spec fn holes_sum(cols: Seq<u64>, h: Seq<usize>, n: int) -> int
    decreases n,
{
    if n <= 0 {
        0
    } else {
        holes_sum(cols, h, n - 1) + col_holes(cols[n - 1], h[n - 1] as int)
    }
}

/// Sum of `col_covered` over the first `n` columns.
pub open spec fn covered_sum(cols: Seq<u64>, h: Seq<usize>, n: int) -> int
    decreases n,
{
    if n <= 0 {
        0
    } else {
        covered_sum(cols, h, n - 1) + col_covered(cols[n - 1], h[n - 1] as int)
    }
}

/// `top_zero` is one more than the highest clear bit below `h`.
pub proof fn lemma_top_zero(c: u64, h: int)
    requires
        0 <= h <= 64,
    ensures
        0 <= top_zero(c, h) <= h,
        forall|y: int| top_zero(c, h) <= y < h ==> #[trigger] bit(c, y),
        top_zero(c, h) > 0 ==> !bit(c, top_zero(c, h) - 1),
    decreases h,
{
    if h > 0 {
        lemma_top_zero(c, h - 1);
    }
}

/// The properties of `lemma_top_zero` determine `top_zero`.
pub proof fn lemma_top_zero_unique(c: u64, h: int, t: int)
    requires
        0 <= t <= h <= 64,
        forall|y: int| t <= y < h ==> #[trigger] bit(c, y),
        t > 0 ==> !bit(c, t - 1),
    ensures
        top_zero(c, h) == t,
    decreases h,
{
    if h > t {
        lemma_top_zero_unique(c, h - 1, t);
    }
}

/// Counts holes (empty cells below a column's height) and covered cells
/// (filled cells above a column's topmost hole, at most six per column).
pub fn holes_and_covered(cols: [u64; 10], heights: &[usize; 10]) -> (r: (i32, i32))
    requires
        forall|i: int| 0 <= i < 10 ==> #[trigger] heights@[i] < 64,
    ensures
        r.0 == holes_sum(cols@, heights@, 10),
        r.1 == covered_sum(cols@, heights@, 10),
{
    let mut holes = 0i32;
    let mut covered = 0i32;
    let mut x: usize = 0;
    while x < 10
        invariant
            x <= 10,
            forall|i: int| 0 <= i < 10 ==> #[trigger] heights@[i] < 64,
            holes == holes_sum(cols@, heights@, x as int),
            covered == covered_sum(cols@, heights@, x as int),
            0 <= holes <= 64 * x,
            0 <= covered <= 6 * x,
        decreases 10 - x,
    {
        let h = heights[x];
        let c = cols[x];
        if h != 0 {
            proof {
                crate::bits::lemma_bit_low_mask(h as u64, 0);
            }
            let below_mask = (1u64 << (h as u64)) - 1;
            let filled_below = c & below_mask;
            let fb = count_ones(filled_below);
            proof {
                assert forall|i: int| 0 <= i < 64 implies bit(filled_below, i) == (bit(c, i) && 0 <= i < h) by {
                    crate::bits::lemma_bit_and(c, below_mask, i as u64);
                    crate::bits::lemma_bit_low_mask(h as u64, i as u64);
                }
                crate::bits::lemma_bits_below_range(filled_below, c, 0, h as int, 64);
                crate::bits::lemma_bits_below_le(c, h as nat);
            }
            let col_holes = h as i32 - fb as i32;
            holes += col_holes;
            if col_holes != 0 {
                let empty_below = !c & below_mask;
                proof {
                    assert forall|i: int| 0 <= i < 64 implies bit(empty_below, i) == (!bit(c, i) && 0 <= i < h) by {
                        crate::bits::lemma_bit_and(!c, below_mask, i as u64);
                        crate::bits::lemma_bit_not(c, i as u64);
                        crate::bits::lemma_bit_low_mask(h as u64, i as u64);
                    }
                    lemma_bits_zero(empty_below);
                    if empty_below == 0 {
                        assert forall|i: int| 0 <= i < h implies #[trigger] bit(c, i) by {
                            assert(!bit(empty_below, i));
                        }
                        crate::bits::lemma_bits_below_range(c, c, 0, 64, h as int);
                        lemma_all_bits(c, h as int);
                    }
                }
                let lz = empty_below.leading_zeros();
                proof {
                    vstd::std_specs::bits::axiom_u64_leading_zeros(empty_below);
                }
                let topmost_hole = 63 - lz as u64;
                proof {
                    crate::bits::lemma_low_bit(empty_below >> topmost_hole);
                    assert(bit(empty_below, topmost_hole as int));
                    assert forall|y: int| topmost_hole + 1 <= y < h implies #[trigger] bit(c, y) by {
                        assert((empty_below >> (y as u64)) & 1u64 == 0u64);
                        assert(!bit(empty_below, y));
                    }
                    lemma_top_zero_unique(c, h as int, topmost_hole + 1);
                }
                proof {
                    assert(topmost_hole < h);
                    crate::bits::lemma_bit_low_mask((topmost_hole + 1) as u64, 0);
                }
                let at_or_below_hole = (1u64 << (topmost_hole + 1)) - 1;
                let above = filled_below & !at_or_below_hole;
                let cov = count_ones(above);
                proof {
                    assert forall|i: int| 0 <= i < 64 implies bit(above, i) == (bit(c, i) && topmost_hole + 1 <= i < h) by {
                        crate::bits::lemma_bit_and(filled_below, !at_or_below_hole, i as u64);
                        crate::bits::lemma_bit_not(at_or_below_hole, i as u64);
                        crate::bits::lemma_bit_low_mask((topmost_hole + 1) as u64, i as u64);
                    }
                    crate::bits::lemma_bits_below_range(above, c, topmost_hole + 1, h as int, 64);
                }
                let cov_i = cov as i32;
                covered += if cov_i < 6 { cov_i } else { 6 };
            }
        }
        x += 1;
    }
    (holes, covered)
}

/// All bits below `h` set means `h` bits below `h`.
proof fn lemma_all_bits(c: u64, h: int)
    requires
        0 <= h <= 64,
        forall|i: int| 0 <= i < h ==> #[trigger] bit(c, i),
    ensures
        bits_below(c, h as nat) == h,
    decreases h,
{
    if h > 0 {
        lemma_all_bits(c, h - 1);
    }
}


/// Returns the occupancy bits of row `y`, or zero for rows above the board.
pub fn row_at<const N: usize>(board: &Board<N>, y: usize) -> (r: u64)
    ensures
        y < 6 * N ==> r == row_word(board.0@[y as int / 6], y as int % 6),
        y >= 6 * N ==> r == 0,
{
    if y / 6 >= N {
        0
    } else {
        row_bits(board, y)
    }
}

/// Returns the height of each column: one more than its topmost filled
/// cell, or zero.
pub fn column_heights<const N: usize>(board: &Board<N>) -> (heights: [usize; 10])
    requires
        board.wf(),
    ensures
        forall|x: int| 0 <= x < 10 ==> #[trigger] heights@[x] == board.col_height(x),
{
    let mut heights = [0usize; 10];
    let mut x: usize = 0;
    while x < 10
        invariant
            board.wf(),
            x <= 10,
            forall|c: int| 0 <= c < x ==> #[trigger] heights@[c] == board.col_height(c),
        decreases 10 - x,
    {
        let mut y: usize = 0;
        let mut band = N;
        while band > 0 && y == 0
            invariant
                board.wf(),
                x < 10,
                band <= N,
                y == 0 ==> forall|yy: int| 6 * band <= yy < 6 * N ==> !#[trigger] board.cell(x as int, yy),
                y != 0 ==> 0 < y <= 6 * N && board.cell(x as int, y - 1) && forall|yy: int| y <= yy < 6 * N ==> !#[trigger] board.cell(x as int, yy),
            decreases band,
        {
            band -= 1;
            let w = board.0[band];
            if w != 0 {
                let mut row: usize = 6;
                while row > 0 && y == 0
                    invariant
                        board.wf(),
                        x < 10,
                        band < N,
                        w == board.0@[band as int],
                        row <= 6,
                        y == 0 ==> forall|yy: int| 6 * band + row <= yy < 6 * N ==> !#[trigger] board.cell(x as int, yy),
                        y != 0 ==> 0 < y <= 6 * N && board.cell(x as int, y - 1) && forall|yy: int| y <= yy < 6 * N ==> !#[trigger] board.cell(x as int, yy),
                    decreases row,
                {
                    row -= 1;
                    let bit_index = (row * 10 + x) as u64;
                    proof {
                        crate::board::lemma_bit_single_and(w, bit_index);
                        let yy = 6 * band + row;
                        assert(yy / 6 == band && crate::board::pos(x as int, yy) == bit_index);
                    }
                    if w & (1u64 << bit_index) != 0 {
                        y = band * 6 + row + 1;
                    }
                }
            }
            proof {
                if w == 0 {
                    lemma_bits_zero(w);
                    assert forall|yy: int| 6 * band <= yy < 6 * band + 6 implies !#[trigger] board.cell(x as int, yy) by {
                        assert(yy / 6 == band);
                    }
                }
            }
        }
        proof {
            if y == 0 {
                board.lemma_top_filled_unique(x as int, 6 * N, 0);
            } else {
                board.lemma_top_filled_unique(x as int, 6 * N, y as int);
            }
        }
        heights[x] = y;
        x += 1;
    }
    heights
}

/// The left T-slot shape at column `x`: column `x + 1` is lower than column
/// `x`, and column `x + 2` has a gap exactly at the height of column `x`,
/// with cells below and above it.
pub open spec fn tslot_left_at<const N: usize>(board: Board<N>, x: int) -> bool {
    let y = board.col_height(x);
    &&& board.col_height(x + 1) < y
    &&& 1 <= y
    &&& y + 1 < 6 * N
    &&& board.cell(x + 2, y - 1)
    &&& !board.cell(x + 2, y)
    &&& board.cell(x + 2, y + 1)
}

/// The mirror of `tslot_left_at`, for the slot opening to the right of
/// column `x - 2`.
pub open spec fn tslot_right_at<const N: usize>(board: Board<N>, x: int) -> bool {
    let y = board.col_height(x);
    &&& board.col_height(x - 1) < y
    &&& 1 <= y
    &&& y + 1 < 6 * N
    &&& board.cell(x - 2, y - 1)
    &&& !board.cell(x - 2, y)
    &&& board.cell(x - 2, y + 1)
}

/// Finds the leftmost left-facing T slot and returns the anchor `(x, y)`
/// for a T in South rotation that fits it.
pub fn well_known_tslot_left<const N: usize>(board: &Board<N>) -> (r: Option<(i32, i32)>)
    requires
        board.wf(),
    ensures
        r matches Some(p) ==> 1 <= p.0 <= 8 && tslot_left_at(*board, p.0 - 1) && p.1 == board.col_height(p.0 - 1) && forall|x: int| 0 <= x < p.0 - 1 ==> !tslot_left_at(*board, x),
        r is None ==> forall|x: int| 0 <= x < 8 ==> !tslot_left_at(*board, x),
{
    let heights = column_heights(board);
    let total = Board::<N>::total_height();
    let mut x: usize = 0;
    while x < 8
        invariant
            board.wf(),
            total == 6 * N,
            x <= 8,
            forall|c: int| 0 <= c < 10 ==> #[trigger] heights@[c] == board.col_height(c),
            forall|c: int| 0 <= c < x ==> !tslot_left_at(*board, c),
        decreases 8 - x,
    {
        proof {
            board.lemma_top_filled(x as int, 6 * N);
            board.lemma_top_filled(x as int + 1, 6 * N);
        }
        let y = heights[x] as i32;
        let rx = (x + 2) as i32;
        if heights[x + 1] as i32 >= y || y < 1 || y + 1 >= total {
        } else if !board.get(rx, y - 1) || board.get(rx, y) || !board.get(rx, y + 1) {
        } else {
            return Some((x as i32 + 1, y));
        }
        x += 1;
    }
    None
}

/// Finds the leftmost right-facing T slot and returns the anchor `(x, y)`
/// for a T in South rotation that fits it.
pub fn well_known_tslot_right<const N: usize>(board: &Board<N>) -> (r: Option<(i32, i32)>)
    requires
        board.wf(),
    ensures
        r matches Some(p) ==> 1 <= p.0 <= 8 && tslot_right_at(*board, p.0 + 1) && p.1 == board.col_height(p.0 + 1) && forall|x: int| 2 <= x < p.0 + 1 ==> !tslot_right_at(*board, x),
        r is None ==> forall|x: int| 2 <= x < 10 ==> !tslot_right_at(*board, x),
{
    let heights = column_heights(board);
    let total = Board::<N>::total_height();
    let mut x: usize = 2;
    while x < 10
        invariant
            board.wf(),
            total == 6 * N,
            2 <= x <= 10,
            forall|c: int| 0 <= c < 10 ==> #[trigger] heights@[c] == board.col_height(c),
            forall|c: int| 2 <= c < x ==> !tslot_right_at(*board, c),
        decreases 10 - x,
    {
        proof {
            board.lemma_top_filled(x as int, 6 * N);
            board.lemma_top_filled(x as int - 1, 6 * N);
        }
        let y = heights[x] as i32;
        let lx = (x - 2) as i32;
        if heights[x - 1] as i32 >= y || y < 1 || y + 1 >= total {
        } else if !board.get(lx, y - 1) || board.get(lx, y) || !board.get(lx, y + 1) {
        } else {
            return Some((x as i32 - 1, y));
        }
        x += 1;
    }
    None
}


/// `m` is a T piece in South rotation anchored at `(x, y)`, without spin.
pub open spec fn is_t_south(m: Move, x: int, y: int) -> bool {
    &&& m.piece_spec() == Piece::T
    &&& m.x_spec() == x
    &&& m.y_spec() == y
    &&& m.rotation_spec() == Rotation::South
    &&& m.spin_spec() == Spin::NoSpin
}

/// Whether any cell of `m` is already filled on `b`.
pub open spec fn overlaps<const N: usize>(b: Board<N>, m: Move) -> bool {
    exists|i: int| 0 <= i < 4 && b.cell((#[trigger] m.cells_spec()[i]).0, m.cells_spec()[i].1)
}

/// The cells of a T in South rotation anchored at `(x, y)`.
pub open spec fn t_cells(x: int, y: int) -> Seq<(int, int)> {
    seq![(x, y), (x + 1, y), (x - 1, y), (x, y - 1)]
}

/// Whether any of the cells `cs` is already filled on `b`.
pub open spec fn overlaps_cells<const N: usize>(b: Board<N>, cs: Seq<(int, int)>) -> bool {
    exists|i: int| 0 <= i < cs.len() && b.cell((#[trigger] cs[i]).0, cs[i].1)
}

/// The number of rows that adding the cells `cs` to `b` completes.
pub open spec fn lines_with<const N: usize>(b: Board<N>, cs: Seq<(int, int)>) -> int {
    6 * N - open_rows_cells(b, cs, 6 * N).len()
}

/// Places a virtual T in South rotation at `(x, y)` and returns the number
/// of lines it clears. Returns `None`, leaving the board as it was, when the
/// T would reach the top two rows or overlap a filled cell; returns `None`
/// after placing it when it clears no line.
pub fn virtual_t_fire<const N: usize>(board: &mut Board<N>, x: i32, y: i32) -> (r: Option<u64>)
    requires
        old(board).wf(),
        1 <= x <= 8,
        1 <= y < 64,
    ensures
        final(board).wf(),
        y + 2 >= 6 * N ==> r is None && *final(board) == *old(board),
        y + 2 < 6 * N ==> exists|m: Move| #[trigger] is_t_south(m, x as int, y as int) && if overlaps(*old(board), m) {
            r is None && *final(board) == *old(board)
        } else {
            &&& moved(*old(board), m, *final(board))
            &&& r == if lines_after(*old(board), m) > 0 {
                Some(lines_after(*old(board), m) as u64)
            } else {
                None
            }
        },
        y + 2 < 6 * N && overlaps_cells(*old(board), t_cells(x as int, y as int)) ==> r is None
            && *final(board) == *old(board),
        y + 2 < 6 * N && !overlaps_cells(*old(board), t_cells(x as int, y as int)) ==> {
            &&& moved_cells(*old(board), t_cells(x as int, y as int), *final(board))
            &&& r == if lines_with(*old(board), t_cells(x as int, y as int)) > 0 {
                Some(lines_with(*old(board), t_cells(x as int, y as int)) as u64)
            } else {
                None
            }
        },
{
    if y + 2 >= Board::<N>::total_height() {
        return None;
    }
    let mv = Move::new(Piece::T, x, y, Rotation::South, Spin::NoSpin);
    let cells = mv.cells();
    proof {
        crate::placement::lemma_cells_spec(mv);
        crate::data::lemma_cells_small(Piece::T, 2, 0);
        crate::data::lemma_cells_small(Piece::T, 2, 1);
        crate::data::lemma_cells_small(Piece::T, 2, 2);
        assert(mv.cells_spec()[1] == (x + 1, y as int));
        assert(mv.cells_spec()[2] == (x - 1, y as int));
        assert(mv.cells_spec()[3] == (x as int, y - 1));
        assert(mv.cells_spec() =~= t_cells(x as int, y as int));
        assert(is_t_south(mv, x as int, y as int));
        assert(fits::<N>(mv));
    }
    let mut i: usize = 0;
    while i < 4
        invariant
            old(board).wf(),
            *board == *old(board),
            1 <= x <= 8,
            1 <= y,
            y + 2 < 6 * N,
            i <= 4,
            forall|k: int| 0 <= k < 4 ==> (#[trigger] cells@[k].0 as int, cells@[k].1 as int) == mv.cells_spec()[k],
            fits::<N>(mv),
            is_t_south(mv, x as int, y as int),
            forall|k: int| 0 <= k < i ==> !board.cell((#[trigger] mv.cells_spec()[k]).0, mv.cells_spec()[k].1),
        decreases 4 - i,
    {
        let (cx, cy) = cells[i];
        proof {
            assert((cx as int, cy as int) == mv.cells_spec()[i as int]);
        }
        if board.get(cx, cy) {
            proof {
                assert(overlaps(*old(board), mv));
            }
            return None;
        }
        i += 1;
    }
    proof {
        assert(!overlaps(*old(board), mv));
    }
    let lines = board.do_move(mv);
    if lines > 0 {
        Some(lines)
    } else {
        None
    }
}

/// Number of T pieces available soon: one if a T is among the next seven
/// queued pieces, plus one if the held piece is a T.
pub fn t_available<const N: usize>(game: &SearchGame<N>) -> (r: usize)
    ensures
        r == (if exists|i: int| 0 <= i < 7 && i < game.queue@.len() && #[trigger] game.queue@[i] == Piece::T { 1usize } else { 0usize }) + (if game.hold == Some(Piece::T) { 1usize } else { 0usize }),
{
    let len = game.queue.len();
    let mut in_queue = false;
    let mut i: usize = 0;
    while i < 7 && i < len
        invariant
            len == game.queue@.len(),
            i <= 7,
            in_queue == exists|k: int| 0 <= k < i && k < len && #[trigger] game.queue@[k] == Piece::T,
        decreases 7 - i,
    {
        if *game.queue.index(i) == Piece::T {
            in_queue = true;
        }
        i += 1;
    }
    let held = match game.hold {
        Some(p) => p == Piece::T,
        None => false,
    };
    let a: usize = if in_queue { 1 } else { 0 };
    let b: usize = if held { 1 } else { 0 };
    a + b
}


/// Number of `i < n` where bits `i` and `i + 1` of `r` differ.
pub open spec fn trans_count(r: u64, n: int) -> int
    decreases n,
{
    if n <= 0 {
        0
    } else {
        trans_count(r, n - 1) + if bit(r, n - 1) != bit(r, n) { 1int } else { 0int }
    }
}

/// Transitions of one row word: changes between adjacent cells plus the two
/// walls when the cell next to them is empty; an empty row has none.
pub open spec fn row_trans(r: u64) -> int {
    if r == 0 {
        0
    } else {
        trans_count(r, 9) + (if bit(r, 0) { 0int } else { 1int }) + (if bit(r, 9) { 0int } else { 1int })
    }
}

/// Row `y` of the board as a row word, zero above the board.
pub open spec fn row_of<const N: usize>(b: Board<N>, y: int) -> u64 {
    if 0 <= y < 6 * N {
        row_word(b.0@[y / 6], y % 6)
    } else {
        0
    }
}

/// Sum of `row_trans` over the rows below `n`.
pub open spec fn rows_trans<const N: usize>(b: Board<N>, n: int) -> int
    decreases n,
{
    if n <= 0 {
        0
    } else {
        rows_trans(b, n - 1) + row_trans(row_of(b, n - 1))
    }
}

/// The 16-bit lane `l` of `w`.
pub open spec fn lane(w: u64, l: int) -> u64 {
    (w >> ((16 * l) as u64)) & (((1u64 << 16u64) - 1) as u64)
}

/// Lane guard: every bit but the top one of each lane.
pub const LANE_SHIFT_GUARD: u64 = 0x7FFF_7FFF_7FFF_7FFF;
/// The lowest bit of each lane.
pub const LANE_LSB: u64 = 0x0001_0001_0001_0001;
/// The low nine bits of each lane.
pub const LANE_LOW9: u64 = 0x01FF_01FF_01FF_01FF;

/// The bits of the lane constants.
proof fn lemma_lane_consts(p: u64)
    requires
        p < 64,
    ensures
        bit(LANE_SHIFT_GUARD, p as int) == (p % 16 != 15),
        bit(LANE_LSB, p as int) == (p % 16 == 0),
        bit(LANE_LOW9, p as int) == (p % 16 < 9),
{
    assert(((LANE_SHIFT_GUARD >> p) & 1 == 1 <==> p % 16 != 15) && ((LANE_LSB >> p) & 1 == 1 <==> p
        % 16 == 0) && ((LANE_LOW9 >> p) & 1 == 1 <==> p % 16 < 9)) by (bit_vector)
        requires
            p < 64,
    ;
}

/// A row word has no bit at ten or above.
proof fn lemma_row_small(r: u64, k: u64)
    requires
        r <= ROW_MASK,
        10 <= k < 64,
    ensures
        !bit(r, k as int),
{
    assert((r >> k) & 1 != 1) by (bit_vector)
        requires
            r <= 0x3FF,
            10 <= k < 64,
    ;
}

/// Four row words packed one per lane.
pub open spec fn pack4(r0: u64, r1: u64, r2: u64, r3: u64) -> u64 {
    r0 | (r1 << 16u64) | (r2 << 32u64) | (r3 << 48u64)
}

/// The row word in lane `l`.
pub open spec fn pick4(r0: u64, r1: u64, r2: u64, r3: u64, l: int) -> u64 {
    if l == 0 {
        r0
    } else if l == 1 {
        r1
    } else if l == 2 {
        r2
    } else {
        r3
    }
}

/// The bits of packed rows are the bits of the rows, lane by lane.
proof fn lemma_pack4_bits(r0: u64, r1: u64, r2: u64, r3: u64, p: int)
    requires
        r0 <= ROW_MASK,
        r1 <= ROW_MASK,
        r2 <= ROW_MASK,
        r3 <= ROW_MASK,
        0 <= p < 64,
    ensures
        bit(pack4(r0, r1, r2, r3), p) == bit(pick4(r0, r1, r2, r3, p / 16), p % 16),
{
    let pu = p as u64;
    let a = r0 | (r1 << 16u64);
    let b = a | (r2 << 32u64);
    crate::bits::lemma_bit_or(b, r3 << 48u64, pu);
    crate::bits::lemma_bit_or(a, r2 << 32u64, pu);
    crate::bits::lemma_bit_or(r0, r1 << 16u64, pu);
    crate::bits::lemma_bit_shl(r1, 16, pu);
    crate::bits::lemma_bit_shl(r2, 32, pu);
    crate::bits::lemma_bit_shl(r3, 48, pu);
    if p >= 10 {
        lemma_row_small(r0, pu);
    }
    if p >= 26 {
        lemma_row_small(r1, (p - 16) as u64);
    }
    if p >= 42 {
        lemma_row_small(r2, (p - 32) as u64);
    }
    if p >= 58 {
        lemma_row_small(r3, (p - 48) as u64);
    }
}

/// The lane-nonzero word of four packed rows: bit `16 l` is set exactly
/// when row `l` is not empty, and no other bit is set.
proof fn lemma_pack4_nz(r0: u64, r1: u64, r2: u64, r3: u64)
    requires
        r0 <= ROW_MASK,
        r1 <= ROW_MASK,
        r2 <= ROW_MASK,
        r3 <= ROW_MASK,
    ensures
        pack4(r0, r1, r2, r3) + LANE_SHIFT_GUARD <= u64::MAX,
        ((((pack4(r0, r1, r2, r3) + LANE_SHIFT_GUARD) as u64) >> 15u64) & LANE_LSB) == (if r0 != 0 { 1u64 } else { 0u64 }) | (if r1 != 0 { 1u64 << 16u64 } else { 0u64 }) | (if r2 != 0 { 1u64 << 32u64 } else { 0u64 }) | (if r3 != 0 { 1u64 << 48u64 } else { 0u64 }),
{
    assert((r0 | (r1 << 16u64) | (r2 << 32u64) | (r3 << 48u64)) + LANE_SHIFT_GUARD <= u64::MAX && (((((r0 | (r1 << 16u64) | (r2 << 32u64) | (r3 << 48u64)) + LANE_SHIFT_GUARD) as u64) >> 15u64) & LANE_LSB) == (if r0 != 0 { 1u64 } else { 0u64 }) | (if r1 != 0 { 1u64 << 16u64 } else { 0u64 }) | (if r2 != 0 { 1u64 << 32u64 } else { 0u64 }) | (if r3 != 0 { 1u64 << 48u64 } else { 0u64 })) by (bit_vector)
        requires
            r0 <= 0x3FF,
            r1 <= 0x3FF,
            r2 <= 0x3FF,
            r3 <= 0x3FF,
    ;
}

/// Counting the bits of a word lane by lane.
proof fn lemma_lane_count(w: u64, l: int, j: int)
    requires
        0 <= l < 4,
        0 <= j <= 16,
    ensures
        bits_below(w, (16 * l + j) as nat) == bits_below(w, (16 * l) as nat) + bits_below(lane(w, l), j as nat),
    decreases j,
{
    if j > 0 {
        lemma_lane_count(w, l, j - 1);
        let s = (16 * l) as u64;
        crate::bits::lemma_bit_and(w >> s, ((1u64 << 16u64) - 1) as u64, (j - 1) as u64);
        crate::bits::lemma_bit_shr(w, s, (j - 1) as u64);
        crate::bits::lemma_bit_low_mask(16, (j - 1) as u64);
    }
}

/// The count over a whole word is the sum of the counts of its lanes.
proof fn lemma_lanes_sum(w: u64)
    ensures
        bits_below(w, 64) == bits_below(lane(w, 0), 16) + bits_below(lane(w, 1), 16) + bits_below(lane(w, 2), 16) + bits_below(lane(w, 3), 16),
{
    lemma_lane_count(w, 0, 16);
    lemma_lane_count(w, 1, 16);
    lemma_lane_count(w, 2, 16);
    lemma_lane_count(w, 3, 16);
    assert(bits_below(w, 0) == 0);
}

/// A lane whose bits are the transitions of a row counts them.
proof fn lemma_lane_trans(a: u64, r: u64, j: int)
    requires
        0 <= j <= 16,
        forall|k: int| 0 <= k < 16 ==> #[trigger] bit(a, k) == (k < 9 && bit(r, k) != bit(r, k + 1)),
    ensures
        bits_below(a, j as nat) == trans_count(r, if j < 9 { j } else { 9 }),
    decreases j,
{
    if j > 0 {
        lemma_lane_trans(a, r, j - 1);
    }
}

/// A lane whose only possible bit is bit 0 counts that bit.
proof fn lemma_lane_single(a: u64, j: int)
    requires
        0 <= j <= 16,
        forall|k: int| 1 <= k < 16 ==> !#[trigger] bit(a, k),
    ensures
        bits_below(a, j as nat) == if j > 0 && bit(a, 0) { 1int } else { 0int },
    decreases j,
{
    if j > 0 {
        lemma_lane_single(a, j - 1);
    }
}

/// Lane bits of a word, read through `lane`.
proof fn lemma_lane_bit(w: u64, l: int, k: int)
    requires
        0 <= l < 4,
        0 <= k < 16,
    ensures
        bit(lane(w, l), k) == bit(w, 16 * l + k),
{
    let s = (16 * l) as u64;
    crate::bits::lemma_bit_and(w >> s, ((1u64 << 16u64) - 1) as u64, k as u64);
    crate::bits::lemma_bit_shr(w, s, k as u64);
    crate::bits::lemma_bit_low_mask(16, k as u64);
}

/// One step of the packed transition count covers four rows.
proof fn lemma_swar_step(r0: u64, r1: u64, r2: u64, r3: u64)
    requires
        r0 <= ROW_MASK,
        r1 <= ROW_MASK,
        r2 <= ROW_MASK,
        r3 <= ROW_MASK,
    ensures
        ({
            let v = pack4(r0, r1, r2, r3);
            let nz = (((v + LANE_SHIFT_GUARD) as u64) >> 15u64) & LANE_LSB;
            let xor = v ^ ((v >> 1u64) & LANE_SHIFT_GUARD);
            bits_below(xor & LANE_LOW9, 64) + bits_below((!v) & LANE_LSB & nz, 64) + bits_below((!(v >> 9u64)) & LANE_LSB & nz, 64) == row_trans(r0) + row_trans(r1) + row_trans(r2) + row_trans(r3)
        }),
{
    let v = pack4(r0, r1, r2, r3);
    lemma_pack4_nz(r0, r1, r2, r3);
    let nz = (((v + LANE_SHIFT_GUARD) as u64) >> 15u64) & LANE_LSB;
    let xor = v ^ ((v >> 1u64) & LANE_SHIFT_GUARD);
    let a = xor & LANE_LOW9;
    let w0 = (!v) & LANE_LSB & nz;
    let w9 = (!(v >> 9u64)) & LANE_LSB & nz;
    let n1 = if r0 != 0 { 1u64 } else { 0u64 };
    let n2 = if r1 != 0 { 1u64 << 16u64 } else { 0u64 };
    let n3 = if r2 != 0 { 1u64 << 32u64 } else { 0u64 };
    let n4 = if r3 != 0 { 1u64 << 48u64 } else { 0u64 };
    assert forall|p: int| 0 <= p < 64 implies #[trigger] bit(nz, p) == (p % 16 == 0 && pick4(r0, r1, r2, r3, p / 16) != 0) by {
        let pu = p as u64;
        crate::bits::lemma_bit_or(n1 | n2 | n3, n4, pu);
        crate::bits::lemma_bit_or(n1 | n2, n3, pu);
        crate::bits::lemma_bit_or(n1, n2, pu);
        crate::bits::lemma_bit_single(0, pu);
        crate::bits::lemma_bit_single(16, pu);
        crate::bits::lemma_bit_single(32, pu);
        crate::bits::lemma_bit_single(48, pu);
        lemma_bits_zero(0u64);
        assert(1u64 << 0u64 == 1u64) by (bit_vector);
    }
    assert forall|l: int, k: int| 0 <= l < 4 && 0 <= k < 16 implies #[trigger] bit(lane(a, l), k) == (k < 9 && bit(pick4(r0, r1, r2, r3, l), k) != bit(pick4(r0, r1, r2, r3, l), k + 1)) by {
        let p = 16 * l + k;
        let pu = p as u64;
        lemma_lane_bit(a, l, k);
        crate::bits::lemma_bit_and(xor, LANE_LOW9, pu);
        lemma_lane_consts(pu);
        crate::bits::lemma_bit_xor(v, (v >> 1u64) & LANE_SHIFT_GUARD, pu);
        crate::bits::lemma_bit_and(v >> 1u64, LANE_SHIFT_GUARD, pu);
        crate::bits::lemma_bit_shr(v, 1, pu);
        lemma_pack4_bits(r0, r1, r2, r3, p);
        if p + 1 < 64 {
            lemma_pack4_bits(r0, r1, r2, r3, p + 1);
            assert((p + 1) / 16 == l && (p + 1) % 16 == k + 1 || k == 15);
        }
        assert(p / 16 == l && p % 16 == k);
    }
    assert forall|l: int, k: int| 0 <= l < 4 && 0 <= k < 16 implies #[trigger] bit(lane(w0, l), k) == (k == 0 && pick4(r0, r1, r2, r3, l) != 0 && !bit(pick4(r0, r1, r2, r3, l), 0)) by {
        let p = 16 * l + k;
        let pu = p as u64;
        lemma_lane_bit(w0, l, k);
        crate::bits::lemma_bit_and((!v) & LANE_LSB, nz, pu);
        crate::bits::lemma_bit_and(!v, LANE_LSB, pu);
        crate::bits::lemma_bit_not(v, pu);
        lemma_lane_consts(pu);
        lemma_pack4_bits(r0, r1, r2, r3, p);
        assert(p / 16 == l && p % 16 == k);
        assert(bit(nz, p) == (p % 16 == 0 && pick4(r0, r1, r2, r3, p / 16) != 0));
    }
    assert forall|l: int, k: int| 0 <= l < 4 && 0 <= k < 16 implies #[trigger] bit(lane(w9, l), k) == (k == 0 && pick4(r0, r1, r2, r3, l) != 0 && !bit(pick4(r0, r1, r2, r3, l), 9)) by {
        let p = 16 * l + k;
        let pu = p as u64;
        lemma_lane_bit(w9, l, k);
        crate::bits::lemma_bit_and((!(v >> 9u64)) & LANE_LSB, nz, pu);
        crate::bits::lemma_bit_and(!(v >> 9u64), LANE_LSB, pu);
        crate::bits::lemma_bit_not(v >> 9u64, pu);
        crate::bits::lemma_bit_shr(v, 9, pu);
        lemma_lane_consts(pu);
        if p + 9 < 64 {
            lemma_pack4_bits(r0, r1, r2, r3, p + 9);
            if k == 0 {
                assert((p + 9) / 16 == l && (p + 9) % 16 == 9);
            }
        }
        assert(p / 16 == l && p % 16 == k);
        assert(bit(nz, p) == (p % 16 == 0 && pick4(r0, r1, r2, r3, p / 16) != 0));
    }
    lemma_lanes_sum(a);
    lemma_lanes_sum(w0);
    lemma_lanes_sum(w9);
    assert forall|l: int| 0 <= l < 4 implies bits_below(lane(a, l), 16) + bits_below(lane(w0, l), 16) + bits_below(lane(w9, l), 16) == row_trans(#[trigger] pick4(r0, r1, r2, r3, l)) by {
        let r = pick4(r0, r1, r2, r3, l);
        assert forall|k: int| 0 <= k < 16 implies #[trigger] bit(lane(a, l), k) == (k < 9 && bit(r, k) != bit(r, k + 1)) by {
        }
        lemma_lane_trans(lane(a, l), r, 16);
        assert forall|k: int| 1 <= k < 16 implies !#[trigger] bit(lane(w0, l), k) by {
        }
        assert forall|k: int| 1 <= k < 16 implies !#[trigger] bit(lane(w9, l), k) by {
        }
        lemma_lane_single(lane(w0, l), 16);
        lemma_lane_single(lane(w9, l), 16);
        assert(bit(lane(w0, l), 0) == (r != 0 && !bit(r, 0)));
        assert(bit(lane(w9, l), 0) == (r != 0 && !bit(r, 9)));
        if r == 0 {
            lemma_bits_zero(r);
            lemma_zero_trans(r, 9);
        }
    }
    assert(pick4(r0, r1, r2, r3, 0) == r0);
    assert(pick4(r0, r1, r2, r3, 1) == r1);
    assert(pick4(r0, r1, r2, r3, 2) == r2);
    assert(pick4(r0, r1, r2, r3, 3) == r3);
}

/// An empty row has no transitions between its cells.
proof fn lemma_zero_trans(r: u64, n: int)
    requires
        r == 0,
        n <= 9,
    ensures
        trans_count(r, n) == 0,
    decreases n,
{
    lemma_bits_zero(r);
    if n > 0 {
        lemma_zero_trans(r, n - 1);
    }
}

/// Counts row transitions four rows at a time with packed lane arithmetic:
/// changes between adjacent cells plus the walls, over each non-empty row
/// below `max_height` rounded up to a multiple of four.
#[verifier::rlimit(40)]
#[verifier::spinoff_prover]
pub fn row_transitions<const N: usize>(board: &Board<N>, max_height: usize) -> (r: i32)
    requires
        max_height <= 100_000_000,
    ensures
        r == rows_trans(*board, (max_height as int + 3) / 4 * 4),
{
    let mut total = 0u32;
    let mut y: usize = 0;
    while y < max_height
        invariant
            max_height <= 100_000_000,
            y % 4 == 0,
            y <= (max_height as int + 3) / 4 * 4,
            total == rows_trans(*board, y as int),
            total <= 11 * y,
        decreases max_height + 4 - y,
    {
        let r0 = row_at(board, y);
        let r1 = row_at(board, y + 1);
        let r2 = row_at(board, y + 2);
        let r3 = row_at(board, y + 3);
        proof {
            lemma_row_at_small(*board, y as int);
            lemma_row_at_small(*board, y as int + 1);
            lemma_row_at_small(*board, y as int + 2);
            lemma_row_at_small(*board, y as int + 3);
            lemma_rows_step(*board, y as int);
        }
        let c = swar_transitions(r0, r1, r2, r3);
        total += c;
        y += 4;
    }
    total as i32
}

/// Transitions of four rows at once, one row per 16-bit lane.
fn swar_transitions(r0: u64, r1: u64, r2: u64, r3: u64) -> (c: u32)
    requires
        r0 <= ROW_MASK,
        r1 <= ROW_MASK,
        r2 <= ROW_MASK,
        r3 <= ROW_MASK,
    ensures
        c == row_trans(r0) + row_trans(r1) + row_trans(r2) + row_trans(r3),
        c <= 44,
{
    proof {
        lemma_pack4_nz(r0, r1, r2, r3);
        lemma_swar_step(r0, r1, r2, r3);
        lemma_row_trans_le(r0);
        lemma_row_trans_le(r1);
        lemma_row_trans_le(r2);
        lemma_row_trans_le(r3);
    }
    let v: u64 = r0 | (r1 << 16u64) | (r2 << 32u64) | (r3 << 48u64);
    assert(v == pack4(r0, r1, r2, r3));
    let nz: u64 = ((v + LANE_SHIFT_GUARD) >> 15u64) & LANE_LSB;
    let xor: u64 = v ^ ((v >> 1u64) & LANE_SHIFT_GUARD);
    let c1 = count_ones(xor & LANE_LOW9);
    let c2 = count_ones((!v) & LANE_LSB & nz);
    let c3 = count_ones((!(v >> 9u64)) & LANE_LSB & nz);
    c1 + c2 + c3
}

/// Four more rows add their transitions to the running sum.
proof fn lemma_rows_step<const N: usize>(b: Board<N>, y: int)
    requires
        y >= 0,
    ensures
        rows_trans(b, y + 4) == rows_trans(b, y) + row_trans(row_of(b, y)) + row_trans(row_of(b, y + 1)) + row_trans(row_of(b, y + 2)) + row_trans(row_of(b, y + 3)),
{
    reveal_with_fuel(rows_trans, 5);
}

/// A row word read through `row_at` fits in ten bits.
proof fn lemma_row_at_small<const N: usize>(board: Board<N>, y: int)
    requires
        y >= 0,
    ensures
        row_of(board, y) <= ROW_MASK,
{
    if y < 6 * N {
        crate::board::lemma_row_word_value(board.0@[y / 6], y % 6);
    }
}

/// A row has at most eleven transitions.
pub proof fn lemma_row_trans_le(r: u64)
    ensures
        0 <= row_trans(r) <= 11,
{
    lemma_trans_le(r, 9);
}

/// At most one transition between each pair of adjacent cells.
pub proof fn lemma_trans_le(r: u64, n: int)
    requires
        0 <= n,
    ensures
        0 <= trans_count(r, n) <= n,
    decreases n,
{
    if n > 0 {
        lemma_trans_le(r, n - 1);
    }
}

} // verus!
