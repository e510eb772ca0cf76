//! Known feature extractions.

use vstd::prelude::*;
use crate::bits::{bit, bits_below, count_ones, lemma_bits_zero};
use crate::board::{Board, row_word};
use crate::eval::simple::{
    bump_sq_sum, bump_sum, column_heights, covered_sum, holes_sum, lemma_row_bits, row_of,
    lemma_row_trans_le, row_trans, rows_trans, trans_count, well_depth,
};

verus! {

/// Returns the heights of each column in the board.
pub fn heights<const N: usize>(board: &Board<N>) -> (h: [usize; 10])
    requires
        board.wf(),
    ensures
        forall|x: int| 0 <= x < 10 ==> #[trigger] h@[x] == board.col_height(x),
{
    column_heights(board)
}

/// The total sum of `|h[i]-h[i+1]|` and `(h[i]-h[i+1])^2`, where `h[i]` is
/// the height of column `i`, skipping the transitions next to `well_col`.
pub fn bumpiness(heights: &[usize; 10], well_col: Option<usize>) -> (r: (i32, i32))
    requires
        forall|i: int| 0 <= i < 10 ==> #[trigger] heights@[i] <= 15000,
    ensures
        r.0 == bump_sum(heights@, well_col, 9),
        r.1 == bump_sq_sum(heights@, well_col, 9),
{
    crate::eval::simple::bumpiness(heights, well_col)
}

/// Finds the deepest well column, where both neighbours are taller, and its
/// depth; the leftmost of equally deep wells.
pub fn find_well(heights: &[usize; 10]) -> (r: (Option<usize>, i32))
    requires
        forall|i: int| 0 <= i < 10 ==> #[trigger] heights@[i] <= i32::MAX,
    ensures
        r.1 >= 0,
        forall|x: int| 0 <= x < 10 ==> well_depth(heights@, x) <= r.1,
        r.0 is None <==> r.1 == 0,
        r.0 matches Some(c) ==> c < 10 && well_depth(heights@, c as int) == r.1 && forall|x: int|
            0 <= x < c ==> well_depth(heights@, x) < r.1,
        heights@[0] < heights@[1] <= 40 ==> r.0 is Some && r.1 >= heights@[1] - heights@[0],
        heights@[9] < heights@[8] <= 40 ==> r.0 is Some && r.1 >= heights@[8] - heights@[9],
{
    crate::eval::simple::find_well(heights)
}

/// The column words of the board, one per column.
pub open spec fn board_cols<const N: usize>(board: Board<N>) -> Seq<u64> {
    Seq::new(10, |x: int| board.col_word_of(x))
}

/// Returns the number of holes (empty cells below a column's height) and of
/// covered cells (filled cells above a column's topmost hole, at most six per
/// column), over the given column heights.
pub fn holes_and_covered<const N: usize>(board: &Board<N>, heights: &[usize; 10]) -> (r: (i32, i32))
    requires
        board.wf(),
        forall|i: int| 0 <= i < 10 ==> #[trigger] heights@[i] < 64,
    ensures
        r.0 == holes_sum(board_cols(*board), heights@, 10),
        r.1 == covered_sum(board_cols(*board), heights@, 10),
{
    let cols = board.as_cols();
    assert(cols@ =~= board_cols(*board));
    crate::eval::simple::holes_and_covered(cols, heights)
}

/// Whether cell `x` of a row word is filled.
fn row_cell(row: u64, x: u64) -> (r: bool)
    requires
        x < 64,
    ensures
        r == bit(row, x as int),
{
    (row >> x) & 1 == 1
}

/// Counts row transitions: changes between adjacent cells plus the walls,
/// over each non-empty row below `max_height`.
pub fn row_transitions<const N: usize>(board: &Board<N>, max_height: usize) -> (r: i32)
    requires
        board.wf(),
        max_height <= 6 * N,
        max_height <= 100_000_000,
    ensures
        r == rows_trans(*board, max_height as int),
{
    let mut total: i32 = 0;
    let mut y: usize = 0;
    while y < max_height
        invariant
            board.wf(),
            max_height <= 6 * N,
            max_height <= 100_000_000,
            y <= max_height,
            total == rows_trans(*board, y as int),
            0 <= total <= 11 * y,
        decreases max_height - y,
    {
        let mut row = 0u64;
        let mut x: usize = 0;
        proof {
            lemma_bits_zero(0u64);
        }
        while x < 10
            invariant
                board.wf(),
                y < max_height,
                max_height <= 6 * N,
                x <= 10,
                forall|k: int| 0 <= k < 64 ==> #[trigger] bit(row, k) == (k < x && board.cell(k, y as int)),
            decreases 10 - x,
        {
            let filled = board.get(x as i32, y as i32);
            let nr = if filled { row | (1u64 << (x as u64)) } else { row };
            proof {
                assert forall|k: int| 0 <= k < 64 implies #[trigger] bit(nr, k) == (k < x + 1 && board.cell(k, y as int)) by {
                    if filled {
                        crate::bits::lemma_bit_or(row, 1u64 << (x as u64), k as u64);
                        crate::bits::lemma_bit_single(x as u64, k as u64);
                    }
                }
            }
            row = nr;
            x += 1;
        }
        proof {
            assert forall|k: int| 0 <= k < 64 implies #[trigger] bit(row, k) == bit(row_of(*board, y as int), k) by {
                lemma_row_bits(*board, y as int, k);
            }
            crate::bits::lemma_bits_ext(row, row_of(*board, y as int));
            assert(rows_trans(*board, y as int + 1) == rows_trans(*board, y as int) + row_trans(row));
        }
        if row != 0 {
            let xor = row ^ (row >> 1u64);
            let a = xor & 0x1FFu64;
            let c = count_ones(a);
            proof {
                assert(0x1FFu64 == ((1u64 << 9u64) - 1) as u64) by (bit_vector);
                assert forall|k: int| 0 <= k < 64 implies #[trigger] bit(a, k) == (k < 9 && bit(row, k) != bit(row, k + 1)) by {
                    crate::bits::lemma_bit_and(xor, 0x1FFu64, k as u64);
                    crate::bits::lemma_bit_low_mask(9, k as u64);
                    crate::bits::lemma_bit_xor(row, row >> 1u64, k as u64);
                    crate::bits::lemma_bit_shr(row, 1, k as u64);
                }
                lemma_word_trans(a, row, 64);
                lemma_row_trans_le(row);
            }
            let left = if row_cell(row, 0) { 0i32 } else { 1i32 };
            let right = if row_cell(row, 9) { 0i32 } else { 1i32 };
            total = total + c as i32 + left + right;
        } else {
            proof {
                lemma_bits_zero(row);
            }
        }
        y += 1;
    }
    total
}

/// A word whose bits are the transitions of a row counts them.
proof fn lemma_word_trans(a: u64, r: u64, j: int)
    requires
        0 <= j <= 64,
        forall|k: int| 0 <= k < 64 ==> #[trigger] bit(a, k) == (k < 9 && bit(r, k) != bit(r, k + 1)),
    ensures
        bits_below(a, j as nat) == trans_count(r, if j < 9 { j } else { 9 }),
    decreases j,
{
    if j > 0 {
        lemma_word_trans(a, r, j - 1);
    }
}


/// The packed count of `simple::row_transitions`, which rounds `max_height`
/// up to a multiple of four, agrees with the row-by-row count of
/// `row_transitions` whenever no row at or above `max_height` has a cell.
pub proof fn law_row_transitions_agree<const N: usize>(board: Board<N>, max_height: int)
    requires
        board.wf(),
        0 <= max_height,
        forall|y: int| max_height <= y ==> #[trigger] board.row_empty(y),
    ensures
        rows_trans(board, max_height) == rows_trans(board, (max_height + 3) / 4 * 4),
{
    lemma_empty_rows_add_nothing(board, max_height, (max_height + 3) / 4 * 4);
}

/// Empty rows add no transitions.
proof fn lemma_empty_rows_add_nothing<const N: usize>(board: Board<N>, lo: int, hi: int)
    requires
        board.wf(),
        0 <= lo <= hi,
        forall|y: int| lo <= y ==> #[trigger] board.row_empty(y),
    ensures
        rows_trans(board, hi) == rows_trans(board, lo),
    decreases hi - lo,
{
    if hi > lo {
        lemma_empty_rows_add_nothing(board, lo, hi - 1);
        let y = hi - 1;
        assert(board.row_empty(y));
        assert forall|k: int| 0 <= k < 64 implies #[trigger] bit(row_of(board, y), k) == bit(0u64, k) by {
            lemma_bits_zero(0u64);
            if y < 6 * N {
                lemma_row_bits(board, y, k);
                if k < 10 {
                    assert(!board.cell(k, y));
                }
            }
        }
        crate::bits::lemma_bits_ext(row_of(board, y), 0u64);
    }
}

} // verus!
