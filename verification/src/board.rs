//! A row-major banded bitboard for a 10-column board.
//!
//! Each band of 10x6 cells is one `u64` word: the cell `(x, y)` is bit
//! `(y % 6) * 10 + x` of band `y / 6`. Bits 60 to 63 of a band are always clear.

use vstd::prelude::*;
use crate::bits::{bit, bits_below, count_ones, lemma_bit_and, lemma_bit_not, lemma_bit_or, lemma_bit_single, lemma_bits_ext, lemma_bits_zero};
use crate::placement::Move;
use crate::piece::{Piece, groups_of};
use crate::data::{lemma_entry, masked_cells, place_mask_entry, placed_shape, shape_fits, table_entry};
use crate::rotation::rot_index;
use crate::header::{COL0, COL9, TALL, TLINES, WIDTH, dx_keeps, dx_mask, lemma_col_masks, lemma_le_tall, lemma_tall};

verus! {

/// A constant-banded row-major bitboard of `6 * N` rows.
#[derive(Clone, Copy, Debug)]
pub struct Board<const N: usize>(pub [u64; N]);

/// Bit position of cell `(x, y)` inside its band word.
pub open spec fn pos(x: int, y: int) -> int {
    (y % 6) * 10 + x
}

/// Whether cell `(x, y)` is filled in the band words `s`.
pub open spec fn cell_in(s: Seq<u64>, x: int, y: int) -> bool {
    0 <= x < 10 && 0 <= y < 6 * s.len() && bit(s[y / 6], pos(x, y))
}

/// Mask of the ten cells of one row.
pub const ROW_MASK: u64 = 0x3FF;

/// The ten cells of row `r` of band word `w`, as the low bits of a word.
pub open spec fn row_word(w: u64, r: int) -> u64 {
    (w >> ((10 * r) as u64)) & ROW_MASK
}

/// The row mask holds exactly the bits below ten.
pub proof fn lemma_row_mask(i: u64)
    requires
        i < 64,
    ensures
        bit(ROW_MASK, i as int) == (i < 10),
{
    assert((ROW_MASK >> i) & 1 == 1 <==> i < 10) by (bit_vector)
        requires
            i < 64,
    ;
}

/// Bit `x` of row `r` of band word `w`.
pub open spec fn row_bit(w: u64, r: int, x: int) -> bool {
    bit(w, 10 * r + x)
}

/// The bits of a row word are the cells of that row.
pub proof fn lemma_row_word(w: u64, r: int, x: int)
    requires
        0 <= r < 6,
        0 <= x < 64,
    ensures
        bit(row_word(w, r), x) == (x < 10 && bit(w, 10 * r + x)),
{
    let s = (10 * r) as u64;
    crate::bits::lemma_bit_and(w >> s, ROW_MASK, x as u64);
    crate::bits::lemma_bit_shr(w, s, x as u64);
    lemma_row_mask(x as u64);
}

/// A row word is full exactly when all ten of its cells are set, and empty
/// exactly when none is.
pub proof fn lemma_row_word_value(w: u64, r: int)
    requires
        0 <= r < 6,
    ensures
        row_word(w, r) == ROW_MASK <==> forall|x: int| 0 <= x < 10 ==> #[trigger] row_bit(w, r, x),
        row_word(w, r) == 0 <==> forall|x: int| 0 <= x < 10 ==> !#[trigger] row_bit(w, r, x),
        row_word(w, r) <= ROW_MASK,
{
    let rw = row_word(w, r);
    assert forall|x: int| 0 <= x < 64 implies bit(rw, x) == (x < 10 && #[trigger] row_bit(w, r, x)) by {
        lemma_row_word(w, r, x);
    }
    assert forall|x: int| 0 <= x < 64 implies #[trigger] bit(ROW_MASK, x) == (x < 10) by {
        lemma_row_mask(x as u64);
    }
    lemma_bits_zero(rw);
    if forall|x: int| 0 <= x < 10 ==> #[trigger] row_bit(w, r, x) {
        assert forall|i: int| 0 <= i < 64 implies bit(rw, i) == bit(ROW_MASK, i) by {
            lemma_row_word(w, r, i);
            lemma_row_mask(i as u64);
            if i < 10 {
                assert(row_bit(w, r, i));
            }
        }
        lemma_bits_ext(rw, ROW_MASK);
    }
    if rw == ROW_MASK {
        assert forall|x: int| 0 <= x < 10 implies #[trigger] row_bit(w, r, x) by {
            assert(bit(rw, x));
        }
    }
    if rw == 0 {
        assert forall|x: int| 0 <= x < 10 implies !#[trigger] row_bit(w, r, x) by {
            assert(!bit(rw, x));
        }
    }
    if forall|x: int| 0 <= x < 10 ==> !#[trigger] row_bit(w, r, x) {
        assert forall|i: int| 0 <= i < 64 implies !bit(rw, i) by {
            lemma_row_word(w, r, i);
            if i < 10 {
                assert(!row_bit(w, r, i));
            }
        }
    }
    let s = (10 * r) as u64;
    assert((w >> s) & ROW_MASK <= ROW_MASK) by (bit_vector);
}

/// Or-ing a row word into an empty row of a band sets exactly that row.
pub proof fn lemma_write_row(w: u64, row: u64, r: int)
    requires
        0 <= r < 6,
        row <= ROW_MASK,
    ensures
        forall|p: int| 0 <= p < 64 ==> bit(w | (row << ((10 * r) as u64)), p) == (bit(w, p) || (10 * r <= p < 10 * r + 10 && bit(row, p - 10 * r))),
{
    let s = (10 * r) as u64;
    assert forall|p: int| 0 <= p < 64 implies bit(w | (row << s), p) == (bit(w, p) || (10 * r <= p < 10 * r + 10 && bit(row, p - 10 * r))) by {
        crate::bits::lemma_bit_or(w, row << s, p as u64);
        crate::bits::lemma_bit_shl(row, s, p as u64);
        if p >= s && p - s >= 10 {
            assert(bit(row, p - s) ==> bit(ROW_MASK, p - s)) by {
                crate::bits::lemma_bit_and(row, ROW_MASK, (p - s) as u64);
                assert(row & ROW_MASK == row) by (bit_vector)
                    requires row <= ROW_MASK;
            }
            lemma_row_mask((p - s) as u64);
        }
    }
}

/// The line-clear marker word of band word `d`.
pub open spec fn line_word(d: u64) -> u64 {
    d & (((d & !COL9) + COL0) as u64) & COL9
}

/// The column-9 carry trick: the marker bit of row `r` is set exactly when
/// the row is full, and no other bit is set.
pub proof fn lemma_line_marker(d: u64, r: u64)
    requires
        r < 6,
        d <= TALL,
    ensures
        ((((d & (((d & !COL9) + COL0) as u64) & COL9) >> ((10 * r + 9) as u64)) & 1) == 1) == (((d >> ((10 * r) as u64)) & ROW_MASK) == ROW_MASK),
        (d & !COL9) + COL0 <= 0xFFFF_FFFF_FFFF_FFFFu64,
        line_word(d) <= TALL,
{
    assert((d & !COL9) + COL0 <= 0xFFFF_FFFF_FFFF_FFFFu64 && d & (((d & !COL9) + COL0) as u64) & COL9 <= TALL) by (bit_vector)
        requires
            d <= TALL,
    ;
    assert(((((d & (((d & !COL9) + COL0) as u64) & COL9) >> ((10 * r + 9) as u64)) & 1) == 1) == (((d >> ((10 * r) as u64)) & ROW_MASK) == ROW_MASK)) by (bit_vector)
        requires
            r < 6,
            d <= TALL,
    ;
}

impl<const N: usize> Board<N> {
    /// The band words.
    pub open spec fn bands(self) -> Seq<u64> {
        self.0@
    }

    /// Number of rows of the board.
    pub open spec fn rows() -> int {
        6 * N
    }

    /// The board is well formed: the row count fits an `i32` and no band
    /// holds a bit outside its 60 cells.
    pub open spec fn wf(self) -> bool {
        &&& 6 * N <= i32::MAX
        &&& forall|i: int| 0 <= i < N ==> #[trigger] self.0@[i] <= TALL
    }

    /// Whether cell `(x, y)` is filled.
    pub open spec fn cell(self, x: int, y: int) -> bool {
        cell_in(self.0@, x, y)
    }

    /// Whether row `y` has no filled cell.
    pub open spec fn row_empty(self, y: int) -> bool {
        forall|x: int| 0 <= x < 10 ==> !#[trigger] self.cell(x, y)
    }

    /// Whether row `y` is completely filled.
    pub open spec fn row_full(self, y: int) -> bool {
        forall|x: int| 0 <= x < 10 ==> #[trigger] self.cell(x, y)
    }

    /// Whether the board has no filled cell.
    pub open spec fn is_clear(self) -> bool {
        forall|x: int, y: int| !#[trigger] self.cell(x, y)
    }

    /// Height: one more than the topmost filled row, or zero.
    pub open spec fn is_height(self, h: int) -> bool {
        &&& 0 <= h <= 6 * N
        &&& forall|x: int, y: int| #[trigger] self.cell(x, y) ==> y < h
        &&& h > 0 ==> exists|x: int| #[trigger] self.cell(x, h - 1)
    }

    /// Number of set bits over all bands.
    pub open spec fn count_bits(self, n: int) -> nat
        decreases n,
    {
        if n <= 0 {
            0
        } else {
            self.count_bits(n - 1) + bits_below(self.0@[n - 1], 64)
        }
    }

    /// Two well formed boards with the same cells are the same board.
    pub proof fn lemma_ext(self, other: Self)
        requires
            self.wf(),
            other.wf(),
            forall|x: int, y: int| self.cell(x, y) == other.cell(x, y),
        ensures
            self == other,
    {
        assert forall|i: int| 0 <= i < N implies self.0@[i] == other.0@[i] by {
            assert forall|p: int| 0 <= p < 64 implies bit(self.0@[i], p) == bit(other.0@[i], p) by {
                lemma_tall(self.0@[i], p as u64);
                lemma_tall(other.0@[i], p as u64);
                if p < 60 {
                    let x = p % 10;
                    let y = 6 * i + p / 10;
                    assert(y / 6 == i && pos(x, y) == p);
                    assert(self.cell(x, y) == other.cell(x, y));
                }
            }
            lemma_bits_ext(self.0@[i], other.0@[i]);
        }
        assert(self.0 =~= other.0);
    }

    /// Creates a new, empty board.
    pub fn empty() -> (b: Self)
        requires
            6 * N <= i32::MAX,
        ensures
            b.wf(),
            b.is_clear(),
    {
        let b = Board([0u64; N]);
        proof {
            lemma_bits_zero(0u64);
            assert forall|x: int, y: int| !b.cell(x, y) by {
                if 0 <= y < 6 * N {
                    assert(b.0@[y / 6] == 0);
                }
            }
        }
        b
    }

    /// Number of rows of the board.
    pub fn total_height() -> (r: i32)
        requires
            6 * N <= i32::MAX,
        ensures
            r == 6 * N,
    {
        N as i32 * TLINES
    }

    /// Returns whether cell `(x, y)` is filled. Columns 10 to 13 read the bit
    /// that the packed layout places there.
    pub fn get(&self, x: i32, y: i32) -> (r: bool)
        requires
            self.wf(),
            0 <= x <= 13,
            0 <= y < 6 * N,
        ensures
            r == bit(self.0@[y / 6], pos(x as int, y as int)),
            x < 10 ==> r == self.cell(x as int, y as int),
    {
        let band = (y / TLINES) as usize;
        let row = (y % TLINES) as u32;
        assert(row < 6 && WIDTH as u32 == 10);
        let bit_index = (row * WIDTH as u32 + x as u32) as u64;
        let mask = 1u64 << bit_index;
        let r = (self.0[band] & mask) != 0;
        proof {
            lemma_bit_single_and(self.0@[band as int], bit_index);
        }
        r
    }

    /// Fills cell `(x, y)`.
    pub fn set(&mut self, x: i32, y: i32)
        requires
            old(self).wf(),
            0 <= x < 10,
            0 <= y < 6 * N,
        ensures
            final(self).wf(),
            forall|cx: int, cy: int| #[trigger] final(self).cell(cx, cy) == (old(self).cell(cx, cy) || (cx == x && cy == y)),
    {
        let band = (y / TLINES) as usize;
        let row = (y % TLINES) as u32;
        assert(row < 6 && WIDTH as u32 == 10);
        let bit_index = (row * WIDTH as u32 + x as u32) as u64;
        let mask = 1u64 << bit_index;
        let ghost before = *self;
        let nw = self.0[band] | mask;
        proof {
            assert forall|p: int| 0 <= p < 64 implies bit(nw, p) == (bit(before.0@[band as int], p) || p == bit_index) by {
                lemma_bit_or(before.0@[band as int], mask, p as u64);
                lemma_bit_single(bit_index, p as u64);
            }
            assert forall|p: int| 60 <= p < 64 implies !bit(nw, p) by {
                lemma_tall(before.0@[band as int], p as u64);
            }
            lemma_le_tall(nw);
        }
        self.0[band] = nw;
        proof {
            assert forall|cx: int, cy: int| #[trigger] self.cell(cx, cy) == (before.cell(cx, cy) || (cx == x && cy == y)) by {
                if 0 <= cx < 10 && 0 <= cy < 6 * N && cy / 6 == band {
                    assert(pos(cx, cy) == bit_index <==> (cx == x && cy == y));
                }
            }
        }
    }

    /// Empties cell `(x, y)`.
    pub fn clear(&mut self, x: i32, y: i32)
        requires
            old(self).wf(),
            0 <= x < 10,
            0 <= y < 6 * N,
        ensures
            final(self).wf(),
            forall|cx: int, cy: int| #[trigger] final(self).cell(cx, cy) == (old(self).cell(cx, cy) && !(cx == x && cy == y)),
    {
        let band = (y / TLINES) as usize;
        let row = (y % TLINES) as u32;
        assert(row < 6 && WIDTH as u32 == 10);
        let bit_index = (row * WIDTH as u32 + x as u32) as u64;
        let mask = !(1u64 << bit_index);
        let ghost before = *self;
        let nw = self.0[band] & mask;
        proof {
            assert forall|p: int| 0 <= p < 64 implies bit(nw, p) == (bit(before.0@[band as int], p) && p != bit_index) by {
                lemma_bit_and(before.0@[band as int], mask, p as u64);
                lemma_bit_not(1u64 << bit_index, p as u64);
                lemma_bit_single(bit_index, p as u64);
            }
            assert forall|p: int| 60 <= p < 64 implies !bit(nw, p) by {
                lemma_tall(before.0@[band as int], p as u64);
            }
            lemma_le_tall(nw);
        }
        self.0[band] = nw;
        proof {
            assert forall|cx: int, cy: int| #[trigger] self.cell(cx, cy) == (before.cell(cx, cy) && !(cx == x && cy == y)) by {
                if 0 <= cx < 10 && 0 <= cy < 6 * N && cy / 6 == band {
                    assert(pos(cx, cy) == bit_index <==> (cx == x && cy == y));
                }
            }
        }
    }
}


impl<const N: usize> Board<N> {
    /// Returns one more than the topmost filled row, or zero for an empty board.
    pub fn height(&self) -> (r: i32)
        requires
            self.wf(),
        ensures
            self.is_height(r as int),
    {
        let mut i = N;
        while i > 0
            invariant
                i <= N,
                self.wf(),
                forall|j: int| i <= j < N ==> self.0@[j] == 0,
            decreases i,
        {
            i -= 1;
            let bits = self.0[i];
            if bits != 0 {
                let lz = bits.leading_zeros();
                proof {
                    vstd::std_specs::bits::axiom_u64_leading_zeros(bits);
                }
                let idx = 64 - 1 - lz as i32;
                let h = i as i32 * TLINES + idx / WIDTH + 1;
                proof {
                    crate::bits::lemma_low_bit(bits >> (idx as u64));
                    assert(bit(bits, idx as int));
                    lemma_tall(bits, idx as u64);
                    assert(idx < 60);
                    let x = idx % 10;
                    let y = 6 * i + idx / 10;
                    assert(y / 6 == i && pos(x as int, y as int) == idx);
                    assert(self.cell(x as int, y as int));
                    assert(h - 1 == y);
                    assert(exists|cx: int| #[trigger] self.cell(cx, h - 1));
                    assert(0 <= h <= 6 * N);
                    assert forall|cx: int, cy: int| #[trigger] self.cell(cx, cy) implies cy < h by {
                        if cy >= h {
                            if cy / 6 > i {
                                lemma_bits_zero(self.0@[cy / 6]);
                            } else {
                                assert(cy / 6 == i);
                                assert(pos(cx, cy) > idx);
                                assert((bits >> (pos(cx, cy) as u64)) & 1u64 == 0u64);
                                assert(!bit(bits, pos(cx, cy)));
                            }
                        }
                    }
                }
                return h;
            }
        }
        proof {
            assert forall|cx: int, cy: int| #[trigger] self.cell(cx, cy) implies cy < 0 by {
                lemma_bits_zero(self.0@[cy / 6]);
            }
        }
        0
    }

    /// Returns whether any cell is filled.
    pub fn any(&self) -> (r: bool)
        requires
            self.wf(),
        ensures
            r == !self.is_clear(),
    {
        let mut acc = 0u64;
        let mut i: usize = 0;
        proof {
            lemma_bits_zero(0u64);
        }
        while i < N
            invariant
                i <= N,
                self.wf(),
                forall|p: int| 0 <= p < 64 ==> (bit(acc, p) <==> exists|j: int| 0 <= j < i && bit(#[trigger] self.0@[j], p)),
            decreases N - i,
        {
            let na = acc | self.0[i];
            proof {
                assert forall|p: int| 0 <= p < 64 implies (bit(na, p) <==> exists|j: int| 0 <= j < i + 1 && bit(#[trigger] self.0@[j], p)) by {
                    lemma_bit_or(acc, self.0@[i as int], p as u64);
                    if bit(self.0@[i as int], p) {
                        assert(bit(self.0@[i as int], p));
                    }
                }
            }
            acc = na;
            i += 1;
        }
        proof {
            lemma_bits_zero(acc);
            if acc != 0 {
                let p = choose|p: int| 0 <= p < 64 && bit(acc, p);
                let j = choose|j: int| 0 <= j < N && bit(#[trigger] self.0@[j], p);
                lemma_tall(self.0@[j], p as u64);
                let x = p % 10;
                let y = 6 * j + p / 10;
                assert(y / 6 == j && pos(x, y) == p);
                assert(self.cell(x, y));
            } else {
                assert forall|cx: int, cy: int| !#[trigger] self.cell(cx, cy) by {
                    if self.cell(cx, cy) {
                        assert(bit(acc, pos(cx, cy)));
                    }
                }
            }
        }
        acc != 0
    }

    /// Returns the number of set bits over all bands.
    pub fn popcount(&self) -> (r: u64)
        requires
            self.wf(),
        ensures
            r == self.count_bits(N as int),
    {
        let mut total = 0u64;
        let mut i: usize = 0;
        while i < N
            invariant
                i <= N,
                self.wf(),
                total == self.count_bits(i as int),
                total <= 64 * i,
            decreases N - i,
        {
            let c = count_ones(self.0[i]);
            proof {
                crate::bits::lemma_bits_below_le(self.0@[i as int], 64);
            }
            total = total + c as u64;
            i += 1;
        }
        total
    }

    /// Returns one more than the index of the topmost non-empty band, or zero.
    pub fn necessary_bands(&self) -> (r: usize)
        ensures
            r <= N,
            forall|j: int| r <= j < N ==> self.0@[j] == 0,
            r > 0 ==> self.0@[r - 1] != 0,
    {
        let mut i = N;
        while i > 0
            invariant
                i <= N,
                forall|j: int| i <= j < N ==> self.0@[j] == 0,
            decreases i,
        {
            i -= 1;
            if self.0[i] != 0 {
                return i + 1;
            }
        }
        0
    }

    /// Casts this board into a different band count, truncating or
    /// zero-extending as needed.
    pub fn cast<const M: usize>(&self) -> (out: Board<M>)
        requires
            self.wf(),
            6 * M <= i32::MAX,
        ensures
            out.wf(),
            forall|j: int| 0 <= j < M ==> out.0@[j] == if j < N { self.0@[j] } else { 0u64 },
            forall|x: int, y: int| #[trigger] out.cell(x, y) == (y < 6 * M && self.cell(x, y)),
    {
        let mut out = [0u64; M];
        let mut i: usize = 0;
        while i < M && i < N
            invariant
                self.wf(),
                i <= M,
                i <= N,
                forall|j: int| 0 <= j < M ==> out@[j] == if j < i { self.0@[j] } else { 0u64 },
            decreases M - i,
        {
            out[i] = self.0[i];
            i += 1;
        }
        let b = Board(out);
        proof {
            assert forall|j: int| 0 <= j < M implies b.0@[j] == if j < N { self.0@[j] } else { 0u64 } by {
            }
            assert forall|x: int, y: int| #[trigger] b.cell(x, y) == (y < 6 * M && self.cell(x, y)) by {
                if 0 <= y < 6 * M && y >= 6 * N {
                    lemma_bits_zero(0u64);
                }
            }
        }
        b
    }
}


impl<const N: usize> Board<N> {
    /// Relates a full row of cells to its row word.
    pub proof fn lemma_row_full(self, y: int)
        requires
            self.wf(),
            0 <= y < 6 * N,
        ensures
            self.row_full(y) == (row_word(self.0@[y / 6], y % 6) == ROW_MASK),
            self.row_empty(y) == (row_word(self.0@[y / 6], y % 6) == 0),
    {
        let w = self.0@[y / 6];
        lemma_row_word_value(w, y % 6);
        assert forall|x: int| 0 <= x < 10 implies #[trigger] self.cell(x, y) == row_bit(w, y % 6, x) by {
        }
        if self.row_full(y) {
            assert forall|x: int| 0 <= x < 10 implies #[trigger] row_bit(w, y % 6, x) by {
                assert(self.cell(x, y));
            }
        }
        if row_word(w, y % 6) == ROW_MASK {
            assert forall|x: int| 0 <= x < 10 implies #[trigger] self.cell(x, y) by {
                assert(row_bit(w, y % 6, x));
            }
        }
        if self.row_empty(y) {
            assert forall|x: int| 0 <= x < 10 implies !#[trigger] row_bit(w, y % 6, x) by {
                assert(!self.cell(x, y));
            }
        }
        if row_word(w, y % 6) == 0 {
            assert forall|x: int| 0 <= x < 10 implies !#[trigger] self.cell(x, y) by {
                assert(!row_bit(w, y % 6, x));
            }
        }
    }

    /// Returns a mask marking each full row by its column-9 cell.
    pub fn line_clears(&self) -> (out: Self)
        requires
            self.wf(),
        ensures
            out.wf(),
            forall|x: int, y: int| #[trigger] out.cell(x, y) == (x == 9 && 0 <= y < 6 * N && self.row_full(y)),
    {
        let mut out = [0u64; N];
        let mut i: usize = 0;
        while i < N
            invariant
                self.wf(),
                i <= N,
                forall|j: int| 0 <= j < i ==> out@[j] == line_word(self.0@[j]),
            decreases N - i,
        {
            let d = self.0[i];
            proof {
                lemma_line_marker(d, 0);
            }
            out[i] = d & ((d & !COL9) + COL0) & COL9;
            i += 1;
        }
        let b = Board(out);
        proof {
            assert forall|j: int| 0 <= j < N implies #[trigger] b.0@[j] <= TALL by {
                lemma_line_marker(self.0@[j], 0);
            }
            assert forall|x: int, y: int| #[trigger] b.cell(x, y) == (x == 9 && 0 <= y < 6 * N && self.row_full(y)) by {
                if 0 <= x < 10 && 0 <= y < 6 * N {
                    let d = self.0@[y / 6];
                    let r = y % 6;
                    let lw = line_word(d);
                    crate::bits::lemma_bit_and(d & (((d & !COL9) + COL0) as u64), COL9, pos(x, y) as u64);
                    lemma_col_masks(pos(x, y) as u64);
                    if x == 9 {
                        lemma_line_marker(d, r as u64);
                        self.lemma_row_full(y);
                    }
                }
            }
        }
        b
    }

    /// Shifts the entire board left by one column.
    pub fn shl(&self) -> (out: Self)
        requires
            self.wf(),
        ensures
            out.wf(),
            forall|x: int, y: int| #[trigger] out.cell(x, y) == (0 <= x < 9 && self.cell(x + 1, y)),
    {
        let m = dx_mask(-1);
        let mut out = [0u64; N];
        let mut i: usize = 0;
        while i < N
            invariant
                self.wf(),
                i <= N,
                m <= TALL,
                forall|p: int| 0 <= p < 64 ==> (bit(m, p) <==> dx_keeps(-1, p)),
                forall|j: int| 0 <= j < i ==> out@[j] == (self.0@[j] >> 1u64) & m,
            decreases N - i,
        {
            out[i] = (self.0[i] >> 1) & m;
            i += 1;
        }
        let b = Board(out);
        proof {
            assert forall|j: int| 0 <= j < N implies #[trigger] b.0@[j] <= TALL by {
                lemma_tall((self.0@[j] >> 1u64), 0);
                let w = self.0@[j] >> 1u64;
                assert(w & m <= m) by (bit_vector);
            }
            assert forall|x: int, y: int| #[trigger] b.cell(x, y) == (0 <= x < 9 && self.cell(x + 1, y)) by {
                if 0 <= x < 10 && 0 <= y < 6 * N {
                    let w = self.0@[y / 6];
                    let p = pos(x, y);
                    crate::bits::lemma_bit_and(w >> 1u64, m, p as u64);
                    crate::bits::lemma_bit_shr(w, 1, p as u64);
                    assert(pos(x + 1, y) == p + 1);
                }
            }
        }
        b
    }

    /// Shifts the entire board right by one column.
    pub fn shr(&self) -> (out: Self)
        requires
            self.wf(),
        ensures
            out.wf(),
            forall|x: int, y: int| #[trigger] out.cell(x, y) == (0 < x < 10 && self.cell(x - 1, y)),
    {
        let m = dx_mask(1);
        let mut out = [0u64; N];
        let mut i: usize = 0;
        while i < N
            invariant
                self.wf(),
                i <= N,
                m <= TALL,
                forall|p: int| 0 <= p < 64 ==> (bit(m, p) <==> dx_keeps(1, p)),
                forall|j: int| 0 <= j < i ==> out@[j] == (self.0@[j] << 1u64) & m,
            decreases N - i,
        {
            out[i] = (self.0[i] << 1) & m;
            i += 1;
        }
        let b = Board(out);
        proof {
            assert forall|j: int| 0 <= j < N implies #[trigger] b.0@[j] <= TALL by {
                let w = self.0@[j] << 1u64;
                assert(w & m <= m) by (bit_vector);
            }
            assert forall|x: int, y: int| #[trigger] b.cell(x, y) == (0 < x < 10 && self.cell(x - 1, y)) by {
                if 0 <= x < 10 && 0 <= y < 6 * N {
                    let w = self.0@[y / 6];
                    let p = pos(x, y);
                    crate::bits::lemma_bit_and(w << 1u64, m, p as u64);
                    crate::bits::lemma_bit_shl(w, 1, p as u64);
                    assert(pos(x - 1, y) == p - 1);
                }
            }
        }
        b
    }
}


/// Joins the low part of `a` shifted up by `s` bits with the part of `b`
/// that spills over from the band below.
fn combine(a: u64, b: u64, s: u32) -> (v: u64)
    requires
        1 <= s <= 60,
        b <= TALL,
    ensures
        forall|p: int| 0 <= p < 60 ==> bit(v, p) == if p >= s { bit(a, p - s) } else { bit(b, p + 60 - s) },
{
    let v = (a << ((s - 1) as u64) << 1u64) | (b >> ((60 - s) as u64));
    proof {
        assert forall|p: int| 0 <= p < 60 implies bit(v, p) == if p >= s { bit(a, p - s) } else { bit(b, p + 60 - s) } by {
            let pu = p as u64;
            let a1 = a << ((s - 1) as u64);
            crate::bits::lemma_bit_or(a1 << 1u64, b >> ((60 - s) as u64), pu);
            crate::bits::lemma_bit_shl(a1, 1, pu);
            if p >= 1 {
                crate::bits::lemma_bit_shl(a, (s - 1) as u64, (p - 1) as u64);
            }
            crate::bits::lemma_bit_shr(b, (60 - s) as u64, pu);
            if p + 60 - s < 64 {
                lemma_tall(b, (p + 60 - s) as u64);
            }
        }
    }
    v
}

impl<const N: usize> Board<N> {
    /// The band `j` of this board moved up by `dy` rows.
    fn vertical(&self, j: usize, dy: i32) -> (v: u64)
        requires
            self.wf(),
            j < N,
            dy > i32::MIN,
        ensures
            forall|r: int, x: int| 0 <= r < 6 && 0 <= x < 10 ==> #[trigger] row_bit(v, r, x) == self.cell(x, 6 * j + r - dy),
    {
        proof {
            lemma_bits_zero(0u64);
        }
        if dy == 0 {
            let v = self.0[j];
            proof {
                assert forall|r: int, x: int| 0 <= r < 6 && 0 <= x < 10 implies #[trigger] row_bit(v, r, x) == self.cell(x, 6 * j + r - dy) by {
                    assert((6 * j + r) / 6 == j && (6 * j + r) % 6 == r);
                }
            }
            v
        } else if dy > 0 {
            let q = ((dy - 1) / TLINES) as usize;
            let t = (dy - 1) % TLINES + 1;
            let s = (t * WIDTH) as u32;
            let lo = if j >= q { self.0[j - q] } else { 0 };
            let hi = if j >= q + 1 { self.0[j - q - 1] } else { 0 };
            let v = combine(lo, hi, s);
            proof {
                assert(dy == 6 * q + t);
                assert forall|r: int, x: int| 0 <= r < 6 && 0 <= x < 10 implies #[trigger] row_bit(v, r, x) == self.cell(x, 6 * j + r - dy) by {
                    let yy = 6 * j + r - dy;
                    if r >= t {
                        assert(yy == 6 * (j - q) + (r - t));
                        if j >= q {
                            assert(yy / 6 == j - q && yy % 6 == r - t);
                        }
                    } else {
                        assert(yy == 6 * (j - q - 1) + (r + 6 - t));
                        if j >= q + 1 {
                            assert(yy / 6 == j - q - 1 && yy % 6 == r + 6 - t);
                        }
                    }
                }
            }
            v
        } else {
            let e = -dy;
            let q = ((e - 1) / TLINES) as usize;
            let t = (e - 1) % TLINES + 1;
            let s = (TLINES * WIDTH - t * WIDTH) as u32;
            let a = if j + q + 1 < N { self.0[j + q + 1] } else { 0 };
            let b = if j + q < N { self.0[j + q] } else { 0 };
            let v = if s == 0 { a } else { combine(a, b, s) };
            proof {
                assert(e == 6 * q + t);
                assert forall|r: int, x: int| 0 <= r < 6 && 0 <= x < 10 implies #[trigger] row_bit(v, r, x) == self.cell(x, 6 * j + r - dy) by {
                    let yy = 6 * j + r - dy;
                    if r + t >= 6 {
                        assert(yy == 6 * (j + q + 1) + (r + t - 6));
                        if j + q + 1 < N {
                            assert(yy / 6 == j + q + 1 && yy % 6 == r + t - 6);
                        }
                    } else {
                        assert(yy == 6 * (j + q) + (r + t));
                        if j + q < N {
                            assert(yy / 6 == j + q && yy % 6 == r + t);
                        }
                    }
                }
            }
            v
        }
    }

    /// Returns this board moved right by `dx` columns and up by `dy` rows;
    /// cells moved off the board are lost.
    pub fn shifted(&self, dx: i32, dy: i32) -> (out: Self)
        requires
            self.wf(),
            -10 <= dx <= 14,
            dy > i32::MIN,
        ensures
            out.wf(),
            forall|x: int, y: int| #[trigger] out.cell(x, y) == (0 <= x < 10 && 0 <= y < 6 * N && self.cell(x - dx, y - dy)),
    {
        let m = dx_mask(dx);
        let mut out = [0u64; N];
        let mut j: usize = 0;
        while j < N
            invariant
                self.wf(),
                j <= N,
                -10 <= dx <= 14,
                dy > i32::MIN,
                m <= TALL,
                forall|p: int| 0 <= p < 64 ==> (bit(m, p) <==> dx_keeps(dx as int, p)),
                forall|k: int| 0 <= k < j ==> #[trigger] out@[k] <= TALL,
                forall|k: int, r: int, x: int| 0 <= k < j && 0 <= r < 6 && 0 <= x < 10 ==> #[trigger] row_bit(out@[k], r, x) == (0 <= x - dx < 10 && self.cell(x - dx, 6 * k + r - dy)),
            decreases N - j,
        {
            let v = self.vertical(j, dy);
            let h = if dx == 0 {
                v
            } else if dx > 0 {
                v << (dx as u64)
            } else {
                v >> ((-dx) as u64)
            };
            let w = h & m;
            proof {
                assert(w <= TALL) by (bit_vector)
                    requires w == h & m, m <= TALL;
                assert forall|r: int, x: int| 0 <= r < 6 && 0 <= x < 10 implies #[trigger] row_bit(w, r, x) == (0 <= x - dx < 10 && self.cell(x - dx, 6 * j + r - dy)) by {
                    let p = 10 * r + x;
                    crate::bits::lemma_bit_and(h, m, p as u64);
                    if dx > 0 {
                        crate::bits::lemma_bit_shl(v, dx as u64, p as u64);
                        if x >= dx {
                            assert(row_bit(v, r, x - dx) == self.cell(x - dx, 6 * j + r - dy));
                        }
                    } else if dx < 0 {
                        crate::bits::lemma_bit_shr(v, (-dx) as u64, p as u64);
                        if x - dx < 10 {
                            assert(row_bit(v, r, x - dx) == self.cell(x - dx, 6 * j + r - dy));
                        }
                    } else {
                        assert(row_bit(v, r, x) == self.cell(x, 6 * j + r - dy));
                    }
                }
            }
            out[j] = w;
            j += 1;
        }
        let b = Board(out);
        proof {
            assert forall|x: int, y: int| #[trigger] b.cell(x, y) == (0 <= x < 10 && 0 <= y < 6 * N && self.cell(x - dx, y - dy)) by {
                if 0 <= x < 10 && 0 <= y < 6 * N {
                    let k = y / 6;
                    let r = y % 6;
                    assert(y == 6 * k + r);
                    assert(row_bit(out@[k], r, x) == (0 <= x - dx < 10 && self.cell(x - dx, 6 * k + r - dy)));
                }
            }
        }
        b
    }
}


/// The rows below `n` that `lines` does not mark for clearing (by a filled
/// column-9 cell), bottom first.
pub open spec fn kept_rows<const N: usize>(lines: Board<N>, n: int) -> Seq<int>
    decreases n,
{
    if n <= 0 {
        seq![]
    } else {
        let k = kept_rows(lines, n - 1);
        if lines.cell(9, n - 1) {
            k
        } else {
            k.push(n - 1)
        }
    }
}

/// Kept rows are increasing, below `n`, and at most `n` of them.
pub proof fn lemma_kept_rows<const N: usize>(lines: Board<N>, n: int)
    requires
        n >= 0,
    ensures
        kept_rows(lines, n).len() <= n,
        forall|i: int| 0 <= i < kept_rows(lines, n).len() ==> 0 <= #[trigger] kept_rows(lines, n)[i] < n,
        forall|i: int, j: int| 0 <= i < j < kept_rows(lines, n).len() ==> kept_rows(lines, n)[i] < kept_rows(lines, n)[j],
    decreases n,
{
    if n > 0 {
        lemma_kept_rows(lines, n - 1);
    }
}

impl<const N: usize> Board<N> {
    /// A mask that only marks rows through their column-9 cell.
    pub open spec fn is_line_mask(self) -> bool {
        forall|x: int, y: int| #[trigger] self.cell(x, y) ==> x == 9
    }

    /// Clears all rows flagged in `lines` (by their column-9 cell) and
    /// compacts the remaining rows downward.
    pub fn clear_lines(&mut self, lines: &Self)
        requires
            old(self).wf(),
            lines.wf(),
            lines.is_line_mask(),
        ensures
            final(self).wf(),
            forall|x: int, y: int| #[trigger] final(self).cell(x, y) == (0 <= y < kept_rows(*lines, 6 * N).len() && old(self).cell(x, kept_rows(*lines, 6 * N)[y])),
    {
        let ghost before = *self;
        let total = N * 6;
        let mut out = [0u64; N];
        let mut d: usize = 0;
        let mut y: usize = 0;
        proof {
            lemma_bits_zero(0u64);
        }
        while y < total
            invariant
                before.wf(),
                *self == before,
                lines.wf(),
                total == 6 * N,
                y <= total,
                d <= y,
                d == kept_rows(*lines, y as int).len(),
                forall|k: int| 0 <= k < N ==> #[trigger] out@[k] <= TALL,
                forall|x: int, yy: int| #[trigger] cell_in(out@, x, yy) == (0 <= yy < d && before.cell(x, kept_rows(*lines, y as int)[yy])),
            decreases total - y,
        {
            let band = y / 6;
            let r = y % 6;
            let flag = (lines.0[band] >> ((r * 10 + 9) as u64)) & 1;
            proof {
                crate::bits::lemma_low_bit(lines.0@[band as int] >> ((r * 10 + 9) as u64));
                lemma_kept_rows(*lines, y as int);
                assert(pos(9, y as int) == r * 10 + 9);
            }
            if flag == 0 {
                let row = (self.0[band] >> ((r * 10) as u64)) & ROW_MASK;
                let db = d / 6;
                let dr = d % 6;
                let nw = out[db] | (row << ((dr * 10) as u64));
                let ghost old_out = out@;
                proof {
                    lemma_row_word_value(before.0@[band as int], r as int);
                    lemma_write_row(out@[db as int], row, dr as int);
                    assert forall|p: int| 60 <= p < 64 implies !bit(nw, p) by {
                        lemma_tall(out@[db as int], p as u64);
                    }
                    lemma_le_tall(nw);
                }
                out[db] = nw;
                proof {
                    let ko = kept_rows(*lines, y as int);
                    let kn = kept_rows(*lines, y as int + 1);
                    assert(kn == ko.push(y as int));
                    assert forall|x: int, yy: int| #[trigger] cell_in(out@, x, yy) == (0 <= yy < d + 1 && before.cell(x, kn[yy])) by {
                        if 0 <= x < 10 && 0 <= yy < 6 * N {
                            assert(cell_in(old_out, x, yy) == (0 <= yy < d && before.cell(x, ko[yy])));
                            if yy < d {
                                assert(kn[yy] == ko[yy]);
                            }
                            if yy / 6 == db {
                                let p = pos(x, yy);
                                if yy == d {
                                    assert(p == 10 * dr + x);
                                    lemma_row_word(before.0@[band as int], r as int, x);
                                    assert(pos(x, y as int) == 10 * r + x);
                                } else {
                                    assert(p < 10 * dr || p >= 10 * dr + 10);
                                }
                            }
                        }
                    }
                }
                d += 1;
            } else {
                proof {
                    assert(kept_rows(*lines, y as int + 1) == kept_rows(*lines, y as int));
                }
            }
            y += 1;
        }
        self.0 = out;
    }
}


/// Set bits of `w` below `n` that sit in column 9 of their row.
pub open spec fn col9_count(w: u64, n: nat) -> nat
    decreases n,
{
    if n == 0 {
        0
    } else {
        col9_count(w, (n - 1) as nat) + if (n - 1) % 10 == 9 && bit(w, n - 1) { 1nat } else { 0nat }
    }
}

/// A word whose bits all sit in column 9 below bit 60 has as many bits as
/// column-9 bits.
pub proof fn lemma_col9_count(w: u64, n: nat)
    requires
        n <= 64,
        forall|p: int| 0 <= p < 64 && bit(w, p) ==> p < 60 && p % 10 == 9,
    ensures
        bits_below(w, n) == col9_count(w, n),
    decreases n,
{
    if n > 0 {
        lemma_col9_count(w, (n - 1) as nat);
    }
}

/// Number of rows below `n` that `lines` flags.
pub open spec fn flagged_rows<const N: usize>(lines: Board<N>, n: int) -> int {
    n - kept_rows(lines, n).len()
}

/// The rows below `n` that are not full once the cells `cs` are added to
/// `b`.
pub open spec fn open_rows_cells<const N: usize>(b: Board<N>, cs: Seq<(int, int)>, n: int) -> Seq<int>
    decreases n,
{
    if n <= 0 {
        seq![]
    } else {
        let k = open_rows_cells(b, cs, n - 1);
        if full_after_cells(b, cs, n - 1) {
            k
        } else {
            k.push(n - 1)
        }
    }
}

/// Whether cell `(x, y)` is filled once the cells `cs` are added to `b`.
pub open spec fn cell_after_cells<const N: usize>(b: Board<N>, cs: Seq<(int, int)>, x: int, y: int) -> bool {
    b.cell(x, y) || cs.contains((x, y))
}

/// Whether row `y` is full once the cells `cs` are added to `b`.
pub open spec fn full_after_cells<const N: usize>(b: Board<N>, cs: Seq<(int, int)>, y: int) -> bool {
    0 <= y < 6 * N && forall|x: int| 0 <= x < 10 ==> #[trigger] cell_after_cells(b, cs, x, y)
}

/// `out` is board `b` with the cells `cs` added and the completed rows
/// cleared: the rows that stay incomplete, moved down in order.
pub open spec fn moved_cells<const N: usize>(b: Board<N>, cs: Seq<(int, int)>, out: Board<N>) -> bool {
    let k = open_rows_cells(b, cs, 6 * N);
    &&& out.wf()
    &&& forall|x: int, y: int| #[trigger] out.cell(x, y) == (0 <= y < k.len() && cell_after_cells(b, cs, x, k[y]))
}

/// The rows below `n` that are not full once move `m` is added to `b`.
pub open spec fn open_rows_after<const N: usize>(b: Board<N>, m: Move, n: int) -> Seq<int> {
    open_rows_cells(b, m.cells_spec(), n)
}

/// Whether cell `(x, y)` is filled once move `m` is added to `b`.
pub open spec fn cell_after<const N: usize>(b: Board<N>, m: Move, x: int, y: int) -> bool {
    cell_after_cells(b, m.cells_spec(), x, y)
}

/// The number of rows that move `m` completes on board `b`.
pub open spec fn lines_after<const N: usize>(b: Board<N>, m: Move) -> int {
    6 * N - open_rows_after(b, m, 6 * N).len()
}

/// `out` is board `b` with move `m` placed and the completed rows cleared:
/// the rows that stay incomplete, moved down in order.
pub open spec fn moved<const N: usize>(b: Board<N>, m: Move, out: Board<N>) -> bool {
    moved_cells(b, m.cells_spec(), out)
}

/// Whether every cell of move `m` lies on a board of `N` bands.
pub open spec fn fits<const N: usize>(m: Move) -> bool {
    forall|i: int| 0 <= i < 4 ==> 0 <= (#[trigger] m.cells_spec()[i]).0 < 10 && 0 <= m.cells_spec()[i].1 < 6 * N
}

impl<const N: usize> Board<N> {
    /// The number of flagged rows equals the number of set bits of a line mask.
    #[verifier::rlimit(40)]
    #[verifier::spinoff_prover]
    pub proof fn lemma_flag_count(self, k: int, r: int)
        requires
            self.wf(),
            self.is_line_mask(),
            0 <= k <= N,
            0 <= r <= 6,
            k == N ==> r == 0,
        ensures
            flagged_rows(self, 6 * k + r) == self.count_bits(k) + if k < N { col9_count(self.0@[k], (10 * r) as nat) } else { 0 },
        decreases k, r,
    {
        if r == 0 {
            if k > 0 {
                self.lemma_flag_count(k - 1, 6);
                let w = self.0@[k - 1];
                assert forall|p: int| 0 <= p < 64 && bit(w, p) implies p < 60 && p % 10 == 9 by {
                    lemma_tall(w, p as u64);
                    let y = 6 * (k - 1) + p / 10;
                    assert(y / 6 == k - 1 && pos(p % 10, y) == p);
                    assert(self.cell(p % 10, y));
                }
                lemma_col9_count(w, 64);
                assert(col9_count(w, 64) == col9_count(w, 60)) by {
                    reveal_with_fuel(col9_count, 5);
                }
            }
        } else {
            self.lemma_flag_count(k, r - 1);
            let w = self.0@[k];
            let y = 6 * k + r - 1;
            assert(y / 6 == k && y % 6 == r - 1);
            assert(pos(9, y) == 10 * (r - 1) + 9);
            assert(col9_count(w, (10 * r) as nat) == col9_count(w, (10 * (r - 1)) as nat) + if bit(w, 10 * (r - 1) + 9) { 1nat } else { 0nat }) by {
                reveal_with_fuel(col9_count, 11);
            }
        }
    }

    /// Rows flagged by the line mask of `b` with move `m` added are exactly
    /// the rows full after the move.
    pub proof fn lemma_kept_after(self, b: Board<N>, cs: Seq<(int, int)>, n: int)
        requires
            forall|y: int| 0 <= y < 6 * N ==> self.cell(9, y) == full_after_cells(b, cs, y),
            0 <= n <= 6 * N,
        ensures
            kept_rows(self, n) == open_rows_cells(b, cs, n),
        decreases n,
    {
        if n > 0 {
            self.lemma_kept_after(b, cs, n - 1);
        }
    }
}

/// With no full row, every row is kept, in order.
pub proof fn lemma_open_rows_all<const N: usize>(b: Board<N>, cs: Seq<(int, int)>, n: int)
    requires
        0 <= n <= 6 * N,
        forall|y: int| 0 <= y < 6 * N ==> !full_after_cells(b, cs, y),
    ensures
        open_rows_cells(b, cs, n).len() == n,
        forall|i: int| 0 <= i < n ==> #[trigger] open_rows_cells(b, cs, n)[i] == i,
    decreases n,
{
    if n > 0 {
        lemma_open_rows_all(b, cs, n - 1);
    }
}

impl<const N: usize> Board<N> {
    /// Places a piece by explicit cell writes, clears the rows it completes,
    /// and returns the number of cleared rows.
    pub fn do_move(&mut self, placement: Move) -> (n: u64)
        requires
            old(self).wf(),
            fits::<N>(placement),
        ensures
            moved(*old(self), placement, *final(self)),
            n == lines_after(*old(self), placement),
            n <= 6 * N,
    {
        let ghost before = *self;
        let cells = placement.cells();
        proof {
            assert(placement.cells_spec()[0] == (cells@[0].0 as int, cells@[0].1 as int));
            assert(placement.cells_spec()[1] == (cells@[1].0 as int, cells@[1].1 as int));
            assert(placement.cells_spec()[2] == (cells@[2].0 as int, cells@[2].1 as int));
            assert(placement.cells_spec()[3] == (cells@[3].0 as int, cells@[3].1 as int));
        }
        self.set(cells[0].0, cells[0].1);
        self.set(cells[1].0, cells[1].1);
        self.set(cells[2].0, cells[2].1);
        self.set(cells[3].0, cells[3].1);
        let ghost placed = *self;
        proof {
            assert forall|x: int, y: int| #[trigger] placed.cell(x, y) == cell_after(before, placement, x, y) by {
                let cs = placement.cells_spec();
                if cs.contains((x, y)) {
                    let i = choose|i: int| 0 <= i < 4 && cs[i] == (x, y);
                    assert(i == 0 || i == 1 || i == 2 || i == 3);
                }
                if (x, y) == cs[0] || (x, y) == cs[1] || (x, y) == cs[2] || (x, y) == cs[3] {
                    assert(cs.contains((x, y)));
                }
            }
        }
        self.clear_completed(Ghost(before), Ghost(placement.cells_spec()))
    }

    /// Clears the rows that are full on this board, which is `before` with
    /// the cells `cs` added, and returns how many there were.
    fn clear_completed(&mut self, Ghost(before): Ghost<Board<N>>, Ghost(cs): Ghost<Seq<(int, int)>>) -> (n: u64)
        requires
            old(self).wf(),
            forall|x: int, y: int| #[trigger] old(self).cell(x, y) == cell_after_cells(before, cs, x, y),
        ensures
            moved_cells(before, cs, *final(self)),
            n == 6 * N - open_rows_cells(before, cs, 6 * N).len(),
            n <= 6 * N,
    {
        let ghost placed = *self;
        proof {
            assert forall|y: int| 0 <= y < 6 * N implies placed.row_full(y) == full_after_cells(before, cs, y) by {
                if placed.row_full(y) {
                    assert forall|x: int| 0 <= x < 10 implies #[trigger] cell_after_cells(before, cs, x, y) by {
                        assert(placed.cell(x, y));
                    }
                }
                if full_after_cells(before, cs, y) {
                    assert forall|x: int| 0 <= x < 10 implies #[trigger] placed.cell(x, y) by {
                        assert(cell_after_cells(before, cs, x, y));
                    }
                }
            }
        }
        let clears = self.line_clears();
        proof {
            clears.lemma_kept_after(before, cs, 6 * N);
            lemma_kept_rows(clears, 6 * N);
        }
        if clears.any() {
            let n = clears.popcount();
            proof {
                clears.lemma_flag_count(N as int, 0);
            }
            self.clear_lines(&clears);
            n
        } else {
            proof {
                assert forall|y: int| 0 <= y < 6 * N implies !full_after_cells(before, cs, y) by {
                    assert(!clears.cell(9, y));
                }
                lemma_open_rows_all(before, cs, 6 * N);
            }
            0
        }
    }
}

impl<const N: usize> Board<N> {
    /// Cells filled in both boards.
    pub fn bitand(self, rhs: Self) -> (out: Self)
        requires
            self.wf(),
            rhs.wf(),
        ensures
            out.wf(),
            forall|x: int, y: int| #[trigger] out.cell(x, y) == (self.cell(x, y) && rhs.cell(x, y)),
    {
        let mut out = [0u64; N];
        let mut i: usize = 0;
        while i < N
            invariant
                self.wf(),
                rhs.wf(),
                i <= N,
                forall|j: int| 0 <= j < i ==> #[trigger] out@[j] == self.0@[j] & rhs.0@[j],
            decreases N - i,
        {
            out[i] = self.0[i] & rhs.0[i];
            i += 1;
        }
        let b = Board(out);
        proof {
            assert forall|j: int| 0 <= j < N implies #[trigger] b.0@[j] <= TALL by {
                let w = b.0@[j];
                assert forall|p: int| 60 <= p < 64 implies !bit(w, p) by {
                    lemma_bit_and(self.0@[j], rhs.0@[j], p as u64);
                    lemma_tall(self.0@[j], p as u64);
                    lemma_tall(rhs.0@[j], p as u64);
                }
                lemma_le_tall(w);
            }
            assert forall|x: int, y: int| #[trigger] b.cell(x, y) == (self.cell(x, y) && rhs.cell(x, y)) by {
                if 0 <= x < 10 && 0 <= y < 6 * N {
                    lemma_bit_and(self.0@[y / 6], rhs.0@[y / 6], pos(x, y) as u64);
                }
            }
        }
        b
    }

    /// Replaces this board by `self.bitand(rhs)`.
    pub fn bitand_assign(&mut self, rhs: Self)
        requires
            old(self).wf(),
            rhs.wf(),
        ensures
            final(self).wf(),
            forall|x: int, y: int| #[trigger] final(self).cell(x, y) == (old(self).cell(x, y) && rhs.cell(x, y)),
    {
        *self = self.bitand(rhs);
    }

    /// Cells filled in either board.
    pub fn bitor(self, rhs: Self) -> (out: Self)
        requires
            self.wf(),
            rhs.wf(),
        ensures
            out.wf(),
            forall|x: int, y: int| #[trigger] out.cell(x, y) == (self.cell(x, y) || rhs.cell(x, y)),
    {
        let mut out = [0u64; N];
        let mut i: usize = 0;
        while i < N
            invariant
                self.wf(),
                rhs.wf(),
                i <= N,
                forall|j: int| 0 <= j < i ==> #[trigger] out@[j] == self.0@[j] | rhs.0@[j],
            decreases N - i,
        {
            out[i] = self.0[i] | rhs.0[i];
            i += 1;
        }
        let b = Board(out);
        proof {
            assert forall|j: int| 0 <= j < N implies #[trigger] b.0@[j] <= TALL by {
                let w = b.0@[j];
                assert forall|p: int| 60 <= p < 64 implies !bit(w, p) by {
                    lemma_bit_or(self.0@[j], rhs.0@[j], p as u64);
                    lemma_tall(self.0@[j], p as u64);
                    lemma_tall(rhs.0@[j], p as u64);
                }
                lemma_le_tall(w);
            }
            assert forall|x: int, y: int| #[trigger] b.cell(x, y) == (self.cell(x, y) || rhs.cell(x, y)) by {
                if 0 <= x < 10 && 0 <= y < 6 * N {
                    lemma_bit_or(self.0@[y / 6], rhs.0@[y / 6], pos(x, y) as u64);
                }
            }
        }
        b
    }

    /// Replaces this board by `self.bitor(rhs)`.
    pub fn bitor_assign(&mut self, rhs: Self)
        requires
            old(self).wf(),
            rhs.wf(),
        ensures
            final(self).wf(),
            forall|x: int, y: int| #[trigger] final(self).cell(x, y) == (old(self).cell(x, y) || rhs.cell(x, y)),
    {
        *self = self.bitor(rhs);
    }

    /// Cells filled in exactly one of the boards.
    pub fn bitxor(self, rhs: Self) -> (out: Self)
        requires
            self.wf(),
            rhs.wf(),
        ensures
            out.wf(),
            forall|x: int, y: int| #[trigger] out.cell(x, y) == (self.cell(x, y) != rhs.cell(x, y)),
    {
        let mut out = [0u64; N];
        let mut i: usize = 0;
        while i < N
            invariant
                self.wf(),
                rhs.wf(),
                i <= N,
                forall|j: int| 0 <= j < i ==> #[trigger] out@[j] == self.0@[j] ^ rhs.0@[j],
            decreases N - i,
        {
            out[i] = self.0[i] ^ rhs.0[i];
            i += 1;
        }
        let b = Board(out);
        proof {
            assert forall|j: int| 0 <= j < N implies #[trigger] b.0@[j] <= TALL by {
                let w = b.0@[j];
                assert forall|p: int| 60 <= p < 64 implies !bit(w, p) by {
                    crate::bits::lemma_bit_xor(self.0@[j], rhs.0@[j], p as u64);
                    lemma_tall(self.0@[j], p as u64);
                    lemma_tall(rhs.0@[j], p as u64);
                }
                lemma_le_tall(w);
            }
            assert forall|x: int, y: int| #[trigger] b.cell(x, y) == (self.cell(x, y) != rhs.cell(x, y)) by {
                if 0 <= x < 10 && 0 <= y < 6 * N {
                    crate::bits::lemma_bit_xor(self.0@[y / 6], rhs.0@[y / 6], pos(x, y) as u64);
                }
            }
        }
        b
    }

    /// Replaces this board by `self.bitxor(rhs)`.
    pub fn bitxor_assign(&mut self, rhs: Self)
        requires
            old(self).wf(),
            rhs.wf(),
        ensures
            final(self).wf(),
            forall|x: int, y: int| #[trigger] final(self).cell(x, y) == (old(self).cell(x, y) != rhs.cell(x, y)),
    {
        *self = self.bitxor(rhs);
    }

    /// The cells of the board that are not filled.
    pub fn not(self) -> (out: Self)
        requires
            self.wf(),
        ensures
            out.wf(),
            forall|x: int, y: int| #[trigger] out.cell(x, y) == (0 <= x < 10 && 0 <= y < 6 * N && !self.cell(x, y)),
    {
        let mut out = [0u64; N];
        let mut i: usize = 0;
        while i < N
            invariant
                self.wf(),
                i <= N,
                forall|j: int| 0 <= j < i ==> #[trigger] out@[j] == TALL & !self.0@[j],
            decreases N - i,
        {
            out[i] = TALL & !self.0[i];
            i += 1;
        }
        let b = Board(out);
        proof {
            assert forall|j: int| 0 <= j < N implies #[trigger] b.0@[j] <= TALL by {
                lemma_tall(!self.0@[j], 0);
            }
            assert forall|x: int, y: int| #[trigger] b.cell(x, y) == (0 <= x < 10 && 0 <= y < 6 * N && !self.cell(x, y)) by {
                if 0 <= x < 10 && 0 <= y < 6 * N {
                    lemma_bit_and(TALL, !self.0@[y / 6], pos(x, y) as u64);
                    lemma_bit_not(self.0@[y / 6], pos(x, y) as u64);
                    lemma_tall(self.0@[y / 6], pos(x, y) as u64);
                }
            }
        }
        b
    }
}


/// Cell `(x, y)` comes at or after cell `(x0, y0)` in row-major order.
pub open spec fn at_or_after(x0: int, y0: int, x: int, y: int) -> bool {
    y > y0 || (y == y0 && x >= x0)
}

/// An iterator over the filled cells of a board, row by row from the
/// bottom, left to right within a row.
pub struct BoardIter<'a, const N: usize> {
    board: &'a Board<N>,
    x: i32,
    y: i32,
}

impl<'a, const N: usize> BoardIter<'a, N> {
    /// The board being walked.
    pub closed spec fn board_spec(self) -> Board<N> {
        *self.board
    }

    /// The next position to look at.
    pub closed spec fn position(self) -> (int, int) {
        (self.x as int, self.y as int)
    }

    /// The iterator stands on the board, or just past its top.
    pub closed spec fn wf(self) -> bool {
        &&& self.board.wf()
        &&& 0 <= self.x <= 10
        &&& 0 <= self.y <= 6 * N
        &&& self.y == 6 * N ==> self.x == 0
    }

    /// Returns the next filled cell at or after the current position, and
    /// moves just past it; returns `None` once no filled cell remains.
    pub fn next(&mut self) -> (r: Option<(i32, i32)>)
        requires
            old(self).wf(),
        ensures
            final(self).wf(),
            final(self).board_spec() == old(self).board_spec(),
            r is Some ==> ({
                let c = r->0;
                let cx = c.0 as int;
                let cy = c.1 as int;
                &&& old(self).board_spec().cell(cx, cy)
                &&& at_or_after(old(self).position().0, old(self).position().1, cx, cy)
                &&& forall|x: int, y: int| #[trigger] old(self).board_spec().cell(x, y) && at_or_after(old(self).position().0, old(self).position().1, x, y) ==> at_or_after(cx, cy, x, y)
                &&& final(self).position() == (cx + 1, cy)
            }),
            r is None ==> ({
                &&& forall|x: int, y: int| #[trigger] old(self).board_spec().cell(x, y) ==> !at_or_after(old(self).position().0, old(self).position().1, x, y)
                &&& final(self).position() == (0int, 6 * N)
            }),
    {
        let ghost x0 = old(self).position().0;
        let ghost y0 = old(self).position().1;
        let total = Board::<N>::total_height();
        let b = self.board;
        let mut x = self.x;
        let mut y = self.y;
        while y < total
            invariant
                b.wf(),
                *self == *old(self),
                x0 == old(self).position().0,
                y0 == old(self).position().1,
                b == self.board,
                *b == old(self).board_spec(),
                total == 6 * N,
                0 <= x <= 10,
                0 <= y <= 6 * N,
                y == 6 * N ==> x == 0,
                at_or_after(x0, y0, x as int, y as int),
                forall|cx: int, cy: int| #[trigger] b.cell(cx, cy) && at_or_after(x0, y0, cx, cy) ==> at_or_after(x as int, y as int, cx, cy),
            decreases 6 * N - y, 11 - x,
        {
            if x < WIDTH {
                if b.get(x, y) {
                    self.x = x + 1;
                    self.y = y;
                    return Some((x, y));
                }
                x += 1;
            } else {
                x = 0;
                y += 1;
            }
        }
        self.x = x;
        self.y = y;
        None
    }
}

impl<const N: usize> Board<N> {
    /// Returns an iterator over the filled cells of the board.
    pub fn iter(&self) -> (it: BoardIter<'_, N>)
        requires
            self.wf(),
        ensures
            it.wf(),
            it.board_spec() == *self,
            it.position() == (0int, 0int),
    {
        BoardIter { board: self, x: 0, y: 0 }
    }
}


impl<const N: usize> Board<N> {
    /// One more than the topmost filled cell of column `x` among the rows
    /// below `n`, or zero when there is none.
    pub open spec fn top_filled(self, x: int, n: int) -> int
        decreases n,
    {
        if n <= 0 {
            0
        } else if self.cell(x, n - 1) {
            n
        } else {
            self.top_filled(x, n - 1)
        }
    }

    /// Height of column `x`: one more than its topmost filled cell, or zero.
    pub open spec fn col_height(self, x: int) -> int {
        self.top_filled(x, 6 * N)
    }

    /// `top_filled` is the topmost filled cell plus one, and nothing above
    /// it is filled.
    pub proof fn lemma_top_filled(self, x: int, n: int)
        requires
            n >= 0,
        ensures
            0 <= self.top_filled(x, n) <= n,
            forall|y: int| self.top_filled(x, n) <= y < n ==> !#[trigger] self.cell(x, y),
            self.top_filled(x, n) > 0 ==> self.cell(x, self.top_filled(x, n) - 1),
        decreases n,
    {
        if n > 0 {
            self.lemma_top_filled(x, n - 1);
        }
    }

    /// The properties of `lemma_top_filled` determine `top_filled`.
    pub proof fn lemma_top_filled_unique(self, x: int, n: int, h: int)
        requires
            0 <= h <= n,
            forall|y: int| h <= y < n ==> !#[trigger] self.cell(x, y),
            h > 0 ==> self.cell(x, h - 1),
        ensures
            self.top_filled(x, n) == h,
        decreases n,
    {
        if n > h {
            self.lemma_top_filled_unique(x, n - 1, h);
        } else if n > 0 && h == n {
        }
    }
}

/// Testing one bit with a single-bit mask.
pub proof fn lemma_bit_single_and(w: u64, b: u64)
    requires
        b < 64,
    ensures
        ((w & (1u64 << b)) != 0) == bit(w, b as int),
{
    assert(((w & (1u64 << b)) != 0) == ((w >> b) & 1 == 1)) by (bit_vector)
        requires
            b < 64,
    ;
}


impl<const N: usize> Board<N> {
    /// The column word of column `x`: bit `y` is cell `(x, y)`, for the
    /// rows below 64.
    pub open spec fn col_word_of(self, x: int) -> u64 {
        choose|c: u64| self.is_col_word(x, c)
    }

    /// Whether bit `y` of `c` is cell `(x, y)` for every row below 64.
    pub open spec fn is_col_word(self, x: int, c: u64) -> bool {
        forall|y: int| 0 <= y < 64 ==> #[trigger] bit(c, y) == self.cell(x, y)
    }

    /// A word whose bits are the cells of column `x` is its column word.
    pub proof fn lemma_col_word_of(self, x: int, c: u64)
        requires
            forall|y: int| 0 <= y < 64 ==> #[trigger] bit(c, y) == self.cell(x, y),
        ensures
            self.col_word_of(x) == c,
    {
        assert(self.is_col_word(x, c));
        let d = self.col_word_of(x);
        assert(self.is_col_word(x, d));
        lemma_bits_ext(c, d);
    }

    /// Returns the column words of the ten columns: bit `y` of word `x` is
    /// cell `(x, y)`, for the rows below 64.
    pub fn as_cols(&self) -> (cols: [u64; 10])
        requires
            self.wf(),
        ensures
            forall|x: int, y: int| 0 <= x < 10 && 0 <= y < 64 ==> #[trigger] bit(cols@[x], y) == self.cell(x, y),
            forall|x: int| 0 <= x < 10 ==> #[trigger] cols@[x] == self.col_word_of(x),
    {
        let mut cols = [0u64; 10];
        proof {
            lemma_bits_zero(0u64);
        }
        let rows: usize = if N >= 11 { 64 } else { N * 6 };
        let mut y: usize = 0;
        while y < rows
            invariant
                self.wf(),
                rows <= 64,
                rows <= 6 * N,
                rows == 64 || rows == 6 * N,
                y <= rows,
                forall|x: int, yy: int| 0 <= x < 10 && 0 <= yy < 64 ==> #[trigger] bit(cols@[x], yy) == (yy < y && self.cell(x, yy)),
            decreases rows - y,
        {
            let mut x: usize = 0;
            while x < 10
                invariant
                    self.wf(),
                    y < rows,
                    rows <= 64,
                    rows <= 6 * N,
                    x <= 10,
                    forall|c: int, yy: int| 0 <= c < 10 && 0 <= yy < 64 ==> #[trigger] bit(cols@[c], yy) == ((if c < x { yy < y + 1 } else { yy < y }) && self.cell(c, yy)),
                decreases 10 - x,
            {
                let filled = self.get(x as i32, y as i32);
                let nw = if filled { cols[x] | (1u64 << (y as u64)) } else { cols[x] };
                proof {
                    assert forall|yy: int| 0 <= yy < 64 implies bit(nw, yy) == (yy < y + 1 && self.cell(x as int, yy)) by {
                        if filled {
                            lemma_bit_or(cols@[x as int], 1u64 << (y as u64), yy as u64);
                            lemma_bit_single(y as u64, yy as u64);
                        }
                    }
                }
                cols[x] = nw;
                x += 1;
            }
            y += 1;
        }
        proof {
            assert forall|x: int| 0 <= x < 10 implies #[trigger] cols@[x] == self.col_word_of(x) by {
                assert forall|yy: int| 0 <= yy < 64 implies #[trigger] bit(cols@[x], yy) == self.cell(x, yy) by {
                    assert(bit(cols@[x], yy) == (yy < rows && self.cell(x, yy)));
                }
                self.lemma_col_word_of(x, cols@[x]);
            }
        }
        cols
    }
}

impl<const N: usize> Board<N> {
    /// The board's height: one more than its topmost filled row, or zero.
    pub open spec fn height_of(self) -> int {
        choose|h: int| self.is_height(h)
    }

    /// A board has one height, and `height_of` is it.
    pub proof fn lemma_height_of(self, h: int)
        requires
            self.is_height(h),
        ensures
            self.height_of() == h,
    {
        let g = self.height_of();
        assert(self.is_height(g));
        if g < h {
            let x = choose|x: int| #[trigger] self.cell(x, h - 1);
            assert(self.cell(x, h - 1));
        } else if h < g {
            let x = choose|x: int| #[trigger] self.cell(x, g - 1);
            assert(self.cell(x, g - 1));
        }
    }
}

impl<const N: usize> Board<N> {
    /// Sets the bits of `bits` in band `w`; below bit 60 they are the cells
    /// of `cs` in that band.
    fn or_band(&mut self, w: usize, bits: u64, Ghost(cs): Ghost<Seq<(int, int)>>)
        requires
            old(self).wf(),
            w < N,
            forall|q: int| 0 <= q < 64 ==> #[trigger] bit(bits, q) == (q < 60 && cs.contains((q % 10, 6 * w + q / 10))),
        ensures
            final(self).wf(),
            forall|x: int, y: int| #[trigger] final(self).cell(x, y) == (old(self).cell(x, y) || (0 <= x < 10 && 6 * w <= y < 6 * w + 6 && cs.contains((x, y)))),
            final(self).0@ == old(self).0@.update(w as int, old(self).0@[w as int] | bits),
    {
        let ghost before = *self;
        let nw = self.0[w] | bits;
        proof {
            assert forall|q: int| 60 <= q < 64 implies !bit(nw, q) by {
                lemma_bit_or(before.0@[w as int], bits, q as u64);
                lemma_tall(before.0@[w as int], q as u64);
            }
            lemma_le_tall(nw);
        }
        self.0[w] = nw;
        proof {
            assert forall|x: int, y: int| #[trigger] self.cell(x, y) == (before.cell(x, y) || (0 <= x < 10 && 6 * w <= y < 6 * w + 6 && cs.contains((x, y)))) by {
                if 0 <= x < 10 && 0 <= y < 6 * N && y / 6 == w {
                    let q = pos(x, y);
                    lemma_bit_or(before.0@[w as int], bits, q as u64);
                    assert(q % 10 == x && q / 10 == y % 6);
                }
                if 0 <= x < 10 && 6 * w <= y < 6 * w + 6 {
                    assert(y / 6 == w);
                }
            }
        }
    }

    /// Places a piece via precomputed masks: piece `piece` in rotation
    /// index `rc` with its origin at `(x, y)`. Rotation indices past the
    /// piece's distinct rotations have empty masks and place nothing.
    /// Clears the completed rows and returns how many there were.
    pub fn do_move_masked(&mut self, piece: Piece, rc: usize, x: i32, y: i32) -> (n: u64)
        requires
            old(self).wf(),
            rc < 4,
            shape_fits(piece, rc as int, x as int, y as int, 6 * N),
            forall|yy: int| 0 <= yy < 6 * N ==> !old(self).row_full(yy),
        ensures
            moved_cells(*old(self), masked_cells(piece, rc as int, x as int, y as int), *final(self)),
            n == 6 * N - open_rows_cells(*old(self), masked_cells(piece, rc as int, x as int, y as int), 6 * N).len(),
            n <= 6 * N,
    {
        let ghost before = *self;
        let ghost cs = masked_cells(piece, rc as int, x as int, y as int);
        proof {
            lemma_entry(piece, rc as int, x as int, y as int, 6 * N);
        }
        let yr = (y % 6) as usize;
        let entry = place_mask_entry(piece, rc, yr);
        let lo = entry.0;
        let hi = entry.1;
        let boff = entry.2;
        let xb = entry.3;
        let s = (x - xb as i32) as u64;
        let w = (y / 6 + boff as i32) as usize;
        self.or_band(w, lo << s, Ghost(cs));
        let d = self.0[w];
        proof {
            lemma_line_marker(d, 0);
        }
        let mut probe = d & ((d & !COL9) + COL0) & COL9;
        if hi != 0 {
            self.or_band(w + 1, hi << s, Ghost(cs));
            let d1 = self.0[w + 1];
            proof {
                lemma_line_marker(d1, 0);
            }
            probe = probe | (d1 & ((d1 & !COL9) + COL0) & COL9);
        }
        let ghost placed = *self;
        proof {
            lemma_masked_placed(before, placed, cs, w as int, hi != 0);
        }
        if probe == 0 {
            proof {
                lemma_no_full_rows(before, placed, cs, w as int, hi != 0, probe);
                lemma_open_rows_all(before, cs, 6 * N);
            }
            return 0;
        }
        self.clear_completed(Ghost(before), Ghost(cs))
    }
}

/// After the bands of a masked placement are set, the board is the old one
/// with the placement's cells added.
proof fn lemma_masked_placed<const N: usize>(before: Board<N>, placed: Board<N>, cs: Seq<(int, int)>, w: int, two: bool)
    requires
        forall|cx: int, cy: int| #[trigger] cs.contains((cx, cy)) ==> 0 <= cx < 10 && (6 * w <= cy < 6 * w + 6 || (two && 6 * w + 6 <= cy < 6 * w + 12)),
        forall|cx: int, cy: int| #[trigger] placed.cell(cx, cy) == (before.cell(cx, cy) || (0 <= cx < 10 && 6 * w <= cy < 6 * w + 6 && cs.contains((cx, cy))) || (two && 0 <= cx < 10 && 6 * (w + 1) <= cy < 6 * (w + 1) + 6 && cs.contains((cx, cy)))),
    ensures
        forall|cx: int, cy: int| #[trigger] placed.cell(cx, cy) == cell_after_cells(before, cs, cx, cy),
        forall|cx: int, cy: int| placed.cell(cx, cy) != before.cell(cx, cy) ==> (6 * w <= cy < 6 * w + 6 || (two && 6 * w + 6 <= cy < 6 * w + 12)),
{
    assert forall|cx: int, cy: int| #[trigger] placed.cell(cx, cy) == cell_after_cells(before, cs, cx, cy) by {
        if cs.contains((cx, cy)) {
        }
    }
}

/// With no full row before, and no full row marked in the bands a
/// placement touched, no row is full after it.
proof fn lemma_no_full_rows<const N: usize>(before: Board<N>, placed: Board<N>, cs: Seq<(int, int)>, w: int, two: bool, probe: u64)
    requires
        before.wf(),
        placed.wf(),
        0 <= w < N,
        two ==> w + 1 < N,
        forall|yy: int| 0 <= yy < 6 * N ==> !before.row_full(yy),
        forall|cx: int, cy: int| #[trigger] placed.cell(cx, cy) == cell_after_cells(before, cs, cx, cy),
        forall|cx: int, cy: int| placed.cell(cx, cy) != before.cell(cx, cy) ==> (6 * w <= cy < 6 * w + 6 || (two && 6 * w + 6 <= cy < 6 * w + 12)),
        probe == (if two { line_word(placed.0@[w]) | line_word(placed.0@[w + 1]) } else { line_word(placed.0@[w]) }),
        probe == 0,
    ensures
        forall|yy: int| 0 <= yy < 6 * N ==> !full_after_cells(before, cs, yy),
{
    assert forall|yy: int| 0 <= yy < 6 * N implies !full_after_cells(before, cs, yy) by {
        if full_after_cells(before, cs, yy) {
            assert forall|cx: int| 0 <= cx < 10 implies #[trigger] placed.cell(cx, yy) by {
                assert(cell_after_cells(before, cs, cx, yy));
            }
            assert(placed.row_full(yy));
            placed.lemma_row_full(yy);
            let r = yy % 6;
            let band = yy / 6;
            assert(0 <= r < 6 && 0 <= band < N);
            assert(6 * band <= yy < 6 * band + 6);
            let k = (10 * r + 9) as u64;
            crate::bits::lemma_bits_zero(probe);
            if band == w {
                lemma_line_marker(placed.0@[w], r as u64);
                assert(bit(line_word(placed.0@[w]), k as int));
                if two {
                    lemma_bit_or(line_word(placed.0@[w]), line_word(placed.0@[w + 1]), k);
                }
                assert(bit(probe, k as int));
            } else if two && band == w + 1 {
                lemma_line_marker(placed.0@[w + 1], r as u64);
                assert(bit(line_word(placed.0@[w + 1]), k as int));
                lemma_bit_or(line_word(placed.0@[w]), line_word(placed.0@[w + 1]), k);
                assert(bit(probe, k as int));
            } else {
                assert(!(6 * w <= yy < 6 * w + 6));
                assert(!(two && 6 * w + 6 <= yy < 6 * w + 12));
                assert forall|cx: int| 0 <= cx < 10 implies #[trigger] before.cell(cx, yy) by {
                    assert(placed.cell(cx, yy));
                }
                assert(before.row_full(yy));
            }
        }
    }
}

/// The masked placement of a move's piece, in the move's rotation index
/// with its origin at the move's cell, adds exactly the move's cells when
/// that rotation is one of the piece's distinct ones; so `do_move_masked`
/// there leaves the board that `do_move` leaves.
pub proof fn law_masked_matches_move<const N: usize>(b: Board<N>, m: Move, out: Board<N>)
    requires
        rot_index(m.rotation_spec()) < groups_of(m.piece_spec()),
    ensures
        masked_cells(m.piece_spec(), rot_index(m.rotation_spec()), m.x_spec(), m.y_spec()) == m.cells_spec(),
        moved_cells(b, masked_cells(m.piece_spec(), rot_index(m.rotation_spec()), m.x_spec(), m.y_spec()), out) == moved(b, m, out),
{
    reveal(crate::data::shape);
    assert(placed_shape(m.piece_spec(), rot_index(m.rotation_spec()), m.x_spec(), m.y_spec()) =~= m.cells_spec());
}

/// Setting a cell and reading it back gives it filled, and clearing a cell
/// that was empty before it was set gives back the board it started from.
pub proof fn law_set_then_clear<const N: usize>(b: Board<N>, set: Board<N>, cleared: Board<N>, x: int, y: int)
    requires
        b.wf(),
        set.wf(),
        cleared.wf(),
        0 <= x < 10,
        0 <= y < 6 * N,
        !b.cell(x, y),
        forall|cx: int, cy: int| #[trigger] set.cell(cx, cy) == (b.cell(cx, cy) || (cx == x && cy == y)),
        forall|cx: int, cy: int| #[trigger] cleared.cell(cx, cy) == (set.cell(cx, cy) && !(cx == x && cy == y)),
    ensures
        set.cell(x, y),
        cleared == b,
{
    assert(set.cell(x, y));
    assert forall|cx: int, cy: int| cleared.cell(cx, cy) == b.cell(cx, cy) by {
        assert(cleared.cell(cx, cy) == (set.cell(cx, cy) && !(cx == x && cy == y)));
        assert(set.cell(cx, cy) == (b.cell(cx, cy) || (cx == x && cy == y)));
    }
    cleared.lemma_ext(b);
}

/// The rows kept after adding cells are rows that the cells do not fill.
pub proof fn lemma_open_rows_open<const N: usize>(b: Board<N>, cs: Seq<(int, int)>, n: int)
    requires
        0 <= n,
    ensures
        forall|i: int| 0 <= i < open_rows_cells(b, cs, n).len() ==> 0 <= #[trigger] open_rows_cells(b, cs, n)[i] < n && !full_after_cells(b, cs, open_rows_cells(b, cs, n)[i]),
    decreases n,
{
    if n > 0 {
        lemma_open_rows_open(b, cs, n - 1);
        let k = open_rows_cells(b, cs, n - 1);
        assert forall|i: int| 0 <= i < open_rows_cells(b, cs, n).len() implies 0 <= #[trigger] open_rows_cells(b, cs, n)[i] < n
            && !full_after_cells(b, cs, open_rows_cells(b, cs, n)[i]) by {
            if i < k.len() {
                assert(open_rows_cells(b, cs, n)[i] == k[i]);
            }
        }
    }
}

/// A placement leaves no full row: the rows it completes are cleared and
/// the rows kept were not full. So placements can follow one another on a
/// board that never holds a full row.
pub proof fn law_no_full_row_after_move<const N: usize>(b: Board<N>, cs: Seq<(int, int)>, out: Board<N>)
    requires
        moved_cells(b, cs, out),
    ensures
        forall|y: int| !#[trigger] out.row_full(y),
{
    let k = open_rows_cells(b, cs, 6 * N);
    lemma_open_rows_open(b, cs, 6 * N);
    assert forall|y: int| !#[trigger] out.row_full(y) by {
        if 0 <= y < k.len() {
            let r = k[y];
            assert(!full_after_cells(b, cs, r));
            assert(0 <= r < 6 * N);
            let x = choose|x: int| 0 <= x < 10 && !#[trigger] cell_after_cells(b, cs, x, r);
            assert(!out.cell(x, y));
        } else {
            assert(!out.cell(0, y));
        }
    }
}

/// A non-zero band of a well formed board holds a filled cell in its six
/// rows.
proof fn lemma_band_cell<const N: usize>(b: Board<N>, i: int)
    requires
        b.wf(),
        0 <= i < N,
        b.0@[i] != 0,
    ensures
        exists|x: int, y: int| 6 * i <= y < 6 * i + 6 && #[trigger] b.cell(x, y),
{
    lemma_bits_zero(b.0@[i]);
    let p = choose|p: int| 0 <= p < 64 && bit(b.0@[i], p);
    lemma_tall(b.0@[i], p as u64);
    let x = p % 10;
    let y = 6 * i + p / 10;
    assert(y / 6 == i && pos(x, y) == p);
    assert(b.cell(x, y));
}

/// The bands a board needs are its height rounded up to whole bands of
/// six rows.
pub proof fn law_bands_cover_height<const N: usize>(b: Board<N>, r: int, h: int)
    requires
        b.wf(),
        b.is_height(h),
        0 <= r <= N,
        forall|j: int| r <= j < N ==> b.0@[j] == 0,
        r > 0 ==> b.0@[r - 1] != 0,
    ensures
        r == (h + 5) / 6,
{
    if r > 0 {
        lemma_band_cell(b, r - 1);
        let (x, y) = choose|x: int, y: int| 6 * (r - 1) <= y < 6 * (r - 1) + 6 && #[trigger] b.cell(x, y);
        assert(y < h);
    }
    if h > 0 {
        let x = choose|x: int| #[trigger] b.cell(x, h - 1);
        if (h - 1) / 6 >= r {
            lemma_bits_zero(b.0@[(h - 1) / 6]);
        }
        assert((h - 1) / 6 < r);
    }
}



/// The number of filled cells among the first `k` cells, counted row by
/// row from the bottom, each row from the left.
pub open spec fn filled_below<const N: usize>(b: Board<N>, k: int) -> nat
    decreases k,
{
    if k <= 0 {
        0
    } else {
        filled_below(b, k - 1) + if b.cell((k - 1) % 10, (k - 1) / 10) { 1nat } else { 0nat }
    }
}

/// The count of a band's bits up to position `k` within it, past the
/// bands below.
spec fn band_count<const N: usize>(b: Board<N>, k: int) -> nat {
    b.count_bits(k / 60) + if k / 60 < N { bits_below(b.0@[k / 60], (k % 60) as nat) } else { 0nat }
}

/// Bits 60 to 63 of a band are empty, so its bit count stops at 60.
proof fn lemma_band_bits_60(w: u64)
    requires
        w <= TALL,
    ensures
        bits_below(w, 64) == bits_below(w, 60),
{
    lemma_tall(w, 60);
    lemma_tall(w, 61);
    lemma_tall(w, 62);
    lemma_tall(w, 63);
    assert(bits_below(w, 61) == bits_below(w, 60));
    assert(bits_below(w, 62) == bits_below(w, 61));
    assert(bits_below(w, 63) == bits_below(w, 62));
}

/// Where cell number `k` lies: its band and its bit in that band.
proof fn lemma_cell_number(k: int)
    requires
        0 <= k,
    ensures
        ((k / 10) / 6) == k / 60,
        pos(k % 10, k / 10) == k % 60,
        0 <= k % 10 < 10,
{
    assert((k / 10) / 6 == k / 60) by (nonlinear_arith)
        requires
            0 <= k,
    ;
    assert(((k / 10) % 6) * 10 + k % 10 == k % 60) by (nonlinear_arith)
        requires
            0 <= k,
    ;
}

proof fn lemma_filled_counts<const N: usize>(b: Board<N>, k: int)
    requires
        b.wf(),
        0 <= k <= 60 * N,
    ensures
        filled_below(b, k) == band_count(b, k),
    decreases k,
{
    if k == 0 {
        assert(b.count_bits(0) == 0);
    } else {
        lemma_filled_counts(b, k - 1);
        let kp = k - 1;
        let q = kp / 60;
        let r = kp % 60;
        lemma_cell_number(kp);
        assert(q < N) by (nonlinear_arith)
            requires
                0 <= kp < 60 * N,
                q == kp / 60,
        ;
        assert(b.cell(kp % 10, kp / 10) == bit(b.0@[q], r)) by {
            assert(kp / 10 < 6 * N) by (nonlinear_arith)
                requires
                    0 <= kp < 60 * N,
            ;
        }
        if r == 59 {
            assert(k / 60 == q + 1 && k % 60 == 0) by (nonlinear_arith)
                requires
                    k == kp + 1,
                    q == kp / 60,
                    r == kp % 60,
                    r == 59,
                    kp >= 0,
            ;
            lemma_band_bits_60(b.0@[q]);
        } else {
            assert(k / 60 == q && k % 60 == r + 1) by (nonlinear_arith)
                requires
                    k == kp + 1,
                    q == kp / 60,
                    r == kp % 60,
                    r < 59,
                    kp >= 0,
            ;
        }
    }
}

/// The bit count of a board is its number of filled cells, and it is zero
/// exactly when no cell is filled.
pub proof fn law_popcount_counts_cells<const N: usize>(b: Board<N>)
    requires
        b.wf(),
    ensures
        b.count_bits(N as int) == filled_below(b, 60 * N),
        b.count_bits(N as int) == 0 <==> b.is_clear(),
{
    lemma_filled_counts(b, 60 * N);
    assert((60 * N) / 60 == N && (60 * N) % 60 == 0) by (nonlinear_arith);
    lemma_filled_clear(b, 60 * N);
}

/// No cell counted means none of the counted cells is filled, and on a
/// whole board that is every cell.
proof fn lemma_filled_clear<const N: usize>(b: Board<N>, k: int)
    requires
        b.wf(),
        k == 60 * N,
    ensures
        filled_below(b, k) == 0 <==> b.is_clear(),
{
    lemma_filled_zero(b, k);
    if filled_below(b, k) == 0 {
        assert forall|x: int, y: int| !#[trigger] b.cell(x, y) by {
            if b.cell(x, y) {
                let c = 10 * y + x;
                assert(c % 10 == x && c / 10 == y) by (nonlinear_arith)
                    requires
                        c == 10 * y + x,
                        0 <= x < 10,
                ;
                assert(0 <= c < k) by (nonlinear_arith)
                    requires
                        c == 10 * y + x,
                        0 <= x < 10,
                        0 <= y < 6 * N,
                        k == 60 * N,
                ;
            }
        }
    } else {
        let c = choose|c: int| 0 <= c < k && #[trigger] b.cell(c % 10, c / 10);
    }
}

proof fn lemma_filled_zero<const N: usize>(b: Board<N>, k: int)
    requires
        0 <= k,
    ensures
        filled_below(b, k) == 0 <==> forall|c: int| 0 <= c < k ==> !#[trigger] b.cell(c % 10, c / 10),
    decreases k,
{
    if k > 0 {
        lemma_filled_zero(b, k - 1);
    }
}


/// Casting a board to at least as many bands and back gives the board
/// again.
pub proof fn law_cast_round_trip<const N: usize, const M: usize>(b: Board<N>, c: Board<M>, d: Board<N>)
    requires
        b.wf(),
        M >= N,
        forall|j: int| 0 <= j < M ==> c.0@[j] == if j < N { b.0@[j] } else { 0u64 },
        forall|j: int| 0 <= j < N ==> d.0@[j] == if j < M { c.0@[j] } else { 0u64 },
    ensures
        d == b,
{
    assert(d.0@ =~= b.0@);
    assert(d.wf());
    assert forall|x: int, y: int| d.cell(x, y) == b.cell(x, y) by {}
    b.lemma_ext(d);
}

} // verus!
