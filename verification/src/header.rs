//! Constants and column masks shared by the whole crate.

use vstd::prelude::*;
use crate::bits::{bit, lemma_bit_and, lemma_bit_not, lemma_bit_or, lemma_bit_shl, lemma_bit_single, lemma_bits_ext};
use crate::data::{cells_of, rotated_cells};
use crate::piece::Piece;

verus! {

/// Board width in columns.
pub const WIDTH: i32 = 10;

/// Number of rows packed into one band word.
pub const TLINES: i32 = 6;

/// Mask of the 60 meaningful bits of a band word.
pub const TALL: u64 = 0x0FFF_FFFF_FFFF_FFFF;

/// Mask of column 0 in a band word.
pub const COL0: u64 = 0x0004_0100_4010_0401;

/// Mask of column 9 in a band word.
pub const COL9: u64 = 0x0802_0080_2008_0200;

/// Bit `i` of the column mask of column `x`: the positions `x + 10 k` with `k < 6`.
pub open spec fn col_bit(x: int, i: int) -> bool {
    x <= i && (i - x) % 10 == 0 && i - x < 60
}

/// What `dx_mask(dx)` keeps: the columns that a horizontal shift by `dx` can fill.
pub open spec fn dx_keeps(dx: int, i: int) -> bool {
    0 <= i < 60 && if dx > 0 {
        i % 10 >= dx
    } else if dx < 0 {
        i % 10 < 10 + dx
    } else {
        true
    }
}

/// `TALL` holds the bits below 60, and words at most `TALL` have no others.
pub proof fn lemma_tall(w: u64, i: u64)
    requires
        i < 64,
    ensures
        bit(TALL, i as int) == (i < 60),
        w <= TALL && i >= 60 ==> !bit(w, i as int),
        TALL & w <= TALL,
{
    assert(((TALL >> i) & 1 == 1 <==> i < 60) && (w <= TALL && i >= 60 ==> (w >> i) & 1 != 1)
        && TALL & w <= TALL) by (bit_vector)
        requires
            i < 64,
    ;
}

/// A word with no bit at 60 or above is at most `TALL`.
pub proof fn lemma_le_tall(w: u64)
    requires
        forall|i: int| 60 <= i < 64 ==> !bit(w, i),
    ensures
        w <= TALL,
{
    assert forall|i: int| 0 <= i < 64 implies bit(TALL & w, i) == bit(w, i) by {
        lemma_bit_and(TALL, w, i as u64);
        lemma_tall(w, i as u64);
    }
    lemma_bits_ext(TALL & w, w);
    lemma_tall(w, 0);
}

/// The column masks hold one bit per row, in column 0 and column 9.
pub proof fn lemma_col_masks(i: u64)
    requires
        i < 64,
    ensures
        bit(COL0, i as int) == (i < 60 && i % 10 == 0),
        bit(COL9, i as int) == (i < 60 && i % 10 == 9),
{
    assert(((COL0 >> i) & 1 == 1 <==> (i < 60 && i % 10 == 0)) && ((COL9 >> i) & 1 == 1 <==> (i
        < 60 && i % 10 == 9))) by (bit_vector)
        requires
            i < 64,
    ;
}

/// Largest of three values and zero.
pub open spec fn max3(a: int, b: int, c: int) -> int {
    let m0 = if a > 0 { a } else { 0 };
    let m1 = if b > m0 { b } else { m0 };
    if c > m1 { c } else { m1 }
}

/// Returns the topmost occupied offset plus one for piece `p` in rotation index `rc`.
pub fn top_extent(p: Piece, rc: usize) -> (r: i32)
    ensures
        r == 1 + max3(
            cells_of(p, rc as int)[0].1 as int,
            cells_of(p, rc as int)[1].1 as int,
            cells_of(p, rc as int)[2].1 as int,
        ),
{
    let cells = rotated_cells(p, rc);
    let mut top = 0i32;
    if cells[0].1 as i32 > top {
        top = cells[0].1 as i32;
    }
    if cells[1].1 as i32 > top {
        top = cells[1].1 as i32;
    }
    if cells[2].1 as i32 > top {
        top = cells[2].1 as i32;
    }
    top + 1
}

/// Builds a column mask for one x-position across a packed 10x6 word.
pub fn col_word(x: i32) -> (w: u64)
    requires
        0 <= x <= 13,
    ensures
        forall|i: int| 0 <= i < 64 ==> (bit(w, i) <==> col_bit(x as int, i)),
{
    let mut w = 0u64;
    let mut k: i32 = 0;
    proof {
        assert forall|i: int| 0 <= i < 64 implies !bit(0u64, i) by {
            crate::bits::lemma_bits_zero(0u64);
        }
    }
    while k < TLINES
        invariant
            0 <= k <= 6,
            0 <= x <= 13,
            forall|i: int| 0 <= i < 64 ==> (bit(w, i) <==> (x <= i && (i - x) % 10 == 0 && i - x
                < 10 * k)),
        decreases 6 - k,
    {
        let b = (k * WIDTH + x) as u64;
        let nw = w | (1u64 << b);
        proof {
            assert forall|i: int| 0 <= i < 64 implies (bit(nw, i) <==> (x <= i && (i - x) % 10
                == 0 && i - x < 10 * (k + 1))) by {
                lemma_bit_or(w, 1u64 << b, i as u64);
                lemma_bit_single(b, i as u64);
            }
        }
        w = nw;
        k += 1;
    }
    w
}

/// Builds a mask containing columns `[0, n)` in a packed word.
pub fn cols_below(n: i32) -> (w: u64)
    requires
        n <= 14,
    ensures
        forall|i: int| 0 <= i < 60 ==> (bit(w, i) <==> i % 10 < n),
        n <= 10 ==> w <= TALL,
{
    let mut w = 0u64;
    let mut c: i32 = 0;
    proof {
        crate::bits::lemma_bits_zero(0u64);
    }
    while c < n
        invariant
            0 <= c,
            c <= n || c == 0,
            n <= 14,
            forall|i: int| 0 <= i < 60 ==> (bit(w, i) <==> i % 10 < c),
            forall|i: int| 60 <= i < 64 ==> (bit(w, i) ==> c > 10),
        decreases n - c,
    {
        let cw = col_word(c);
        let nw = w | cw;
        proof {
            assert forall|i: int| 0 <= i < 64 implies (bit(nw, i) <==> (bit(w, i) || col_bit(
                c as int,
                i,
            ))) by {
                lemma_bit_or(w, cw, i as u64);
            }
        }
        w = nw;
        c += 1;
    }
    proof {
        if n <= 10 {
            lemma_le_tall(w);
        }
    }
    w
}

/// Mask of the columns that remain meaningful after a horizontal shift by `dx`.
pub fn dx_mask(dx: i32) -> (m: u64)
    requires
        -10 <= dx <= 14,
    ensures
        forall|i: int| 0 <= i < 64 ==> (bit(m, i) <==> dx_keeps(dx as int, i)),
        m <= TALL,
{
    if dx > 0 {
        let cb = cols_below(dx);
        let m = TALL & !cb;
        proof {
            assert forall|i: int| 0 <= i < 64 implies (bit(m, i) <==> dx_keeps(dx as int, i)) by {
                lemma_bit_and(TALL, !cb, i as u64);
                lemma_bit_not(cb, i as u64);
                lemma_tall(cb, i as u64);
            }
            lemma_tall(!cb, 0);
        }
        m
    } else if dx < 0 {
        let cb = cols_below(-dx);
        let sh = (WIDTH + dx) as u64;
        let m = TALL & !(cb << sh);
        proof {
            assert forall|i: int| 0 <= i < 64 implies (bit(m, i) <==> dx_keeps(dx as int, i)) by {
                let iu = i as u64;
                lemma_bit_and(TALL, !(cb << sh), iu);
                lemma_bit_not(cb << sh, iu);
                lemma_bit_shl(cb, sh, iu);
                lemma_tall(cb, iu);
                if i < 60 && i >= sh {
                    lemma_tall(cb, (i - sh) as u64);
                }
            }
            lemma_tall(!(cb << sh), 0);
        }
        m
    } else {
        proof {
            assert forall|i: int| 0 <= i < 64 implies (bit(TALL, i) <==> dx_keeps(dx as int, i)) by {
                lemma_tall(0, i as u64);
            }
        }
        TALL
    }
}

} // verus!
