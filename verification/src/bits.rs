//! Bit-level facts about `u64` words used throughout the crate.

use vstd::prelude::*;

verus! {

/// Bit `i` of `w`, counting from the least significant bit.
pub open spec fn bit(w: u64, i: int) -> bool {
    0 <= i < 64 && (w >> (i as u64)) & 1 == 1
}

/// Number of set bits of `w` among positions `0..n`.
pub open spec fn bits_below(w: u64, n: nat) -> nat
    decreases n,
{
    if n == 0 {
        0
    } else {
        bits_below(w, (n - 1) as nat) + if bit(w, n - 1) { 1nat } else { 0nat }
    }
}

pub proof fn lemma_bit_or(a: u64, b: u64, i: u64)
    requires
        i < 64,
    ensures
        bit(a | b, i as int) == (bit(a, i as int) || bit(b, i as int)),
{
    assert(((a | b) >> i) & 1 == 1 <==> ((a >> i) & 1 == 1 || (b >> i) & 1 == 1)) by (bit_vector)
        requires
            i < 64,
    ;
}

pub proof fn lemma_bit_and(a: u64, b: u64, i: u64)
    requires
        i < 64,
    ensures
        bit(a & b, i as int) == (bit(a, i as int) && bit(b, i as int)),
{
    assert(((a & b) >> i) & 1 == 1 <==> ((a >> i) & 1 == 1 && (b >> i) & 1 == 1)) by (bit_vector)
        requires
            i < 64,
    ;
}

pub proof fn lemma_bit_not(a: u64, i: u64)
    requires
        i < 64,
    ensures
        bit(!a, i as int) == !bit(a, i as int),
{
    assert(((!a) >> i) & 1 == 1 <==> !((a >> i) & 1 == 1)) by (bit_vector)
        requires
            i < 64,
    ;
}

pub proof fn lemma_bit_xor(a: u64, b: u64, i: u64)
    requires
        i < 64,
    ensures
        bit(a ^ b, i as int) == (bit(a, i as int) != bit(b, i as int)),
{
    assert(((a ^ b) >> i) & 1 == 1 <==> ((a >> i) & 1 == 1) != ((b >> i) & 1 == 1)) by (bit_vector)
        requires
            i < 64,
    ;
}

pub proof fn lemma_bit_shl(a: u64, s: u64, i: u64)
    requires
        i < 64,
        s < 64,
    ensures
        bit(a << s, i as int) == (i >= s && bit(a, i - s)),
{
    assert(((a << s) >> i) & 1 == 1 <==> (i >= s && (a >> ((i - s) as u64)) & 1 == 1))
        by (bit_vector)
        requires
            i < 64,
            s < 64,
    ;
}

pub proof fn lemma_bit_shr(a: u64, s: u64, i: u64)
    requires
        i < 64,
        s < 64,
    ensures
        bit(a >> s, i as int) == (i + s < 64 && bit(a, i + s)),
{
    assert(((a >> s) >> i) & 1 == 1 <==> (i + s < 64 && (a >> ((i + s) as u64)) & 1 == 1))
        by (bit_vector)
        requires
            i < 64,
            s < 64,
    ;
}

pub proof fn lemma_bit_single(b: u64, i: u64)
    requires
        i < 64,
        b < 64,
    ensures
        bit(1u64 << b, i as int) == (i == b),
{
    assert(((1u64 << b) >> i) & 1 == 1 <==> i == b) by (bit_vector)
        requires
            i < 64,
            b < 64,
    ;
}

/// The lowest bit of a word is either zero or one.
pub proof fn lemma_low_bit(x: u64)
    ensures
        (x & 1 != 0) == (x & 1 == 1),
        x & 1 == 0 || x & 1 == 1,
{
    assert((x & 1 != 0) == (x & 1 == 1) && (x & 1 == 0 || x & 1 == 1)) by (bit_vector);
}

/// Moving bit `x` of `r` to position `y`.
pub proof fn lemma_bit_place(r: u64, x: u64, y: u64, j: u64)
    requires
        x < 64,
        y < 64,
        j < 64,
    ensures
        bit(((r >> x) & 1) << y, j as int) == (j == y && bit(r, x as int)),
{
    assert(((((r >> x) & 1) << y) >> j) & 1 == 1 <==> (j == y && (r >> x) & 1 == 1)) by (bit_vector)
        requires
            x < 64,
            y < 64,
            j < 64,
    ;
}

/// Words with the same bits are equal.
pub proof fn lemma_bits_ext(a: u64, b: u64)
    requires
        forall|i: int| 0 <= i < 64 ==> bit(a, i) == bit(b, i),
    ensures
        a == b,
{
    assert(a >> 0 == a && b >> 0 == b) by (bit_vector);
    assert((a >> 63) == ((a >> 63) & 1) && (b >> 63) == ((b >> 63) & 1) && ((a >> 63) & 1 == 0
        || (a >> 63) & 1 == 1) && ((b >> 63) & 1 == 0 || (b >> 63) & 1 == 1)) by (bit_vector);
    assert(bit(a, 63) == bit(b, 63));
    lemma_ext_down(a, b, 63);
}

proof fn lemma_ext_down(a: u64, b: u64, k: u64)
    requires
        k <= 63,
        a >> k == b >> k,
        forall|i: int| 0 <= i < 64 ==> bit(a, i) == bit(b, i),
    ensures
        a >> 0 == b >> 0,
    decreases k,
{
    if k > 0 {
        let j: u64 = (k - 1) as u64;
        lemma_shr_step(a, j);
        lemma_shr_step(b, j);
        assert(bit(a, j as int) == bit(b, j as int));
        lemma_ext_down(a, b, j);
    }
}

proof fn lemma_shr_step(a: u64, j: u64)
    requires
        j < 63,
    ensures
        a >> j == ((a >> ((j + 1) as u64)) << 1u64) | ((a >> j) & 1),
        (a >> j) & 1 == 1 || (a >> j) & 1 == 0,
{
    assert(a >> j == ((a >> ((j + 1) as u64)) << 1u64) | ((a >> j) & 1) && ((a >> j) & 1 == 1
        || (a >> j) & 1 == 0)) by (bit_vector)
        requires
            j < 63,
    ;
}

/// The low-bits mask `(1 << n) - 1` holds exactly the bits below `n`.
pub proof fn lemma_bit_low_mask(n: u64, i: u64)
    requires
        n < 64,
        i < 64,
    ensures
        bit(((1u64 << n) - 1) as u64, i as int) == (i < n),
        (1u64 << n) >= 1,
{
    assert(((((1u64 << n) - 1) as u64 >> i) & 1 == 1 <==> i < n) && (1u64 << n) >= 1) by (bit_vector)
        requires
            n < 64,
            i < 64,
    ;
}

/// A word with no bits set is zero, and zero has no bits.
pub proof fn lemma_bits_zero(a: u64)
    ensures
        a == 0 <==> forall|i: int| 0 <= i < 64 ==> !bit(a, i),
{
    assert forall|i: int| 0 <= i < 64 implies !bit(0u64, i) by {
        let iu = i as u64;
        assert((0u64 >> iu) & 1 == 0) by (bit_vector);
    }
    if forall|i: int| 0 <= i < 64 ==> !bit(a, i) {
        lemma_bits_ext(a, 0u64);
    }
}

/// `bits_below` never exceeds the number of positions counted.
pub proof fn lemma_bits_below_le(w: u64, n: nat)
    ensures
        bits_below(w, n) <= n,
    decreases n,
{
    if n > 0 {
        lemma_bits_below_le(w, (n - 1) as nat);
    }
}

/// A word whose bits are those of `w` between `lo` and `hi` has as many bits
/// as `w` has there.
pub proof fn lemma_bits_below_range(a: u64, w: u64, lo: int, hi: int, n: int)
    requires
        0 <= lo <= hi <= 64,
        0 <= n <= 64,
        forall|i: int| 0 <= i < 64 ==> bit(a, i) == (bit(w, i) && lo <= i < hi),
    ensures
        bits_below(a, n as nat) == bits_below(w, (if n < lo { lo } else if n > hi { hi } else { n }) as nat) - bits_below(w, lo as nat),
    decreases n,
{
    if n > 0 {
        lemma_bits_below_range(a, w, lo, hi, n - 1);
    }
    lemma_bits_below_mono(w, lo as nat, hi as nat);
}

/// `bits_below` grows with the number of positions counted.
pub proof fn lemma_bits_below_mono(w: u64, m: nat, n: nat)
    requires
        m <= n,
    ensures
        bits_below(w, m) <= bits_below(w, n),
    decreases n,
{
    if m < n {
        lemma_bits_below_mono(w, m, (n - 1) as nat);
    }
}

/// Counting set bits in a word ("population count").
pub fn count_ones(w: u64) -> (r: u32)
    ensures
        r == bits_below(w, 64),
{
    let mut c: u32 = 0;
    let mut i: u64 = 0;
    while i < 64
        invariant
            i <= 64,
            c == bits_below(w, i as nat),
        decreases 64 - i,
    {
        proof {
            lemma_bits_below_le(w, i as nat);
        }
        if (w >> i) & 1 == 1 {
            c = c + 1;
        }
        i = i + 1;
    }
    c
}

} // verus!
