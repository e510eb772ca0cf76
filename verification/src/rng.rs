//! The game's seeded pseudo-random number generator (a Park–Miller
//! minimal-standard generator).

use vstd::prelude::*;

verus! {

/// The generator's modulus, `2^31 - 1`.
pub const MODULUS: i64 = 2_147_483_647;

/// Remainder of `p` divided by `m`, with the sign of `p` (Rust's `%`).
pub open spec fn rem_trunc(p: int, m: int) -> int {
    if p >= 0 {
        p % m
    } else {
        -((-p) % m)
    }
}

/// The seed that follows `s`.
pub open spec fn next_seed(s: int) -> int {
    rem_trunc(s * 16807, 2_147_483_647)
}

/// The index drawn for position `i` of a shuffle when the generator yields `n`:
/// the floor of `(n - 1) / (2^31 - 1) * (i + 1)`, or zero when that is negative.
pub open spec fn pick(n: int, i: int) -> int {
    if n - 1 < 0 {
        0
    } else {
        ((n - 1) * (i + 1)) / 2_147_483_647
    }
}

/// Swapping positions `i` and `r` of `s`.
pub open spec fn swapped<T>(s: Seq<T>, i: int, r: int) -> Seq<T> {
    s.update(i, s[r]).update(r, s[i])
}

/// The seed and sequence after shuffling positions `i` down to 1.
pub open spec fn shuffled<T>(seed: int, s: Seq<T>, i: int) -> (int, Seq<T>)
    decreases i,
{
    if i <= 0 {
        (seed, s)
    } else {
        let n = next_seed(seed);
        shuffled(n, swapped(s, i, pick(n, i)), i - 1)
    }
}

/// Swaps two elements of a slice, as `<[T]>::swap` documents: the
/// elements at `a` and `b` trade places. The call panics when either index
/// is out of bounds, which `requires` rules out.
pub assume_specification<E>[ <[E]>::swap ](slice: &mut [E], a: usize, b: usize)
    requires
        a < old(slice)@.len(),
        b < old(slice)@.len(),
    ensures
        final(slice)@ == old(slice)@.update(a as int, old(slice)@[b as int]).update(
            b as int,
            old(slice)@[a as int],
        ),
;

/// The system clock's time values.
#[verifier::external_type_specification]
#[verifier::external_body]
pub struct ExSystemTime(std::time::SystemTime);

/// `SystemTime::now`: the clock's current time. Nothing is promised of
/// it.
#[verifier::external_body]
fn system_now() -> (t: std::time::SystemTime) {
    std::time::SystemTime::now()
}

/// `SystemTime::elapsed`: the time that passed since `t`, or `None` when
/// the clock now reads earlier than `t`. Nothing is promised of the
/// value: it depends on the clock.
#[verifier::external_body]
fn elapsed_since(t: &std::time::SystemTime) -> (r: Option<std::time::Duration>) {
    match t.elapsed() {
        Ok(d) => Some(d),
        Err(_) => None,
    }
}

/// `Duration::as_nanos`: the whole nanoseconds of a duration. Durations
/// are opaque here, so nothing is stated of the value.
#[verifier::external_body]
fn duration_nanos(d: &std::time::Duration) -> (r: u128) {
    d.as_nanos()
}

/// The generator.
#[derive(Clone, Copy, Debug)]
pub struct Rng {
    seed: i32,
}

impl Rng {
    /// The current state.
    pub closed spec fn state(self) -> int {
        self.seed as int
    }

    /// Creates a generator seeded from the clock. When the clock reading
    /// fails, the seed is zero.
    pub fn new() -> (r: Self)
        ensures
            0 < r.state() <= 2_147_483_646,
    {
        let start = system_now();
        let nanos = match elapsed_since(&start) {
            Some(d) => Some(duration_nanos(&d)),
            None => None,
        };
        Self::from_clock(nanos)
    }

    /// Creates a generator from a clock reading in nanoseconds: the reading
    /// modulo `2^31 - 1` is the seed, zero when there is no reading.
    pub fn from_clock(nanos: Option<u128>) -> (r: Self)
        ensures
            r.state() == ({
                let s = match nanos {
                    Some(n) => n % 2_147_483_647,
                    None => 0,
                };
                if s == 0 { 2_147_483_646 } else { s as int }
            }),
            0 < r.state() <= 2_147_483_646,
    {
        let n = match nanos {
            Some(n) => n,
            None => 0,
        };
        Self::new_seeded((n % 2_147_483_647) as i32)
    }

    /// Creates a generator with a set seed; seeds of zero or less are moved
    /// up by `2^31 - 2`.
    pub fn new_seeded(seed: i32) -> (r: Self)
        ensures
            r.state() == if seed <= 0 { seed + 2_147_483_646 } else { seed as int },
    {
        let mut seed = seed;
        if seed <= 0 {
            seed += 2_147_483_646;
        }
        Self { seed }
    }

    /// Advances the generator and returns the new state.
    pub fn next(&mut self) -> (r: i32)
        ensures
            r == next_seed(old(self).state()),
            final(self).state() == r,
            -2_147_483_647 < r < 2_147_483_647,
    {
        let p: i64 = self.seed as i64 * 16807;
        let r: i64 = if p >= 0 {
            p % MODULUS
        } else {
            -((-p) % MODULUS)
        };
        self.seed = r as i32;
        self.seed
    }

    /// Shuffles a slice in place with a Fisher–Yates shuffle driven by this
    /// generator. The index for position `i` is computed exactly in integers;
    /// below 2^20 elements it equals the floating-point index
    /// `floor((next - 1) / (2^31 - 1) * (i + 1))`.
    pub fn shuffle_array<T>(&mut self, slice: &mut [T])
        ensures
            old(slice)@.len() == 0 ==> final(slice)@ == old(slice)@ && final(self).state() == old(self).state(),
            old(slice)@.len() > 0 ==> (final(self).state(), final(slice)@) == shuffled(
                old(self).state(),
                old(slice)@,
                old(slice)@.len() - 1,
            ),
    {
        if slice.len() == 0 {
            return;
        }
        let mut i = slice.len() - 1;
        while i != 0
            invariant
                i < slice@.len(),
                slice@.len() == old(slice)@.len(),
                shuffled(self.state(), slice@, i as int) == shuffled(
                    old(self).state(),
                    old(slice)@,
                    old(slice)@.len() - 1,
                ),
            decreases i,
        {
            let n = self.next();
            let a: i64 = n as i64 - 1;
            let r: usize = if a < 0 {
                0
            } else {
                proof {
                    assert((a as u128) * (i as u128 + 1) < 0x1_0000_0000_0000_0000_0000_0000) by (nonlinear_arith)
                        requires
                            0 <= a < 2_147_483_647,
                            i < 0x1_0000_0000_0000_0000,
                    ;
                    assert((a * (i + 1)) / 2_147_483_647 <= i) by (nonlinear_arith)
                        requires
                            0 <= a < 2_147_483_647,
                            0 <= i,
                    ;
                }
                ((a as u128) * (i as u128 + 1) / 2_147_483_647) as usize
            };
            proof {
                assert(0 <= r <= i) by (nonlinear_arith)
                    requires
                        a < 0 ==> r == 0,
                        a >= 0 ==> r == (a * (i + 1)) / 2_147_483_647,
                        a < 2_147_483_647,
                        0 <= i,
                ;
            }
            slice.swap(i, r);
            i -= 1;
        }
    }
}

/// A shuffle only reorders: the items and how often each occurs stay the same.
pub proof fn law_shuffle_permutes<T>(seed: int, s: Seq<T>, i: int)
    requires
        i < s.len(),
    ensures
        shuffled(seed, s, i).1.to_multiset() == s.to_multiset(),
        shuffled(seed, s, i).1.len() == s.len(),
    decreases i,
{
    if i > 0 {
        let n = next_seed(seed);
        let r = pick(n, i);
        lemma_pick_range(n, i);
        lemma_swap_multiset(s, i, r);
        law_shuffle_permutes(n, swapped(s, i, r), i - 1);
    }
}

/// The drawn index never exceeds the position being filled.
pub proof fn lemma_pick_range(n: int, i: int)
    requires
        i >= 0,
        n < 2_147_483_647,
    ensures
        0 <= pick(n, i) <= i,
{
    if n - 1 >= 0 {
        assert(0 <= ((n - 1) * (i + 1)) / 2_147_483_647 <= i) by (nonlinear_arith)
            requires
                0 <= n - 1 < 2_147_483_647 - 1,
                i >= 0,
        ;
    }
}

/// Swapping two positions keeps the multiset of items.
pub proof fn lemma_swap_multiset<T>(s: Seq<T>, i: int, r: int)
    requires
        0 <= i < s.len(),
        0 <= r < s.len(),
    ensures
        swapped(s, i, r).to_multiset() == s.to_multiset(),
        swapped(s, i, r).len() == s.len(),
{
    broadcast use vstd::seq_lib::to_multiset_update, vstd::multiset::group_multiset_properties, vstd::multiset::group_multiset_axioms;
    let t = s.update(i, s[r]);
    assert(t[r] == s[r]);
    assert(t.to_multiset() == s.to_multiset().insert(s[r]).remove(s[i]));
    assert(t.update(r, s[i]).to_multiset() == t.to_multiset().insert(s[i]).remove(t[r]));
    let m = s.to_multiset();
    assert(m.count(s[i]) > 0) by {
        vstd::seq_lib::to_multiset_contains(s, s[i]);
        assert(s.contains(s[i]));
    }
    assert(m.count(s[r]) > 0) by {
        vstd::seq_lib::to_multiset_contains(s, s[r]);
        assert(s.contains(s[r]));
    }
    assert(m.insert(s[r]).remove(s[i]).insert(s[i]).remove(s[r]) =~= m);
}

impl Default for Rng {
    /// A generator seeded from the clock.
    fn default() -> (r: Self)
        ensures
            0 < r.state() <= 2_147_483_646,
    {
        Self::new()
    }
}

} // verus!
