//! A fixed-size queue of incoming garbage segments.
//!
//! The queue is 64 byte-sized segments; the live queue is the run of
//! non-zero segments from the front, up to the first zero.

use vstd::prelude::*;

verus! {

/// Index of the first non-zero segment at or after `i`, or 64.
pub open spec fn first_nonzero(s: Seq<u8>, i: int) -> int
    decreases 64 - i,
{
    if i >= 64 {
        64
    } else if s[i] != 0 {
        i
    } else {
        first_nonzero(s, i + 1)
    }
}

/// Index of the first zero segment at or after `i`, or 64.
pub open spec fn first_zero(s: Seq<u8>, i: int) -> int
    decreases 64 - i,
{
    if i >= 64 {
        64
    } else if s[i] == 0 {
        i
    } else {
        first_zero(s, i + 1)
    }
}

/// Sum of the segments from `i` up to the first zero.
pub open spec fn live_total(s: Seq<u8>, i: int) -> int
    decreases 64 - i,
{
    if i < 0 || i >= 64 || s[i] == 0 {
        0
    } else {
        s[i] + live_total(s, i + 1)
    }
}

/// Sum of all segments at index `i` and above.
pub open spec fn sum_from(s: Seq<u8>, i: int) -> int
    decreases 64 - i,
{
    if i < 0 || i >= 64 {
        0
    } else {
        s[i] + sum_from(s, i + 1)
    }
}

/// The segments after dropping the leading zeros: each segment moves down
/// by the number of leading zeros, and the last positions keep their
/// values. A queue of zeros is unchanged.
pub open spec fn shifted_down(s: Seq<u8>) -> Seq<u8> {
    let start = first_nonzero(s, 0);
    if start == 64 {
        s
    } else {
        Seq::new(64, |i: int| if i + start < 64 { s[i + start] } else { s[i] })
    }
}

/// The segments moved to the front: the leading zeros dropped, each
/// segment moved down by their number, and the positions left at the end
/// cleared. A queue of zeros is unchanged.
pub open spec fn to_front(s: Seq<u8>) -> Seq<u8> {
    let start = first_nonzero(s, 0);
    if start == 64 {
        s
    } else {
        Seq::new(64, |i: int| if i + start < 64 { s[i + start] } else { 0u8 })
    }
}

/// Removing `amount` lines from the front: drop the leading zeros, then
/// take from the front segment; a front segment that is used up is zeroed
/// and the rest is taken from the next one. What is left is moved to the
/// front again. Gives the segments after, and the amount left over once
/// the queue ran out.
pub open spec fn removed(s: Seq<u8>, amount: nat) -> (Seq<u8>, nat)
    decreases amount,
{
    let d = to_front(s);
    if d[0] == 0 {
        (d, amount)
    } else if d[0] >= amount {
        (to_front(d.update(0, (d[0] - amount) as u8)), 0)
    } else {
        removed(d.update(0, 0), (amount - d[0]) as nat)
    }
}

/// Taking at most `to` lines from the live queue starting at segment `i`:
/// gives the segments left and the segments taken, in their positions.
pub open spec fn split_at(s: Seq<u8>, front: Seq<u8>, i: int, to: nat) -> (Seq<u8>, Seq<u8>)
    decreases 64 - i,
{
    if i < 0 || i >= 64 || to == 0 || s[i] == 0 {
        (s, front)
    } else if s[i] > to {
        (s.update(i, (s[i] - to) as u8), front.update(i, to as u8))
    } else {
        split_at(s.update(i, 0), front.update(i, s[i]), i + 1, (to - s[i]) as nat)
    }
}

/// Appending a segment of `amount` lines at the first zero; an amount of
/// zero changes nothing. The segment holds the low eight bits of `amount`.
pub open spec fn accepted(s: Seq<u8>, amount: int) -> Seq<u8> {
    if amount == 0 {
        s
    } else {
        s.update(first_zero(s, 0), (amount % 256) as u8)
    }
}

/// Whether a segment of `amount` lines can be appended: it is empty, or
/// some segment is zero.
pub open spec fn can_accept(s: Seq<u8>, amount: int) -> bool {
    amount == 0 || first_zero(s, 0) < 64
}

/// Appending the first `n` amounts one after another.
pub open spec fn accepted_all(s: Seq<u8>, amounts: Seq<usize>, n: int) -> Seq<u8>
    decreases n,
{
    if n <= 0 {
        s
    } else {
        accepted(accepted_all(s, amounts, n - 1), amounts[n - 1] as int)
    }
}

/// Whether each of the first `n` amounts can be appended in turn.
pub open spec fn can_accept_all(s: Seq<u8>, amounts: Seq<usize>, n: int) -> bool
    decreases n,
{
    if n <= 0 {
        true
    } else {
        can_accept_all(s, amounts, n - 1) && can_accept(accepted_all(s, amounts, n - 1), amounts[n - 1] as int)
    }
}

/// Sixty-four zero segments.
pub open spec fn zeros() -> Seq<u8> {
    Seq::new(64, |i: int| 0u8)
}

/// A queue of incoming garbage segments.
#[derive(Clone, Copy, Debug)]
pub struct GarbageQueue {
    /// The segments, front first.
    pub segments: [u8; 64],
}

impl View for GarbageQueue {
    type V = Seq<u8>;

    open spec fn view(&self) -> Seq<u8> {
        self.segments@
    }
}

/// The live total is at most the sum of all segments from `i`.
pub proof fn lemma_live_le_sum(s: Seq<u8>, i: int)
    ensures
        0 <= live_total(s, i) <= sum_from(s, i),
        sum_from(s, i) <= 255 * (64 - i) || i < 0 || i >= 64,
    decreases 64 - i,
{
    if 0 <= i < 64 {
        lemma_live_le_sum(s, i + 1);
    }
}

/// Appending each amount in turn is possible for every prefix of a list
/// that can be appended whole.
pub proof fn lemma_can_accept_prefix(s: Seq<u8>, amounts: Seq<usize>, m: int, n: int)
    requires
        0 <= m <= n,
        can_accept_all(s, amounts, n),
    ensures
        can_accept_all(s, amounts, m),
    decreases n - m,
{
    if m < n {
        lemma_can_accept_prefix(s, amounts, m, n - 1);
    }
}

/// The live queue runs from the front: no segment after a zero is non-zero.
pub open spec fn compact(s: Seq<u8>) -> bool {
    &&& s.len() == 64
    &&& forall|i: int, j: int| 0 <= i < j < 64 && #[trigger] s[i] == 0 ==> #[trigger] s[j] == 0
}

/// Sums from `i` do not see updates below `i`.
proof fn lemma_sum_update_below(s: Seq<u8>, j: int, v: u8, i: int)
    requires
        s.len() == 64,
        0 <= j < i,
    ensures
        sum_from(s.update(j, v), i) == sum_from(s, i),
        live_total(s.update(j, v), i) == live_total(s, i),
    decreases 64 - i,
{
    if i < 64 {
        lemma_sum_update_below(s, j, v, i + 1);
    }
}

/// Sums from the front see an update as the change it makes.
proof fn lemma_sum_update_front(s: Seq<u8>, v: u8)
    requires
        s.len() == 64,
    ensures
        sum_from(s.update(0, v), 0) == sum_from(s, 0) - s[0] + v,
{
    lemma_sum_update_at(s, 0, v, 0);
}

/// Sums from at or below an updated segment see the change it makes.
proof fn lemma_sum_update_at(s: Seq<u8>, j: int, v: u8, i: int)
    requires
        s.len() == 64,
        0 <= i <= j < 64,
    ensures
        sum_from(s.update(j, v), i) == sum_from(s, i) - s[j] + v,
    decreases j - i,
{
    if i < j {
        lemma_sum_update_at(s, j, v, i + 1);
    } else {
        lemma_sum_update_below(s, j, v, j + 1);
    }
}

/// A run of zeros sums to zero and has no non-zero segment.
proof fn lemma_zero_tail(s: Seq<u8>, i: int)
    requires
        s.len() == 64,
        0 <= i,
        forall|j: int| i <= j < 64 ==> #[trigger] s[j] == 0,
    ensures
        sum_from(s, i) == 0,
        live_total(s, i) == 0,
        first_nonzero(s, i) == 64,
    decreases 64 - i,
{
    if i < 64 {
        lemma_zero_tail(s, i + 1);
    }
}

/// In a compact queue the live total is the sum of all segments.
proof fn lemma_compact_live(s: Seq<u8>, i: int)
    requires
        compact(s),
        0 <= i <= 64,
    ensures
        live_total(s, i) == sum_from(s, i),
    decreases 64 - i,
{
    if i < 64 {
        if s[i] == 0 {
            assert forall|j: int| i <= j < 64 implies #[trigger] s[j] == 0 by {
                if j > i {
                    assert(s[j] == 0);
                }
            }
            lemma_zero_tail(s, i);
        } else {
            lemma_compact_live(s, i + 1);
        }
    }
}

/// Moving a compact queue to the front changes nothing.
proof fn lemma_compact_front(s: Seq<u8>)
    requires
        compact(s),
    ensures
        to_front(s) == s,
{
    if s[0] == 0 {
        assert forall|j: int| 0 <= j < 64 implies #[trigger] s[j] == 0 by {
            if j > 0 {
                assert(s[j] == 0);
            }
        }
        lemma_zero_tail(s, 0);
    } else {
        assert(to_front(s) =~= s);
    }
}

/// Zeroing the front segment of a compact queue and moving the rest to the
/// front leaves a compact queue whose live total is what the first queue
/// held past its front segment.
proof fn lemma_drop_front(s: Seq<u8>)
    requires
        compact(s),
        s[0] != 0,
    ensures
        compact(to_front(s.update(0, 0))),
        live_total(to_front(s.update(0, 0)), 0) == live_total(s, 0) - s[0],
{
    let t = s.update(0, 0);
    let u = to_front(t);
    lemma_sum_update_below(s, 0, 0, 1);
    if s[1] == 0 {
        assert forall|j: int| 0 <= j < 64 implies #[trigger] t[j] == 0 by {
            if j > 1 {
                assert(s[j] == 0);
            }
        }
        lemma_zero_tail(t, 0);
        assert forall|j: int| 1 <= j < 64 implies #[trigger] s[j] == 0 by {
            if j > 1 {
                assert(s[j] == 0);
            }
        }
        lemma_zero_tail(s, 1);
    } else {
        assert(first_nonzero(t, 1) == 1);
        assert(first_nonzero(t, 0) == 1);
        assert forall|j: int| 0 <= j < 63 implies #[trigger] u[j] == s[j + 1] by {}
        assert(u[63] == 0);
        assert forall|i: int, j: int| 0 <= i < j < 64 && #[trigger] u[i] == 0 implies #[trigger] u[j] == 0 by {
            if j < 63 {
                assert(s[i + 1] == 0);
                assert(s[j + 1] == 0);
            }
        }
        lemma_live_shift(s, u, 0);
    }
}

/// The live total of a queue moved down by one.
proof fn lemma_live_shift(s: Seq<u8>, u: Seq<u8>, i: int)
    requires
        s.len() == 64,
        u.len() == 64,
        forall|j: int| 0 <= j < 63 ==> #[trigger] u[j] == s[j + 1],
        u[63] == 0,
        0 <= i <= 63,
    ensures
        live_total(u, i) == live_total(s, i + 1),
    decreases 63 - i,
{
    if i < 63 {
        lemma_live_shift(s, u, i + 1);
    }
}

/// Removing from a compact queue takes lines from the front: the amount
/// left over is what the live queue could not cover, the live queue holds
/// exactly the lines not taken, and it stays compact, starting at the
/// front.
pub proof fn law_remove_takes_from_total(s: Seq<u8>, amount: nat)
    requires
        compact(s),
    ensures
        removed(s, amount).1 == if amount >= live_total(s, 0) {
            amount - live_total(s, 0)
        } else {
            0
        },
        live_total(removed(s, amount).0, 0) == live_total(s, 0) - (amount - removed(s, amount).1),
        sum_from(removed(s, amount).0, 0) == live_total(removed(s, amount).0, 0),
        compact(removed(s, amount).0),
    decreases amount,
{
    lemma_compact_front(s);
    lemma_compact_live(s, 0);
    lemma_live_le_sum(s, 1);
    if s[0] == 0 {
    } else if s[0] > amount {
        let t = s.update(0, (s[0] - amount) as u8);
        lemma_sum_update_below(s, 0, (s[0] - amount) as u8, 1);
        assert forall|i: int, j: int| 0 <= i < j < 64 && #[trigger] t[i] == 0 implies #[trigger] t[j] == 0 by {
            assert(s[i] == 0);
        }
        lemma_compact_front(t);
        lemma_compact_live(t, 0);
    } else if s[0] == amount {
        lemma_drop_front(s);
        let u = to_front(s.update(0, 0));
        lemma_compact_live(u, 0);
    } else {
        let t = s.update(0, 0);
        let u = to_front(t);
        lemma_drop_front(s);
        lemma_compact_front(u);
        let b = (amount - s[0]) as nat;
        law_remove_takes_from_total(u, b);
        assert(removed(t, b) == removed(u, b));
        assert(removed(s, amount) == removed(t, b));
    }
}

/// Splitting from segment `i` on, with the segments taken so far filling
/// the positions below `i`.
proof fn lemma_split_at(s: Seq<u8>, f: Seq<u8>, i: int, to: nat)
    requires
        s.len() == 64,
        f.len() == 64,
        0 <= i <= 64,
        forall|k: int| 0 <= k < i ==> #[trigger] f[k] != 0,
        forall|k: int| i <= k < 64 ==> #[trigger] f[k] == 0,
    ensures
        ({
            let (r, g) = split_at(s, f, i, to);
            &&& r.len() == 64
            &&& g.len() == 64
            &&& sum_from(g, 0) == sum_from(f, 0) + (if to < live_total(s, i) { to as int } else { live_total(s, i) })
            &&& sum_from(r, 0) + sum_from(g, 0) == sum_from(s, 0) + sum_from(f, 0)
            &&& compact(g)
        }),
    decreases 64 - i,
{
    lemma_live_le_sum(s, i + 1);
    if i >= 64 || to == 0 || s[i] == 0 {
        assert forall|a: int, b: int| 0 <= a < b < 64 && #[trigger] f[a] == 0 implies #[trigger] f[b] == 0 by {}
    } else if s[i] > to {
        lemma_sum_update_at(s, i, (s[i] - to) as u8, 0);
        lemma_sum_update_at(f, i, to as u8, 0);
        let g = f.update(i, to as u8);
        assert forall|a: int, b: int| 0 <= a < b < 64 && #[trigger] g[a] == 0 implies #[trigger] g[b] == 0 by {}
    } else {
        lemma_sum_update_at(s, i, 0, 0);
        lemma_sum_update_at(f, i, s[i], 0);
        lemma_sum_update_below(s, i, 0, i + 1);
        lemma_split_at(s.update(i, 0), f.update(i, s[i]), i + 1, (to - s[i]) as nat);
    }
}

/// Splitting takes the front of the live queue, `to` lines or all of it if
/// it holds fewer; the lines taken and the lines left add up to the lines
/// before, and the front taken is a live queue of its own.
pub proof fn law_split_takes_front(s: Seq<u8>, to: nat)
    requires
        s.len() == 64,
    ensures
        ({
            let (rest, front) = split_at(s, zeros(), 0, to);
            &&& live_total(front, 0) == (if to < live_total(s, 0) { to as int } else { live_total(s, 0) })
            &&& sum_from(front, 0) == live_total(front, 0)
            &&& sum_from(rest, 0) + sum_from(front, 0) == sum_from(s, 0)
        }),
{
    lemma_zero_tail(zeros(), 0);
    lemma_split_at(s, zeros(), 0, to);
    let (rest, front) = split_at(s, zeros(), 0, to);
    lemma_compact_live(front, 0);
}

/// `first_zero` is the first zero segment at or after `i`.
proof fn lemma_first_zero(s: Seq<u8>, i: int)
    requires
        s.len() == 64,
        0 <= i <= 64,
    ensures
        i <= first_zero(s, i) <= 64,
        forall|j: int| i <= j < first_zero(s, i) ==> #[trigger] s[j] != 0,
        first_zero(s, i) < 64 ==> s[first_zero(s, i)] == 0,
    decreases 64 - i,
{
    if i < 64 {
        lemma_first_zero(s, i + 1);
    }
}

/// Accepting a segment of fewer than 256 lines into a compact queue with
/// room appends it behind the live queue: the queue stays compact and its
/// total grows by the amount.
pub proof fn law_accept_appends(s: Seq<u8>, amount: int)
    requires
        compact(s),
        s[63] == 0,
        0 <= amount < 256,
    ensures
        can_accept(s, amount),
        compact(accepted(s, amount)),
        live_total(accepted(s, amount), 0) == live_total(s, 0) + amount,
{
    lemma_first_zero(s, 0);
    lemma_compact_live(s, 0);
    if amount != 0 {
        let k = first_zero(s, 0);
        let t = accepted(s, amount);
        assert forall|j: int| k < j < 64 implies #[trigger] s[j] == 0 by {}
        assert forall|a: int, b: int| 0 <= a < b < 64 && #[trigger] t[a] == 0 implies #[trigger] t[b] == 0 by {}
        lemma_sum_update_at(s, k, (amount % 256) as u8, 0);
        lemma_compact_live(t, 0);
    }
}


/// Below `i` every segment is zero.
proof fn lemma_first_nonzero_from(s: Seq<u8>, i: int)
    requires
        s.len() == 64,
        0 <= i <= 64,
        forall|j: int| 0 <= j < i ==> #[trigger] s[j] == 0,
    ensures
        first_nonzero(s, 0) == first_nonzero(s, i),
    decreases i,
{
    if i > 0 {
        lemma_first_nonzero_skip(s, 0, i);
    }
}

proof fn lemma_first_nonzero_skip(s: Seq<u8>, a: int, i: int)
    requires
        s.len() == 64,
        0 <= a <= i <= 64,
        forall|j: int| a <= j < i ==> #[trigger] s[j] == 0,
    ensures
        first_nonzero(s, a) == first_nonzero(s, i),
    decreases i - a,
{
    if a < i {
        lemma_first_nonzero_skip(s, a + 1, i);
    }
}

/// `first_nonzero` finds the first non-zero segment.
proof fn lemma_first_nonzero(s: Seq<u8>, i: int)
    requires
        s.len() == 64,
        0 <= i <= 64,
    ensures
        i <= first_nonzero(s, i) <= 64,
        forall|j: int| i <= j < first_nonzero(s, i) ==> #[trigger] s[j] == 0,
        first_nonzero(s, i) < 64 ==> s[first_nonzero(s, i)] != 0,
    decreases 64 - i,
{
    if i < 64 {
        lemma_first_nonzero(s, i + 1);
    }
}

/// What a split leaves, from segment `i` on, of a queue that is zero below
/// `i` and compact from `i`: the rest is zero below its first non-zero
/// segment and compact from there, and its live run holds the lines not
/// taken.
proof fn lemma_split_rest(s: Seq<u8>, f: Seq<u8>, i: int, to: nat)
    requires
        s.len() == 64,
        0 <= i <= 64,
        forall|j: int| 0 <= j < i ==> #[trigger] s[j] == 0,
        forall|a: int, b: int| i <= a < b < 64 && #[trigger] s[a] == 0 ==> #[trigger] s[b] == 0,
    ensures
        ({
            let r = split_at(s, f, i, to).0;
            let k = first_nonzero(r, 0);
            &&& r.len() == 64
            &&& forall|a: int, b: int| k <= a < b < 64 && #[trigger] r[a] == 0 ==> #[trigger] r[b] == 0
            &&& live_total(r, k) == live_total(s, i) - (if to < live_total(s, i) { to as int } else { live_total(s, i) })
        }),
    decreases 64 - i,
{
    lemma_live_le_sum(s, i);
    if i >= 64 || to == 0 || s[i] == 0 {
        lemma_first_nonzero_from(s, i);
        if i < 64 && s[i] == 0 {
            assert forall|j: int| i <= j < 64 implies #[trigger] s[j] == 0 by {
                if j > i {
                    assert(s[j] == 0);
                }
            }
            lemma_zero_tail(s, i);
        } else if i < 64 {
            assert(first_nonzero(s, i) == i);
        }
    } else if s[i] > to {
        let r = s.update(i, (s[i] - to) as u8);
        lemma_sum_update_below(s, i, (s[i] - to) as u8, i + 1);
        lemma_first_nonzero_from(r, i);
        assert(first_nonzero(r, i) == i);
        lemma_live_le_sum(s, i + 1);
        assert forall|a: int, b: int| i <= a < b < 64 && #[trigger] r[a] == 0 implies #[trigger] r[b] == 0 by {
            assert(s[a] == 0);
        }
    } else {
        let t = s.update(i, 0);
        lemma_sum_update_below(s, i, 0, i + 1);
        lemma_live_le_sum(s, i + 1);
        assert forall|a: int, b: int| i + 1 <= a < b < 64 && #[trigger] t[a] == 0 implies #[trigger] t[b] == 0 by {
            assert(s[a] == 0);
        }
        lemma_split_rest(t, f.update(i, s[i]), i + 1, (to - s[i]) as nat);
    }
}

/// Moving a queue to the front keeps the live run that starts at its first
/// non-zero segment, and a queue compact from there becomes compact.
proof fn lemma_front_live(r: Seq<u8>)
    requires
        r.len() == 64,
        forall|a: int, b: int| first_nonzero(r, 0) <= a < b < 64 && #[trigger] r[a] == 0 ==> #[trigger] r[b] == 0,
    ensures
        live_total(to_front(r), 0) == live_total(r, first_nonzero(r, 0)),
        compact(to_front(r)),
{
    lemma_first_nonzero(r, 0);
    let k = first_nonzero(r, 0);
    let u = to_front(r);
    if k < 64 {
        lemma_front_live_from(r, k, 0);
        assert forall|a: int, b: int| 0 <= a < b < 64 && #[trigger] u[a] == 0 implies #[trigger] u[b] == 0 by {
            if b + k < 64 {
                assert(r[a + k] == 0);
                assert(r[b + k] == 0);
            }
        }
    } else {
        assert forall|j: int| 0 <= j < 64 implies #[trigger] r[j] == 0 by {}
        assert forall|a: int, b: int| 0 <= a < b < 64 && #[trigger] u[a] == 0 implies #[trigger] u[b] == 0 by {}
    }
}

proof fn lemma_front_live_from(r: Seq<u8>, k: int, j: int)
    requires
        r.len() == 64,
        0 <= k < 64,
        k == first_nonzero(r, 0),
        0 <= j <= 64 - k,
    ensures
        live_total(to_front(r), j) == live_total(r, j + k),
    decreases 64 - k - j,
{
    let u = to_front(r);
    if j + k < 64 {
        assert(u[j] == r[j + k]);
        if r[j + k] != 0 {
            lemma_front_live_from(r, k, j + 1);
        }
    } else if j < 64 {
        assert(u[j] == 0);
    }
}

/// After a split of a compact queue, the live queue left, moved to the
/// front, is compact and holds the lines not taken.
pub proof fn law_split_leaves_rest(s: Seq<u8>, to: nat)
    requires
        compact(s),
    ensures
        compact(to_front(split_at(s, zeros(), 0, to).0)),
        live_total(to_front(split_at(s, zeros(), 0, to).0), 0) == live_total(s, 0) - (if to < live_total(s, 0) { to as int } else { live_total(s, 0) }),
{
    lemma_split_rest(s, zeros(), 0, to);
    lemma_front_live(split_at(s, zeros(), 0, to).0);
}

impl GarbageQueue {
    /// Creates an empty queue.
    pub fn new() -> (q: Self)
        ensures
            q@ == zeros(),
    {
        let q = GarbageQueue { segments: [0u8; 64] };
        assert(q@ =~= zeros());
        q
    }

    /// Total lines in the live queue: the segments up to the first zero.
    pub fn total(self) -> (c: usize)
        ensures
            c == live_total(self@, 0),
    {
        let mut i: usize = 0;
        let mut c: usize = 0;
        proof {
            lemma_live_le_sum(self@, 0);
        }
        while i < 64
            invariant_except_break
                i <= 64,
                c + live_total(self@, i as int) == live_total(self@, 0),
                c <= 255 * i,
            ensures
                c == live_total(self@, 0),
            decreases 64 - i,
        {
            if self.segments[i] == 0 {
                break;
            }
            c += self.segments[i] as usize;
            i += 1;
        }
        c
    }

    /// Drops the leading zero segments: each segment moves down by their
    /// number, and the last positions keep their values.
    pub fn downshift(&mut self)
        ensures
            final(self)@ == shifted_down(old(self)@),
    {
        let ghost s = self@;
        let mut start: usize = 0;
        while start < 64 && self.segments[start] == 0
            invariant
                self@ == s,
                start <= 64,
                first_nonzero(s, 0) == first_nonzero(s, start as int),
            decreases 64 - start,
        {
            start += 1;
        }
        if start == 64 {
            return;
        }
        assert(first_nonzero(s, start as int) == start);
        let mut i: usize = 0;
        while start + i < 64
            invariant
                start < 64,
                start == first_nonzero(s, 0),
                i <= 64 - start,
                self@.len() == 64,
                forall|k: int| 0 <= k < i ==> #[trigger] self@[k] == s[k + start],
                forall|k: int| i <= k < 64 ==> #[trigger] self@[k] == s[k],
            decreases 64 - start - i,
        {
            let v = self.segments[start + i];
            self.segments[i] = v;
            i += 1;
        }
        assert(self@ =~= shifted_down(s));
    }

    /// Moves the live segments to the front: drops the leading zeros and
    /// clears the positions this leaves at the end.
    fn move_to_front(&mut self)
        ensures
            final(self)@ == to_front(old(self)@),
    {
        let ghost s = self@;
        let mut start: usize = 0;
        while start < 64 && self.segments[start] == 0
            invariant
                self@ == s,
                start <= 64,
                first_nonzero(s, 0) == first_nonzero(s, start as int),
            decreases 64 - start,
        {
            start += 1;
        }
        if start == 64 {
            return;
        }
        assert(first_nonzero(s, start as int) == start);
        let mut i: usize = 0;
        while i < 64
            invariant
                start < 64,
                start == first_nonzero(s, 0),
                i <= 64,
                self@.len() == 64,
                forall|k: int| 0 <= k < i ==> #[trigger] self@[k] == (if k + start < 64 { s[k + start] } else { 0u8 }),
                forall|k: int| i <= k < 64 ==> #[trigger] self@[k] == s[k],
            decreases 64 - i,
        {
            let v = if i + start < 64 { self.segments[i + start] } else { 0 };
            self.segments[i] = v;
            i += 1;
        }
        assert(self@ =~= to_front(s));
    }

    /// Appends a segment of `amount` lines at the first zero segment; an
    /// amount of zero changes nothing. The segment keeps the low eight bits
    /// of `amount`.
    pub fn accept(&mut self, amount: usize)
        requires
            can_accept(old(self)@, amount as int),
        ensures
            final(self)@ == accepted(old(self)@, amount as int),
    {
        if amount == 0 {
            return;
        }
        let mut idx: usize = 0;
        while idx < 64
            invariant_except_break
                idx <= 64,
                first_zero(self@, 0) < 64,
                first_zero(self@, 0) == first_zero(self@, idx as int),
            ensures
                idx < 64,
                idx == first_zero(self@, 0),
            decreases 64 - idx,
        {
            if self.segments[idx] == 0 {
                break;
            }
            idx += 1;
        }
        self.segments[idx] = (amount % 256) as u8;
    }

    /// Appends each of `amounts` in turn.
    pub fn accept_many(&mut self, amounts: &[usize])
        requires
            can_accept_all(old(self)@, amounts@, amounts@.len() as int),
        ensures
            final(self)@ == accepted_all(old(self)@, amounts@, amounts@.len() as int),
    {
        let mut i: usize = 0;
        while i < amounts.len()
            invariant
                i <= amounts@.len(),
                self@ == accepted_all(old(self)@, amounts@, i as int),
                can_accept_all(old(self)@, amounts@, amounts@.len() as int),
            decreases amounts@.len() - i,
        {
            proof {
                lemma_can_accept_prefix(old(self)@, amounts@, i as int + 1, amounts@.len() as int);
            }
            self.accept(amounts[i]);
            i += 1;
        }
    }

    /// Splits off the front of the live queue, at most `to` lines, and
    /// returns it; the lines taken are removed from this queue, and what is
    /// left is moved to the front.
    pub fn split(&mut self, to: usize) -> (front: Self)
        ensures
            final(self)@ == to_front(split_at(old(self)@, zeros(), 0, to as nat).0),
            front@ == split_at(old(self)@, zeros(), 0, to as nat).1,
            compact(front@),
            live_total(front@, 0) == (if to < live_total(old(self)@, 0) { to as int } else { live_total(old(self)@, 0) }),
            compact(old(self)@) ==> compact(final(self)@),
            compact(old(self)@) ==> live_total(final(self)@, 0) + live_total(front@, 0) == live_total(old(self)@, 0),
    {
        proof {
            law_split_takes_front(old(self)@, to as nat);
            lemma_split_at(old(self)@, zeros(), 0, to as nat);
            if compact(old(self)@) {
                law_split_leaves_rest(old(self)@, to as nat);
            }
        }
        let mut new_queue = Self::new();
        let mut rest = to;
        let mut i: usize = 0;
        while i < 64 && rest > 0
            invariant_except_break
                i <= 64,
                self@.len() == 64,
                new_queue@.len() == 64,
                split_at(self@, new_queue@, i as int, rest as nat) == split_at(old(self)@, zeros(), 0, to as nat),
            ensures
                (self@, new_queue@) == split_at(old(self)@, zeros(), 0, to as nat),
            decreases 64 - i,
        {
            if self.segments[i] == 0 {
                break;
            }
            let seg = self.segments[i];
            if seg as usize > rest {
                new_queue.segments[i] = rest as u8;
                self.segments[i] = seg - rest as u8;
                break;
            }
            new_queue.segments[i] = seg;
            rest = rest - seg as usize;
            self.segments[i] = 0;
            i += 1;
        }
        self.move_to_front();
        new_queue
    }

    /// Removes `amount` lines from the front of the queue and returns how
    /// many of them the queue could not cover; what is left is moved to the
    /// front. A compact queue stays compact and loses exactly the lines
    /// taken.
    pub fn remove(&mut self, amount: usize) -> (left: usize)
        ensures
            (final(self)@, left as nat) == removed(old(self)@, amount as nat),
            compact(old(self)@) ==> compact(final(self)@),
            compact(old(self)@) ==> left == if amount >= live_total(old(self)@, 0) {
                amount - live_total(old(self)@, 0)
            } else {
                0
            },
            compact(old(self)@) ==> live_total(final(self)@, 0) == live_total(old(self)@, 0) - (amount - left),
    {
        proof {
            if compact(old(self)@) {
                law_remove_takes_from_total(old(self)@, amount as nat);
            }
        }
        let mut rest = amount;
        loop
            invariant
                self@.len() == 64,
                removed(self@, rest as nat) == removed(old(self)@, amount as nat),
                compact(old(self)@) ==> compact(removed(old(self)@, amount as nat).0),
                compact(old(self)@) ==> removed(old(self)@, amount as nat).1 == if amount >= live_total(old(self)@, 0) {
                    amount - live_total(old(self)@, 0)
                } else {
                    0
                },
                compact(old(self)@) ==> live_total(removed(old(self)@, amount as nat).0, 0) == live_total(old(self)@, 0) - (amount - removed(old(self)@, amount as nat).1),
            decreases rest,
        {
            let ghost prev = self@;
            self.move_to_front();
            let ghost d = self@;
            assert(removed(prev, rest as nat) == if d[0] == 0 {
                (d, rest as nat)
            } else if d[0] >= rest {
                (to_front(d.update(0, (d[0] - rest) as u8)), 0nat)
            } else {
                removed(d.update(0, 0), (rest - d[0]) as nat)
            });
            if self.segments[0] == 0 {
                assert(removed(old(self)@, amount as nat) == (self@, rest as nat));
                return rest;
            }
            if self.segments[0] as usize >= rest {
                self.segments[0] = self.segments[0] - rest as u8;
                assert(self@ =~= d.update(0, (d[0] - rest) as u8));
                self.move_to_front();
                return 0;
            }
            rest = rest - self.segments[0] as usize;
            self.segments[0] = 0;
            assert(self@ =~= d.update(0, 0));
        }
    }
}

impl Default for GarbageQueue {
    /// An empty queue.
    fn default() -> (q: Self)
        ensures
            q@ == zeros(),
    {
        Self::new()
    }
}

} // verus!
