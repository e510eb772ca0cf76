//! Incoming garbage, as a queue of segments.

use vstd::prelude::*;

verus! {

/// Sum of the segments of `s`.
pub open spec fn seg_sum(s: Seq<u32>) -> int
    decreases s.len(),
{
    if s.len() == 0 {
        0
    } else {
        seg_sum(s.drop_last()) + s.last()
    }
}

/// Tanking up to `remaining` lines from the front of `s`, oldest first:
/// whole segments are taken while they fit, and a segment that does not
/// fit gives the lines still wanted and keeps the rest at the front. Gives
/// the segments taken, in the order taken, and the segments left.
pub open spec fn tanked(s: Seq<u32>, remaining: int) -> (Seq<u32>, Seq<u32>)
    decreases s.len(),
{
    if remaining <= 0 || s.len() == 0 {
        (seq![], s)
    } else {
        let seg = s[0];
        if seg <= remaining {
            let rest = tanked(s.drop_first(), remaining - seg);
            (seq![seg].add(rest.0), rest.1)
        } else {
            (seq![remaining as u32], seq![(seg - remaining) as u32].add(s.drop_first()))
        }
    }
}

/// A queue of incoming garbage segments, each a group of lines to be added.
#[derive(Debug, Clone, PartialEq, Eq)]
pub struct GarbageQueue {
    /// The segments, oldest first.
    pub segments: Vec<u32>,
}

/// Summing a sequence front to back.
pub proof fn lemma_seg_sum_push(s: Seq<u32>, v: u32)
    ensures
        seg_sum(s.push(v)) == seg_sum(s) + v,
{
    assert(s.push(v).drop_last() =~= s);
}

/// Sums are never negative.
pub proof fn lemma_seg_sum_nonneg(s: Seq<u32>)
    ensures
        seg_sum(s) >= 0,
    decreases s.len(),
{
    if s.len() > 0 {
        lemma_seg_sum_nonneg(s.drop_last());
    }
}

/// Adding a segment at the front adds its size.
pub proof fn lemma_seg_sum_front(v: u32, s: Seq<u32>)
    ensures
        seg_sum(seq![v].add(s)) == v + seg_sum(s),
    decreases s.len(),
{
    let t = seq![v].add(s);
    if s.len() == 0 {
        assert(t.drop_last() =~= Seq::<u32>::empty());
        assert(seg_sum(t.drop_last()) == 0);
        assert(t.last() == v);
        assert(seg_sum(s) == 0);
    } else {
        lemma_seg_sum_front(v, s.drop_last());
        assert(seq![v].add(s).drop_last() =~= seq![v].add(s.drop_last()));
        assert(seq![v].add(s).last() == s.last());
    }
}

/// A prefix never sums to more than the whole.
pub proof fn lemma_seg_sum_prefix_le(s: Seq<u32>, k: int)
    requires
        0 <= k <= s.len(),
    ensures
        seg_sum(s.subrange(0, k)) <= seg_sum(s),
    decreases s.len() - k,
{
    if k < s.len() {
        lemma_seg_sum_prefix_le(s, k + 1);
        assert(s.subrange(0, k + 1) =~= s.subrange(0, k).push(s[k]));
        lemma_seg_sum_push(s.subrange(0, k), s[k]);
    } else {
        assert(s.subrange(0, k) =~= s);
    }
}

impl GarbageQueue {
    /// Creates a new, empty garbage queue.
    pub fn new() -> (q: Self)
        ensures
            q.segments@ == Seq::<u32>::empty(),
    {
        Self { segments: Vec::new() }
    }

    /// Returns the total number of lines in the queue.
    pub fn total(&self) -> (r: u32)
        requires
            seg_sum(self.segments@) <= u32::MAX,
        ensures
            r == seg_sum(self.segments@),
    {
        let mut t: u32 = 0;
        let mut i: usize = 0;
        while i < self.segments.len()
            invariant
                i <= self.segments@.len(),
                seg_sum(self.segments@) <= u32::MAX,
                t == seg_sum(self.segments@.subrange(0, i as int)),
            decreases self.segments@.len() - i,
        {
            proof {
                let s = self.segments@;
                assert(s.subrange(0, i as int + 1) =~= s.subrange(0, i as int).push(s[i as int]));
                lemma_seg_sum_push(s.subrange(0, i as int), s[i as int]);
                lemma_seg_sum_prefix_le(s, i as int + 1);
            }
            t = t + self.segments[i];
            i += 1;
        }
        proof {
            assert(self.segments@.subrange(0, i as int) =~= self.segments@);
        }
        t
    }

    /// Receives garbage from the opponent. The queue never holds more than
    /// `max` lines: excess lines are discarded.
    pub fn recieve(&mut self, amount: u32, max: u32)
        requires
            seg_sum(old(self).segments@) + amount <= u32::MAX,
        ensures
            seg_sum(old(self).segments@) >= max ==> final(self).segments@ == old(self).segments@,
            seg_sum(old(self).segments@) < max ==> ({
                let take = if seg_sum(old(self).segments@) + amount > max {
                    max - seg_sum(old(self).segments@)
                } else {
                    amount as int
                };
                &&& take > 0 ==> final(self).segments@ == old(self).segments@.push(take as u32)
                &&& take == 0 ==> final(self).segments@ == old(self).segments@
            }),
    {
        let current_total: u32 = self.total();
        if current_total >= max {
            return;
        }
        let mut amount = amount;
        if current_total + amount > max {
            amount = max - current_total;
        }
        if amount > 0 {
            self.segments.push(amount);
        }
    }

    /// Tanks or cancels up to `max` lines at once, returning the segments
    /// taken. The queue is first in, first out: segments are taken from the
    /// front, the oldest first; one that does not fit gives the lines still
    /// wanted and keeps its remainder at the front.
    pub fn tank(&mut self, max: u32) -> (sent: Vec<u32>)
        ensures
            (sent@, final(self).segments@) == tanked(old(self).segments@, max as int),
    {
        let mut sent: Vec<u32> = Vec::new();
        let mut remaining = max;
        while remaining > 0 && self.segments.len() > 0
            invariant
                tanked(old(self).segments@, max as int) == (sent@.add(tanked(self.segments@, remaining as int).0), tanked(self.segments@, remaining as int).1),
            decreases self.segments@.len() + if remaining > 0 { 1int } else { 0int },
        {
            let ghost before = self.segments@;
            let ghost sent_before = sent@;
            let ghost rem_before = remaining;
            let segment = self.segments.remove(0);
            if segment <= remaining {
                sent.push(segment);
                remaining -= segment;
                proof {
                    assert(before.drop_first() =~= self.segments@);
                    assert(sent_before.add(seq![segment].add(tanked(self.segments@, remaining as int).0)) =~= sent@.add(tanked(self.segments@, remaining as int).0));
                }
            } else {
                self.segments.insert(0, segment - remaining);
                sent.push(remaining);
                remaining = 0;
                proof {
                    assert(self.segments@ =~= seq![(segment - rem_before) as u32].add(before.drop_first()));
                    assert(sent@ =~= sent_before.add(seq![rem_before as u32]));
                    assert(sent@.add(Seq::<u32>::empty()) =~= sent@);
                }
            }
        }
        proof {
            assert(sent@.add(Seq::<u32>::empty()) =~= sent@);
        }
        sent
    }
}

/// Tanking conserves garbage: what is taken and what is left add up to
/// what was queued, and exactly `max` lines are taken when that many are
/// queued (all of them otherwise).
pub proof fn law_tank_conserves(s: Seq<u32>, max: int)
    requires
        max >= 0,
    ensures
        seg_sum(tanked(s, max).0) + seg_sum(tanked(s, max).1) == seg_sum(s),
        seg_sum(tanked(s, max).0) == if seg_sum(s) < max { seg_sum(s) } else { max },
    decreases s.len(),
{
    lemma_seg_sum_nonneg(s);
    if max == 0 || s.len() == 0 {
        assert(seg_sum(Seq::<u32>::empty()) == 0);
    } else {
        let seg = s[0];
        lemma_seg_sum_nonneg(s.drop_first());
        assert(s =~= seq![seg].add(s.drop_first()));
        lemma_seg_sum_front(seg, s.drop_first());
        if seg <= max {
            law_tank_conserves(s.drop_first(), max - seg);
            lemma_seg_sum_front(seg, tanked(s.drop_first(), max - seg).0);
        } else {
            lemma_seg_sum_front((seg - max) as u32, s.drop_first());
            lemma_seg_sum_front(max as u32, Seq::<u32>::empty());
            assert(seq![max as u32].add(Seq::<u32>::empty()) =~= seq![max as u32]);
        }
    }
}

impl Default for GarbageQueue {
    /// An empty queue.
    fn default() -> (q: Self)
        ensures
            q.segments@ == Seq::<u32>::empty(),
    {
        Self::new()
    }
}

/// Receiving garbage into a queue that holds at most `max` lines keeps it
/// within `max`: it holds the smaller of `max` and its lines plus the
/// amount received.
pub proof fn law_receive_caps(s: Seq<u32>, amount: int, max: int, after: Seq<u32>)
    requires
        0 <= amount,
        seg_sum(s) <= max,
        seg_sum(s) >= max ==> after == s,
        seg_sum(s) < max ==> ({
            let take = if seg_sum(s) + amount > max { max - seg_sum(s) } else { amount };
            &&& take > 0 ==> after == s.push(take as u32)
            &&& take == 0 ==> after == s
        }),
        max <= u32::MAX,
    ensures
        seg_sum(after) == if seg_sum(s) + amount > max { max } else { seg_sum(s) + amount },
        seg_sum(after) <= max,
{
    lemma_seg_sum_nonneg(s);
    if seg_sum(s) < max {
        let take = if seg_sum(s) + amount > max { max - seg_sum(s) } else { amount };
        if take > 0 {
            lemma_seg_sum_push(s, take as u32);
        }
    }
}

} // verus!
