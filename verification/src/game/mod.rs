//! Game state transitions shared by play and search.

pub mod attack;
pub mod garbage;
pub mod ruleset;
pub mod search;

use vstd::prelude::*;
use crate::board::Board;
use crate::buffer::Buffer;
use crate::game::attack::Attack;
use crate::game::garbage::{law_tank_conserves, lemma_seg_sum_push, seg_sum, tanked, GarbageQueue};
use crate::piece::Piece;
use crate::rng::{next_seed, Rng};
use crate::board::fits;
use crate::placement::Move;
use crate::spin::Spin;
use crate::game::search::{play_post, PlayOutcome, SearchGame};

verus! {

/// Capacity of the piece queue.
pub const QUEUE_SIZE: usize = 28;

/// The state of a game: its generators, board, pieces, counters, incoming
/// garbage and garbage rules.
pub struct Game<const N: usize> {
    /// The piece generator.
    pub rng: Rng,
    /// The generator of garbage hole columns.
    pub grng: Rng,
    pub board: Board<N>,
    pub queue: Buffer<Piece, 28>,
    pub hold: Option<Piece>,
    pub combo: Option<u32>,
    pub b2b: Option<u32>,
    pub garbage_queue: GarbageQueue,
    /// The most garbage lines that enter the board after one placement.
    pub garbage_cap: u32,
    /// Whether a perfect clear keeps back-to-back.
    pub pc_b2b: bool,
    /// Garbage that entered after placements that cleared nothing and is
    /// still to be put on the board: each segment's lines and the column
    /// of its hole, oldest first.
    pub garbage_rows: Vec<(u32, u32)>,
}

/// The hole column drawn from a generator value: the value modulo the
/// board width.
pub open spec fn hole_column(v: int) -> u32 {
    ((v as u32) % 10) as u32
}

/// The generator state after `n` draws from `s`.
pub open spec fn drawn(s: int, n: nat) -> int
    decreases n,
{
    if n == 0 {
        s
    } else {
        next_seed(drawn(s, (n - 1) as nat))
    }
}

/// The hole columns drawn for `n` segments from a generator in state `s`.
pub open spec fn hole_columns(s: int, n: nat) -> Seq<u32>
    decreases n,
{
    if n == 0 {
        Seq::empty()
    } else {
        hole_columns(s, (n - 1) as nat).push(hole_column(drawn(s, n)))
    }
}

/// Each segment paired with its hole column.
pub open spec fn with_columns(segs: Seq<u32>, cols: Seq<u32>) -> Seq<(u32, u32)> {
    Seq::new(segs.len(), |i: int| (segs[i], cols[i]))
}

proof fn lemma_hole_columns_len(s: int, k: nat)
    ensures
        hole_columns(s, k).len() == k,
    decreases k,
{
    if k > 0 {
        lemma_hole_columns_len(s, (k - 1) as nat);
    }
}

impl<const N: usize> Game<N> {
    /// The search state of the game: its board, pieces and counters, and
    /// the garbage it owes.
    pub fn search_state(&self) -> (s: SearchGame<N>)
        requires
            seg_sum(self.garbage_queue.segments@) <= u32::MAX,
        ensures
            s.board == self.board,
            s.queue@ == self.queue@,
            s.hold == self.hold,
            s.combo == self.combo,
            s.b2b == self.b2b,
            s.incoming == seg_sum(self.garbage_queue.segments@),
    {
        SearchGame {
            board: self.board,
            queue: self.queue.copied(),
            hold: self.hold,
            combo: self.combo,
            b2b: self.b2b,
            incoming: self.garbage_queue.total(),
        }
    }

    /// Applies `placement` without garbage handling: places it on the
    /// board, takes the piece from the queue or through hold, and updates
    /// combo and back-to-back as `SearchGame::play` does.
    pub fn play(&mut self, placement: Move) -> (o: PlayOutcome)
        requires
            old(self).board.wf(),
            old(self).queue@.len() > 0,
            fits::<N>(placement),
            old(self).combo != Some(u32::MAX),
            old(self).b2b != Some(u32::MAX),
        ensures
            play_post(
                old(self).board,
                old(self).queue@,
                old(self).hold,
                old(self).combo,
                old(self).b2b,
                placement,
                old(self).pc_b2b,
                final(self).board,
                final(self).queue@,
                final(self).hold,
                final(self).combo,
                final(self).b2b,
                o,
            ),
            final(self).rng == old(self).rng,
            final(self).grng == old(self).grng,
            final(self).garbage_queue == old(self).garbage_queue,
            final(self).garbage_cap == old(self).garbage_cap,
            final(self).pc_b2b == old(self).pc_b2b,
            final(self).garbage_rows@ == old(self).garbage_rows@,
    {
        let first = *self.queue.index(0);
        let requires_hold = placement.piece() != first;
        let line_clears = self.board.do_move(placement) as u32;
        let has_held = self.hold.is_some();
        if !has_held && !requires_hold {
            self.queue.remove(0);
        } else if !has_held && requires_hold {
            self.hold = Some(first);
            self.queue.remove(0);
            self.queue.remove(0);
        } else if has_held && requires_hold {
            self.hold = Some(first);
            self.queue.remove(0);
        } else {
            self.queue.remove(0);
        }
        let is_special_clear = placement.spin() != Spin::NoSpin || line_clears >= 4;
        let is_pc = !self.board.any() && line_clears > 0;
        let pre_b2b = self.b2b;
        let pre_combo = self.combo;
        if line_clears > 0 {
            match self.combo {
                Some(c) => self.combo = Some(c + 1),
                None => self.combo = Some(0),
            }
            if is_special_clear || (is_pc && self.pc_b2b) {
                match self.b2b {
                    Some(b) => self.b2b = Some(b + 1),
                    None => self.b2b = Some(0),
                }
            } else {
                self.b2b = None;
            }
        } else {
            self.combo = None;
        }
        PlayOutcome {
            spin: placement.spin(),
            line_clears,
            is_pc,
            b2b: self.b2b,
            combo: self.combo,
            pre_b2b,
            pre_combo,
        }
    }

    /// Settles incoming garbage after a placement that produced `attack`.
    /// A placement that cleared lines cancels garbage with its attack,
    /// oldest first, and reports how much it cancelled. One that cleared
    /// nothing lets up to `garbage_cap` lines in, oldest first; each
    /// segment gets a hole column drawn from the garbage generator.
    pub fn settle_garbage(&mut self, attack: Attack) -> (a: Attack)
        ensures
            attack.line_clears > 0 ==> ({
                let (sent, left) = tanked(old(self).garbage_queue.segments@, attack.total as int);
                &&& a == (Attack { canceled: seg_sum(sent) as u32, ..attack })
                &&& final(self).garbage_queue.segments@ == left
                &&& final(self).grng == old(self).grng
                &&& final(self).garbage_rows@ == old(self).garbage_rows@
            }),
            attack.line_clears == 0 ==> ({
                let (sent, left) = tanked(old(self).garbage_queue.segments@, old(self).garbage_cap as int);
                &&& a == attack
                &&& final(self).garbage_queue.segments@ == left
                &&& final(self).grng.state() == drawn(old(self).grng.state(), sent.len())
                &&& final(self).garbage_rows@ == old(self).garbage_rows@ + with_columns(
                    sent,
                    hole_columns(old(self).grng.state(), sent.len()),
                )
            }),
            attack.line_clears > 0 ==> a.canceled == (if attack.total < seg_sum(old(self).garbage_queue.segments@) {
                attack.total as int
            } else {
                seg_sum(old(self).garbage_queue.segments@)
            }),
            attack.line_clears > 0 ==> seg_sum(final(self).garbage_queue.segments@) == seg_sum(old(self).garbage_queue.segments@) - a.canceled,
            attack.line_clears == 0 ==> seg_sum(final(self).garbage_queue.segments@) == seg_sum(old(self).garbage_queue.segments@) - (if old(self).garbage_cap < seg_sum(old(self).garbage_queue.segments@) {
                old(self).garbage_cap as int
            } else {
                seg_sum(old(self).garbage_queue.segments@)
            }),
            final(self).board == old(self).board,
            final(self).rng == old(self).rng,
            final(self).queue@ == old(self).queue@,
            final(self).hold == old(self).hold,
            final(self).combo == old(self).combo,
            final(self).b2b == old(self).b2b,
            final(self).garbage_cap == old(self).garbage_cap,
            final(self).pc_b2b == old(self).pc_b2b,
    {
        if attack.line_clears == 0 {
            proof {
                law_tank_conserves(old(self).garbage_queue.segments@, old(self).garbage_cap as int);
            }
            let segments = self.garbage_queue.tank(self.garbage_cap);
            let ghost s0 = old(self).grng.state();
            let ghost rows0 = self.garbage_rows@;
            let ghost left = self.garbage_queue.segments@;
            let mut i: usize = 0;
            while i < segments.len()
                invariant
                    i <= segments@.len(),
                    self.grng.state() == drawn(s0, i as nat),
                    self.garbage_rows@ == rows0 + with_columns(segments@.take(i as int), hole_columns(s0, i as nat)),
                    self.garbage_queue.segments@ == left,
                    self.board == old(self).board,
                    self.rng == old(self).rng,
                    self.queue@ == old(self).queue@,
                    self.hold == old(self).hold,
                    self.combo == old(self).combo,
                    self.b2b == old(self).b2b,
                    self.garbage_cap == old(self).garbage_cap,
                    self.pc_b2b == old(self).pc_b2b,
                decreases segments@.len() - i,
            {
                proof {
                    lemma_hole_columns_len(s0, i as nat);
                    lemma_hole_columns_len(s0, (i + 1) as nat);
                }
                let v = self.grng.next();
                let col = (v as u32) % 10;
                let ghost before = self.garbage_rows@;
                self.garbage_rows.push((segments[i], col));
                proof {
                    assert(self.garbage_rows@ =~= rows0 + with_columns(segments@.take(i as int + 1), hole_columns(s0, (i + 1) as nat)));
                }
                i += 1;
            }
            proof {
                assert(segments@.take(segments@.len() as int) =~= segments@);
            }
            return attack;
        }
        let canceled = self.garbage_queue.tank(attack.total);
        proof {
            law_tank_conserves(old(self).garbage_queue.segments@, attack.total as int);
        }
        let mut sum: u32 = 0;
        let mut i: usize = 0;
        while i < canceled.len()
            invariant
                i <= canceled@.len(),
                seg_sum(canceled@) <= attack.total,
                sum == seg_sum(canceled@.take(i as int)),
            decreases canceled@.len() - i,
        {
            proof {
                assert(canceled@.take(i as int + 1) =~= canceled@.take(i as int).push(canceled@[i as int]));
                lemma_seg_sum_push(canceled@.take(i as int), canceled@[i as int]);
                lemma_prefix_sum_le(canceled@, i as int + 1);
            }
            sum = sum + canceled[i];
            i += 1;
        }
        proof {
            assert(canceled@.take(canceled@.len() as int) =~= canceled@);
        }
        Attack { canceled: sum, ..attack }
    }
}

/// A search state plays a placement as its game does: from the same board,
/// pieces and counters, with the game's perfect-clear rule, both give the
/// same board, pieces, counters and outcome.
pub proof fn law_search_plays_like_game<const N: usize>(
    g0: Game<N>,
    g1: Game<N>,
    og: PlayOutcome,
    s0: SearchGame<N>,
    s1: SearchGame<N>,
    os: PlayOutcome,
    m: Move,
)
    requires
        g0.queue@.len() > 0,
        s0.board == g0.board,
        s0.queue@ == g0.queue@,
        s0.hold == g0.hold,
        s0.combo == g0.combo,
        s0.b2b == g0.b2b,
        play_post(g0.board, g0.queue@, g0.hold, g0.combo, g0.b2b, m, g0.pc_b2b, g1.board, g1.queue@, g1.hold, g1.combo, g1.b2b, og),
        play_post(s0.board, s0.queue@, s0.hold, s0.combo, s0.b2b, m, g0.pc_b2b, s1.board, s1.queue@, s1.hold, s1.combo, s1.b2b, os),
    ensures
        os == og,
        s1.board == g1.board,
        s1.queue@ == g1.queue@,
        s1.hold == g1.hold,
        s1.combo == g1.combo,
        s1.b2b == g1.b2b,
{
    crate::game::search::law_play_deterministic(
        g0.board, g0.queue@, g0.hold, g0.combo, g0.b2b, m, g0.pc_b2b,
        g1.board, g1.queue@, g1.hold, g1.combo, g1.b2b, og,
        s1.board, s1.queue@, s1.hold, s1.combo, s1.b2b, os,
    );
}

/// With no garbage queued, settling takes nothing: nothing is cancelled
/// and nothing enters.
pub proof fn law_settle_nothing_queued(r: int)
    ensures
        tanked(Seq::<u32>::empty(), r) == (Seq::<u32>::empty(), Seq::<u32>::empty()),
        seg_sum(Seq::<u32>::empty()) == 0,
{
}

/// A prefix of segments sums to no more than all of them.
proof fn lemma_prefix_sum_le(s: Seq<u32>, k: int)
    requires
        0 <= k <= s.len(),
    ensures
        seg_sum(s.take(k)) <= seg_sum(s),
    decreases s.len() - k,
{
    if k < s.len() {
        lemma_prefix_sum_le(s, k + 1);
        assert(s.take(k + 1) =~= s.take(k).push(s[k]));
        lemma_seg_sum_push(s.take(k), s[k]);
    } else {
        assert(s.take(k) =~= s);
    }
}

} // verus!
