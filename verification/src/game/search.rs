//! Compact simulation state for the search.

use vstd::prelude::*;
use crate::board::{Board, fits, lines_after, moved};
use crate::buffer::Buffer;
use crate::piece::Piece;
use crate::placement::Move;
use crate::spin::Spin;
use crate::game::attack::special;

verus! {

/// The parts of a game that a placement can change. `incoming` is the total
/// garbage owed when the state was created.
#[derive(Clone, Debug)]
pub struct SearchGame<const N: usize> {
    pub board: Board<N>,
    pub queue: Buffer<Piece, 28>,
    pub hold: Option<Piece>,
    pub combo: Option<u32>,
    pub b2b: Option<u32>,
    pub incoming: u32,
}

/// What a placement did, as the attack computation needs it.
#[derive(Clone, Copy, Debug, PartialEq, Eq, Structural)]
pub struct PlayOutcome {
    /// Spin of the placement.
    pub spin: Spin,
    /// Lines cleared.
    pub line_clears: u32,
    /// The placement cleared lines and left the board empty.
    pub is_pc: bool,
    /// Back-to-back count after the placement.
    pub b2b: Option<u32>,
    /// Combo count after the placement.
    pub combo: Option<u32>,
    /// Back-to-back count before the placement.
    pub pre_b2b: Option<u32>,
    /// Combo count before the placement.
    pub pre_combo: Option<u32>,
}

/// A counter that starts at zero and then counts up.
pub open spec fn bump(c: Option<u32>) -> Option<u32> {
    match c {
        Some(v) => Some((v + 1) as u32),
        None => Some(0u32),
    }
}

/// What playing a placement does to a game's board, queue, hold, combo
/// and back-to-back: the board after, the piece taken from the queue or
/// through hold, the counters, and the outcome reported.
pub open spec fn play_post<const N: usize>(
    b0: Board<N>,
    q: Seq<Piece>,
    h0: Option<Piece>,
    c0: Option<u32>,
    bb0: Option<u32>,
    placement: Move,
    pc_b2b: bool,
    b1: Board<N>,
    q1: Seq<Piece>,
    h1: Option<Piece>,
    c1: Option<u32>,
    bb1: Option<u32>,
    o: PlayOutcome,
) -> bool {
    let requires_hold = placement.piece_spec() != q[0];
    &&& moved(b0, placement, b1)
    &&& o.line_clears == lines_after(b0, placement)
    &&& o.spin == placement.spin_spec()
    &&& o.is_pc == (b1.is_clear() && o.line_clears > 0)
    &&& o.pre_b2b == bb0
    &&& o.pre_combo == c0
    &&& o.b2b == bb1
    &&& o.combo == c1
    &&& h0 is None && !requires_hold ==> q1 == q.remove(0) && h1 is None
    &&& h0 is None && requires_hold ==> h1 == Some(q[0]) && (if q.len() > 1 {
        q1 == q.remove(0).remove(0)
    } else {
        q1 == q.remove(0)
    })
    &&& h0 is Some && requires_hold ==> h1 == Some(q[0]) && q1 == q.remove(0)
    &&& h0 is Some && !requires_hold ==> h1 == h0 && q1 == q.remove(0)
    &&& o.line_clears > 0 ==> c1 == bump(c0)
    &&& o.line_clears == 0 ==> c1 is None
    &&& o.line_clears > 0 && (special(placement.spin_spec(), o.line_clears as int) || (o.is_pc && pc_b2b)) ==> bb1 == bump(bb0)
    &&& o.line_clears > 0 && !(special(placement.spin_spec(), o.line_clears as int) || (o.is_pc && pc_b2b)) ==> bb1 is None
    &&& o.line_clears == 0 ==> bb1 == bb0
}

/// Playing is deterministic: two results of playing the same placement on
/// the same state are the same.
pub proof fn law_play_deterministic<const N: usize>(
    b0: Board<N>,
    q: Seq<Piece>,
    h0: Option<Piece>,
    c0: Option<u32>,
    bb0: Option<u32>,
    placement: Move,
    pc_b2b: bool,
    b1: Board<N>,
    q1: Seq<Piece>,
    h1: Option<Piece>,
    c1: Option<u32>,
    bb1: Option<u32>,
    o1: PlayOutcome,
    b2: Board<N>,
    q2: Seq<Piece>,
    h2: Option<Piece>,
    c2: Option<u32>,
    bb2: Option<u32>,
    o2: PlayOutcome,
)
    requires
        q.len() > 0,
        play_post(b0, q, h0, c0, bb0, placement, pc_b2b, b1, q1, h1, c1, bb1, o1),
        play_post(b0, q, h0, c0, bb0, placement, pc_b2b, b2, q2, h2, c2, bb2, o2),
    ensures
        b1 == b2,
        q1 == q2,
        h1 == h2,
        c1 == c2,
        bb1 == bb2,
        o1 == o2,
{
    assert forall|x: int, y: int| b1.cell(x, y) == b2.cell(x, y) by {}
    b1.lemma_ext(b2);
}

impl<const N: usize> SearchGame<N> {
    /// Applies `placement`: places it on the board, takes the piece from
    /// the queue or through hold, and updates combo and back-to-back.
    /// `pc_b2b` tells whether a perfect clear keeps back-to-back.
    pub fn play(&mut self, placement: Move, pc_b2b: bool) -> (o: PlayOutcome)
        requires
            old(self).board.wf(),
            old(self).queue@.len() > 0,
            fits::<N>(placement),
            old(self).combo != Some(u32::MAX),
            old(self).b2b != Some(u32::MAX),
        ensures
            play_post(
                old(self).board,
                old(self).queue@,
                old(self).hold,
                old(self).combo,
                old(self).b2b,
                placement,
                pc_b2b,
                final(self).board,
                final(self).queue@,
                final(self).hold,
                final(self).combo,
                final(self).b2b,
                o,
            ),
            final(self).incoming == old(self).incoming,
    {
        let first = *self.queue.index(0);
        let requires_hold = placement.piece() != first;
        let line_clears = self.board.do_move(placement) as u32;
        let has_held = self.hold.is_some();
        if !has_held && !requires_hold {
            self.queue.remove(0);
        } else if !has_held && requires_hold {
            self.hold = Some(first);
            self.queue.remove(0);
            self.queue.remove(0);
        } else if has_held && requires_hold {
            self.hold = Some(first);
            self.queue.remove(0);
        } else {
            self.queue.remove(0);
        }
        let is_special_clear = placement.spin() != Spin::NoSpin || line_clears >= 4;
        let is_pc = !self.board.any() && line_clears > 0;
        let pre_b2b = self.b2b;
        let pre_combo = self.combo;
        if line_clears > 0 {
            match self.combo {
                Some(c) => self.combo = Some(c + 1),
                None => self.combo = Some(0),
            }
            if is_special_clear || (is_pc && pc_b2b) {
                match self.b2b {
                    Some(b) => self.b2b = Some(b + 1),
                    None => self.b2b = Some(0),
                }
            } else {
                self.b2b = None;
            }
        } else {
            self.combo = None;
        }
        PlayOutcome {
            spin: placement.spin(),
            line_clears,
            is_pc,
            b2b: self.b2b,
            combo: self.combo,
            pre_b2b,
            pre_combo,
        }
    }
}

} // verus!
