//! The most recently placed pieces, for piece recency features.

use vstd::prelude::*;
use crate::piece::Piece;

verus! {

/// The maximum number of pieces kept. Fourteen covers the longest wait for
/// one piece kind under a seven-piece bag.
pub const CAPACITY: usize = 14;

/// The last placed pieces, oldest first, at most [`CAPACITY`] of them.
pub struct History {
    buf: [Piece; 14],
    len: usize,
}

impl View for History {
    type V = Seq<Piece>;

    closed spec fn view(&self) -> Seq<Piece> {
        self.buf@.subrange(0, self.len as int)
    }
}

impl History {
    /// The record is well formed.
    pub closed spec fn wf(self) -> bool {
        self.len <= CAPACITY
    }

    /// Creates a new empty history.
    pub fn empty() -> (h: Self)
        ensures
            h.wf(),
            h@ == Seq::<Piece>::empty(),
    {
        let h = History { buf: [Piece::T; 14], len: 0 };
        assert(h@ =~= Seq::<Piece>::empty());
        h
    }

    /// Returns the number of pieces held.
    pub fn len(&self) -> (r: usize)
        requires
            self.wf(),
        ensures
            r == self@.len(),
            r <= CAPACITY,
    {
        self.len
    }

    /// Records a placement; once full, the oldest piece is dropped.
    pub fn push(&mut self, p: Piece)
        requires
            old(self).wf(),
        ensures
            final(self).wf(),
            old(self)@.len() < CAPACITY ==> final(self)@ == old(self)@.push(p),
            old(self)@.len() == CAPACITY ==> final(self)@ == old(self)@.drop_first().push(p),
    {
        if self.len < CAPACITY {
            self.buf[self.len] = p;
            self.len += 1;
            proof {
                assert(self@ =~= old(self)@.push(p));
            }
        } else {
            let mut i: usize = 0;
            while i + 1 < CAPACITY
                invariant
                    self.len == CAPACITY,
                    i < CAPACITY,
                    forall|j: int| 0 <= j < i ==> self.buf@[j] == old(self).buf@[j + 1],
                    forall|j: int| i <= j < CAPACITY ==> self.buf@[j] == old(self).buf@[j],
                decreases CAPACITY - i,
            {
                let next = self.buf[i + 1];
                self.buf[i] = next;
                i += 1;
            }
            self.buf[CAPACITY - 1] = p;
            proof {
                assert(self@ =~= old(self)@.drop_first().push(p));
            }
        }
    }
}

/// A history never holds more than [`CAPACITY`] pieces, and its newest
/// piece is always the last one pushed.
pub proof fn law_history_window(s: Seq<Piece>, p: Piece)
    requires
        s.len() <= CAPACITY,
    ensures
        ({
            let t = if s.len() < CAPACITY { s.push(p) } else { s.drop_first().push(p) };
            &&& t.len() <= CAPACITY
            &&& t.last() == p
            &&& t.len() == if s.len() < CAPACITY { s.len() + 1 } else { s.len() }
        }),
{
}

impl History {
    /// How many pieces were placed after the newest recorded `p`: zero
    /// when `p` was just placed, or `None` when `p` is not in the window.
    pub fn placed_since(&self, p: Piece) -> (r: Option<usize>)
        requires
            self.wf(),
        ensures
            r matches Some(d) ==> d < self@.len() && self@[self@.len() - 1 - d] == p && forall|j: int|
                self@.len() - 1 - d < j < self@.len() ==> self@[j] != p,
            r is None ==> forall|j: int| 0 <= j < self@.len() ==> self@[j] != p,
    {
        let mut i: usize = self.len;
        while i > 0
            invariant
                self.wf(),
                i <= self.len,
                forall|j: int| i <= j < self@.len() ==> self@[j] != p,
            decreases i,
        {
            if self.buf[i - 1] == p {
                return Some(self.len - i);
            }
            i -= 1;
        }
        None
    }
}

} // verus!
