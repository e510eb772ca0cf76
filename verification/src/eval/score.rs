//! The integer features that the weighted evaluation of a placement reads.

use vstd::prelude::*;
use crate::board::{Board, moved_cells};
use crate::eval::features::board_cols;
use crate::eval::simple::{
    bump_sq_sum, bump_sum, cols_and_heights, covered_sum, find_well, holes_and_covered, holes_sum,
    lines_with, overlaps_cells, row_transitions, rows_trans, t_available, t_cells, tslot_left_at,
    tslot_right_at, virtual_t_fire, well_depth, well_known_tslot_left, well_known_tslot_right,
};
use crate::game::attack::{Attack, special};
use crate::game::search::SearchGame;
use crate::piece::Piece;
use crate::placement::Move;
use crate::spin::Spin;

verus! {

/// The first left-facing T slot at or after column `x`.
pub open spec fn left_slot_from<const N: usize>(b: Board<N>, x: int) -> Option<int>
    decreases 8 - x,
{
    if x < 0 || x >= 8 {
        None
    } else if tslot_left_at(b, x) {
        Some(x)
    } else {
        left_slot_from(b, x + 1)
    }
}

/// The first right-facing T slot at or after column `x`.
pub open spec fn right_slot_from<const N: usize>(b: Board<N>, x: int) -> Option<int>
    decreases 10 - x,
{
    if x < 2 || x >= 10 {
        None
    } else if tslot_right_at(b, x) {
        Some(x)
    } else {
        right_slot_from(b, x + 1)
    }
}

/// The anchor of the T that fills the first T slot: the leftmost
/// left-facing slot, else the leftmost right-facing one.
pub open spec fn slot_anchor<const N: usize>(b: Board<N>) -> Option<(int, int)> {
    match left_slot_from(b, 0) {
        Some(x) => Some((x + 1, b.col_height(x))),
        None => match right_slot_from(b, 2) {
            Some(x) => Some((x - 1, b.col_height(x))),
            None => None,
        },
    }
}

/// Whether a virtual T at `(x, y)` can be placed: below the top two rows and
/// over empty cells.
pub open spec fn fires<const N: usize>(b: Board<N>, x: int, y: int) -> bool {
    y + 2 < 6 * N && !overlaps_cells(b, t_cells(x, y))
}

/// The board after a virtual T at `(x, y)`, with completed rows cleared.
pub open spec fn fire_board<const N: usize>(b: Board<N>, x: int, y: int) -> Board<N> {
    if fires(b, x, y) {
        choose|out: Board<N>| out.wf() && moved_cells(b, t_cells(x, y), out)
    } else {
        b
    }
}

/// The lines a virtual T at `(x, y)` clears, when it can be placed and
/// clears some.
pub open spec fn fire_lines<const N: usize>(b: Board<N>, x: int, y: int) -> Option<u64> {
    if fires(b, x, y) && lines_with(b, t_cells(x, y)) > 0 {
        Some(lines_with(b, t_cells(x, y)) as u64)
    } else {
        None
    }
}

/// The lines cleared by up to `n` virtual Ts fired one after another into
/// the first T slot; firing stops at a missing slot, at a T that clears
/// nothing, or after a T that clears fewer than two lines.
pub open spec fn tslot_fires<const N: usize>(b: Board<N>, n: int) -> Seq<u64>
    decreases n,
{
    if n <= 0 {
        seq![]
    } else {
        match slot_anchor(b) {
            None => seq![],
            Some(a) => match fire_lines(b, a.0, a.1) {
                None => seq![],
                Some(l) => if l < 2 {
                    seq![l]
                } else {
                    seq![l] + tslot_fires(fire_board(b, a.0, a.1), n - 1)
                },
            },
        }
    }
}

/// The integer features of a placement that the weighted evaluation reads.
#[derive(Debug, Clone)]
pub struct EvalFeatures {
    /// Height of the board.
    pub max_height: usize,
    /// Height of each column.
    pub heights: [usize; 10],
    /// Empty cells below column heights.
    pub holes: i32,
    /// Filled cells above the topmost hole of each column, at most six each.
    pub covered: i32,
    /// The deepest well, if any.
    pub well_col: Option<usize>,
    /// Its depth.
    pub well_depth: i32,
    /// Sum of height differences of neighbouring columns.
    pub bumpiness: i32,
    /// Sum of squared height differences.
    pub bumpiness_sq: i32,
    /// Row transitions below the height, in groups of four rows.
    pub row_transitions: i32,
    /// The combo count, zero without a combo.
    pub combo: i32,
    /// One more than the back-to-back count, at most eight, zero without one.
    pub b2b: i32,
    /// Garbage owed.
    pub incoming: u32,
    /// Spin of the placement.
    pub spin: Spin,
    /// Lines cleared.
    pub line_clears: u32,
    /// The placement left the board empty.
    pub perfect_clear: bool,
    /// Total attack.
    pub total: u32,
    /// Base attack.
    pub base_attack: u32,
    /// The placement cleared lines without a spin.
    pub b2b_break: bool,
    /// For a special clear with a well, the distance from the well to the
    /// placement's column.
    pub well_distance: Option<i32>,
    /// Lines cleared by each virtual T fired into T slots.
    pub tslot_lines: Vec<u64>,
    /// The placement is a T that is not a clearing full spin.
    pub t_waste: bool,
    /// With a well away from the walls, the height difference of its
    /// neighbours.
    pub height_difference: Option<i32>,
}

/// The first left-facing slot from a column that no slot precedes.
proof fn lemma_left_slot<const N: usize>(b: Board<N>, i: int, x0: int)
    requires
        0 <= i <= x0 < 8,
        tslot_left_at(b, x0),
        forall|x: int| i <= x < x0 ==> !tslot_left_at(b, x),
    ensures
        left_slot_from(b, i) == Some(x0),
    decreases x0 - i,
{
    if i < x0 {
        lemma_left_slot(b, i + 1, x0);
    }
}

/// No left-facing slot from a column on.
proof fn lemma_no_left_slot<const N: usize>(b: Board<N>, i: int)
    requires
        0 <= i <= 8,
        forall|x: int| i <= x < 8 ==> !tslot_left_at(b, x),
    ensures
        left_slot_from(b, i) is None,
    decreases 8 - i,
{
    if i < 8 {
        lemma_no_left_slot(b, i + 1);
    }
}

/// The first right-facing slot from a column that no slot precedes.
proof fn lemma_right_slot<const N: usize>(b: Board<N>, i: int, x0: int)
    requires
        2 <= i <= x0 < 10,
        tslot_right_at(b, x0),
        forall|x: int| i <= x < x0 ==> !tslot_right_at(b, x),
    ensures
        right_slot_from(b, i) == Some(x0),
    decreases x0 - i,
{
    if i < x0 {
        lemma_right_slot(b, i + 1, x0);
    }
}

/// No right-facing slot from a column on.
proof fn lemma_no_right_slot<const N: usize>(b: Board<N>, i: int)
    requires
        2 <= i <= 10,
        forall|x: int| i <= x < 10 ==> !tslot_right_at(b, x),
    ensures
        right_slot_from(b, i) is None,
    decreases 10 - i,
{
    if i < 10 {
        lemma_no_right_slot(b, i + 1);
    }
}

/// Finds the anchor of the first T slot, left-facing slots first.
fn find_slot<const N: usize>(b: &Board<N>) -> (r: Option<(i32, i32)>)
    requires
        b.wf(),
    ensures
        r matches Some(p) ==> slot_anchor(*b) == Some((p.0 as int, p.1 as int)) && 1 <= p.0 <= 8 && 1 <= p.1 && p.1 + 1 < 6 * N,
        r is None ==> slot_anchor(*b) is None,
{
    match well_known_tslot_left(b) {
        Some(p) => {
            proof {
                lemma_left_slot(*b, 0, p.0 - 1);
            }
            Some(p)
        },
        None => {
            proof {
                lemma_no_left_slot(*b, 0);
            }
            let q = well_known_tslot_right(b);
            proof {
                match q {
                    Some(p) => lemma_right_slot(*b, 2, p.0 + 1),
                    None => lemma_no_right_slot(*b, 2),
                }
            }
            q
        },
    }
}

/// Fires virtual Ts into T slots, at most `cutouts` of them, and returns the
/// lines each one cleared.
fn fire_tslots<const N: usize>(board: &Board<N>, cutouts: usize) -> (r: Vec<u64>)
    requires
        board.wf(),
        6 * N <= 64,
        cutouts <= 2,
    ensures
        r@ == tslot_fires(*board, cutouts as int),
{
    let mut out: Vec<u64> = Vec::new();
    let mut probe = *board;
    let mut k: usize = 0;
    while k < cutouts
        invariant_except_break
            probe.wf(),
            6 * N <= 64,
            k <= cutouts,
            out@ + tslot_fires(probe, cutouts - k) == tslot_fires(*board, cutouts as int),
        ensures
            out@ == tslot_fires(*board, cutouts as int),
        decreases cutouts - k,
    {
        let slot = find_slot(&probe);
        let (px, py) = match slot {
            Some(p) => p,
            None => {
                assert(tslot_fires(probe, cutouts - k) == Seq::<u64>::empty());
                assert(out@ + Seq::<u64>::empty() =~= out@);
                break;
            },
        };
        let ghost before = probe;
        let fired = virtual_t_fire(&mut probe, px, py);
        let lines = match fired {
            Some(l) => l,
            None => {
                assert(fire_lines(before, px as int, py as int) is None);
                assert(tslot_fires(before, cutouts - k) == Seq::<u64>::empty());
                assert(out@ + Seq::<u64>::empty() =~= out@);
                break;
            },
        };
        proof {
            assert(fires(before, px as int, py as int));
            let c = fire_board(before, px as int, py as int);
            assert(c.wf() && moved_cells(before, t_cells(px as int, py as int), c));
            assert forall|x: int, y: int| c.cell(x, y) == probe.cell(x, y) by {}
            c.lemma_ext(probe);
        }
        out.push(lines);
        if lines < 2 {
            assert(tslot_fires(before, cutouts - k) == seq![lines]);
            assert(out@ =~= tslot_fires(*board, cutouts as int));
            break;
        }
        proof {
            assert(tslot_fires(before, cutouts - k) == seq![lines] + tslot_fires(probe, cutouts - k - 1));
            assert(out@ + tslot_fires(probe, cutouts - (k + 1)) =~= out@.drop_last() + (seq![lines] + tslot_fires(probe, cutouts - k - 1)));
        }
        k += 1;
    }
    out
}

/// The number of Ts available soon: one if a T is among the next seven
/// queued pieces, plus one if the held piece is a T.
pub open spec fn t_count<const N: usize>(game: SearchGame<N>) -> int {
    (if exists|i: int| 0 <= i < 7 && i < game.queue@.len() && #[trigger] game.queue@[i] == Piece::T { 1int } else { 0int })
        + (if game.hold == Some(Piece::T) { 1int } else { 0int })
}

/// Absolute value of an integer.
pub open spec fn abs_int(v: int) -> int {
    if v < 0 {
        -v
    } else {
        v
    }
}

/// Computes the integer features of a placement that the weighted
/// evaluation reads: `game` is the state after `placement`, and `ctx` the
/// attack it produced.
pub fn evaluation_features<const N: usize>(game: &SearchGame<N>, placement: Move, ctx: Attack) -> (f: EvalFeatures)
    requires
        game.board.wf(),
        6 * N <= 64,
        game.board.height_of() < 64,
        game.b2b matches Some(b) ==> (b as i32) < i32::MAX,
    ensures
        f.max_height == game.board.height_of(),
        forall|x: int| 0 <= x < 10 ==> #[trigger] f.heights@[x] == game.board.top_filled(x, game.board.height_of()),
        f.holes == holes_sum(board_cols(game.board), f.heights@, 10),
        f.covered == covered_sum(board_cols(game.board), f.heights@, 10),
        f.well_depth >= 0,
        forall|x: int| 0 <= x < 10 ==> well_depth(f.heights@, x) <= f.well_depth,
        f.well_col is None <==> f.well_depth == 0,
        f.well_col matches Some(c) ==> c < 10 && well_depth(f.heights@, c as int) == f.well_depth && forall|x: int| 0 <= x < c ==> well_depth(f.heights@, x) < f.well_depth,
        f.bumpiness == bump_sum(f.heights@, None, 9),
        f.bumpiness_sq == bump_sq_sum(f.heights@, None, 9),
        f.row_transitions == rows_trans(game.board, (game.board.height_of() + 3) / 4 * 4),
        f.combo == (match game.combo {
            Some(c) => c as i32,
            None => 0i32,
        }),
        f.b2b == (match game.b2b {
            Some(b) => if (b as i32) + 1 < 8 { (b as i32) + 1 } else { 8 },
            None => 0,
        }),
        f.incoming == game.incoming,
        f.spin == ctx.spin_type,
        f.line_clears == ctx.line_clears,
        f.perfect_clear == ctx.is_perfect_clear,
        f.total == ctx.total,
        f.base_attack == ctx.base_attack,
        f.b2b_break == (ctx.line_clears > 0 && ctx.spin_type == Spin::NoSpin),
        f.well_distance == (match f.well_col {
            Some(c) => if ctx.line_clears > 0 && special(ctx.spin_type, ctx.line_clears as int) {
                Some(abs_int(c - placement.x_spec()) as i32)
            } else {
                None
            },
            None => None,
        }),
        f.tslot_lines@ == tslot_fires(game.board, t_count(*game)),
        f.t_waste == (placement.piece_spec() == Piece::T && (ctx.spin_type != Spin::Full || ctx.line_clears == 0)),
        f.height_difference == (match f.well_col {
            Some(c) => if 0 < c < 9 {
                Some(abs_int(f.heights@[c - 1] - f.heights@[c + 1]) as i32)
            } else {
                None
            },
            None => None,
        }),
{
    let board = &game.board;
    let h = board.height();
    proof {
        board.lemma_height_of(h as int);
    }
    let max_height = h as usize;
    let (cols, heights) = cols_and_heights(board, max_height);
    proof {
        assert forall|x: int| 0 <= x < 10 implies #[trigger] cols@[x] == board.col_word_of(x) by {
            assert forall|y: int| 0 <= y < 64 implies #[trigger] crate::bits::bit(cols@[x], y) == board.cell(x, y) by {
                if y >= max_height && board.cell(x, y) {
                    assert(y < h);
                }
            }
            board.lemma_col_word_of(x, cols@[x]);
        }
        assert(cols@ =~= board_cols(*board));
        assert forall|x: int| 0 <= x < 10 implies #[trigger] heights@[x] < 64 && heights@[x] <= 15000 by {
            board.lemma_top_filled(x, max_height as int);
        }
    }
    let (holes, covered) = holes_and_covered(cols, &heights);
    let (well_col, well_depth) = find_well(&heights);
    let (bump, bump_sq) = crate::eval::simple::bumpiness(&heights, None);
    let r_transitions = row_transitions::<N>(board, max_height);
    let combo: i32 = match game.combo {
        Some(c) => c as i32,
        None => 0,
    };
    let b2b_raw: i32 = match game.b2b {
        Some(b) => (b as i32) + 1,
        None => 0,
    };
    let b2b = if b2b_raw < 8 { b2b_raw } else { 8 };
    let b2b_break = ctx.line_clears > 0 && ctx.spin_type == Spin::NoSpin;
    let special_clear = ctx.is_special_clear();
    let well_distance = match well_col {
        Some(col) => if special_clear {
            let d = col as i32 - placement.x();
            Some(if d < 0 { -d } else { d })
        } else {
            None
        },
        None => None,
    };
    let cutouts = t_available(game);
    let tslot_lines = fire_tslots(board, cutouts);
    let t_waste = placement.piece() == Piece::T && (ctx.spin_type != Spin::Full || ctx.line_clears == 0);
    let height_difference = match well_col {
        Some(col) => if col > 0 && col < 9 {
            let d = heights[col - 1] as i32 - heights[col + 1] as i32;
            Some(if d < 0 { -d } else { d })
        } else {
            None
        },
        None => None,
    };
    EvalFeatures {
        max_height,
        heights,
        holes,
        covered,
        well_col,
        well_depth,
        bumpiness: bump,
        bumpiness_sq: bump_sq,
        row_transitions: r_transitions,
        combo,
        b2b,
        incoming: game.incoming,
        spin: ctx.spin_type,
        line_clears: ctx.line_clears,
        perfect_clear: ctx.is_perfect_clear,
        total: ctx.total,
        base_attack: ctx.base_attack,
        b2b_break,
        well_distance,
        tslot_lines,
        t_waste,
        height_difference,
    }
}

/// At most `n` virtual Ts fire, each clears at least one line, and every
/// one but the last clears at least two.
pub proof fn law_tslot_fires_bounded<const N: usize>(b: Board<N>, n: int)
    requires
        6 * N <= 64,
    ensures
        tslot_fires(b, n).len() <= if n < 0 { 0 } else { n },
        forall|i: int| 0 <= i < tslot_fires(b, n).len() ==> #[trigger] tslot_fires(b, n)[i] >= 1,
        forall|i: int| 0 <= i < tslot_fires(b, n).len() - 1 ==> #[trigger] tslot_fires(b, n)[i] >= 2,
    decreases n,
{
    if n > 0 {
        match slot_anchor(b) {
            None => {},
            Some(a) => match fire_lines(b, a.0, a.1) {
                None => {},
                Some(l) => {
                    assert(l >= 1);
                    if l < 2 {
                        assert(tslot_fires(b, n) == seq![l]);
                    } else {
                        let rest = tslot_fires(fire_board(b, a.0, a.1), n - 1);
                        law_tslot_fires_bounded(fire_board(b, a.0, a.1), n - 1);
                        assert(tslot_fires(b, n) == seq![l] + rest);
                        assert forall|i: int| 0 <= i < tslot_fires(b, n).len() implies #[trigger] tslot_fires(b, n)[i] >= 1 by {
                            if i > 0 {
                                assert(tslot_fires(b, n)[i] == rest[i - 1]);
                            }
                        }
                        assert forall|i: int| 0 <= i < tslot_fires(b, n).len() - 1 implies #[trigger] tslot_fires(b, n)[i] >= 2 by {
                            if i > 0 {
                                assert(tslot_fires(b, n)[i] == rest[i - 1]);
                            }
                        }
                    }
                },
            },
        }
    }
}

} // verus!
