//! Rendering boards as text with terminal colours.
//!
//! A picture is a frame of box-drawing characters around rows of cells,
//! the top row first; each cell is two characters wide.

use vstd::prelude::*;
use vstd::string::StringExecFns;
use crate::board::Board;
use crate::piece::Piece;
use crate::placement::Move;

verus! {

/// Vertical bar.
pub const BAR: &'static str = "│";
/// Top-left corner.
pub const TOP_LEFT: &'static str = "┌";
/// Top-right corner.
pub const TOP_RIGHT: &'static str = "┐";
/// Bottom-left corner.
pub const BOTTOM_LEFT: &'static str = "└";
/// Bottom-right corner.
pub const BOTTOM_RIGHT: &'static str = "┘";
/// A single filled cell.
pub const CELL: &'static str = "\x1b[48;2;127;127;127m  \x1b[0m";
/// A single empty cell.
pub const EMPTY: &'static str = "  ";
/// One horizontal line segment.
pub const LINE: &'static str = "─";
/// End of a coloured cell.
pub const RESET: &'static str = "\x1b[0m";
/// End of a row.
pub const NEWLINE: &'static str = "\n";

/// The start of a cell in the colour of a piece.
pub open spec fn color_of(p: Piece) -> Seq<char> {
    match p {
        Piece::T => "\x1b[48;2;255;127;255m"@,
        Piece::I => "\x1b[48;2;127;255;255m"@,
        Piece::J => "\x1b[48;2;127;127;255m"@,
        Piece::L => "\x1b[48;2;255;191;127m"@,
        Piece::O => "\x1b[48;2;255;255;127m"@,
        Piece::S => "\x1b[48;2;127;255;127m"@,
        Piece::Z => "\x1b[48;2;255;127;127m"@,
    }
}

/// Text `i` coloured as piece `p`.
pub open spec fn cell_text(p: Piece, i: Seq<char>) -> Seq<char> {
    color_of(p) + i + RESET@
}

/// `n` horizontal line segments.
pub open spec fn rule(n: int) -> Seq<char>
    decreases n,
{
    if n <= 0 {
        seq![]
    } else {
        rule(n - 1) + LINE@
    }
}

/// A horizontal edge of the frame between two corners.
pub open spec fn edge(left: Seq<char>, right: Seq<char>) -> Seq<char> {
    left + rule(20) + right + NEWLINE@
}

/// The first `n` cells of row `y`, as drawn by `g`.
pub open spec fn row_cells(g: spec_fn(int, int) -> Seq<char>, y: int, n: int) -> Seq<char>
    decreases n,
{
    if n <= 0 {
        seq![]
    } else {
        row_cells(g, y, n - 1) + g(n - 1, y)
    }
}

/// Row `y` between two bars.
pub open spec fn line(g: spec_fn(int, int) -> Seq<char>, y: int) -> Seq<char> {
    BAR@ + row_cells(g, y, 10) + BAR@ + NEWLINE@
}

/// The rows from `top - 1` down to `lo`.
pub open spec fn lines(g: spec_fn(int, int) -> Seq<char>, top: int, lo: int) -> Seq<char>
    decreases top - lo,
{
    if lo >= top {
        seq![]
    } else {
        lines(g, top, lo + 1) + line(g, lo)
    }
}

/// The framed picture of rows `top - 1` down to `0`.
pub open spec fn picture(g: spec_fn(int, int) -> Seq<char>, top: int) -> Seq<char> {
    edge(TOP_LEFT@, TOP_RIGHT@) + lines(g, top, 0) + edge(BOTTOM_LEFT@, BOTTOM_RIGHT@)
}

/// Cells of a single board: filled or empty.
pub open spec fn board_glyph<const N: usize>(b: Board<N>) -> spec_fn(int, int) -> Seq<char> {
    |x: int, y: int| if b.cell(x, y) { CELL@ } else { EMPTY@ }
}

/// Cells of two overlaid boards: both, red only, blue only, or neither.
pub open spec fn merge_glyph<const N: usize, const M: usize>(red: Board<N>, blue: Board<M>) -> spec_fn(int, int) -> Seq<char> {
    |x: int, y: int|
        if red.cell(x, y) && blue.cell(x, y) {
            cell_text(Piece::T, EMPTY@)
        } else if red.cell(x, y) {
            cell_text(Piece::Z, EMPTY@)
        } else if blue.cell(x, y) {
            cell_text(Piece::I, EMPTY@)
        } else {
            EMPTY@
        }
}

/// Whether `(x, y)` is one of the cells of a move.
pub open spec fn in_move(m: Move, x: int, y: int) -> bool {
    exists|i: int| 0 <= i < 4 && #[trigger] m.cells_spec()[i] == (x, y)
}

/// Cells of a board with a move drawn on it: the move's cells in its
/// piece's colour, marked where they overlap the board.
pub open spec fn placement_glyph<const N: usize>(b: Board<N>, m: Move) -> spec_fn(int, int) -> Seq<char> {
    |x: int, y: int|
        if in_move(m, x, y) {
            if b.cell(x, y) {
                cell_text(m.piece_spec(), "--"@)
            } else {
                cell_text(m.piece_spec(), EMPTY@)
            }
        } else if b.cell(x, y) {
            CELL@
        } else {
            EMPTY@
        }
}

/// The larger of two integers.
pub open spec fn max_int(a: int, b: int) -> int {
    if a < b {
        b
    } else {
        a
    }
}

/// Renders text `i` in the colour of `piece`.
pub fn cell(piece: Piece, i: &str) -> (s: String)
    ensures
        s@ == cell_text(piece, i@),
{
    let mut s = String::new();
    let start = match piece {
        Piece::T => "\x1b[48;2;255;127;255m",
        Piece::I => "\x1b[48;2;127;255;255m",
        Piece::J => "\x1b[48;2;127;127;255m",
        Piece::L => "\x1b[48;2;255;191;127m",
        Piece::O => "\x1b[48;2;255;255;127m",
        Piece::S => "\x1b[48;2;127;255;127m",
        Piece::Z => "\x1b[48;2;255;127;127m",
    };
    s.append(start);
    s.append(i);
    s.append(RESET);
    s
}

/// Appends a horizontal edge of the frame.
fn push_edge(s: &mut String, left: &str, right: &str)
    ensures
        final(s)@ == old(s)@ + edge(left@, right@),
{
    s.append(left);
    let mut k: usize = 0;
    while k < 20
        invariant
            k <= 20,
            s@ == old(s)@ + left@ + rule(k as int),
        decreases 20 - k,
    {
        s.append(LINE);
        proof {
            assert(old(s)@ + left@ + rule(k as int) + LINE@ =~= old(s)@ + left@ + rule(k as int + 1));
        }
        k += 1;
    }
    s.append(right);
    s.append(NEWLINE);
    assert(s@ =~= old(s)@ + edge(left@, right@));
}

/// Appending one more line below the rows already drawn.
proof fn lemma_lines_step(g: spec_fn(int, int) -> Seq<char>, top: int, y: int, prefix: Seq<char>)
    requires
        0 <= y < top,
    ensures
        prefix + lines(g, top, y + 1) + line(g, y) == prefix + lines(g, top, y),
{
    assert(prefix + lines(g, top, y + 1) + line(g, y) =~= prefix + (lines(g, top, y + 1) + line(g, y)));
}

/// Appending one more cell of a row.
proof fn lemma_row_step(g: spec_fn(int, int) -> Seq<char>, y: int, x: int, prefix: Seq<char>)
    requires
        0 <= x,
    ensures
        prefix + row_cells(g, y, x) + g(x, y) == prefix + row_cells(g, y, x + 1),
{
    assert(prefix + row_cells(g, y, x) + g(x, y) =~= prefix + (row_cells(g, y, x) + g(x, y)));
}

/// Closing a row with a bar and a newline.
proof fn lemma_close_row(g: spec_fn(int, int) -> Seq<char>, y: int, prefix: Seq<char>)
    ensures
        prefix + BAR@ + row_cells(g, y, 10) + BAR@ + NEWLINE@ == prefix + line(g, y),
{
    assert(prefix + BAR@ + row_cells(g, y, 10) + BAR@ + NEWLINE@ =~= prefix + line(g, y));
}

/// Renders a single board, from two rows above its top (at least six
/// rows) down to the floor.
pub fn board<const N: usize>(b: &Board<N>) -> (s: String)
    requires
        b.wf(),
        max_int(b.height_of() + 2, 6) <= 6 * N,
    ensures
        s@ == picture(board_glyph(*b), max_int(b.height_of() + 2, 6)),
{
    let h = b.height();
    proof {
        b.lemma_height_of(h as int);
    }
    let top = if h + 2 > 6 { h + 2 } else { 6 };
    let ghost g = board_glyph(*b);
    let mut s = String::new();
    push_edge(&mut s, TOP_LEFT, TOP_RIGHT);
    let ghost head = s@;
    let mut y = top;
    while y > 0
        invariant
            b.wf(),
            0 <= y <= top,
            top <= 6 * N,
            g == board_glyph(*b),
            s@ == head + lines(g, top as int, y as int),
        decreases y,
    {
        y -= 1;
        let ghost before = s@;
        s.append(BAR);
        let mut x: i32 = 0;
        while x < 10
            invariant
                b.wf(),
                0 <= x <= 10,
                0 <= y < 6 * N,
                g == board_glyph(*b),
                s@ == before + BAR@ + row_cells(g, y as int, x as int),
            decreases 10 - x,
        {
            let filled = b.get(x, y);
            s.append(if filled { CELL } else { EMPTY });
            proof {
                lemma_row_step(g, y as int, x as int, before + BAR@);
            }
            x += 1;
        }
        s.append(BAR);
        s.append(NEWLINE);
        proof {
            lemma_close_row(g, y as int, before);
            lemma_lines_step(g, top as int, y as int, head);
        }
    }
    push_edge(&mut s, BOTTOM_LEFT, BOTTOM_RIGHT);
    s
}

/// Renders two boards overlaid, from four rows above the taller top (at
/// least six rows) down to the floor: cells of both in the T colour, of
/// the first only in the Z colour, of the second only in the I colour.
pub fn merge<const N: usize, const M: usize>(red: &Board<N>, blue: &Board<M>) -> (s: String)
    requires
        red.wf(),
        blue.wf(),
        max_int(max_int(red.height_of(), blue.height_of()) + 4, 6) <= 6 * N,
        max_int(max_int(red.height_of(), blue.height_of()) + 4, 6) <= 6 * M,
    ensures
        s@ == picture(merge_glyph(*red, *blue), max_int(max_int(red.height_of(), blue.height_of()) + 4, 6)),
{
    let hr = red.height();
    let hb = blue.height();
    proof {
        red.lemma_height_of(hr as int);
        blue.lemma_height_of(hb as int);
    }
    let height = if hr < hb { hb } else { hr };
    let top = if height + 4 > 6 { height + 4 } else { 6 };
    let ghost g = merge_glyph(*red, *blue);
    let mut s = String::new();
    push_edge(&mut s, TOP_LEFT, TOP_RIGHT);
    let ghost head = s@;
    let mut y = top;
    while y > 0
        invariant
            red.wf(),
            blue.wf(),
            0 <= y <= top,
            top <= 6 * N,
            top <= 6 * M,
            g == merge_glyph(*red, *blue),
            s@ == head + lines(g, top as int, y as int),
        decreases y,
    {
        y -= 1;
        let ghost before = s@;
        s.append(BAR);
        let mut x: i32 = 0;
        while x < 10
            invariant
                red.wf(),
                blue.wf(),
                0 <= x <= 10,
                0 <= y < 6 * N,
                0 <= y < 6 * M,
                g == merge_glyph(*red, *blue),
                s@ == before + BAR@ + row_cells(g, y as int, x as int),
            decreases 10 - x,
        {
            let r = red.get(x, y);
            let b = blue.get(x, y);
            let c = if r && b {
                cell(Piece::T, EMPTY)
            } else if r {
                cell(Piece::Z, EMPTY)
            } else if b {
                cell(Piece::I, EMPTY)
            } else {
                String::from_str(EMPTY)
            };
            s.append(c.as_str());
            proof {
                lemma_row_step(g, y as int, x as int, before + BAR@);
            }
            x += 1;
        }
        s.append(BAR);
        s.append(NEWLINE);
        proof {
            lemma_close_row(g, y as int, before);
            lemma_lines_step(g, top as int, y as int, head);
        }
    }
    push_edge(&mut s, BOTTOM_LEFT, BOTTOM_RIGHT);
    s
}

/// Renders a board with a placement drawn on it, from four rows above the
/// board's top (at least six rows) down to the floor.
pub fn placement<const N: usize>(board: &Board<N>, mv: &Move) -> (s: String)
    requires
        board.wf(),
        max_int(board.height_of() + 4, 6) <= 6 * N,
    ensures
        s@ == picture(placement_glyph(*board, *mv), max_int(board.height_of() + 4, 6)),
{
    let h = board.height();
    proof {
        board.lemma_height_of(h as int);
    }
    let top = if h + 4 > 6 { h + 4 } else { 6 };
    let cells = mv.cells();
    let p = mv.piece();
    let ghost g = placement_glyph(*board, *mv);
    let mut s = String::new();
    push_edge(&mut s, TOP_LEFT, TOP_RIGHT);
    let ghost head = s@;
    let mut y = top;
    while y > 0
        invariant
            board.wf(),
            0 <= y <= top,
            top <= 6 * N,
            p == mv.piece_spec(),
            forall|i: int| 0 <= i < 4 ==> (#[trigger] cells@[i].0 as int, cells@[i].1 as int) == mv.cells_spec()[i],
            g == placement_glyph(*board, *mv),
            s@ == head + lines(g, top as int, y as int),
        decreases y,
    {
        y -= 1;
        let ghost before = s@;
        s.append(BAR);
        let mut x: i32 = 0;
        while x < 10
            invariant
                board.wf(),
                0 <= x <= 10,
                0 <= y < 6 * N,
                p == mv.piece_spec(),
                forall|i: int| 0 <= i < 4 ==> (#[trigger] cells@[i].0 as int, cells@[i].1 as int) == mv.cells_spec()[i],
                g == placement_glyph(*board, *mv),
                s@ == before + BAR@ + row_cells(g, y as int, x as int),
            decreases 10 - x,
        {
            let mut hit = false;
            let mut i: usize = 0;
            while i < 4
                invariant
                    i <= 4,
                    forall|k: int| 0 <= k < 4 ==> (#[trigger] cells@[k].0 as int, cells@[k].1 as int) == mv.cells_spec()[k],
                    hit == exists|k: int| 0 <= k < i && #[trigger] mv.cells_spec()[k] == (x as int, y as int),
                decreases 4 - i,
            {
                if cells[i].0 == x && cells[i].1 == y {
                    hit = true;
                }
                proof {
                    if hit {
                        if cells@[i as int].0 == x && cells@[i as int].1 == y {
                            assert(mv.cells_spec()[i as int] == (x as int, y as int));
                        }
                    } else {
                        assert forall|k: int| 0 <= k < i + 1 implies #[trigger] mv.cells_spec()[k] != (x as int, y as int) by {
                            if k == i {
                                assert((cells@[k].0 as int, cells@[k].1 as int) == mv.cells_spec()[k]);
                            }
                        }
                    }
                }
                i += 1;
            }
            let filled = board.get(x, y);
            let c = if hit {
                if filled {
                    cell(p, "--")
                } else {
                    cell(p, EMPTY)
                }
            } else if filled {
                String::from_str(CELL)
            } else {
                String::from_str(EMPTY)
            };
            s.append(c.as_str());
            proof {
                assert(hit == in_move(*mv, x as int, y as int));
                lemma_row_step(g, y as int, x as int, before + BAR@);
            }
            x += 1;
        }
        s.append(BAR);
        s.append(NEWLINE);
        proof {
            lemma_close_row(g, y as int, before);
            lemma_lines_step(g, top as int, y as int, head);
        }
    }
    push_edge(&mut s, BOTTOM_LEFT, BOTTOM_RIGHT);
    s
}

} // verus!
