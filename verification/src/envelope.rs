//! Conservative occupancy expansion by a rotation envelope.

use vstd::prelude::*;
use crate::board::Board;

verus! {

/// Whether `(x, y)` lies on a board of `N` bands.
pub open spec fn on_board<const N: usize>(x: int, y: int) -> bool {
    0 <= x < 10 && 0 <= y < 6 * N
}

/// Cell `(x, y)` of `s` spread sideways: filled itself, or a filled cell
/// one to three columns to the right (when the envelope reaches that far
/// left, `xmin`) or to the left (when it reaches that far right, `xmax`).
pub open spec fn spread_x<const N: usize>(s: Board<N>, xmin: int, xmax: int, x: int, y: int) -> bool {
    ||| s.cell(x, y)
    ||| on_board::<N>(x, y) && (
        (xmin <= -1 && s.cell(x + 1, y))
        || (xmin <= -2 && s.cell(x + 2, y))
        || (xmin <= -3 && s.cell(x + 3, y))
        || (xmax >= 1 && s.cell(x - 1, y))
        || (xmax >= 2 && s.cell(x - 2, y))
        || (xmax >= 3 && s.cell(x - 3, y)))
}

/// Cell `(x, y)` of the probe: the sideways spread, itself or one to three
/// rows above (when the envelope reaches that far down, `ymin`) or below
/// (when it reaches that far up, `ymax`).
pub open spec fn probe_cell<const N: usize>(s: Board<N>, e: (i32, i32, i32, i32), x: int, y: int) -> bool {
    let (xmin, xmax, ymin, ymax) = (e.0 as int, e.1 as int, e.2 as int, e.3 as int);
    ||| spread_x(s, xmin, xmax, x, y)
    ||| on_board::<N>(x, y) && (
        (ymin <= -1 && spread_x(s, xmin, xmax, x, y + 1))
        || (ymin <= -2 && spread_x(s, xmin, xmax, x, y + 2))
        || (ymin <= -3 && spread_x(s, xmin, xmax, x, y + 3))
        || (ymax >= 1 && spread_x(s, xmin, xmax, x, y - 1))
        || (ymax >= 2 && spread_x(s, xmin, xmax, x, y - 2))
        || (ymax >= 3 && spread_x(s, xmin, xmax, x, y - 3)))
}

/// Adds `t` moved by `(dx, dy)` to `h`.
fn add_shifted<const N: usize>(h: &mut Board<N>, t: &Board<N>, dx: i32, dy: i32)
    requires
        old(h).wf(),
        t.wf(),
        -3 <= dx <= 3,
        -3 <= dy <= 3,
    ensures
        final(h).wf(),
        forall|x: int, y: int| #[trigger] final(h).cell(x, y) == (old(h).cell(x, y) || (on_board::<N>(x, y) && t.cell(x - dx, y - dy))),
{
    let m = t.shifted(dx, dy);
    h.bitor_assign(m);
}

/// Expands the filled cells of `s` by the envelope `e` =
/// `(xmin, xmax, ymin, ymax)`, by up to three cells each way, first
/// sideways and then vertically, giving the cells a rotation might probe.
pub fn env_probe<const N: usize>(s: &Board<N>, e: (i32, i32, i32, i32)) -> (v: Board<N>)
    requires
        s.wf(),
    ensures
        v.wf(),
        forall|x: int, y: int| #[trigger] v.cell(x, y) == probe_cell(*s, e, x, y),
{
    let (xmin, xmax, ymin, ymax) = e;
    let mut h = *s;
    if xmin <= -1 {
        add_shifted(&mut h, s, -1, 0);
    }
    if xmin <= -2 {
        add_shifted(&mut h, s, -2, 0);
    }
    if xmin <= -3 {
        add_shifted(&mut h, s, -3, 0);
    }
    if xmax >= 1 {
        add_shifted(&mut h, s, 1, 0);
    }
    if xmax >= 2 {
        add_shifted(&mut h, s, 2, 0);
    }
    if xmax >= 3 {
        add_shifted(&mut h, s, 3, 0);
    }
    assert forall|x: int, y: int| #[trigger] h.cell(x, y) == spread_x(*s, xmin as int, xmax as int, x, y) by {}
    let hh = h;
    let mut v = hh;
    if ymin <= -1 {
        add_shifted(&mut v, &hh, 0, -1);
    }
    if ymin <= -2 {
        add_shifted(&mut v, &hh, 0, -2);
    }
    if ymin <= -3 {
        add_shifted(&mut v, &hh, 0, -3);
    }
    if ymax >= 1 {
        add_shifted(&mut v, &hh, 0, 1);
    }
    if ymax >= 2 {
        add_shifted(&mut v, &hh, 0, 2);
    }
    if ymax >= 3 {
        add_shifted(&mut v, &hh, 0, 3);
    }
    v
}

/// The probe covers the board it was made from.
pub proof fn law_probe_covers<const N: usize>(s: Board<N>, e: (i32, i32, i32, i32), x: int, y: int)
    requires
        s.cell(x, y),
    ensures
        probe_cell(s, e, x, y),
{
}

} // verus!
