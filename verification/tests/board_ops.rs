use rue::board::Board;
use rue::data::{build_place_masks, place_mask, place_mask_entry, rot_cell, rotated_cells};
use rue::envelope::env_probe;
use rue::header::{col_word, cols_below, dx_mask, top_extent, COL0, COL9, TALL};
use rue::piece::Piece;
use rue::placement::Move;
use rue::rotation::Rotation;
use rue::spin::Spin;

fn cells_of<const N: usize>(b: &Board<N>) -> Vec<(i32, i32)> {
    let mut out = Vec::new();
    for y in 0..(6 * N as i32) {
        for x in 0..10 {
            if b.get(x, y) {
                out.push((x, y));
            }
        }
    }
    out
}

#[test]
fn empty_board_has_no_cells() {
    let b = Board::<4>::empty();
    assert_eq!(b.height(), 0);
    assert!(!b.any());
    assert_eq!(b.popcount(), 0);
    assert_eq!(Board::<4>::total_height(), 24);
    assert_eq!(b.necessary_bands(), 0);
}

#[test]
fn set_get_clear_roundtrip() {
    let mut b = Board::<2>::empty();
    b.set(3, 7);
    assert!(b.get(3, 7));
    assert!(!b.get(4, 7));
    assert_eq!(b.height(), 8);
    assert_eq!(b.popcount(), 1);
    assert_eq!(b.necessary_bands(), 2);
    assert_eq!(b.0[1], 1u64 << 13);
    b.clear(3, 7);
    assert!(!b.get(3, 7));
    assert_eq!(b.height(), 0);
}

#[test]
fn line_clears_marks_full_rows() {
    let mut b = Board::<2>::empty();
    for x in 0..10 {
        b.set(x, 1);
    }
    b.set(0, 2);
    let l = b.line_clears();
    assert_eq!(cells_of(&l), vec![(9, 1)]);
}

#[test]
fn clear_lines_drops_rows_down() {
    let mut b = Board::<2>::empty();
    for x in 0..10 {
        b.set(x, 1);
    }
    b.set(0, 0);
    b.set(4, 2);
    b.set(5, 7);
    let l = b.line_clears();
    b.clear_lines(&l);
    assert_eq!(cells_of(&b), vec![(0, 0), (4, 1), (5, 6)]);
}

#[test]
fn shifted_moves_and_drops_cells() {
    let mut b = Board::<2>::empty();
    b.set(0, 0);
    b.set(9, 5);
    b.set(4, 6);
    let r = b.shifted(1, 1);
    assert_eq!(cells_of(&r), vec![(1, 1), (5, 7)]);
    let l = b.shifted(-1, -1);
    assert_eq!(cells_of(&l), vec![(8, 4), (3, 5)]);
    let left = b.shl();
    assert_eq!(cells_of(&left), vec![(8, 5), (3, 6)]);
    let right = b.shr();
    assert_eq!(cells_of(&right), vec![(1, 0), (5, 6)]);
}

#[test]
fn cast_keeps_lower_rows() {
    let mut b = Board::<2>::empty();
    b.set(2, 3);
    b.set(2, 9);
    let small: Board<1> = b.cast();
    assert_eq!(cells_of(&small), vec![(2, 3)]);
    let big: Board<3> = b.cast();
    assert_eq!(cells_of(&big), vec![(2, 3), (2, 9)]);
}

#[test]
fn bit_operators_combine_cells() {
    let mut a = Board::<1>::empty();
    let mut b = Board::<1>::empty();
    a.set(1, 1);
    a.set(2, 2);
    b.set(2, 2);
    b.set(3, 3);
    assert_eq!(cells_of(&a.bitand(b)), vec![(2, 2)]);
    assert_eq!(cells_of(&a.bitor(b)), vec![(1, 1), (2, 2), (3, 3)]);
    assert_eq!(cells_of(&a.bitxor(b)), vec![(1, 1), (3, 3)]);
    let n = Board::<1>::empty().not();
    assert_eq!(n.popcount(), 60);
    let mut c = a;
    c.bitor_assign(b);
    assert_eq!(c.popcount(), 3);
    c.bitand_assign(b);
    assert_eq!(c.popcount(), 2);
    c.bitxor_assign(b);
    assert_eq!(c.popcount(), 0);
}

#[test]
fn iter_lists_cells_in_order() {
    let mut b = Board::<2>::empty();
    b.set(5, 0);
    b.set(1, 0);
    b.set(0, 8);
    let mut it = b.iter();
    let mut seen = Vec::new();
    while let Some(c) = it.next() {
        seen.push(c);
    }
    assert_eq!(seen, vec![(1, 0), (5, 0), (0, 8)]);
}

#[test]
fn as_cols_reads_columns() {
    let mut b = Board::<2>::empty();
    b.set(0, 0);
    b.set(0, 3);
    b.set(9, 11);
    let cols = b.as_cols();
    assert_eq!(cols[0], 0b1001);
    assert_eq!(cols[9], 1u64 << 11);
    assert_eq!(cols[5], 0);
}

#[test]
fn do_move_places_and_clears() {
    let mut b = Board::<2>::empty();
    for x in 0..6 {
        b.set(x, 0);
    }
    // an I piece lying flat fills the rest of the bottom row
    let m = Move::new(Piece::I, 7, 0, Rotation::North, Spin::NoSpin);
    assert_eq!(m.cells(), [(7, 0), (6, 0), (8, 0), (9, 0)]);
    let n = b.do_move(m);
    assert_eq!(n, 1);
    assert!(!b.any());
}

#[test]
fn do_move_masked_matches_do_move() {
    for (piece, rot, x, y) in [
        (Piece::T, Rotation::North, 4, 3),
        (Piece::T, Rotation::East, 0, 1),
        (Piece::I, Rotation::East, 9, 5),
        (Piece::S, Rotation::North, 5, 6),
        (Piece::J, Rotation::West, 8, 7),
        (Piece::L, Rotation::South, 2, 9),
        (Piece::O, Rotation::North, 0, 0),
    ] {
        let mut base = Board::<2>::empty();
        for x2 in 0..10 {
            if x2 != x {
                base.set(x2, 5);
            }
        }
        base.set(3, 0);
        let mut a = base;
        let mut b = base;
        let m = Move::new(piece, x, y, rot, Spin::NoSpin);
        let na = a.do_move(m);
        let nb = b.do_move_masked(piece, rot.index() as usize, x, y);
        assert_eq!(na, nb);
        assert_eq!(cells_of(&a), cells_of(&b));
    }
}

#[test]
fn do_move_masked_clears_completed_rows() {
    let mut b = Board::<2>::empty();
    for x in 0..9 {
        b.set(x, 6);
        b.set(x, 7);
    }
    // a vertical I in the last column completes rows 6 and 7
    let n = b.do_move_masked(Piece::I, 1, 9, 7);
    assert_eq!(n, 2);
    assert_eq!(cells_of(&b), vec![(9, 5), (9, 6)]);
}

#[test]
fn do_move_masked_past_groups_places_nothing() {
    let mut b = Board::<2>::empty();
    b.set(0, 0);
    let n = b.do_move_masked(Piece::O, 2, 4, 4);
    assert_eq!(n, 0);
    assert_eq!(cells_of(&b), vec![(0, 0)]);
}

#[test]
fn place_masks_for_t_north() {
    // T north: cells (0,0) (-1,0) (1,0) (0,1); bias 1, no band offset
    let m = place_mask(Piece::T, 0, 0);
    assert_eq!(m, (0b111 | (1 << 11), 0, 0, 1));
    // at the top row of a band the upper cell goes to the next band
    let m5 = place_mask(Piece::T, 0, 5);
    assert_eq!(m5, (0b111 << 50, 0b10, 0, 1));
    // T south reaches below the origin: at row 0 the mask starts a band lower
    let s0 = place_mask(Piece::T, 2, 0);
    assert_eq!(s0, (0b10 << 50, 0b111, -1, 1));
    assert_eq!(place_mask_entry(Piece::O, 1, 0), (0, 0, 0, 0));
    let table = build_place_masks();
    assert_eq!(table[0][0][0], m);
    assert_eq!(table[0][2][0], s0);
    assert_eq!(table[4][3][2], (0, 0, 0, 0));
}

#[test]
fn rotated_cells_turn_clockwise() {
    assert_eq!(rot_cell((1, 0), 1), (0, -1));
    assert_eq!(rot_cell((1, 2), 2), (-1, -2));
    assert_eq!(rot_cell((1, 2), 3), (-2, 1));
    assert_eq!(rotated_cells(Piece::T, 1), [(0, 1), (0, -1), (1, 0)]);
}

#[test]
fn header_masks() {
    assert_eq!(col_word(0), COL0);
    assert_eq!(col_word(9), COL9);
    assert_eq!(cols_below(10), TALL);
    assert_eq!(cols_below(0), 0);
    assert_eq!(dx_mask(0), TALL);
    assert_eq!(dx_mask(1), TALL & !COL0);
    assert_eq!(dx_mask(-1), TALL & !COL9);
    assert_eq!(top_extent(Piece::T, 0), 2);
    assert_eq!(top_extent(Piece::I, 1), 2);
    assert_eq!(top_extent(Piece::I, 0), 1);
}

#[test]
fn env_probe_spreads_cells() {
    let mut b = Board::<2>::empty();
    b.set(5, 5);
    let p = env_probe(&b, (-1, 2, 0, 1));
    let mut expect = Vec::new();
    for y in 5..7 {
        for x in 4..8 {
            expect.push((x, y));
        }
    }
    assert_eq!(cells_of(&p), expect);
    let same = env_probe(&b, (0, 0, 0, 0));
    assert_eq!(cells_of(&same), vec![(5, 5)]);
}

#[test]
fn set_then_clear_restores_board() {
    let mut b = Board::<2>::empty();
    b.set(1, 1);
    let before = cells_of(&b);
    b.set(6, 9);
    assert!(b.get(6, 9));
    b.clear(6, 9);
    assert_eq!(cells_of(&b), before);
}

#[test]
fn placement_leaves_no_full_row() {
    let mut b = Board::<2>::empty();
    for x in 0..9 {
        b.set(x, 0);
        b.set(x, 1);
        b.set(x, 3);
    }
    b.set(2, 2);
    // a vertical I in the last column completes rows 0, 1 and 3 but not 2
    let n = b.do_move(Move::new(Piece::I, 9, 2, Rotation::East, Spin::NoSpin));
    assert_eq!(n, 3);
    for y in 0..12 {
        assert!((0..10).any(|x| !b.get(x, y)));
    }
    assert_eq!(cells_of(&b), vec![(2, 0), (9, 0)]);
}

#[test]
fn counts_bands_and_casts_agree_with_cells() {
    let mut b = Board::<4>::empty();
    b.set(0, 0);
    b.set(9, 6);
    b.set(3, 13);
    assert_eq!(b.popcount(), cells_of(&b).len() as u64);
    assert_eq!(b.height(), 14);
    assert_eq!(b.necessary_bands() as i32, (b.height() + 5) / 6);
    let wide: Board<6> = b.cast();
    let back: Board<4> = wide.cast();
    assert_eq!(cells_of(&back), cells_of(&b));
    assert_eq!(Board::<4>::empty().popcount(), 0);
    assert!(!Board::<4>::empty().any());
}
