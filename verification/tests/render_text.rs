use rue::board::Board;
use rue::piece::Piece;
use rue::placement::Move;
use rue::render::{board, cell, merge, placement, CELL, EMPTY};
use rue::rotation::Rotation;
use rue::spin::Spin;

fn frame(rows: &[String]) -> String {
    let mut s = String::new();
    s.push('┌');
    s.push_str(&"─".repeat(20));
    s.push('┐');
    s.push('\n');
    for r in rows {
        s.push('│');
        s.push_str(r);
        s.push('│');
        s.push('\n');
    }
    s.push('└');
    s.push_str(&"─".repeat(20));
    s.push('┘');
    s.push('\n');
    s
}

#[test]
fn cell_colours_text() {
    assert_eq!(cell(Piece::T, "ab"), "\x1b[48;2;255;127;255mab\x1b[0m");
    assert_eq!(cell(Piece::Z, "  "), "\x1b[48;2;255;127;127m  \x1b[0m");
}

#[test]
fn empty_board_renders_six_rows() {
    let b = Board::<2>::empty();
    let row = EMPTY.repeat(10);
    let expect = frame(&vec![row; 6]);
    assert_eq!(board(&b), expect);
}

#[test]
fn board_renders_filled_cells_top_first() {
    let mut b = Board::<2>::empty();
    b.set(0, 0);
    b.set(9, 5);
    let mut rows = Vec::new();
    for y in (0..8).rev() {
        let mut r = String::new();
        for x in 0..10 {
            r.push_str(if (x, y) == (0, 0) || (x, y) == (9, 5) { CELL } else { EMPTY });
        }
        rows.push(r);
    }
    assert_eq!(board(&b), frame(&rows));
}

#[test]
fn merge_colours_overlap() {
    let mut red = Board::<2>::empty();
    let mut blue = Board::<2>::empty();
    red.set(0, 0);
    red.set(1, 0);
    blue.set(1, 0);
    blue.set(2, 0);
    let s = merge(&red, &blue);
    let mut bottom = String::new();
    bottom.push_str(&cell(Piece::Z, "  "));
    bottom.push_str(&cell(Piece::T, "  "));
    bottom.push_str(&cell(Piece::I, "  "));
    bottom.push_str(&EMPTY.repeat(7));
    let mut rows = vec![EMPTY.repeat(10); 5];
    rows.push(bottom);
    assert_eq!(s, frame(&rows));
}

#[test]
fn placement_marks_move_cells() {
    let mut b = Board::<2>::empty();
    b.set(4, 0);
    let m = Move::new(Piece::O, 4, 0, Rotation::North, Spin::NoSpin);
    let s = placement(&b, &m);
    let mut r0 = String::new();
    let mut r1 = String::new();
    for x in 0..10 {
        if x == 4 {
            r0.push_str(&cell(Piece::O, "--"));
            r1.push_str(&cell(Piece::O, "  "));
        } else if x == 5 {
            r0.push_str(&cell(Piece::O, "  "));
            r1.push_str(&cell(Piece::O, "  "));
        } else {
            r0.push_str(EMPTY);
            r1.push_str(EMPTY);
        }
    }
    let mut rows = vec![EMPTY.repeat(10); 4];
    rows.push(r1);
    rows.push(r0);
    assert_eq!(s, frame(&rows));
}
