use rue::board::Board;
use rue::buffer::Buffer;
use rue::eval::simple::{
    cols_and_heights, row_bits, row_transitions, t_available, virtual_t_fire,
    well_known_tslot_left, well_known_tslot_right,
};
use rue::game::search::SearchGame;
use rue::game::QUEUE_SIZE;
use rue::header::WIDTH;
use rue::piece::Piece;

fn fill(board: &mut Board<8>, cells: &[(i32, i32)]) {
    for &(x, y) in cells {
        board.set(x, y);
    }
}

fn ref_column_heights(board: &Board<8>) -> [usize; WIDTH as usize] {
    let mut heights = [0; WIDTH as usize];
    for (x, h) in heights.iter_mut().enumerate() {
        for y in (0..board.height()).rev() {
            if board.get(x as i32, y) {
                *h = y as usize + 1;
                break;
            }
        }
    }
    heights
}

fn ref_cols(board: &Board<8>, max_height: usize) -> [u64; WIDTH as usize] {
    let mut cols = [0u64; WIDTH as usize];
    for y in 0..max_height {
        let bits = row_bits(board, y);
        for (x, col) in cols.iter_mut().enumerate() {
            if (bits >> x) & 1 == 1 {
                *col |= 1u64 << y;
            }
        }
    }
    cols
}

fn ref_rows(board: &Board<8>, max_height: usize) -> Vec<u64> {
    let mut rows = vec![0u64; max_height.div_ceil(4) * 4];
    for (y, row) in rows.iter_mut().enumerate().take(max_height) {
        *row = row_bits(board, y);
    }
    rows
}

fn ref_row_transitions(rows: &[u64], max_height: usize) -> i32 {
    const LANE_LSB: u64 = 0x0001_0001_0001_0001;
    const LANE_LOW9: u64 = 0x01FF_01FF_01FF_01FF;
    const LANE_SHIFT_GUARD: u64 = 0x7FFF_7FFF_7FFF_7FFF;

    let mut total = 0u32;
    let mut y = 0usize;
    while y < max_height {
        let v = rows[y] | rows[y + 1] << 16 | rows[y + 2] << 32 | rows[y + 3] << 48;
        let nz = ((v + LANE_SHIFT_GUARD) >> 15) & LANE_LSB;
        let xor = v ^ ((v >> 1) & LANE_SHIFT_GUARD);
        total += (xor & LANE_LOW9).count_ones();
        total += ((!v) & LANE_LSB & nz).count_ones();
        total += ((!(v >> 9)) & LANE_LSB & nz).count_ones();
        y += 4;
    }
    total as i32
}

fn test_boards() -> Vec<Board<8>> {
    let mut boards = Vec::new();

    boards.push(Board::<8>::empty());

    let mut b = Board::<8>::empty();
    for x in 0..10 {
        if x != 5 {
            b.set(x, 0);
        }
    }
    boards.push(b);

    let mut b = Board::<8>::empty();
    for x in 0..10 {
        b.set(x, 0);
    }
    for x in 2..10 {
        b.set(x, 1);
    }
    boards.push(b);

    let mut b = Board::<8>::empty();
    for y in 0..5 {
        for x in 0..10 {
            if (x + y) % 3 != 0 {
                b.set(x, y);
            }
        }
    }
    boards.push(b);

    let mut b = Board::<8>::empty();
    for y in 0..12 {
        b.set(3, y);
    }
    boards.push(b);

    let mut b = Board::<8>::empty();
    for x in 0..10 {
        b.set(x, 0);
        b.set(x, 2);
    }
    boards.push(b);

    let mut b = Board::<8>::empty();
    for x in 0..10 {
        for y in 0..5 {
            if (x + y) % 2 == 0 {
                b.set(x, y);
            }
        }
    }
    for y in 5..11 {
        b.set(4, y);
        b.set(5, y);
    }
    boards.push(b);

    boards
}

#[test]
fn parity_with_reference() {
    for board in test_boards() {
        let max_height = board.height() as usize;

        let ref_h = ref_column_heights(&board);
        let ref_c = ref_cols(&board, max_height);
        let ref_rt = ref_row_transitions(&ref_rows(&board, max_height), max_height);

        let (new_c, new_h) = cols_and_heights(&board, max_height);
        let new_rt = row_transitions::<8>(&board, max_height);

        assert_eq!(ref_h, new_h);
        assert_eq!(ref_c, new_c);
        assert_eq!(ref_rt, new_rt);
    }
}

fn left_tsd_board() -> Board<8> {
    let mut board = Board::empty();
    fill(
        &mut board,
        &[
            (0, 5),
            (0, 6),
            (1, 5),
            (1, 6),
            (2, 5),
            (2, 6),
            (3, 0),
            (3, 1),
            (3, 2),
            (3, 3),
            (3, 4),
            (3, 5),
            (4, 0),
            (4, 1),
            (4, 2),
            (5, 5),
            (5, 7),
            (6, 5),
            (6, 6),
            (7, 5),
            (7, 6),
            (8, 5),
            (8, 6),
            (9, 5),
            (9, 6),
        ],
    );
    board
}

fn right_tsd_board() -> Board<8> {
    let mut board = Board::empty();
    fill(
        &mut board,
        &[
            (0, 5),
            (0, 6),
            (1, 5),
            (1, 6),
            (2, 5),
            (2, 6),
            (3, 5),
            (3, 6),
            (4, 5),
            (4, 7),
            (5, 0),
            (5, 1),
            (5, 2),
            (6, 0),
            (6, 1),
            (6, 2),
            (6, 3),
            (6, 4),
            (6, 5),
            (7, 5),
            (7, 6),
            (8, 5),
            (8, 6),
            (9, 5),
            (9, 6),
        ],
    );
    board
}

#[test]
fn tslot_left_clears_two() {
    let board = left_tsd_board();
    assert_eq!(well_known_tslot_left::<8>(&board), Some((4, 6)));
    assert_eq!(well_known_tslot_right::<8>(&board), None);
    let mut probe = board;
    assert_eq!(virtual_t_fire::<8>(&mut probe, 4, 6), Some(2));
}

#[test]
fn tslot_right_clears_two() {
    let board = right_tsd_board();
    assert_eq!(well_known_tslot_left::<8>(&board), None);
    assert_eq!(well_known_tslot_right::<8>(&board), Some((5, 6)));
    let mut probe = board;
    assert_eq!(virtual_t_fire::<8>(&mut probe, 5, 6), Some(2));
}

#[test]
fn tslot_absent_on_flat_and_empty() {
    assert_eq!(well_known_tslot_left::<8>(&Board::empty()), None);
    assert_eq!(well_known_tslot_right::<8>(&Board::empty()), None);

    let mut flat = Board::empty();
    fill(
        &mut flat,
        &(0..10)
            .flat_map(|x| (0..6).map(move |y| (x, y)))
            .collect::<Vec<_>>(),
    );
    assert_eq!(well_known_tslot_left::<8>(&flat), None);
    assert_eq!(well_known_tslot_right::<8>(&flat), None);
}

#[test]
fn t_available_counts_queue_and_hold() {
    let mut queue = Buffer::<Piece, { QUEUE_SIZE }>::new();
    queue.push(Piece::I);
    queue.push(Piece::T);
    let game = SearchGame {
        board: Board::empty(),
        queue,
        hold: Some(Piece::T),
        combo: None,
        b2b: None,
        incoming: 0,
    };
    assert_eq!(t_available::<8>(&game), 2);
}

#[test]
fn t_available_zero_without_ts() {
    let mut queue = Buffer::<Piece, { QUEUE_SIZE }>::new();
    queue.push(Piece::I);
    queue.push(Piece::J);
    let game = SearchGame {
        board: Board::empty(),
        queue,
        hold: None,
        combo: None,
        b2b: None,
        incoming: 0,
    };
    assert_eq!(t_available::<8>(&game), 0);
}
