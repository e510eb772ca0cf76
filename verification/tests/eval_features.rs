use rue::board::Board;
use rue::eval::features;
use rue::eval::simple;
use rue::eval::deep::Config as DeepConfig;
use rue::buffer::Buffer;
use rue::game::attack::{compute_attack, AttackEvents};
use rue::game::ruleset::season_2_table;
use rue::game::search::SearchGame;
use rue::game::QUEUE_SIZE;
use rue::eval::score::evaluation_features;
use rue::piece::Piece;
use rue::placement::Move;
use rue::rotation::Rotation;
use rue::spin::Spin;
use rue::ruleset::{combo_table_bonus, ComboTable};

fn sample() -> Board<2> {
    let mut b = Board::<2>::empty();
    // column 0: cells at rows 0 and 2 (one hole at row 1)
    b.set(0, 0);
    b.set(0, 2);
    // column 1: rows 0..4 filled
    for y in 0..4 {
        b.set(1, y);
    }
    // column 3: a single cell at row 1, hole at row 0
    b.set(3, 1);
    b
}

#[test]
fn heights_per_column() {
    let b = sample();
    let h = features::heights(&b);
    assert_eq!(h, [3, 4, 0, 2, 0, 0, 0, 0, 0, 0]);
    assert_eq!(simple::column_heights(&b), h);
}

#[test]
fn bumpiness_sums_differences() {
    let h = [3, 4, 0, 2, 0, 0, 0, 0, 0, 0];
    assert_eq!(features::bumpiness(&h, None), (1 + 4 + 2 + 2, 1 + 16 + 4 + 4));
    // skipping column 2 drops the transitions 1-2 and 2-3
    assert_eq!(features::bumpiness(&h, Some(2)), (1 + 2, 1 + 4));
    assert_eq!(simple::bumpiness(&h, Some(2)), (3, 5));
}

#[test]
fn find_well_picks_deepest_leftmost() {
    assert_eq!(features::find_well(&[3, 4, 0, 2, 0, 0, 0, 0, 0, 0]), (Some(2), 2));
    assert_eq!(features::find_well(&[0; 10]), (None, 0));
    assert_eq!(features::find_well(&[5, 5, 5, 5, 5, 5, 5, 5, 5, 5]), (None, 0));
    assert_eq!(features::find_well(&[9, 1, 9, 9, 9, 9, 9, 9, 9, 9]), (Some(1), 8));
    assert_eq!(features::find_well(&[40, 40, 40, 40, 40, 40, 40, 40, 40, 40]), (None, 0));
}

#[test]
fn holes_and_covered_counts() {
    let b = sample();
    let h = features::heights(&b);
    // column 0: one hole, one covering cell; column 3: one hole, one covering cell
    assert_eq!(features::holes_and_covered(&b, &h), (2, 2));
    let (cols, hh) = simple::cols_and_heights(&b, 12);
    assert_eq!(hh, h);
    assert_eq!(simple::holes_and_covered(cols, &h), (2, 2));
}

#[test]
fn covered_is_capped_at_six() {
    let mut b = Board::<2>::empty();
    for y in 1..9 {
        b.set(0, y);
    }
    let h = features::heights(&b);
    assert_eq!(features::holes_and_covered(&b, &h), (1, 6));
}

#[test]
fn row_transitions_count_walls_and_changes() {
    let mut b = Board::<2>::empty();
    // row 0: cells 0..4 filled -> one change, right wall
    for x in 0..4 {
        b.set(x, 0);
    }
    assert_eq!(features::row_transitions(&b, 1), 2);
    // a full row has no transitions, an empty row is skipped
    let mut f = Board::<2>::empty();
    for x in 0..10 {
        f.set(x, 0);
    }
    assert_eq!(features::row_transitions(&f, 2), 0);
    // a single middle cell: two changes and both walls
    let mut m = Board::<2>::empty();
    m.set(5, 3);
    assert_eq!(features::row_transitions(&m, 4), 4);
    assert_eq!(simple::row_transitions::<2>(&m, 4), 4);
}

#[test]
fn packed_and_plain_transitions_agree_above_the_stack() {
    let b = sample();
    let h = b.height() as usize;
    for mh in h..=8 {
        assert_eq!(features::row_transitions(&b, mh), simple::row_transitions::<2>(&b, mh));
    }
}

#[test]
fn evaluation_features_of_a_tsd_setup() {

    // a left-facing T slot: the same shape as the T-spin double setup
    let mut board = Board::<8>::empty();
    for &(x, y) in &[
        (0, 5), (0, 6), (1, 5), (1, 6), (2, 5), (2, 6), (3, 0), (3, 1), (3, 2), (3, 3), (3, 4),
        (3, 5), (4, 0), (4, 1), (4, 2), (5, 5), (5, 7), (6, 5), (6, 6), (7, 5), (7, 6), (8, 5),
        (8, 6), (9, 5), (9, 6),
    ] {
        board.set(x, y);
    }
    let mut queue = Buffer::<Piece, { QUEUE_SIZE }>::new();
    queue.push(Piece::T);
    let game = SearchGame { board, queue, hold: None, combo: Some(2), b2b: Some(9), incoming: 3 };
    let placement = Move::new(Piece::T, 4, 3, Rotation::North, Spin::NoSpin);
    let ctx = compute_attack(&season_2_table(), Spin::NoSpin, 0, false, true, None, None, 0,
        AttackEvents { main: 0, surge: 0, pc: 0 });
    let f = evaluation_features(&game, placement, ctx);
    assert_eq!(f.max_height, 8);
    assert_eq!(f.heights, [7, 7, 7, 6, 3, 8, 7, 7, 7, 7]);
    assert_eq!(f.combo, 2);
    assert_eq!(f.b2b, 8);
    assert_eq!(f.incoming, 3);
    assert_eq!(f.tslot_lines, vec![2]);
    assert!(f.t_waste);
    assert!(!f.b2b_break);
    assert_eq!(f.well_col, Some(4));
    assert_eq!(f.well_depth, 3);
    assert_eq!(f.height_difference, Some(2));
    assert_eq!(f.well_distance, None);
    assert_eq!(f.row_transitions, simple::row_transitions::<8>(&game.board, 8));
}

#[test]
fn piece_names_parse() {
    assert_eq!(Piece::from_name("J"), Some(Piece::J));
    assert_eq!(Piece::from_name("j"), None);
    assert_eq!(Piece::from_name("TT"), None);
}

#[test]
fn sequential_combo_tables() {
    assert_eq!(combo_table_bonus(1, ComboTable::Classic), Some(0));
    assert_eq!(combo_table_bonus(2, ComboTable::Classic), Some(0));
    assert_eq!(combo_table_bonus(7, ComboTable::Classic), Some(3));
    assert_eq!(combo_table_bonus(40, ComboTable::Classic), Some(5));
    assert_eq!(combo_table_bonus(14, ComboTable::Modern), Some(4));
    assert_eq!(combo_table_bonus(5, ComboTable::Modern), Some(2));
    assert_eq!(combo_table_bonus(5, ComboTable::Multiplier), None);
    assert_eq!(combo_table_bonus(5, ComboTable::NoBonus), Some(0));
}

#[test]
fn deep_model_parameter_count() {
    let c = DeepConfig::default();
    assert_eq!(c.conv_channels, [8, 16]);
    assert_eq!(c.params(), 515601);
    let small = DeepConfig {
        conv_channels: [1, 2],
        dense_width: 5,
        dense_layers: 0,
        board_rows: 3,
        board_cols: 4,
        aux_features: 6,
    };
    assert_eq!(small.params(), 42);
}
