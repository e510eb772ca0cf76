use rue::piece::Piece;
use rue::placement::Move;
use rue::rotation::Rotation;
use rue::rule::{default_rule, Rule};
use rue::ruleset::active_rules;
use rue::spin::{Spin, Spins};

#[test]
fn piece_index_roundtrip() {
    let all = Piece::all();
    for (i, p) in all.iter().enumerate() {
        assert_eq!(p.index() as usize, i);
        assert_eq!(Piece::from_u8(i as u8), Some(*p));
    }
    assert_eq!(Piece::from_u8(7), None);
}

#[test]
fn piece_tables() {
    assert_eq!(Piece::T.base_cells(), [(-1, 0), (1, 0), (0, 1)]);
    assert_eq!(Piece::O.groups(), 1);
    assert_eq!(Piece::S.groups(), 2);
    assert_eq!(Piece::J.groups(), 4);
    assert!(Piece::O.group1() && Piece::I.group2() && Piece::L.group4());
    assert_eq!(Piece::O.search_size(), 1);
    assert_eq!(Piece::Z.search_size(), 4);
    assert_eq!(Piece::I.canonical_rotation(Rotation::South), Rotation::North);
    assert_eq!(Piece::S.canonical_rotation(Rotation::West), Rotation::East);
    assert_eq!(Piece::T.canonical_rotation(Rotation::West), Rotation::West);
    assert_eq!(Piece::O.canonical_rotation(Rotation::East), Rotation::North);
    assert_eq!(Piece::I.canonical_offset(Rotation::West), (0, -1));
    assert_eq!(Piece::Z.canonical_offset(Rotation::South), (0, 1));
    assert_eq!(Piece::I.canonical_offset(Rotation::South), (1, 0));
    assert_eq!(Piece::T.canonical_offset(Rotation::South), (0, 0));
    assert_eq!((Piece::I.h_spawn(), Piece::O.h_spawn(), Piece::T.h_spawn()), (2, 0, 1));
    assert_eq!((Piece::I.h_place(), Piece::O.h_place(), Piece::T.h_place()), (3, 1, 2));
    assert_eq!((Piece::T.h_gen(), Piece::O.h_gen(), Piece::S.h_gen()), (2, 0, 1));
    assert_eq!(Piece::L.name(), "L");
}

#[test]
fn rotation_turns() {
    assert_eq!(Rotation::North.cw(), Rotation::East);
    assert_eq!(Rotation::North.ccw(), Rotation::West);
    assert_eq!(Rotation::East.flip(), Rotation::West);
    assert_eq!(Rotation::from_u8(6), Rotation::South);
    for r in Rotation::all() {
        assert_eq!(r.cw().ccw(), r);
        assert_eq!(r.cw().cw(), r.flip());
        assert_eq!(r.flip().flip(), r);
    }
    assert_eq!(Rotation::West.index(), 3);
}

#[test]
fn spin_indices() {
    assert_eq!(Spin::all(), [Spin::NoSpin, Spin::Mini, Spin::Full]);
    assert_eq!(Spin::Full.index(), 2);
}

#[test]
fn move_packs_fields() {
    let m = Move::new(Piece::T, 4, 3, Rotation::North, Spin::NoSpin);
    assert_eq!(m.raw(), 416);
    assert_eq!(m.piece(), Piece::T);
    assert_eq!((m.x(), m.y()), (4, 3));
    assert_eq!(m.rotation(), Rotation::North);
    assert_eq!(m.spin(), Spin::NoSpin);
    let n = Move::new(Piece::Z, 9, 63, Rotation::West, Spin::Full);
    assert_eq!(n.raw(), 6 | (9 << 3) | (63 << 7) | (3 << 13) | (2 << 15));
    assert_eq!((n.piece(), n.x(), n.y(), n.rotation(), n.spin()), (Piece::Z, 9, 63, Rotation::West, Spin::Full));
    let z = Move::null();
    assert_eq!(z.raw(), 0);
    assert_eq!((z.piece(), z.x(), z.y()), (Piece::T, 0, 0));
}

#[test]
fn move_cells_follow_rotation() {
    let m = Move::new(Piece::L, 5, 5, Rotation::East, Spin::NoSpin);
    assert_eq!(m.cells(), [(5, 5), (5, 6), (5, 4), (6, 4)]);
}

#[test]
fn canonicalize_keeps_cells() {
    for (p, r, x, y) in [
        (Piece::I, Rotation::South, 4, 4),
        (Piece::I, Rotation::West, 4, 4),
        (Piece::S, Rotation::South, 3, 5),
        (Piece::Z, Rotation::West, 6, 2),
        (Piece::T, Rotation::West, 6, 2),
        (Piece::O, Rotation::East, 4, 5),
        (Piece::O, Rotation::South, 4, 5),
        (Piece::O, Rotation::West, 4, 5),
        (Piece::O, Rotation::North, 4, 5),
    ] {
        let m = Move::new(p, x, y, r, Spin::Mini);
        let c = m.canonicalize();
        let mut a = m.cells().to_vec();
        let mut b = c.cells().to_vec();
        a.sort();
        b.sort();
        assert_eq!(a, b);
        assert_eq!(c.rotation(), p.canonical_rotation(r));
        assert_eq!(c.spin(), Spin::Mini);
    }
    let i = Move::new(Piece::I, 4, 4, Rotation::South, Spin::NoSpin).canonicalize();
    assert_eq!((i.x(), i.y(), i.rotation()), (3, 4, Rotation::North));
    let o = Move::new(Piece::O, 4, 5, Rotation::East, Spin::NoSpin).canonicalize();
    assert_eq!((o.x(), o.y(), o.rotation()), (4, 4, Rotation::North));
    assert_eq!(o.canonicalize().raw(), o.raw());
    assert_eq!(Piece::O.canonical_offset(Rotation::South), (1, 1));
}

#[test]
fn rule_switches() {
    let d = default_rule();
    assert_eq!(d.spins, Spins::AllMini);
    assert!(d.inf_sdf && d.allow_180 && d.das);
    assert_eq!((d.spawn_x, d.spawn_y), (4, 21));
    assert!(d.has_t_corner_spins());
    assert!(!d.has_immobile_t_spins());
    assert!(d.has_immobile_non_t_spins());
    assert!(!d.is_full());
    let off = Rule { spins: Spins::Disabled, ..d };
    assert!(!off.has_t_corner_spins());
    let plus = Rule { spins: Spins::AllPlus, ..d };
    assert!(plus.has_immobile_t_spins() && plus.has_immobile_non_t_spins() && plus.is_full());
    let tplus = Rule { spins: Spins::TPlus, ..d };
    assert!(tplus.has_immobile_t_spins() && !tplus.has_immobile_non_t_spins() && !tplus.is_full());
    let r = active_rules();
    assert!(r.enable_180 && r.enable_tspin && !r.enable_allspin && r.srs_plus);
    assert_eq!(r.spawn_row, 21);
}

#[test]
fn move_text_names_every_field() {
    assert_eq!(Move::new(Piece::T, 4, 3, Rotation::North, Spin::NoSpin).text(), "T4:3Nn");
    assert_eq!(Move::new(Piece::I, 9, 17, Rotation::West, Spin::Full).text(), "I9:17Wf");
    assert_eq!(Move::new(Piece::S, 0, 63, Rotation::South, Spin::Mini).text(), "S0:63Sm");
    assert_eq!(Move::new(Piece::L, 1, 0, Rotation::East, Spin::NoSpin).text(), "L1:0En");
}

#[test]
fn raw_words_round_trip() {
    let m = Move::new(Piece::J, 7, 22, Rotation::South, Spin::Mini);
    let back = Move::from_raw(m.raw());
    assert_eq!(back.raw(), m.raw());
    assert_eq!(back.text(), "J7:22Sm");
}
