use rue::board::Board;
use rue::buffer::Buffer;
use rue::game::attack::{clear_type, compute_attack, surge_charge, Attack, AttackEvents, Clear};
use rue::game::ruleset::season_2_table;
use rue::game::search::SearchGame;
use rue::game::QUEUE_SIZE;
use rue::piece::Piece;
use rue::placement::Move;
use rue::rotation::Rotation;
use rue::spin::Spin;

#[test]
fn clear_names() {
    assert_eq!(clear_type(0), Clear::NoLines);
    assert_eq!(clear_type(1), Clear::Single);
    assert_eq!(clear_type(4), Clear::Quad);
    assert_eq!(clear_type(5), Clear::Penta);
    assert_eq!(clear_type(6), Clear::NoLines);
}

#[test]
fn base_attack_table() {
    let t = season_2_table();
    assert_eq!(t.base_attack(1, Spin::NoSpin), 0);
    assert_eq!(t.base_attack(2, Spin::NoSpin), 1);
    assert_eq!(t.base_attack(4, Spin::NoSpin), 4);
    assert_eq!(t.base_attack(7, Spin::NoSpin), 7);
    assert_eq!(t.base_attack(2, Spin::Full), 4);
    assert_eq!(t.base_attack(3, Spin::Full), 6);
    assert_eq!(t.base_attack(1, Spin::Mini), 0);
    assert_eq!(t.base_attack(6, Spin::Mini), 14);
    assert_eq!(t.base_attack(7, Spin::Full), 16);
    assert_eq!(t.base_attack(0, Spin::NoSpin), 0);
}

#[test]
fn surge_released_on_broken_chain() {
    assert_eq!(surge_charge(true, true, Some(10), 4, 1), Some(8));
    assert_eq!(surge_charge(true, true, Some(3), 4, 1), None);
    assert_eq!(surge_charge(true, true, Some(4), 4, 1), Some(2));
    assert_eq!(surge_charge(true, false, Some(10), 4, 1), None);
    assert_eq!(surge_charge(false, true, Some(10), 4, 1), None);
    assert_eq!(surge_charge(true, true, None, 4, 1), None);
}

#[test]
fn compute_attack_assembles_events() {
    let t = season_2_table();
    let ev = AttackEvents { main: 4, surge: 3, pc: 0 };
    let a: Attack = compute_attack(&t, Spin::Full, 2, false, true, Some(2), Some(1), 1, ev);
    assert_eq!(a.clear_type, Clear::Double);
    assert_eq!(a.base_attack, 4);
    assert_eq!(a.total, 7);
    assert_eq!(a.surge_release, Some(3));
    assert!(!a.chain_broken);
    assert_eq!(a.b2b_count, Some(2));
    assert_eq!(a.combo_count, Some(1));
    assert_eq!(a.outgoing(), 6);
    assert!(a.is_special_clear());
    assert_eq!(a.total(), 7);

    let none = compute_attack(&t, Spin::NoSpin, 0, false, true, Some(2), None, 0, ev);
    assert_eq!(none.total, 0);
    assert_eq!(none.surge_release, None);
    assert!(none.chain_broken);
    assert!(!none.is_special_clear());

    let single = compute_attack(&t, Spin::NoSpin, 1, true, true, None, None, 0, AttackEvents { main: 0, surge: 0, pc: 10 });
    assert!(!single.chain_broken);
    assert!(single.is_perfect_clear);
    assert_eq!(single.total, 10);
    let single2 = compute_attack(&t, Spin::NoSpin, 1, true, false, None, None, 0, AttackEvents { main: 0, surge: 0, pc: 10 });
    assert!(single2.chain_broken);
}

#[test]
fn search_play_takes_queue_and_counts() {
    let mut queue = Buffer::<Piece, { QUEUE_SIZE }>::new();
    queue.push(Piece::I);
    queue.push(Piece::T);
    queue.push(Piece::O);
    let mut board = Board::<2>::empty();
    for x in 0..6 {
        board.set(x, 0);
    }
    let mut g = SearchGame { board, queue, hold: None, combo: None, b2b: Some(3), incoming: 5 };
    let o = g.play(Move::new(Piece::I, 7, 0, Rotation::North, Spin::NoSpin), false);
    assert_eq!(o.line_clears, 1);
    assert!(o.is_pc);
    assert_eq!(o.combo, Some(0));
    assert_eq!(o.b2b, None);
    assert_eq!(o.pre_b2b, Some(3));
    assert_eq!(g.queue.len(), 2);
    assert_eq!(g.hold, None);
    assert_eq!(g.incoming, 5);

    // placing a piece other than the front one holds the front piece
    let o2 = g.play(Move::new(Piece::O, 0, 0, Rotation::North, Spin::NoSpin), false);
    assert_eq!(o2.line_clears, 0);
    assert_eq!(g.hold, Some(Piece::T));
    assert_eq!(g.queue.len(), 0);
    assert_eq!(g.combo, None);
}

fn game_with_garbage(segs: &[u32]) -> rue::game::Game<4> {
    let mut q = rue::game::garbage::GarbageQueue::new();
    for &s in segs {
        q.recieve(s, 100);
    }
    rue::game::Game {
        rng: rue::rng::Rng::new_seeded(1),
        grng: rue::rng::Rng::new_seeded(7),
        board: Board::<4>::empty(),
        queue: Buffer::new(),
        hold: None,
        combo: None,
        b2b: None,
        garbage_queue: q,
        garbage_cap: 8,
        pc_b2b: true,
        garbage_rows: Vec::new(),
    }
}

fn attack_of(lines: u32, total: u32) -> Attack {
    Attack {
        clear_type: clear_type(lines),
        spin_type: Spin::NoSpin,
        surge_release: None,
        line_clears: lines,
        is_perfect_clear: false,
        base_attack: total,
        total,
        canceled: 0,
        b2b_count: None,
        combo_count: None,
        chain_broken: false,
    }
}

#[test]
fn clearing_lines_cancels_oldest_garbage() {
    let mut g = game_with_garbage(&[2, 3]);
    let a = g.settle_garbage(attack_of(2, 4));
    assert_eq!(a.canceled, 4);
    assert_eq!(a.total, 4);
    assert_eq!(g.garbage_queue.segments, vec![1]);
    assert!(g.garbage_rows.is_empty());
    // an attack larger than the queue cancels what there is
    let mut h = game_with_garbage(&[2]);
    assert_eq!(h.settle_garbage(attack_of(1, 5)).canceled, 2);
    assert!(h.garbage_queue.segments.is_empty());
}

#[test]
fn clearing_nothing_lets_garbage_in() {
    let mut g = game_with_garbage(&[5, 6]);
    let a = g.settle_garbage(attack_of(0, 0));
    assert_eq!(a, attack_of(0, 0));
    assert_eq!(g.garbage_queue.segments, vec![3]);
    let mut r = rue::rng::Rng::new_seeded(7);
    let c1 = (r.next() as u32) % 10;
    let c2 = (r.next() as u32) % 10;
    assert_eq!(g.garbage_rows, vec![(5, c1), (3, c2)]);
    assert_eq!(g.grng.next(), r.next());
}

#[test]
fn surge_near_the_top_of_the_range() {
    assert_eq!(surge_charge(true, true, Some(u32::MAX - 1), u32::MAX - 10, 5), Some(15));
    assert_eq!(surge_charge(true, true, Some(3), 4, 1), None);
}

#[test]
fn game_play_then_settle() {
    let mut g = game_with_garbage(&[3]);
    g.queue.push(Piece::I);
    g.queue.push(Piece::T);
    let o = g.play(Move::new(Piece::I, 4, 0, Rotation::North, Spin::NoSpin));
    assert_eq!(o.line_clears, 0);
    assert_eq!(g.queue.len(), 1);
    assert_eq!(g.hold, None);
    let a = g.settle_garbage(attack_of(o.line_clears, 0));
    assert_eq!(a.canceled, 0);
    assert!(g.garbage_queue.segments.is_empty());
    assert_eq!(g.garbage_rows.len(), 1);
    assert_eq!(g.garbage_rows[0].0, 3);
}

#[test]
fn versus_turns() {
    use_versus();
}

fn use_versus() {
    assert_eq!(rue::versus::garbage_exchange(5, 2), (0, 3));
    assert_eq!(rue::versus::garbage_exchange(1, 4), (3, 0));
    assert_eq!(rue::versus::garbage_exchange(2, 2), (0, 0));
    assert_eq!(rue::versus::turn_result(true, true), Some(rue::versus::MatchResult::Right));
    assert_eq!(rue::versus::turn_result(false, true), Some(rue::versus::MatchResult::Left));
    assert_eq!(rue::versus::turn_result(false, false), None);
    let c = rue::versus::GlobalConfig { depth: 7, width: 5000, target_ms: None };
    assert_eq!(c.depth, 7);
}
