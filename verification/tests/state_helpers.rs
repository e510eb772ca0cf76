use rue::bits::count_ones;
use rue::buffer::Buffer;
use rue::history::History;
use rue::piece::Piece;
use rue::rng::Rng;

#[test]
fn rng_sequence_matches_park_miller() {
    let mut r = Rng::new_seeded(1);
    assert_eq!(r.next(), 16807);
    assert_eq!(r.next(), 282475249);
    assert_eq!(r.next(), 1622650073);
    let mut z = Rng::new_seeded(0);
    assert_eq!(z.next(), ((2_147_483_646i64 * 16807) % 2_147_483_647) as i32);
}

#[test]
fn rng_from_clock_is_in_range() {
    let mut r = Rng::new();
    let v = r.next();
    assert!(v > 0 && v < 2_147_483_647);
}

#[test]
fn rng_from_clock_reading() {
    let mut a = Rng::from_clock(Some(2_147_483_647 * 3 + 5));
    let mut b = Rng::new_seeded(5);
    assert_eq!(a.next(), b.next());
    let mut z = Rng::from_clock(None);
    let mut w = Rng::new_seeded(2_147_483_646);
    assert_eq!(z.next(), w.next());
    let mut m = Rng::from_clock(Some(2_147_483_647));
    assert_eq!(m.next(), Rng::new_seeded(0).next());
}

#[test]
fn shuffle_permutes() {
    let mut r = Rng::new_seeded(12345);
    let mut a = [0, 1, 2, 3, 4, 5, 6];
    r.shuffle_array(&mut a);
    let mut sorted = a;
    sorted.sort();
    assert_eq!(sorted, [0, 1, 2, 3, 4, 5, 6]);
    // the shuffle follows the float formula of the generator
    let mut f = Rng::new_seeded(12345);
    let mut b = [0, 1, 2, 3, 4, 5, 6];
    let mut i = b.len() - 1;
    while i != 0 {
        let s = f.next();
        let k = (((s - 1) as f64 / 2_147_483_647.0) * (i as f64 + 1.0)).floor() as usize;
        b.swap(i, k);
        i -= 1;
    }
    assert_eq!(a, b);
    let mut empty: [u8; 0] = [];
    r.shuffle_array(&mut empty);
}

#[test]
fn buffer_operations() {
    let mut b = Buffer::<u32, 4>::new();
    assert!(b.is_empty());
    b.push(1);
    b.push(2);
    b.push(3);
    assert_eq!(b.len(), 3);
    assert_eq!(b.get(1), Some(&2));
    assert_eq!(b.get(3), None);
    assert_eq!(*b.index(2), 3);
    assert_eq!(b.remove(0), Some(1));
    assert_eq!(b.as_slice(), &[2, 3]);
    b.insert(1, 9);
    assert_eq!(b.as_slice(), &[2, 9, 3]);
    assert_eq!(b.pop(), Some(3));
    assert_eq!(b.remove(5), None);
    assert_eq!(b.len(), 2);
}

#[test]
fn history_keeps_last_fourteen() {
    let mut h = History::empty();
    assert_eq!(h.len(), 0);
    for i in 0..20u8 {
        h.push(Piece::from_u8(i % 7).unwrap());
    }
    assert_eq!(h.len(), 14);
}

#[test]
fn count_ones_counts_bits() {
    assert_eq!(count_ones(0), 0);
    assert_eq!(count_ones(u64::MAX), 64);
    assert_eq!(count_ones(0b1011_0001), 4);
}

#[test]
fn buffer_insert_then_remove_restores() {
    let mut b = Buffer::<u32, 8>::new();
    b.push(1);
    b.push(2);
    b.insert(1, 7);
    assert_eq!(b.get(1), Some(&7));
    assert_eq!(b.remove(1), Some(7));
    assert_eq!(b.as_slice(), &[1, 2]);
}

#[test]
fn buffers_of_pieces_compare_by_contents() {
    let mut a = Buffer::<Piece, 8>::new();
    let mut b = Buffer::<Piece, 8>::new();
    assert!(a.same_as(&b));
    a.push(Piece::T);
    assert!(!a.same_as(&b));
    b.push(Piece::T);
    assert!(a.same_as(&b));
    a.push(Piece::I);
    b.push(Piece::O);
    assert!(!a.same_as(&b));
}

#[test]
fn pieces_placed_since() {
    let mut h = History::empty();
    h.push(Piece::T);
    h.push(Piece::I);
    h.push(Piece::T);
    h.push(Piece::O);
    assert_eq!(h.placed_since(Piece::O), Some(0));
    assert_eq!(h.placed_since(Piece::T), Some(1));
    assert_eq!(h.placed_since(Piece::I), Some(2));
    assert_eq!(h.placed_since(Piece::S), None);
}
