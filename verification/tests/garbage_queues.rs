use rue::game::garbage::GarbageQueue as SegmentQueue;
use rue::garbage::GarbageQueue;

fn queue(segs: &[u8]) -> GarbageQueue {
    let mut q = GarbageQueue::new();
    for (i, s) in segs.iter().enumerate() {
        q.segments[i] = *s;
    }
    q
}

#[test]
fn fixed_queue_total_stops_at_zero() {
    let q = queue(&[3, 4, 0, 9]);
    assert_eq!(q.total(), 7);
    assert_eq!(GarbageQueue::new().total(), 0);
    assert_eq!(GarbageQueue::default().total(), 0);
}

#[test]
fn fixed_queue_accept_appends() {
    let mut q = GarbageQueue::new();
    q.accept(3);
    q.accept(0);
    q.accept(5);
    assert_eq!(&q.segments[..3], &[3, 5, 0]);
    assert_eq!(q.total(), 8);
    q.accept_many(&[1, 2]);
    assert_eq!(&q.segments[..5], &[3, 5, 1, 2, 0]);
    // amounts keep their low eight bits
    let mut r = GarbageQueue::new();
    r.accept(258);
    assert_eq!(r.segments[0], 2);
}

#[test]
fn fixed_queue_remove_takes_from_front() {
    let mut q = queue(&[3, 4, 2]);
    assert_eq!(q.remove(5), 0);
    assert_eq!(&q.segments[..3], &[2, 2, 0]);
    assert_eq!(q.total(), 4);
    let mut q = queue(&[3, 4]);
    assert_eq!(q.remove(10), 3);
    assert_eq!(q.segments.iter().map(|&s| s as u32).sum::<u32>(), 0);
    // removing exactly the front segment moves the rest to the front
    let mut q = queue(&[3, 4]);
    assert_eq!(q.remove(3), 0);
    assert_eq!(&q.segments[..2], &[4, 0]);
    assert_eq!(q.total(), 4);
    let mut q = queue(&[3, 2]);
    assert_eq!(q.remove(3), 0);
    assert_eq!(q.total(), 2);
}

#[test]
fn fixed_queue_downshift_drops_leading_zeros() {
    let mut q = queue(&[0, 0, 5, 6]);
    q.downshift();
    assert_eq!(&q.segments[..4], &[5, 6, 0, 0]);
    let mut z = GarbageQueue::new();
    z.downshift();
    assert_eq!(z.segments, [0u8; 64]);
    // the last positions keep their values
    let mut full = GarbageQueue::new();
    for i in 1..64 {
        full.segments[i] = 1;
    }
    full.downshift();
    assert_eq!(full.segments[62], 1);
    assert_eq!(full.segments[63], 1);
}

#[test]
fn fixed_queue_split_takes_front() {
    let mut q = queue(&[3, 4, 2]);
    let front = q.split(5);
    assert_eq!(&front.segments[..3], &[3, 2, 0]);
    assert_eq!(front.total(), 5);
    assert_eq!(&q.segments[..3], &[2, 2, 0]);
    assert_eq!(q.total(), 4);
    let mut q = queue(&[3, 2]);
    let f = q.split(3);
    assert_eq!(f.total(), 3);
    assert_eq!(f.segments[0], 3);
    assert_eq!(q.total(), 2);
    assert_eq!(q.segments[0], 2);
    let mut q = queue(&[3, 4]);
    let all = q.split(100);
    assert_eq!(all.total(), 7);
    assert_eq!(q.segments.iter().map(|&s| s as u32).sum::<u32>(), 0);
    let mut q = queue(&[3]);
    let none = q.split(0);
    assert_eq!(none.total(), 0);
    assert_eq!(q.total(), 3);
}

#[test]
fn segment_queue_receive_caps_total() {
    let mut q = SegmentQueue::new();
    q.recieve(4, 10);
    q.recieve(3, 10);
    q.recieve(5, 10);
    assert_eq!(q.segments, vec![4, 3, 3]);
    assert_eq!(q.total(), 10);
    q.recieve(1, 10);
    assert_eq!(q.segments, vec![4, 3, 3]);
    q.recieve(0, 20);
    assert_eq!(q.segments.len(), 3);
    assert_eq!(SegmentQueue::default().total(), 0);
}

#[test]
fn segment_queue_tank_takes_oldest_first() {
    let mut q = SegmentQueue::new();
    q.recieve(4, 100);
    q.recieve(3, 100);
    q.recieve(5, 100);
    let sent = q.tank(6);
    assert_eq!(sent, vec![4, 2]);
    assert_eq!(q.segments, vec![1, 5]);
    assert_eq!(sent.iter().sum::<u32>() + q.total(), 12);
    let rest = q.tank(100);
    assert_eq!(rest, vec![1, 5]);
    assert!(q.segments.is_empty());
    let mut p = SegmentQueue::new();
    p.recieve(2, 100);
    p.recieve(3, 100);
    assert_eq!(p.tank(3), vec![2, 1]);
    assert_eq!(p.segments, vec![2]);
}

#[test]
fn full_queue_loses_exactly_what_is_taken() {
    let mut q = queue(&[1; 64]);
    assert_eq!(q.total(), 64);
    assert_eq!(q.remove(1), 0);
    assert_eq!(q.total(), 63);
    assert_eq!(q.segments[63], 0);
    assert_eq!(q.remove(2), 0);
    assert_eq!(q.total(), 61);
    let mut p = queue(&[1; 64]);
    let f = p.split(3);
    assert_eq!(f.total(), 3);
    assert_eq!(p.total(), 61);
    assert_eq!(f.total() + p.total(), 64);
    assert_eq!(p.segments[61..], [0, 0, 0]);
}
