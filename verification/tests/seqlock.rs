use power_monitor::seqlock::{accepts, at_rest, writing, written, SeqLock};

#[derive(Clone, Copy, Debug, PartialEq, Eq)]
struct Pod {
    a: u64,
    b: u64,
    c: u64,
    d: u64,
}

#[test]
fn round_trip_uncontended() {
    let mut lock = SeqLock::new(Pod { a: 1, b: 2, c: 3, d: 4 });
    assert_eq!(lock.load(), Pod { a: 1, b: 2, c: 3, d: 4 });
    lock.store(Pod { a: 10, b: 20, c: 30, d: 40 });
    assert_eq!(lock.load(), Pod { a: 10, b: 20, c: 30, d: 40 });
}

#[test]
fn a_read_across_a_write_is_dropped() {
    let before = 6;
    assert!(at_rest(before));
    assert!(!at_rest(writing(before)));
    assert!(accepts(before, before));
    assert!(!accepts(before, writing(before)));
    assert!(!accepts(before, written(before)));
    assert!(!accepts(writing(before), writing(before)));
}

#[test]
fn sequence_numbers_go_around() {
    assert_eq!(writing(u32::MAX - 1), u32::MAX);
    assert_eq!(written(u32::MAX - 1), 0);
    assert_eq!(writing(6), 7);
    assert_eq!(written(6), 8);
}
