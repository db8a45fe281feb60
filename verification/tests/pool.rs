use netlabs::pool::Pool;

#[test]
fn slots_are_limited() {
    let mut p = Pool::new(2);
    assert_eq!(p.concurrency(), 2);
    assert!(p.take());
    assert!(p.take());
    assert!(!p.take());
    assert_eq!(p.in_use(), 2);
    p.release();
    assert_eq!(p.in_use(), 1);
    assert!(p.take());
}

#[test]
fn take_then_release_restores() {
    let mut p = Pool::new(5);
    assert!(p.take());
    p.release();
    assert_eq!(p.in_use(), 0);
    let mut empty = Pool::new(0);
    assert!(!empty.take());
}

#[test]
fn never_more_than_concurrency_in_use() {
    let mut p = Pool::new(3);
    for _ in 0..10 {
        p.take();
        assert!(p.in_use() <= p.concurrency());
    }
    assert_eq!(p.in_use(), 3);
    p.release();
    p.release();
    assert_eq!(p.in_use(), 1);
    assert!(p.take());
    assert_eq!(p.in_use(), 2);
}
