use phonix::PreRollRing;

#[test]
fn fills_then_evicts_oldest_in_order() {
    let mut r = PreRollRing::new(3);
    r.push(1.0);
    r.push(2.0);
    assert_eq!(r.snapshot(), vec![1.0, 2.0]);
    assert!(!r.is_full());
    r.push(3.0);
    assert!(r.is_full());
    assert_eq!(r.snapshot(), vec![1.0, 2.0, 3.0]);
    r.push(4.0); // evicts 1.0
    assert_eq!(r.snapshot(), vec![2.0, 3.0, 4.0]);
    assert_eq!(r.len(), 3);
}

#[test]
fn snapshot_is_non_destructive() {
    let mut r = PreRollRing::new(2);
    r.push(5.0);
    let a = r.snapshot();
    let b = r.snapshot();
    assert_eq!(a, b);
}

#[test]
fn zero_capacity_holds_one_sample() {
    let mut r: PreRollRing<i32> = PreRollRing::new(0);
    assert!(r.is_empty());
    r.push(7);
    r.push(8);
    assert_eq!(r.snapshot(), vec![8]);
    assert!(r.is_full());
}

#[test]
fn keeps_the_latest_after_many_wraps() {
    let mut r = PreRollRing::new(4);
    r.push_all(&(0..11).collect::<Vec<i32>>());
    assert_eq!(r.snapshot(), vec![7, 8, 9, 10]);
    assert_eq!(r.len(), 4);
    assert!(!r.is_empty());
}
