use phonix::eval::tally;

#[test]
fn tallies_detections_and_false_positives() {
    let t = tally(&[1, 0, 3], &[0, 2, 1, 0]);
    assert_eq!(t.pos_detected, 2);
    assert_eq!(t.neg_fired, 2);
    assert_eq!(t.fp_events, 3);
    let e = tally(&[], &[]);
    assert_eq!((e.pos_detected, e.neg_fired, e.fp_events), (0, 0, 0));
}
