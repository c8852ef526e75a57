use asciibrot::sampler::StepRange;

#[test]
fn forward_walk_restarts_after_exhaustion() {
    let mut sr = StepRange::new(0, 10, 3);
    assert_eq!(sr.next(), Some(0));
    assert_eq!(sr.next(), Some(3));
    assert_eq!(sr.next(), Some(6));
    assert_eq!(sr.next(), Some(9));
    assert_eq!(sr.next(), None);
    // the same instance walks again from scratch
    assert_eq!(sr.next(), Some(0));
    assert_eq!(sr.next(), Some(3));
    assert_eq!(sr.next(), Some(6));
    assert_eq!(sr.next(), Some(9));
    assert_eq!(sr.next(), None);
}

#[test]
fn reverse_walk_descends_from_upper_bound() {
    let mut sr = StepRange::new(0, 10, 3);
    assert_eq!(sr.next_back(), Some(10));
    assert_eq!(sr.next_back(), Some(7));
    assert_eq!(sr.next_back(), Some(4));
    assert_eq!(sr.next_back(), Some(1));
    assert_eq!(sr.next_back(), None);
    // restarts identically
    assert_eq!(sr.next_back(), Some(10));
}

#[test]
fn reverse_walk_is_not_the_mirror_of_forward() {
    // the interval length is not a multiple of the step: the reverse walk
    // descends from the upper bound independently, an accepted asymmetry
    let mut fwd = StepRange::new(0, 10, 3);
    let mut rev = StepRange::new(0, 10, 3);
    let forward = fwd.collect_forward();
    let mut mirrored = rev.collect_reverse();
    mirrored.reverse();
    assert_eq!(forward, vec![0, 3, 6, 9]);
    assert_eq!(mirrored, vec![1, 4, 7, 10]);
    assert_ne!(forward, mirrored);
}

#[test]
fn collect_restores_bounds_for_reuse() {
    let mut sr = StepRange::new(-4, 4, 2);
    assert_eq!(sr.collect_forward(), vec![-4, -2, 0, 2]);
    assert_eq!(sr.collect_forward(), vec![-4, -2, 0, 2]);
    assert_eq!(sr.collect_reverse(), vec![4, 2, 0, -2]);
    assert_eq!(sr.collect_forward(), vec![-4, -2, 0, 2]);
}

#[test]
fn empty_interval_yields_nothing() {
    let mut sr = StepRange::new(5, 5, 1);
    assert_eq!(sr.next(), None);
    assert_eq!(sr.collect_forward(), Vec::<i64>::new());
    let mut back = StepRange::new(7, 3, 2);
    assert_eq!(back.next_back(), None);
}
