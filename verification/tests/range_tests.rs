use peerfs::RangeVec;

#[test]
fn basic() {
    let mut vec = RangeVec::new();

    vec.push(3, 7);
    assert_eq!(vec.get_ranges(), &[(3, 7)]);

    vec.push(8, 13);
    assert_eq!(vec.get_ranges(), &[(3, 7), (8, 13)]);

    vec.push(3, 5);
    assert_eq!(vec.get_ranges(), &[(3, 7), (8, 13)]);

    vec.push(13, 20);
    assert_eq!(vec.get_ranges(), &[(3, 7), (8, 20)]);

    vec.push(0, 100);
    assert_eq!(vec.get_ranges(), &[(0, 100)]);

    vec.push(100, 101);
    assert_eq!(vec.get_ranges(), &[(0, 101)]);

    vec.push(-1, 0);
    assert_eq!(vec.get_ranges(), &[(-1, 101)]);

    vec.push(-10, -2);
    assert_eq!(vec.get_ranges(), &[(-10, -2), (-1, 101)]);

    vec.push(10, 50);
    assert_eq!(vec.get_ranges(), &[(-10, -2), (-1, 101)]);

    vec.push(-5, 50);
    assert_eq!(vec.get_ranges(), &[(-10, 101)]);
}

#[test]
fn contains_matches_membership_at_boundaries() {
    let mut vec = RangeVec::new();
    vec.push(3, 7);
    vec.push(8, 13);

    assert!(!vec.contains(2));
    assert!(vec.contains(3));
    assert!(vec.contains(6));
    assert!(!vec.contains(7));
    assert!(vec.contains(8));
    assert!(vec.contains(12));
    assert!(!vec.contains(13));
    assert!(!vec.contains(i64::MIN));
    assert!(!vec.contains(i64::MAX));
}

#[test]
fn push_merges_touching_intervals() {
    let mut vec = RangeVec::new();
    vec.push(3, 7);
    vec.push(8, 13);
    vec.push(13, 20);
    assert_eq!(vec.get_ranges(), &[(3, 7), (8, 20)]);
    vec.push(0, 100);
    assert_eq!(vec.get_ranges(), &[(0, 100)]);
}

#[test]
fn push_extends_an_exact_match() {
    let mut vec = RangeVec::new();
    vec.push(5, 10);
    vec.push(5, 8);
    assert_eq!(vec.get_ranges(), &[(5, 10)]);
    vec.push(5, 12);
    assert_eq!(vec.get_ranges(), &[(5, 12)]);
}

#[test]
fn len_and_get_pair_walk_the_intervals() {
    let mut vec = RangeVec::new();
    vec.push(1, 2);
    vec.push(4, 6);
    assert_eq!(vec.len(), 2);
    assert_eq!(vec.get_pair(0), (1, 2));
    assert_eq!(vec.get_pair(1), (4, 6));
}

#[test]
fn from_raw_accepts_only_well_formed_lists() {
    assert!(RangeVec::from_raw(vec![(1, 3), (5, 7)]).is_some());
    assert!(RangeVec::from_raw(vec![]).is_some());
    // empty interval
    assert!(RangeVec::from_raw(vec![(3, 3)]).is_none());
    // reversed interval
    assert!(RangeVec::from_raw(vec![(5, 2)]).is_none());
    // adjacent intervals must have been merged
    assert!(RangeVec::from_raw(vec![(1, 3), (3, 5)]).is_none());
    // out of order
    assert!(RangeVec::from_raw(vec![(5, 7), (1, 3)]).is_none());

    let vec = RangeVec::from_raw(vec![(1, 3), (5, 7)]).unwrap();
    assert_eq!(vec.get_ranges(), &[(1, 3), (5, 7)]);
}

#[test]
fn push_handles_extreme_values() {
    let mut vec = RangeVec::new();
    vec.push(i64::MAX - 1, i64::MAX);
    vec.push(i64::MIN, i64::MIN + 1);
    assert_eq!(vec.get_ranges(), &[(i64::MIN, i64::MIN + 1), (i64::MAX - 1, i64::MAX)]);
    assert!(vec.contains(i64::MIN));
    assert!(!vec.contains(i64::MIN + 1));
    assert!(vec.contains(i64::MAX - 1));
    assert!(!vec.contains(i64::MAX));
}
