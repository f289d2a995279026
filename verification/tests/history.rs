use sysmon::history::History;

#[test]
fn starts_full_of_zeros() {
    let h: History<f64> = History::new(3);
    assert_eq!(h.iter().copied().collect::<Vec<_>>(), vec![0.0, 0.0, 0.0]);
    assert_eq!(h.last(), 0.0);
}

#[test]
fn push_evicts_oldest_and_keeps_capacity() {
    let mut h = History::new(3);
    h.push(1.0);
    h.push(2.0);
    h.push(3.0);
    // window is now [1,2,3]
    assert_eq!(h.iter().copied().collect::<Vec<_>>(), vec![1.0, 2.0, 3.0]);

    h.push(4.0); // evicts the 1.0
    assert_eq!(h.iter().copied().collect::<Vec<_>>(), vec![2.0, 3.0, 4.0]);
    assert_eq!(h.last(), 4.0);
}

#[test]
fn last_reflects_most_recent_push() {
    let mut h = History::new(2);
    h.push(42.0);
    assert_eq!(h.last(), 42.0);
}

#[test]
fn length_stays_at_capacity() {
    let mut h: History<u64> = History::new(5);
    for i in 0..100 {
        h.push(i);
        assert_eq!(h.iter().count(), 5);
        assert_eq!(h.last(), i);
    }
    assert_eq!(h.iter().copied().collect::<Vec<_>>(), vec![95, 96, 97, 98, 99]);
}

#[test]
fn zero_capacity_stays_empty() {
    let mut h: History<u64> = History::new(0);
    assert_eq!(h.last(), 0);
    h.push(7);
    h.push(8);
    assert_eq!(h.iter().count(), 0);
    assert_eq!(h.last(), 0);
}
