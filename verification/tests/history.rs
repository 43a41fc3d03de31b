use gas_law_sim::history::{History, PID_HISTORY_LEN};

fn contents(h: &History<i32>) -> Vec<i32> {
    (0..h.len()).map(|i| *h.get(i)).collect()
}

#[test]
fn new_history_is_empty() {
    let h: History<i32> = History::new(3);
    assert_eq!(h.len(), 0);
}

#[test]
fn history_keeps_all_below_capacity() {
    let mut h = History::new(3);
    h.record(1);
    h.record(2);
    assert_eq!(contents(&h), vec![1, 2]);
}

#[test]
fn history_drops_oldest_beyond_capacity() {
    let mut h = History::new(3);
    for x in 1..=5 {
        h.record(x);
    }
    assert_eq!(contents(&h), vec![3, 4, 5]);
}

#[test]
fn history_with_zero_capacity_stays_empty() {
    let mut h = History::new(0);
    h.record(7);
    assert_eq!(h.len(), 0);
}

#[test]
fn pid_history_holds_the_last_hundred() {
    let mut h = History::new(PID_HISTORY_LEN);
    for x in 0..250 {
        h.record(x);
    }
    assert_eq!(h.len(), 100);
    assert_eq!(*h.get(0), 150);
    assert_eq!(*h.get(99), 249);
}
