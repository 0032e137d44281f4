use mesh::mac::duty_cycle::{AirtimeLedger, WINDOW_NANOS};

const SEC: u64 = 1_000_000_000;

#[test]
fn budget_counts_recorded_airtime() {
    // 1 % of an hour: 36 s.
    let budget = 36 * SEC;
    let mut l = AirtimeLedger::new();
    assert!(l.can_send(0, 36 * SEC, budget));
    assert!(!l.can_send(0, 36 * SEC + 1, budget));
    l.record_tx(10 * SEC, 30 * SEC);
    assert_eq!(l.used_airtime(), (30 * SEC) as u128);
    assert!(l.can_send(20 * SEC, 6 * SEC, budget));
    assert!(!l.can_send(20 * SEC, 6 * SEC + 1, budget));
}

#[test]
fn old_entries_leave_the_window() {
    let budget = 36 * SEC;
    let mut l = AirtimeLedger::new();
    l.record_tx(SEC, 30 * SEC);
    l.record_tx(2 * SEC, 5 * SEC);
    // Still inside the window an hour later, to the nanosecond.
    assert!(!l.can_send(WINDOW_NANOS + SEC, 2 * SEC, budget));
    assert_eq!(l.used_airtime(), (35 * SEC) as u128);
    // The first entry has left the window.
    assert!(l.can_send(WINDOW_NANOS + SEC + 1, 31 * SEC, budget));
    assert_eq!(l.used_airtime(), (5 * SEC) as u128);
    l.evict_stale(WINDOW_NANOS + 3 * SEC);
    assert_eq!(l.used_airtime(), 0);
}

#[test]
fn zero_budget_allows_only_nothing() {
    let mut l = AirtimeLedger::new();
    assert!(l.can_send(5, 0, 0));
    assert!(!l.can_send(5, 1, 0));
}
