use trie_cache::staging::{ReserveError, SlotStatus, StagingArea, Taken, Ticket};

#[test]
fn reserve_within_budget_issues_ticket() {
    let mut s = StagingArea::new(10);
    let t = s.reserve(5, 4, 100).unwrap();
    assert_eq!(t, Ticket { key: 5, id: 0 });
    assert_eq!(s.staged_bytes(), 4);
    assert_eq!(s.slot_count(), 1);
    assert_eq!(s.status(5), SlotStatus::Requested);
    let t2 = s.reserve(6, 6, 101).unwrap();
    assert_eq!(t2.id, 1);
    assert_eq!(s.staged_bytes(), 10);
}

#[test]
fn reserve_over_budget_is_refused_without_change() {
    let mut s = StagingArea::new(10);
    s.reserve(1, 8, 0).unwrap();
    assert_eq!(s.reserve(2, 3, 0), Err(ReserveError::MemoryLimitReached));
    assert_eq!(s.staged_bytes(), 8);
    assert_eq!(s.slot_count(), 1);
    assert_eq!(s.status(2), SlotStatus::Absent);
}

#[test]
fn reserve_of_staged_key_is_refused() {
    let mut s = StagingArea::new(10);
    s.reserve(1, 2, 0).unwrap();
    assert_eq!(s.reserve(1, 2, 0), Err(ReserveError::AlreadyStaged));
    assert_eq!(s.staged_bytes(), 2);
}

#[test]
fn complete_makes_slot_ready_with_real_size() {
    let mut s = StagingArea::new(10);
    let t = s.reserve(1, 2, 0).unwrap();
    assert!(s.complete(t, vec![1, 2, 3, 4, 5]));
    assert_eq!(s.status(1), SlotStatus::Ready);
    assert_eq!(s.staged_bytes(), 5);
    match s.take(1) {
        Taken::Ready(v) => assert_eq!(v, vec![1, 2, 3, 4, 5]),
        _ => panic!("expected a ready value"),
    }
    assert_eq!(s.slot_count(), 0);
    assert_eq!(s.staged_bytes(), 0);
}

#[test]
fn complete_over_budget_keeps_the_slot() {
    let mut s = StagingArea::new(4);
    let t = s.reserve(1, 4, 0).unwrap();
    assert!(s.complete(t, vec![0; 9]));
    assert_eq!(s.staged_bytes(), 9);
    assert_eq!(s.status(1), SlotStatus::Ready);
    assert_eq!(s.reserve(2, 0, 0), Err(ReserveError::MemoryLimitReached));
}

#[test]
fn take_of_pending_slot_leaves_it() {
    let mut s = StagingArea::new(10);
    s.reserve(1, 2, 0).unwrap();
    assert!(matches!(s.take(1), Taken::Pending));
    assert_eq!(s.status(1), SlotStatus::Requested);
    assert!(matches!(s.take(2), Taken::Absent));
}

#[test]
fn failed_slot_frees_budget_and_is_dropped_on_take() {
    let mut s = StagingArea::new(10);
    let t = s.reserve(1, 6, 0).unwrap();
    assert!(s.fail(t));
    assert_eq!(s.status(1), SlotStatus::Failed);
    assert_eq!(s.staged_bytes(), 0);
    assert!(matches!(s.take(1), Taken::Absent));
    assert_eq!(s.status(1), SlotStatus::Absent);
}

#[test]
fn late_result_after_discard_is_dropped() {
    let mut s = StagingArea::new(10);
    let t = s.reserve(1, 3, 0).unwrap();
    assert!(s.discard(1));
    assert_eq!(s.staged_bytes(), 0);
    assert!(!s.complete(t, vec![1]));
    assert_eq!(s.late_results(), 1);
    assert_eq!(s.slot_count(), 0);
    assert!(!s.discard(1));
}

#[test]
fn stale_ticket_does_not_land_in_a_new_slot() {
    let mut s = StagingArea::new(10);
    let old = s.reserve(1, 3, 0).unwrap();
    s.discard(1);
    let new = s.reserve(1, 3, 5).unwrap();
    assert_ne!(old, new);
    assert!(!s.complete(old, vec![7]));
    assert_eq!(s.status(1), SlotStatus::Requested);
    assert!(!s.fail(old));
    assert!(s.complete(new, vec![8]));
    assert_eq!(s.byte_limit(), 10);
}
