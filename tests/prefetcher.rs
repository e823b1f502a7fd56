use trie_cache::prefetcher::{PrefetchConfig, Prefetcher, ScheduleOutcome, WantStep};
use trie_cache::staging::SlotStatus;

fn config(staging_limit: u64, max_wait_ms: u64) -> PrefetchConfig {
    PrefetchConfig { cache_capacity: 100, staging_limit, enabled: true, max_wait_ms }
}

fn value_of(step: WantStep) -> Vec<u8> {
    match step {
        WantStep::Value(v) => v,
        WantStep::Wait => panic!("asked to wait"),
        WantStep::ReadStore => panic!("asked to read the store"),
    }
}

#[test]
fn prefetched_value_is_served_and_cached() {
    let mut p = Prefetcher::new(0, false, config(50, 10));
    let t = match p.schedule(1, 3, 0) {
        ScheduleOutcome::Sent(t) => t,
        other => panic!("not sent: {:?}", other),
    };
    assert!(p.on_prefetch_result(t, Some(vec![4, 5, 6])));
    assert_eq!(value_of(p.want(1, 0)), vec![4, 5, 6]);
    assert_eq!(p.metrics().sent, 1);
    assert_eq!(p.metrics().hits, 1);
    assert_eq!(p.staging().slot_count(), 0);
    assert!(p.cache().contains(1));
    // The next read is an ordinary cache hit.
    assert_eq!(value_of(p.want(1, 0)), vec![4, 5, 6]);
    assert_eq!(p.metrics().hits, 1);
    assert_eq!(p.cache().metrics().hits, 1);
}

#[test]
fn schedule_is_a_no_op_when_cached_staged_or_disabled() {
    let mut p = Prefetcher::new(0, false, config(50, 10));
    p.want(1, 0);
    p.finish_read(1, vec![1]);
    assert_eq!(p.schedule(1, 1, 0), ScheduleOutcome::AlreadyCached);
    assert!(matches!(p.schedule(2, 1, 0), ScheduleOutcome::Sent(_)));
    assert_eq!(p.schedule(2, 1, 0), ScheduleOutcome::AlreadyStaged);
    assert_eq!(p.metrics().sent, 1);

    let mut off = Prefetcher::new(0, false, PrefetchConfig { enabled: false, ..config(50, 10) });
    assert_eq!(off.schedule(2, 1, 0), ScheduleOutcome::Disabled);
    assert_eq!(off.staging().slot_count(), 0);
    assert!(!off.is_enabled());
}

#[test]
fn budget_refusal_then_want_falls_back_to_store() {
    let mut p = Prefetcher::new(0, false, config(10, 10));
    assert!(matches!(p.schedule(1, 6, 0), ScheduleOutcome::Sent(_)));
    assert!(matches!(p.schedule(2, 4, 0), ScheduleOutcome::Sent(_)));
    assert_eq!(p.staging().staged_bytes(), 10);
    assert_eq!(p.schedule(3, 1, 0), ScheduleOutcome::MemoryLimitReached);
    assert_eq!(p.staging().staged_bytes(), 10);
    assert_eq!(p.staging().slot_count(), 2);
    assert_eq!(p.staging().status(3), SlotStatus::Absent);
    assert_eq!(p.metrics().memory_limit_reached, 1);
    assert!(matches!(p.want(3, 0), WantStep::ReadStore));
    assert_eq!(p.metrics().not_requested, 1);
    assert_eq!(p.finish_read(3, vec![3, 3]), vec![3, 3]);
    assert_eq!(value_of(p.want(3, 0)), vec![3, 3]);
}

#[test]
fn slow_prefetch_falls_back_after_bounded_wait() {
    let mut p = Prefetcher::new(0, false, config(10, 5));
    let t = match p.schedule(1, 2, 0) {
        ScheduleOutcome::Sent(t) => t,
        other => panic!("not sent: {:?}", other),
    };
    assert!(matches!(p.want(1, 0), WantStep::Wait));
    assert!(matches!(p.want(1, 4), WantStep::Wait));
    assert!(matches!(p.want(1, 5), WantStep::ReadStore));
    assert_eq!(p.metrics().pending, 3);
    assert_eq!(p.metrics().conflicts, 1);
    assert_eq!(p.finish_read(1, vec![1, 1]), vec![1, 1]);
    assert_eq!(p.staging().slot_count(), 0);
    assert_eq!(p.staging().staged_bytes(), 0);
    // The prefetch lands late: it is dropped and the cache is untouched.
    assert!(!p.on_prefetch_result(t, Some(vec![1, 1])));
    assert_eq!(p.staging().late_results(), 1);
    assert_eq!(p.staging().slot_count(), 0);
    assert_eq!(p.cache().len(), 1);
    assert_eq!(p.cache().total_bytes(), 2);
    assert_eq!(value_of(p.want(1, 0)), vec![1, 1]);
}

#[test]
fn landed_prefetch_wins_over_synchronous_read() {
    let mut p = Prefetcher::new(0, false, config(10, 0));
    let t = match p.schedule(1, 2, 0) {
        ScheduleOutcome::Sent(t) => t,
        other => panic!("not sent: {:?}", other),
    };
    assert!(matches!(p.want(1, 0), WantStep::ReadStore));
    assert!(p.on_prefetch_result(t, Some(vec![7, 7])));
    assert_eq!(p.finish_read(1, vec![7, 7]), vec![7, 7]);
    assert_eq!(p.metrics().retries, 1);
    assert_eq!(p.staging().slot_count(), 0);
    assert_eq!(p.cache().len(), 1);
}

#[test]
fn failed_prefetch_is_treated_as_not_prefetched() {
    let mut p = Prefetcher::new(0, false, config(10, 5));
    let t = match p.schedule(1, 2, 0) {
        ScheduleOutcome::Sent(t) => t,
        other => panic!("not sent: {:?}", other),
    };
    assert!(p.on_prefetch_result(t, None));
    assert_eq!(p.metrics().fails, 1);
    assert_eq!(p.staging().staged_bytes(), 0);
    assert!(matches!(p.want(1, 0), WantStep::ReadStore));
    assert_eq!(p.metrics().not_requested, 1);
    assert_eq!(p.staging().slot_count(), 0);
    assert_eq!(p.finish_read(1, vec![2]), vec![2]);
    assert!(p.cache().contains(1));
}

#[test]
fn unstaged_read_goes_to_store_and_is_cached() {
    let mut p = Prefetcher::new(4, true, config(10, 5));
    assert!(matches!(p.want(9, 0), WantStep::ReadStore));
    assert_eq!(p.cache().metrics().misses, 1);
    assert_eq!(p.finish_read(9, vec![5, 5, 5]), vec![5, 5, 5]);
    assert_eq!(p.cache().total_bytes(), 3);
    assert_eq!(p.cache().shard_id(), 4);
    assert!(p.cache().is_view());
    assert_eq!(p.max_wait_ms(), 5);
}
