//! The prefetcher: schedules speculative reads into the staging area and
//! serves an execution thread's reads from the cache, the staging area or a
//! synchronous read of the store, in that order. The store itself is outside
//! the library: callers perform the reads that the returned steps ask for and
//! hand their results back.
use vstd::prelude::*;

use crate::shard_cache::{
    bump, copy_bytes, eviction_bytes, eviction_count, has_key, inserted, keys_distinct,
    lemma_get_after_put, lookup, refreshed, CacheMetrics, Entries, ShardCache,
};
use crate::staging::{
    after_take, awaits, completed, failed, has_slot, lemma_slot_remove, ready_value,
    requested_slot, sizes_match, slot_keys_distinct, slot_pos, slots_size, status_of, without_slot,
    ReserveError, SlotStatus, Slots, StagingArea, Taken, Ticket,
};

verus! {

/// Settings of one prefetcher.
#[derive(Clone, Copy, Debug, PartialEq, Eq, Structural)]
pub struct PrefetchConfig {
    /// Byte capacity of the shard cache.
    pub cache_capacity: u64,
    /// Byte budget of the staging area.
    pub staging_limit: u64,
    /// Whether speculative reads are scheduled at all.
    pub enabled: bool,
    /// How long, in milliseconds, a read waits on a prefetch in flight
    /// before it reads the store itself.
    pub max_wait_ms: u64,
}

/// Counters of one prefetcher. Each saturates at `u64::MAX`.
#[derive(Clone, Copy, Debug, PartialEq, Eq, Structural)]
pub struct PrefetchMetrics {
    /// Speculative reads dispatched.
    pub sent: u64,
    /// Reads served from a ready staging slot.
    pub hits: u64,
    /// Reads that found their prefetch still in flight.
    pub pending: u64,
    /// Speculative reads that failed.
    pub fails: u64,
    /// Reads of a key that had no usable staging slot.
    pub not_requested: u64,
    /// Speculative reads not dispatched for want of staging budget.
    pub memory_limit_reached: u64,
    /// Reads that gave up waiting and read the store while a prefetch of the
    /// same key was in flight.
    pub conflicts: u64,
    /// Synchronous reads that found on completion that the prefetch had
    /// landed, and took its value.
    pub retries: u64,
}

impl PrefetchMetrics {
    pub open spec fn zero() -> PrefetchMetrics {
        PrefetchMetrics {
            sent: 0,
            hits: 0,
            pending: 0,
            fails: 0,
            not_requested: 0,
            memory_limit_reached: 0,
            conflicts: 0,
            retries: 0,
        }
    }

    pub fn new() -> (r: PrefetchMetrics)
        ensures
            r == PrefetchMetrics::zero(),
    {
        PrefetchMetrics {
            sent: 0,
            hits: 0,
            pending: 0,
            fails: 0,
            not_requested: 0,
            memory_limit_reached: 0,
            conflicts: 0,
            retries: 0,
        }
    }

    pub open spec fn after_schedule(self, r: ScheduleOutcome) -> PrefetchMetrics {
        match r {
            ScheduleOutcome::Sent(_) => PrefetchMetrics { sent: bump(self.sent, 1), ..self },
            ScheduleOutcome::MemoryLimitReached => PrefetchMetrics {
                memory_limit_reached: bump(self.memory_limit_reached, 1),
                ..self
            },
            _ => self,
        }
    }

    /// Counters after a read that missed the cache and found the key's slot
    /// in state `status`; `gave_up` tells whether the wait was over.
    pub open spec fn after_want(self, cached: bool, status: SlotStatus, gave_up: bool) -> PrefetchMetrics {
        if cached {
            self
        } else {
            match status {
                SlotStatus::Ready => PrefetchMetrics { hits: bump(self.hits, 1), ..self },
                SlotStatus::Requested => if gave_up {
                    PrefetchMetrics {
                        pending: bump(self.pending, 1),
                        conflicts: bump(self.conflicts, 1),
                        ..self
                    }
                } else {
                    PrefetchMetrics { pending: bump(self.pending, 1), ..self }
                },
                _ => PrefetchMetrics { not_requested: bump(self.not_requested, 1), ..self },
            }
        }
    }
}

/// What `schedule` did.
#[derive(Clone, Copy, Debug, PartialEq, Eq, Structural)]
pub enum ScheduleOutcome {
    /// A slot was reserved: the caller dispatches the read and hands its
    /// result back with this ticket.
    Sent(Ticket),
    /// Prefetching is switched off.
    Disabled,
    /// The key is cached already.
    AlreadyCached,
    /// The key has a staging slot already.
    AlreadyStaged,
    /// The staging budget has no room for the read; it is dropped.
    MemoryLimitReached,
}

/// What an execution thread is to do next for the key it wants.
pub enum WantStep {
    /// The value, from the cache or from a ready prefetch.
    Value(Vec<u8>),
    /// A prefetch is in flight: wait a little and ask again.
    Wait,
    /// Read the store and hand the value to `finish_read`.
    ReadStore,
}

/// The view of a `WantStep`.
pub enum StepView {
    Value(Seq<u8>),
    Wait,
    ReadStore,
}

pub open spec fn step_view(s: WantStep) -> StepView {
    match s {
        WantStep::Value(v) => StepView::Value(v@),
        WantStep::Wait => StepView::Wait,
        WantStep::ReadStore => StepView::ReadStore,
    }
}

/// The outcome of scheduling a read of `key` estimated at `estimate` bytes.
pub open spec fn schedule_result(
    enabled: bool,
    cache: Entries,
    slots: Slots,
    limit: nat,
    next: u64,
    key: u64,
    estimate: nat,
) -> ScheduleOutcome {
    if !enabled {
        ScheduleOutcome::Disabled
    } else if has_key(cache, key) {
        ScheduleOutcome::AlreadyCached
    } else if status_of(slots, key) != SlotStatus::Absent {
        ScheduleOutcome::AlreadyStaged
    } else if slots_size(slots) + estimate > limit {
        ScheduleOutcome::MemoryLimitReached
    } else {
        ScheduleOutcome::Sent(Ticket { key, id: next })
    }
}

/// The slots after a schedule that ended in `r`.
pub open spec fn scheduled_slots(
    slots: Slots,
    r: ScheduleOutcome,
    key: u64,
    estimate: nat,
    now: u64,
) -> Slots {
    match r {
        ScheduleOutcome::Sent(t) => slots.push(requested_slot(key, t.id, estimate, now)),
        _ => slots,
    }
}

/// Whether a read that has waited `waited` milliseconds on a prefetch in
/// flight stops waiting.
pub open spec fn waited_out(waited: nat, max_wait: nat) -> bool {
    waited >= max_wait
}

/// The step that a read of `key` takes.
pub open spec fn want_view(
    cache: Entries,
    slots: Slots,
    key: u64,
    waited: nat,
    max_wait: nat,
) -> StepView {
    if has_key(cache, key) {
        StepView::Value(lookup(cache, key).unwrap())
    } else {
        match ready_value(slots, key) {
            Some(v) => StepView::Value(v),
            None => if status_of(slots, key) == SlotStatus::Requested && !waited_out(
                waited,
                max_wait,
            ) {
                StepView::Wait
            } else {
                StepView::ReadStore
            },
        }
    }
}

/// The cache after a read of `key`.
pub open spec fn want_cache(cache: Entries, capacity: nat, slots: Slots, key: u64) -> Entries {
    if has_key(cache, key) {
        refreshed(cache, key)
    } else {
        match ready_value(slots, key) {
            Some(v) => inserted(cache, capacity, key, v),
            None => cache,
        }
    }
}

/// The slots after a read of `key`.
pub open spec fn want_slots(cache: Entries, slots: Slots, key: u64) -> Slots {
    if has_key(cache, key) {
        slots
    } else {
        after_take(slots, key)
    }
}

/// The value that a synchronous read of `key` that brought `v` settles on:
/// a prefetched value that landed meanwhile wins.
pub open spec fn settled_value(slots: Slots, key: u64, v: Seq<u8>) -> Seq<u8> {
    match ready_value(slots, key) {
        Some(w) => w,
        None => v,
    }
}

/// The cache's counters after a read of `key`.
pub open spec fn want_cache_metrics(
    m: CacheMetrics,
    cache: Entries,
    capacity: nat,
    slots: Slots,
    key: u64,
) -> CacheMetrics {
    if has_key(cache, key) {
        m.after_get(true)
    } else {
        match ready_value(slots, key) {
            Some(v) => m.after_get(false).after_put(
                v.len() > capacity,
                eviction_count(cache, capacity, key, v),
                eviction_bytes(cache, capacity, key, v),
            ),
            None => m.after_get(false),
        }
    }
}

/// The cache's counters after `(key, v)` is put.
pub open spec fn put_metrics(m: CacheMetrics, cache: Entries, capacity: nat, key: u64, v: Seq<u8>) -> CacheMetrics {
    m.after_put(
        v.len() > capacity,
        eviction_count(cache, capacity, key, v),
        eviction_bytes(cache, capacity, key, v),
    )
}

/// Whether `b` is the staging area `a` with the same budget, ticket
/// numbering and count of late results.
pub open spec fn same_staging_setup(a: StagingArea, b: StagingArea) -> bool {
    &&& a.spec_limit() == b.spec_limit()
    &&& a.spec_next_ticket() == b.spec_next_ticket()
    &&& a.spec_late_results() == b.spec_late_results()
}

/// The cache of one `(shard, is_view)` pair together with the staging area
/// that speculative reads fill.
pub struct Prefetcher {
    cache: ShardCache,
    staging: StagingArea,
    enabled: bool,
    max_wait_ms: u64,
    metrics: PrefetchMetrics,
}

impl Prefetcher {
    pub closed spec fn wf(&self) -> bool {
        self.cache.wf() && self.staging.wf()
    }

    pub closed spec fn spec_cache(&self) -> ShardCache {
        self.cache
    }

    pub closed spec fn spec_staging(&self) -> StagingArea {
        self.staging
    }

    pub closed spec fn spec_enabled(&self) -> bool {
        self.enabled
    }

    pub closed spec fn spec_max_wait(&self) -> nat {
        self.max_wait_ms as nat
    }

    pub closed spec fn spec_metrics(&self) -> PrefetchMetrics {
        self.metrics
    }

    pub proof fn lemma_wf(&self)
        requires
            self.wf(),
        ensures
            self.spec_cache().wf(),
            self.spec_staging().wf(),
    {
    }

    pub fn new(shard_id: u64, is_view: bool, config: PrefetchConfig) -> (r: Prefetcher)
        ensures
            r.wf(),
            r.spec_cache()@ == Seq::<(u64, Seq<u8>)>::empty(),
            r.spec_cache().spec_capacity() == config.cache_capacity,
            r.spec_cache().spec_shard_id() == shard_id,
            r.spec_cache().spec_is_view() == is_view,
            r.spec_cache().spec_metrics() == CacheMetrics::zero(),
            r.spec_staging()@ == Seq::<crate::staging::SlotModel>::empty(),
            r.spec_staging().spec_limit() == config.staging_limit,
            r.spec_staging().spec_next_ticket() == 0,
            r.spec_staging().spec_late_results() == 0,
            r.spec_enabled() == config.enabled,
            r.spec_max_wait() == config.max_wait_ms,
            r.spec_metrics() == PrefetchMetrics::zero(),
    {
        Prefetcher {
            cache: ShardCache::new(shard_id, is_view, config.cache_capacity),
            staging: StagingArea::new(config.staging_limit),
            enabled: config.enabled,
            max_wait_ms: config.max_wait_ms,
            metrics: PrefetchMetrics::new(),
        }
    }

    pub fn cache(&self) -> (r: &ShardCache)
        ensures
            *r == self.spec_cache(),
    {
        &self.cache
    }

    pub fn staging(&self) -> (r: &StagingArea)
        ensures
            *r == self.spec_staging(),
    {
        &self.staging
    }

    pub fn metrics(&self) -> (r: PrefetchMetrics)
        ensures
            r == self.spec_metrics(),
    {
        self.metrics
    }

    pub fn is_enabled(&self) -> (r: bool)
        ensures
            r == self.spec_enabled(),
    {
        self.enabled
    }

    pub fn max_wait_ms(&self) -> (r: u64)
        ensures
            r == self.spec_max_wait(),
    {
        self.max_wait_ms
    }

    /// Schedules a speculative read of `key`, expected to bring `estimate`
    /// bytes, at time `now`. Nothing happens when prefetching is off, when
    /// the key is cached or staged already, or when the staging budget has
    /// no room; this never blocks.
    pub fn schedule(&mut self, key: u64, estimate: u64, now: u64) -> (r: ScheduleOutcome)
        requires
            old(self).wf(),
        ensures
            final(self).wf(),
            r == schedule_result(
                old(self).spec_enabled(),
                old(self).spec_cache()@,
                old(self).spec_staging()@,
                old(self).spec_staging().spec_limit(),
                old(self).spec_staging().spec_next_ticket(),
                key,
                estimate as nat,
            ),
            final(self).spec_staging()@ == scheduled_slots(
                old(self).spec_staging()@,
                r,
                key,
                estimate as nat,
                now,
            ),
            final(self).spec_staging().spec_limit() == old(self).spec_staging().spec_limit(),
            final(self).spec_staging().spec_late_results() == old(
                self,
            ).spec_staging().spec_late_results(),
            r is Sent ==> final(self).spec_staging().spec_next_ticket() == crate::staging::next_id(
                old(self).spec_staging().spec_next_ticket(),
            ),
            !(r is Sent) ==> final(self).spec_staging().spec_next_ticket() == old(
                self,
            ).spec_staging().spec_next_ticket(),
            final(self).spec_cache() == old(self).spec_cache(),
            final(self).spec_enabled() == old(self).spec_enabled(),
            final(self).spec_max_wait() == old(self).spec_max_wait(),
            final(self).spec_metrics() == old(self).spec_metrics().after_schedule(r),
    {
        if !self.enabled {
            return ScheduleOutcome::Disabled;
        }
        if self.cache.contains(key) {
            return ScheduleOutcome::AlreadyCached;
        }
        match self.staging.reserve(key, estimate, now) {
            Ok(t) => {
                self.metrics.sent = self.metrics.sent.saturating_add(1);
                ScheduleOutcome::Sent(t)
            },
            Err(ReserveError::AlreadyStaged) => ScheduleOutcome::AlreadyStaged,
            Err(ReserveError::MemoryLimitReached) => {
                self.metrics.memory_limit_reached = self.metrics.memory_limit_reached.saturating_add(
                    1,
                );
                ScheduleOutcome::MemoryLimitReached
            },
        }
    }

    /// Serves a read of `key` by an execution thread that has waited
    /// `waited_ms` milliseconds on it so far: from the cache; else from a
    /// ready prefetch, which is consumed and put into the cache; else, while
    /// a prefetch is in flight and the wait is not over, by asking the
    /// caller to wait; else by asking the caller to read the store.
    pub fn want(&mut self, key: u64, waited_ms: u64) -> (r: WantStep)
        requires
            old(self).wf(),
        ensures
            final(self).wf(),
            step_view(r) == want_view(
                old(self).spec_cache()@,
                old(self).spec_staging()@,
                key,
                waited_ms as nat,
                old(self).spec_max_wait(),
            ),
            final(self).spec_cache()@ == want_cache(
                old(self).spec_cache()@,
                old(self).spec_cache().spec_capacity(),
                old(self).spec_staging()@,
                key,
            ),
            final(self).spec_cache().same_instance(&old(self).spec_cache()),
            final(self).spec_cache().spec_metrics() == want_cache_metrics(
                old(self).spec_cache().spec_metrics(),
                old(self).spec_cache()@,
                old(self).spec_cache().spec_capacity(),
                old(self).spec_staging()@,
                key,
            ),
            final(self).spec_staging()@ == want_slots(
                old(self).spec_cache()@,
                old(self).spec_staging()@,
                key,
            ),
            same_staging_setup(final(self).spec_staging(), old(self).spec_staging()),
            final(self).spec_enabled() == old(self).spec_enabled(),
            final(self).spec_max_wait() == old(self).spec_max_wait(),
            final(self).spec_metrics() == old(self).spec_metrics().after_want(
                has_key(old(self).spec_cache()@, key),
                status_of(old(self).spec_staging()@, key),
                waited_out(waited_ms as nat, old(self).spec_max_wait()),
            ),
    {
        match self.cache.get(key) {
            Some(v) => {
                return WantStep::Value(v);
            },
            None => {},
        }
        match self.staging.take(key) {
            Taken::Ready(v) => {
                self.metrics.hits = self.metrics.hits.saturating_add(1);
                let c = copy_bytes(&v);
                self.cache.put(key, c);
                WantStep::Value(v)
            },
            Taken::Pending => {
                self.metrics.pending = self.metrics.pending.saturating_add(1);
                if waited_ms < self.max_wait_ms {
                    WantStep::Wait
                } else {
                    self.metrics.conflicts = self.metrics.conflicts.saturating_add(1);
                    WantStep::ReadStore
                }
            },
            Taken::Absent => {
                self.metrics.not_requested = self.metrics.not_requested.saturating_add(1);
                WantStep::ReadStore
            },
        }
    }

    /// Completes a synchronous read of `key` that brought `value` and returns
    /// the value to use. A prefetch that landed meanwhile wins and is
    /// consumed; one still in flight is discarded, so that its late result is
    /// dropped. The value used is put into the cache.
    pub fn finish_read(&mut self, key: u64, value: Vec<u8>) -> (r: Vec<u8>)
        requires
            old(self).wf(),
        ensures
            final(self).wf(),
            r@ == settled_value(old(self).spec_staging()@, key, value@),
            final(self).spec_staging()@ == without_slot(old(self).spec_staging()@, key),
            same_staging_setup(final(self).spec_staging(), old(self).spec_staging()),
            final(self).spec_cache()@ == inserted(
                old(self).spec_cache()@,
                old(self).spec_cache().spec_capacity(),
                key,
                r@,
            ),
            final(self).spec_cache().same_instance(&old(self).spec_cache()),
            final(self).spec_cache().spec_metrics() == put_metrics(
                old(self).spec_cache().spec_metrics(),
                old(self).spec_cache()@,
                old(self).spec_cache().spec_capacity(),
                key,
                r@,
            ),
            final(self).spec_enabled() == old(self).spec_enabled(),
            final(self).spec_max_wait() == old(self).spec_max_wait(),
            final(self).spec_metrics() == (if ready_value(old(self).spec_staging()@, key) is Some {
                PrefetchMetrics { retries: bump(old(self).spec_metrics().retries, 1), ..old(self).spec_metrics() }
            } else {
                old(self).spec_metrics()
            }),
    {
        let v = match self.staging.take(key) {
            Taken::Ready(w) => {
                self.metrics.retries = self.metrics.retries.saturating_add(1);
                w
            },
            Taken::Pending => {
                let _ = self.staging.discard(key);
                value
            },
            Taken::Absent => value,
        };
        let c = copy_bytes(&v);
        self.cache.put(key, c);
        v
    }

    /// Hands in the result of the speculative read for `ticket`: a value, or
    /// `None` where the store read failed. A result for a slot that no longer
    /// waits for it is dropped and counted, and changes nothing else.
    pub fn on_prefetch_result(&mut self, ticket: Ticket, result: Option<Vec<u8>>) -> (r: bool)
        requires
            old(self).wf(),
            match result {
                Some(v) => slots_size(old(self).spec_staging()@) + v@.len() <= u64::MAX,
                None => true,
            },
        ensures
            final(self).wf(),
            r == awaits(old(self).spec_staging()@, ticket),
            final(self).spec_staging()@ == match result {
                Some(v) => completed(old(self).spec_staging()@, ticket, v@),
                None => failed(old(self).spec_staging()@, ticket),
            },
            final(self).spec_staging().spec_limit() == old(self).spec_staging().spec_limit(),
            final(self).spec_staging().spec_next_ticket() == old(
                self,
            ).spec_staging().spec_next_ticket(),
            final(self).spec_staging().spec_late_results() == (if result is Some && !r {
                bump(old(self).spec_staging().spec_late_results(), 1)
            } else {
                old(self).spec_staging().spec_late_results()
            }),
            final(self).spec_cache() == old(self).spec_cache(),
            final(self).spec_enabled() == old(self).spec_enabled(),
            final(self).spec_max_wait() == old(self).spec_max_wait(),
            final(self).spec_metrics() == (if result is None {
                PrefetchMetrics { fails: bump(old(self).spec_metrics().fails, 1), ..old(self).spec_metrics() }
            } else {
                old(self).spec_metrics()
            }),
    {
        match result {
            Some(v) => self.staging.complete(ticket, v),
            None => {
                self.metrics.fails = self.metrics.fails.saturating_add(1);
                self.staging.fail(ticket)
            },
        }
    }
}

/// A schedule refused for want of staging budget leaves every slot as it
/// was, and a read of the refused key then goes straight to the store.
pub proof fn lemma_budget_refusal_falls_back(
    cache: Entries,
    slots: Slots,
    capacity: nat,
    limit: nat,
    next: u64,
    key: u64,
    estimate: nat,
    now: u64,
    waited: nat,
    max_wait: nat,
)
    requires
        !has_key(cache, key),
        status_of(slots, key) == SlotStatus::Absent,
        slots_size(slots) + estimate > limit,
    ensures
        schedule_result(true, cache, slots, limit, next, key, estimate)
            == ScheduleOutcome::MemoryLimitReached,
        scheduled_slots(slots, ScheduleOutcome::MemoryLimitReached, key, estimate, now) == slots,
        want_view(cache, slots, key, waited, max_wait) == StepView::ReadStore,
        want_slots(cache, slots, key) == slots,
        want_cache(cache, capacity, slots, key) == cache,
{
}

/// A read whose prefetch stays in flight waits only until the bound, then
/// reads the store. Completing that read leaves the cache holding the value
/// read, once, and no slot for the key; the prefetch's late result, a value
/// or a failure, then changes no slot.
pub proof fn lemma_slow_prefetch_falls_back(
    cache: Entries,
    capacity: nat,
    slots: Slots,
    key: u64,
    waited: nat,
    max_wait: nat,
    v: Seq<u8>,
    t: Ticket,
    late: Seq<u8>,
)
    requires
        keys_distinct(cache),
        slot_keys_distinct(slots),
        sizes_match(slots),
        !has_key(cache, key),
        status_of(slots, key) == SlotStatus::Requested,
        waited_out(waited, max_wait),
        v.len() <= capacity,
        t.key == key,
    ensures
        forall|w: nat|
            w < max_wait ==> #[trigger] want_view(cache, slots, key, w, max_wait)
                == StepView::Wait,
        want_view(cache, slots, key, waited, max_wait) == StepView::ReadStore,
        want_slots(cache, slots, key) == slots,
        want_cache(cache, capacity, slots, key) == cache,
        settled_value(slots, key, v) == v,
        lookup(inserted(cache, capacity, key, v), key) == Some(v),
        keys_distinct(inserted(cache, capacity, key, v)),
        !has_slot(without_slot(slots, key), key),
        !awaits(without_slot(slots, key), t),
        completed(without_slot(slots, key), t, late) == without_slot(slots, key),
        failed(without_slot(slots, key), t) == without_slot(slots, key),
{
    lemma_get_after_put(cache, capacity, key, v);
    lemma_slot_remove(slots, slot_pos(slots, key));
}

/// A ready prefetch is handed out once: the read that consumes it moves the
/// value into the cache and removes the slot, and the next read of the key
/// is an ordinary cache hit on the same value.
pub proof fn lemma_ready_slot_consumed_once(
    cache: Entries,
    capacity: nat,
    slots: Slots,
    key: u64,
    v: Seq<u8>,
    waited: nat,
    max_wait: nat,
)
    requires
        keys_distinct(cache),
        slot_keys_distinct(slots),
        sizes_match(slots),
        !has_key(cache, key),
        ready_value(slots, key) == Some(v),
        v.len() <= capacity,
    ensures
        want_view(cache, slots, key, waited, max_wait) == StepView::Value(v),
        !has_slot(want_slots(cache, slots, key), key),
        want_view(
            want_cache(cache, capacity, slots, key),
            want_slots(cache, slots, key),
            key,
            waited,
            max_wait,
        ) == StepView::Value(v),
{
    lemma_get_after_put(cache, capacity, key, v);
    lemma_slot_remove(slots, slot_pos(slots, key));
}

} // verus!
