//! The staging area: a key-addressed, byte-budgeted holding place for the
//! results of speculative reads until an execution thread consumes them.
use vstd::prelude::*;

use crate::shard_cache::bump;

verus! {

/// Identifies one reservation in the staging area. A result handed in with a
/// ticket lands only in the slot that the ticket was issued for.
#[derive(Clone, Copy, Debug, PartialEq, Eq, Structural)]
pub struct Ticket {
    pub key: u64,
    pub id: u64,
}

/// Why a reservation was refused.
#[derive(Clone, Copy, Debug, PartialEq, Eq, Structural)]
pub enum ReserveError {
    /// Admitting the reservation would take the staged bytes over the budget.
    MemoryLimitReached,
    /// The key already has a slot.
    AlreadyStaged,
}

/// State of a slot.
pub enum SlotState {
    /// A read was dispatched and its result has not arrived.
    Requested,
    /// The read arrived with this value.
    Ready(Vec<u8>),
    /// The read failed; consumers treat this as "not prefetched".
    Failed,
}

/// The view of a slot's state.
pub enum SlotView {
    Requested,
    Ready(Seq<u8>),
    Failed,
}

/// State of a slot without its value.
#[derive(Clone, Copy, Debug, PartialEq, Eq, Structural)]
pub enum SlotStatus {
    Absent,
    Requested,
    Ready,
    Failed,
}

/// The view of a slot.
pub struct SlotModel {
    pub key: u64,
    pub ticket: u64,
    pub state: SlotView,
    /// Bytes the slot counts against the budget: the estimate while the read
    /// is in flight, the value's length once it arrived, zero once it failed.
    pub size: nat,
    pub created_at: u64,
}

pub type Slots = Seq<SlotModel>;

struct StagingSlot {
    key: u64,
    ticket: u64,
    state: SlotState,
    size_bytes: u64,
    created_at: u64,
}

/// What `take` found.
pub enum Taken {
    /// The value had arrived; the slot is consumed.
    Ready(Vec<u8>),
    /// The read is still in flight; the slot stays.
    Pending,
    /// No slot, or one whose read failed (now removed).
    Absent,
}

pub open spec fn state_view(st: SlotState) -> SlotView {
    match st {
        SlotState::Requested => SlotView::Requested,
        SlotState::Ready(v) => SlotView::Ready(v@),
        SlotState::Failed => SlotView::Failed,
    }
}

spec fn slot_view(sl: StagingSlot) -> SlotModel {
    SlotModel {
        key: sl.key,
        ticket: sl.ticket,
        state: state_view(sl.state),
        size: sl.size_bytes as nat,
        created_at: sl.created_at,
    }
}

/// Total bytes that the slots of `s` count against the budget.
pub open spec fn slots_size(s: Slots) -> nat
    decreases s.len(),
{
    if s.len() == 0 {
        0
    } else {
        slots_size(s.drop_last()) + s.last().size
    }
}

pub open spec fn slot_keys_distinct(s: Slots) -> bool {
    forall|i: int, j: int| 0 <= i < j < s.len() ==> s[i].key != s[j].key
}

/// Each slot's size is what its state says it is.
pub open spec fn sizes_match(s: Slots) -> bool {
    forall|i: int|
        0 <= i < s.len() ==> match #[trigger] s[i].state {
            SlotView::Requested => true,
            SlotView::Ready(v) => s[i].size == v.len(),
            SlotView::Failed => s[i].size == 0,
        }
}

pub open spec fn has_slot(s: Slots, k: u64) -> bool {
    exists|i: int| 0 <= i < s.len() && s[i].key == k
}

pub open spec fn slot_pos(s: Slots, k: u64) -> int {
    choose|i: int| 0 <= i < s.len() && s[i].key == k
}

pub open spec fn status_of(s: Slots, k: u64) -> SlotStatus {
    if !has_slot(s, k) {
        SlotStatus::Absent
    } else {
        match s[slot_pos(s, k)].state {
            SlotView::Requested => SlotStatus::Requested,
            SlotView::Ready(_) => SlotStatus::Ready,
            SlotView::Failed => SlotStatus::Failed,
        }
    }
}

/// The value that arrived for `k`, if its slot is ready.
pub open spec fn ready_value(s: Slots, k: u64) -> Option<Seq<u8>> {
    if has_slot(s, k) {
        match s[slot_pos(s, k)].state {
            SlotView::Ready(v) => Some(v),
            _ => None,
        }
    } else {
        None
    }
}

pub open spec fn without_slot(s: Slots, k: u64) -> Slots {
    if has_slot(s, k) {
        s.remove(slot_pos(s, k))
    } else {
        s
    }
}

/// Whether `t` names a slot whose read is still in flight.
pub open spec fn awaits(s: Slots, t: Ticket) -> bool {
    &&& has_slot(s, t.key)
    &&& s[slot_pos(s, t.key)].ticket == t.id
    &&& s[slot_pos(s, t.key)].state is Requested
}

/// The slot that a successful reservation adds.
pub open spec fn requested_slot(key: u64, id: u64, estimate: nat, now: u64) -> SlotModel {
    SlotModel { key, ticket: id, state: SlotView::Requested, size: estimate, created_at: now }
}

/// `s` after the read for `t` arrived with `v`; a result for a slot that no
/// longer waits for it is dropped.
pub open spec fn completed(s: Slots, t: Ticket, v: Seq<u8>) -> Slots {
    if awaits(s, t) {
        let i = slot_pos(s, t.key);
        s.update(i, SlotModel { state: SlotView::Ready(v), size: v.len(), ..s[i] })
    } else {
        s
    }
}

/// `s` after the read for `t` failed.
pub open spec fn failed(s: Slots, t: Ticket) -> Slots {
    if awaits(s, t) {
        let i = slot_pos(s, t.key);
        s.update(i, SlotModel { state: SlotView::Failed, size: 0, ..s[i] })
    } else {
        s
    }
}

/// `s` after an execution thread took `k`: a ready or failed slot is
/// removed, one in flight stays.
pub open spec fn after_take(s: Slots, k: u64) -> Slots {
    if status_of(s, k) == SlotStatus::Requested {
        s
    } else {
        without_slot(s, k)
    }
}

pub proof fn lemma_slots_size_push(s: Slots, x: SlotModel)
    ensures
        slots_size(s.push(x)) == slots_size(s) + x.size,
{
    assert(s.push(x).drop_last() =~= s);
}

pub proof fn lemma_slots_size_remove(s: Slots, i: int)
    requires
        0 <= i < s.len(),
    ensures
        slots_size(s.remove(i)) + s[i].size == slots_size(s),
    decreases s.len(),
{
    if i == s.len() - 1 {
        assert(s.remove(i) =~= s.drop_last());
    } else {
        lemma_slots_size_remove(s.drop_last(), i);
        assert(s.remove(i).drop_last() =~= s.drop_last().remove(i));
    }
}

pub proof fn lemma_slots_size_update(s: Slots, i: int, x: SlotModel)
    requires
        0 <= i < s.len(),
    ensures
        slots_size(s.update(i, x)) + s[i].size == slots_size(s) + x.size,
    decreases s.len(),
{
    if i == s.len() - 1 {
        assert(s.update(i, x).drop_last() =~= s.drop_last());
    } else {
        lemma_slots_size_update(s.drop_last(), i, x);
        assert(s.update(i, x).drop_last() =~= s.drop_last().update(i, x));
    }
}

pub proof fn lemma_slot_remove(s: Slots, i: int)
    requires
        0 <= i < s.len(),
        slot_keys_distinct(s),
        sizes_match(s),
    ensures
        slot_keys_distinct(s.remove(i)),
        sizes_match(s.remove(i)),
        forall|k: u64| has_slot(s.remove(i), k) ==> has_slot(s, k),
        !has_slot(s.remove(i), s[i].key),
{
    let r = s.remove(i);
    assert forall|k: u64| has_slot(r, k) implies has_slot(s, k) by {
        let j = choose|j: int| 0 <= j < r.len() && r[j].key == k;
        if j < i {
            assert(s[j].key == k);
        } else {
            assert(s[j + 1].key == k);
        }
    }
    if has_slot(r, s[i].key) {
        let j = choose|j: int| 0 <= j < r.len() && r[j].key == s[i].key;
        if j < i {
            assert(s[j].key == s[i].key);
        } else {
            assert(s[j + 1].key == s[i].key);
        }
    }
    assert forall|j: int| 0 <= j < r.len() implies match #[trigger] r[j].state {
        SlotView::Requested => true,
        SlotView::Ready(v) => r[j].size == v.len(),
        SlotView::Failed => r[j].size == 0,
    } by {
        if j < i {
            assert(r[j] == s[j]);
        } else {
            assert(r[j] == s[j + 1]);
        }
    }
}

pub proof fn lemma_slot_position(s: Slots, i: int)
    requires
        0 <= i < s.len(),
        slot_keys_distinct(s),
    ensures
        has_slot(s, s[i].key),
        slot_pos(s, s[i].key) == i,
{
    assert(has_slot(s, s[i].key));
}

pub proof fn lemma_slot_update(s: Slots, i: int, x: SlotModel)
    requires
        0 <= i < s.len(),
        slot_keys_distinct(s),
        sizes_match(s),
        x.key == s[i].key,
        match x.state {
            SlotView::Requested => true,
            SlotView::Ready(v) => x.size == v.len(),
            SlotView::Failed => x.size == 0,
        },
    ensures
        slot_keys_distinct(s.update(i, x)),
        sizes_match(s.update(i, x)),
        forall|k: u64| has_slot(s.update(i, x), k) == has_slot(s, k),
{
    let r = s.update(i, x);
    assert forall|k: u64| has_slot(r, k) implies has_slot(s, k) by {
        let j = choose|j: int| 0 <= j < r.len() && r[j].key == k;
        assert(s[j].key == k);
    }
    assert forall|k: u64| has_slot(s, k) implies has_slot(r, k) by {
        let j = choose|j: int| 0 <= j < s.len() && s[j].key == k;
        assert(r[j].key == k);
    }
    assert forall|j: int| 0 <= j < r.len() implies match #[trigger] r[j].state {
        SlotView::Requested => true,
        SlotView::Ready(v) => r[j].size == v.len(),
        SlotView::Failed => r[j].size == 0,
    } by {
        if j != i {
            assert(r[j] == s[j]);
        }
    }
}

/// The ticket number that follows `id`, wrapping at `u64::MAX`.
pub open spec fn next_id(id: u64) -> u64 {
    if id == u64::MAX {
        0
    } else {
        (id + 1) as u64
    }
}

/// Slots for speculative reads, bounded at admission by a byte budget.
pub struct StagingArea {
    byte_limit: u64,
    staged_bytes: u64,
    slots: Vec<StagingSlot>,
    next_ticket: u64,
    late_results: u64,
}

impl View for StagingArea {
    type V = Slots;

    closed spec fn view(&self) -> Slots {
        self.slots@.map_values(|sl: StagingSlot| slot_view(sl))
    }
}

impl StagingArea {
    pub closed spec fn wf(&self) -> bool {
        &&& slot_keys_distinct(self@)
        &&& sizes_match(self@)
        &&& self.staged_bytes == slots_size(self@)
    }

    pub closed spec fn spec_limit(&self) -> nat {
        self.byte_limit as nat
    }

    /// The id that the next reservation's ticket gets.
    pub closed spec fn spec_next_ticket(&self) -> u64 {
        self.next_ticket
    }

    /// Results handed in for slots that no longer waited for them.
    pub closed spec fn spec_late_results(&self) -> u64 {
        self.late_results
    }

    pub proof fn lemma_wf(&self)
        requires
            self.wf(),
        ensures
            slot_keys_distinct(self@),
            sizes_match(self@),
    {
    }

    pub fn new(byte_limit: u64) -> (r: StagingArea)
        ensures
            r.wf(),
            r@ == Seq::<SlotModel>::empty(),
            r.spec_limit() == byte_limit,
            r.spec_next_ticket() == 0,
            r.spec_late_results() == 0,
    {
        let r = StagingArea {
            byte_limit,
            staged_bytes: 0,
            slots: Vec::new(),
            next_ticket: 0,
            late_results: 0,
        };
        proof {
            assert(r@ =~= Seq::<SlotModel>::empty());
        }
        r
    }

    pub fn byte_limit(&self) -> (r: u64)
        ensures
            r == self.spec_limit(),
    {
        self.byte_limit
    }

    /// Bytes currently counted against the budget.
    pub fn staged_bytes(&self) -> (r: u64)
        requires
            self.wf(),
        ensures
            r == slots_size(self@),
    {
        self.staged_bytes
    }

    pub fn slot_count(&self) -> (r: usize)
        ensures
            r == self@.len(),
    {
        self.slots.len()
    }

    pub fn late_results(&self) -> (r: u64)
        ensures
            r == self.spec_late_results(),
    {
        self.late_results
    }

    fn find(&self, key: u64) -> (r: Option<usize>)
        requires
            self.wf(),
        ensures
            match r {
                Some(i) => {
                    &&& i < self@.len()
                    &&& self@[i as int].key == key
                    &&& has_slot(self@, key)
                    &&& slot_pos(self@, key) == i
                },
                None => !has_slot(self@, key),
            },
    {
        let mut i: usize = 0;
        while i < self.slots.len()
            invariant
                self.wf(),
                i <= self.slots.len(),
                forall|j: int| 0 <= j < i ==> self@[j].key != key,
            decreases self.slots.len() - i,
        {
            if self.slots[i].key == key {
                proof {
                    lemma_slot_position(self@, i as int);
                }
                return Some(i);
            }
            i += 1;
        }
        None
    }

    pub fn status(&self, key: u64) -> (r: SlotStatus)
        requires
            self.wf(),
        ensures
            r == status_of(self@, key),
    {
        match self.find(key) {
            Some(i) => match &self.slots[i].state {
                SlotState::Requested => SlotStatus::Requested,
                SlotState::Ready(_) => SlotStatus::Ready,
                SlotState::Failed => SlotStatus::Failed,
            },
            None => SlotStatus::Absent,
        }
    }

    /// Reserves a slot for a read of `key` expected to bring `estimate`
    /// bytes. Refused, with nothing changed, when the key already has a slot
    /// or when admitting the estimate would take the staged bytes over the
    /// budget.
    pub fn reserve(&mut self, key: u64, estimate: u64, now: u64) -> (r: Result<
        Ticket,
        ReserveError,
    >)
        requires
            old(self).wf(),
        ensures
            final(self).wf(),
            final(self).spec_limit() == old(self).spec_limit(),
            final(self).spec_late_results() == old(self).spec_late_results(),
            match r {
                Ok(t) => {
                    &&& !has_slot(old(self)@, key)
                    &&& slots_size(old(self)@) + estimate <= old(self).spec_limit()
                    &&& t == (Ticket { key, id: old(self).spec_next_ticket() })
                    &&& final(self)@ == old(self)@.push(
                        requested_slot(key, t.id, estimate as nat, now),
                    )
                    &&& final(self).spec_next_ticket() == next_id(old(self).spec_next_ticket())
                },
                Err(e) => {
                    &&& e == (if has_slot(old(self)@, key) {
                        ReserveError::AlreadyStaged
                    } else {
                        ReserveError::MemoryLimitReached
                    })
                    &&& has_slot(old(self)@, key) || slots_size(old(self)@) + estimate
                        > old(self).spec_limit()
                    &&& final(self)@ == old(self)@
                    &&& final(self).spec_next_ticket() == old(self).spec_next_ticket()
                },
            },
    {
        if self.find(key).is_some() {
            return Err(ReserveError::AlreadyStaged);
        }
        if self.staged_bytes > self.byte_limit || estimate > self.byte_limit - self.staged_bytes {
            return Err(ReserveError::MemoryLimitReached);
        }
        let id = self.next_ticket;
        let ghost prev = self@;
        let slot = StagingSlot {
            key,
            ticket: id,
            state: SlotState::Requested,
            size_bytes: estimate,
            created_at: now,
        };
        self.slots.push(slot);
        self.staged_bytes = self.staged_bytes + estimate;
        self.next_ticket = if id == u64::MAX {
            0
        } else {
            id + 1
        };
        proof {
            let x = requested_slot(key, id, estimate as nat, now);
            assert(self@ =~= prev.push(x));
            lemma_slots_size_push(prev, x);
            assert forall|i: int, j: int| 0 <= i < j < self@.len() implies self@[i].key
                != self@[j].key by {
                if j == prev.len() {
                    assert(prev[i].key == self@[i].key);
                }
            }
            assert forall|i: int| 0 <= i < self@.len() implies match #[trigger] self@[i].state {
                SlotView::Requested => true,
                SlotView::Ready(v) => self@[i].size == v.len(),
                SlotView::Failed => self@[i].size == 0,
            } by {
                if i < prev.len() {
                    assert(self@[i] == prev[i]);
                }
            }
        }
        Ok(Ticket { key, id })
    }

    /// Finds the slot that `ticket` waits on, if it still does.
    fn awaiting(&self, ticket: Ticket) -> (r: Option<usize>)
        requires
            self.wf(),
        ensures
            match r {
                Some(i) => awaits(self@, ticket) && i == slot_pos(self@, ticket.key),
                None => !awaits(self@, ticket),
            },
    {
        match self.find(ticket.key) {
            Some(i) => {
                if self.slots[i].ticket == ticket.id {
                    match &self.slots[i].state {
                        SlotState::Requested => Some(i),
                        _ => None,
                    }
                } else {
                    None
                }
            },
            None => None,
        }
    }

    /// Hands in the value that the read for `ticket` brought. The slot
    /// becomes ready and counts the value's real size, even where that takes
    /// the staged bytes over the budget. A result for a slot that no longer
    /// waits for it is dropped and counted.
    pub fn complete(&mut self, ticket: Ticket, value: Vec<u8>) -> (r: bool)
        requires
            old(self).wf(),
            slots_size(old(self)@) + value@.len() <= u64::MAX,
        ensures
            final(self).wf(),
            r == awaits(old(self)@, ticket),
            final(self)@ == completed(old(self)@, ticket, value@),
            final(self).spec_limit() == old(self).spec_limit(),
            final(self).spec_next_ticket() == old(self).spec_next_ticket(),
            final(self).spec_late_results() == (if r {
                old(self).spec_late_results()
            } else {
                bump(old(self).spec_late_results(), 1)
            }),
    {
        match self.awaiting(ticket) {
            Some(i) => {
                let ghost prev = self@;
                let len = value.len() as u64;
                let created_at = self.slots[i].created_at;
                let old_size = self.slots[i].size_bytes;
                proof {
                    lemma_slots_size_remove(prev, i as int);
                }
                self.staged_bytes = self.staged_bytes - old_size + len;
                self.slots[i] = StagingSlot {
                    key: ticket.key,
                    ticket: ticket.id,
                    state: SlotState::Ready(value),
                    size_bytes: len,
                    created_at,
                };
                proof {
                    let x = SlotModel { state: SlotView::Ready(value@), size: value@.len(), ..prev[i as int] };
                    assert(self@ =~= prev.update(i as int, x));
                    lemma_slots_size_update(prev, i as int, x);
                    lemma_slot_update(prev, i as int, x);
                }
                true
            },
            None => {
                self.late_results = self.late_results.saturating_add(1);
                false
            },
        }
    }

    /// Records that the read for `ticket` failed; the slot stops counting
    /// against the budget.
    pub fn fail(&mut self, ticket: Ticket) -> (r: bool)
        requires
            old(self).wf(),
        ensures
            final(self).wf(),
            r == awaits(old(self)@, ticket),
            final(self)@ == failed(old(self)@, ticket),
            final(self).spec_limit() == old(self).spec_limit(),
            final(self).spec_next_ticket() == old(self).spec_next_ticket(),
            final(self).spec_late_results() == old(self).spec_late_results(),
    {
        match self.awaiting(ticket) {
            Some(i) => {
                let ghost prev = self@;
                let created_at = self.slots[i].created_at;
                let old_size = self.slots[i].size_bytes;
                proof {
                    lemma_slots_size_remove(prev, i as int);
                }
                self.staged_bytes = self.staged_bytes - old_size;
                self.slots[i] = StagingSlot {
                    key: ticket.key,
                    ticket: ticket.id,
                    state: SlotState::Failed,
                    size_bytes: 0,
                    created_at,
                };
                proof {
                    let x = SlotModel { state: SlotView::Failed, size: 0, ..prev[i as int] };
                    assert(self@ =~= prev.update(i as int, x));
                    lemma_slots_size_update(prev, i as int, x);
                    lemma_slot_update(prev, i as int, x);
                }
                true
            },
            None => false,
        }
    }

    fn remove_at(&mut self, i: usize) -> (r: StagingSlot)
        requires
            old(self).wf(),
            i < old(self)@.len(),
        ensures
            final(self).wf(),
            final(self)@ == old(self)@.remove(i as int),
            slot_view(r) == old(self)@[i as int],
            final(self).spec_limit() == old(self).spec_limit(),
            final(self).spec_next_ticket() == old(self).spec_next_ticket(),
            final(self).spec_late_results() == old(self).spec_late_results(),
    {
        let ghost prev = self@;
        let sl = self.slots.remove(i);
        proof {
            assert(self@ =~= prev.remove(i as int));
            lemma_slots_size_remove(prev, i as int);
            lemma_slot_remove(prev, i as int);
        }
        self.staged_bytes = self.staged_bytes - sl.size_bytes;
        sl
    }

    /// Consumes `key`'s slot if its value has arrived, and drops it if its
    /// read failed; a slot still in flight stays and is reported as pending.
    pub fn take(&mut self, key: u64) -> (r: Taken)
        requires
            old(self).wf(),
        ensures
            final(self).wf(),
            final(self)@ == after_take(old(self)@, key),
            final(self).spec_limit() == old(self).spec_limit(),
            final(self).spec_next_ticket() == old(self).spec_next_ticket(),
            final(self).spec_late_results() == old(self).spec_late_results(),
            match r {
                Taken::Ready(v) => ready_value(old(self)@, key) == Some(v@),
                Taken::Pending => status_of(old(self)@, key) == SlotStatus::Requested,
                Taken::Absent => status_of(old(self)@, key) == SlotStatus::Absent
                    || status_of(old(self)@, key) == SlotStatus::Failed,
            },
    {
        match self.find(key) {
            Some(i) => {
                let pending = match &self.slots[i].state {
                    SlotState::Requested => true,
                    _ => false,
                };
                if pending {
                    return Taken::Pending;
                }
                let sl = self.remove_at(i);
                match sl.state {
                    SlotState::Ready(v) => Taken::Ready(v),
                    _ => Taken::Absent,
                }
            },
            None => Taken::Absent,
        }
    }

    /// Drops `key`'s slot unconsumed, whatever its state. A read still in
    /// flight is not cancelled; its result is dropped when it arrives.
    pub fn discard(&mut self, key: u64) -> (r: bool)
        requires
            old(self).wf(),
        ensures
            final(self).wf(),
            r == has_slot(old(self)@, key),
            final(self)@ == without_slot(old(self)@, key),
            final(self).spec_limit() == old(self).spec_limit(),
            final(self).spec_next_ticket() == old(self).spec_next_ticket(),
            final(self).spec_late_results() == old(self).spec_late_results(),
    {
        match self.find(key) {
            Some(i) => {
                let _ = self.remove_at(i);
                true
            },
            None => false,
        }
    }
}

} // verus!
