//! A byte-bounded least-recently-used cache of trie values, one instance per
//! `(shard, is_view)` pair.
use vstd::prelude::*;

verus! {

/// Entries of a cache as a sequence of `(key, value)` pairs, least recently
/// used first.
pub type Entries = Seq<(u64, Seq<u8>)>;

/// Adds `n` to a counter, stopping at `u64::MAX`.
pub open spec fn bump(x: u64, n: nat) -> u64 {
    if x + n > u64::MAX {
        u64::MAX
    } else {
        (x + n) as u64
    }
}

/// Total number of value bytes held by `s`.
pub open spec fn entries_size(s: Entries) -> nat
    decreases s.len(),
{
    if s.len() == 0 {
        0
    } else {
        entries_size(s.drop_last()) + s.last().1.len()
    }
}

pub open spec fn keys_distinct(s: Entries) -> bool {
    forall|i: int, j: int| 0 <= i < j < s.len() ==> s[i].0 != s[j].0
}

pub open spec fn has_key(s: Entries, k: u64) -> bool {
    exists|i: int| 0 <= i < s.len() && s[i].0 == k
}

pub open spec fn position(s: Entries, k: u64) -> int {
    choose|i: int| 0 <= i < s.len() && s[i].0 == k
}

/// The value stored under `k`, if any.
pub open spec fn lookup(s: Entries, k: u64) -> Option<Seq<u8>> {
    if has_key(s, k) {
        Some(s[position(s, k)].1)
    } else {
        None
    }
}

/// `s` with the entry for `k` taken out.
pub open spec fn without(s: Entries, k: u64) -> Entries {
    if has_key(s, k) {
        s.remove(position(s, k))
    } else {
        s
    }
}

/// `s` after an access to `k`: its entry becomes the most recently used.
pub open spec fn refreshed(s: Entries, k: u64) -> Entries {
    if has_key(s, k) {
        without(s, k).push(s[position(s, k)])
    } else {
        s
    }
}

/// `s` after dropping least recently used entries until at most `room`
/// bytes remain.
pub open spec fn evicted(s: Entries, room: nat) -> Entries
    decreases s.len(),
{
    if s.len() == 0 || entries_size(s) <= room {
        s
    } else {
        evicted(s.drop_first(), room)
    }
}

/// Room left for other entries when a value of `len` bytes is stored.
pub open spec fn room_for(capacity: nat, len: nat) -> nat {
    (capacity - len) as nat
}

/// `s` after a put of `(k, v)` into a cache of `capacity` bytes: a value
/// larger than the whole cache is refused; otherwise the old entry for `k`
/// goes, least recently used entries go until `v` fits, and `(k, v)` becomes
/// the most recently used entry.
pub open spec fn inserted(s: Entries, capacity: nat, k: u64, v: Seq<u8>) -> Entries {
    if v.len() > capacity {
        s
    } else {
        evicted(without(s, k), room_for(capacity, v.len())).push((k, v))
    }
}

/// Number of entries that a put of `(k, v)` evicts to make room.
pub open spec fn eviction_count(s: Entries, capacity: nat, k: u64, v: Seq<u8>) -> nat {
    if v.len() > capacity {
        0
    } else {
        (without(s, k).len() - evicted(without(s, k), room_for(capacity, v.len())).len()) as nat
    }
}

/// Number of bytes that a put of `(k, v)` evicts to make room.
pub open spec fn eviction_bytes(s: Entries, capacity: nat, k: u64, v: Seq<u8>) -> nat {
    if v.len() > capacity {
        0
    } else {
        (entries_size(without(s, k)) - entries_size(
            evicted(without(s, k), room_for(capacity, v.len())),
        )) as nat
    }
}

pub proof fn lemma_size_push(s: Entries, e: (u64, Seq<u8>))
    ensures
        entries_size(s.push(e)) == entries_size(s) + e.1.len(),
{
    assert(s.push(e).drop_last() =~= s);
}

pub proof fn lemma_size_remove(s: Entries, i: int)
    requires
        0 <= i < s.len(),
    ensures
        entries_size(s.remove(i)) + s[i].1.len() == entries_size(s),
    decreases s.len(),
{
    if i == s.len() - 1 {
        assert(s.remove(i) =~= s.drop_last());
    } else {
        lemma_size_remove(s.drop_last(), i);
        assert(s.remove(i).drop_last() =~= s.drop_last().remove(i));
    }
}

pub proof fn lemma_remove_keys(s: Entries, i: int)
    requires
        0 <= i < s.len(),
        keys_distinct(s),
    ensures
        keys_distinct(s.remove(i)),
        forall|k: u64| has_key(s.remove(i), k) ==> has_key(s, k),
        !has_key(s.remove(i), s[i].0),
{
    let r = s.remove(i);
    assert forall|k: u64| has_key(r, k) implies has_key(s, k) by {
        let j = choose|j: int| 0 <= j < r.len() && r[j].0 == k;
        if j < i {
            assert(s[j].0 == k);
        } else {
            assert(s[j + 1].0 == k);
        }
    }
    if has_key(r, s[i].0) {
        let j = choose|j: int| 0 <= j < r.len() && r[j].0 == s[i].0;
        if j < i {
            assert(s[j].0 == s[i].0);
        } else {
            assert(s[j + 1].0 == s[i].0);
        }
    }
}

/// With distinct keys, the position of a key is the one index that holds it.
pub proof fn lemma_position_unique(s: Entries, i: int)
    requires
        0 <= i < s.len(),
        keys_distinct(s),
    ensures
        has_key(s, s[i].0),
        position(s, s[i].0) == i,
{
    assert(has_key(s, s[i].0));
}


pub proof fn lemma_push_keys(s: Entries, e: (u64, Seq<u8>))
    requires
        keys_distinct(s),
        !has_key(s, e.0),
    ensures
        keys_distinct(s.push(e)),
        forall|k: u64| has_key(s.push(e), k) <==> (has_key(s, k) || k == e.0),
{
    let r = s.push(e);
    assert forall|k: u64| has_key(r, k) implies (has_key(s, k) || k == e.0) by {
        let j = choose|j: int| 0 <= j < r.len() && r[j].0 == k;
        if j < s.len() {
            assert(s[j].0 == k);
        }
    }
    assert forall|k: u64| has_key(s, k) implies has_key(r, k) by {
        let j = choose|j: int| 0 <= j < s.len() && s[j].0 == k;
        assert(r[j].0 == k);
    }
    assert(r[s.len() as int].0 == e.0);
}

/// Counters kept by one cache instance. Each saturates at `u64::MAX`.
#[derive(Clone, Copy, Debug, PartialEq, Eq, Structural)]
pub struct CacheMetrics {
    /// Lookups that found their key.
    pub hits: u64,
    /// Lookups that did not.
    pub misses: u64,
    /// Puts refused because the value is larger than the whole cache.
    pub too_large: u64,
    /// Explicit removals that found a live entry.
    pub pop_hits: u64,
    /// Explicit removals of a key that was not cached.
    pub pop_misses: u64,
    /// Entries evicted to make room for a put.
    pub lru_pops: u64,
    /// Bytes removed by explicit removals.
    pub deleted_bytes: u64,
    /// Bytes removed by eviction.
    pub evicted_bytes: u64,
}

impl CacheMetrics {
    pub open spec fn zero() -> CacheMetrics {
        CacheMetrics {
            hits: 0,
            misses: 0,
            too_large: 0,
            pop_hits: 0,
            pop_misses: 0,
            lru_pops: 0,
            deleted_bytes: 0,
            evicted_bytes: 0,
        }
    }

    pub open spec fn after_get(self, hit: bool) -> CacheMetrics {
        if hit {
            CacheMetrics { hits: bump(self.hits, 1), ..self }
        } else {
            CacheMetrics { misses: bump(self.misses, 1), ..self }
        }
    }

    /// Counters after an explicit removal; `removed` is the size of the value
    /// that was removed, if one was.
    pub open spec fn after_pop(self, removed: Option<nat>) -> CacheMetrics {
        match removed {
            Some(n) => CacheMetrics {
                pop_hits: bump(self.pop_hits, 1),
                deleted_bytes: bump(self.deleted_bytes, n),
                ..self
            },
            None => CacheMetrics { pop_misses: bump(self.pop_misses, 1), ..self },
        }
    }

    /// Counters after a put that was refused as too large, or that evicted
    /// `count` entries holding `bytes` bytes.
    pub open spec fn after_put(self, too_large: bool, count: nat, bytes: nat) -> CacheMetrics {
        if too_large {
            CacheMetrics { too_large: bump(self.too_large, 1), ..self }
        } else {
            CacheMetrics {
                lru_pops: bump(self.lru_pops, count),
                evicted_bytes: bump(self.evicted_bytes, bytes),
                ..self
            }
        }
    }

    pub fn new() -> (r: CacheMetrics)
        ensures
            r == CacheMetrics::zero(),
    {
        CacheMetrics {
            hits: 0,
            misses: 0,
            too_large: 0,
            pop_hits: 0,
            pop_misses: 0,
            lru_pops: 0,
            deleted_bytes: 0,
            evicted_bytes: 0,
        }
    }
}

/// The view of an optional value.
pub open spec fn opt_bytes(o: Option<Vec<u8>>) -> Option<Seq<u8>> {
    match o {
        Some(v) => Some(v@),
        None => None,
    }
}

pub(crate) fn copy_bytes(v: &Vec<u8>) -> (r: Vec<u8>)
    ensures
        r@ == v@,
{
    let r = v.clone();
    proof {
        assert(r@ =~= v@);
    }
    r
}

/// A least-recently-used cache of trie values bounded by the total size of
/// the values it holds.
pub struct ShardCache {
    shard_id: u64,
    is_view: bool,
    capacity: u64,
    /// Least recently used first.
    entries: Vec<(u64, Vec<u8>)>,
    total_bytes: u64,
    metrics: CacheMetrics,
}

impl View for ShardCache {
    type V = Entries;

    closed spec fn view(&self) -> Entries {
        self.entries@.map_values(|e: (u64, Vec<u8>)| (e.0, e.1@))
    }
}

impl ShardCache {
    pub closed spec fn wf(&self) -> bool {
        &&& keys_distinct(self@)
        &&& self.total_bytes == entries_size(self@)
        &&& self.total_bytes <= self.capacity
    }

    pub closed spec fn spec_capacity(&self) -> nat {
        self.capacity as nat
    }

    pub closed spec fn spec_metrics(&self) -> CacheMetrics {
        self.metrics
    }

    pub closed spec fn spec_shard_id(&self) -> u64 {
        self.shard_id
    }

    pub closed spec fn spec_is_view(&self) -> bool {
        self.is_view
    }

    /// Whether `other` is the same cache instance with the same limit.
    pub open spec fn same_instance(&self, other: &ShardCache) -> bool {
        &&& self.spec_capacity() == other.spec_capacity()
        &&& self.spec_shard_id() == other.spec_shard_id()
        &&& self.spec_is_view() == other.spec_is_view()
    }

    /// A well-formed cache has distinct keys and never holds more bytes than
    /// its capacity; every operation below keeps it well-formed.
    pub proof fn lemma_within_capacity(&self)
        requires
            self.wf(),
        ensures
            keys_distinct(self@),
            entries_size(self@) <= self.spec_capacity(),
    {
    }

    pub fn new(shard_id: u64, is_view: bool, capacity: u64) -> (r: ShardCache)
        ensures
            r.wf(),
            r@ == Seq::<(u64, Seq<u8>)>::empty(),
            r.spec_capacity() == capacity,
            r.spec_shard_id() == shard_id,
            r.spec_is_view() == is_view,
            r.spec_metrics() == CacheMetrics::zero(),
    {
        let r = ShardCache {
            shard_id,
            is_view,
            capacity,
            entries: Vec::new(),
            total_bytes: 0,
            metrics: CacheMetrics::new(),
        };
        proof {
            assert(r@ =~= Seq::<(u64, Seq<u8>)>::empty());
        }
        r
    }

    pub fn shard_id(&self) -> (r: u64)
        ensures
            r == self.spec_shard_id(),
    {
        self.shard_id
    }

    pub fn is_view(&self) -> (r: bool)
        ensures
            r == self.spec_is_view(),
    {
        self.is_view
    }

    pub fn capacity(&self) -> (r: u64)
        ensures
            r == self.spec_capacity(),
    {
        self.capacity
    }

    pub fn metrics(&self) -> (r: CacheMetrics)
        ensures
            r == self.spec_metrics(),
    {
        self.metrics
    }

    /// Number of bytes currently cached.
    pub fn total_bytes(&self) -> (r: u64)
        requires
            self.wf(),
        ensures
            r == entries_size(self@),
    {
        self.total_bytes
    }

    /// Number of entries currently cached.
    pub fn len(&self) -> (r: usize)
        ensures
            r == self@.len(),
    {
        self.entries.len()
    }

    fn find(&self, key: u64) -> (r: Option<usize>)
        requires
            self.wf(),
        ensures
            match r {
                Some(i) => {
                    &&& i < self@.len()
                    &&& self@[i as int].0 == key
                    &&& has_key(self@, key)
                    &&& position(self@, key) == i
                },
                None => !has_key(self@, key),
            },
    {
        let mut i: usize = 0;
        while i < self.entries.len()
            invariant
                self.wf(),
                i <= self.entries.len(),
                forall|j: int| 0 <= j < i ==> self@[j].0 != key,
            decreases self.entries.len() - i,
        {
            if self.entries[i].0 == key {
                proof {
                    lemma_position_unique(self@, i as int);
                }
                return Some(i);
            }
            i += 1;
        }
        None
    }

    /// Whether `key` is cached; unlike `get` this neither counts nor
    /// refreshes anything.
    pub fn contains(&self, key: u64) -> (r: bool)
        requires
            self.wf(),
        ensures
            r == has_key(self@, key),
    {
        self.find(key).is_some()
    }

    /// Takes the entry at `i` out of the cache, keeping the byte count.
    fn take_at(&mut self, i: usize) -> (r: (u64, Vec<u8>))
        requires
            old(self).wf(),
            i < old(self)@.len(),
        ensures
            final(self).wf(),
            final(self)@ == old(self)@.remove(i as int),
            (r.0, r.1@) == old(self)@[i as int],
            final(self).same_instance(old(self)),
            final(self).spec_metrics() == old(self).spec_metrics(),
    {
        let ghost prev = self@;
        let e = self.entries.remove(i);
        proof {
            assert(self@ =~= prev.remove(i as int));
            lemma_size_remove(prev, i as int);
            lemma_remove_keys(prev, i as int);
        }
        self.total_bytes = self.total_bytes - e.1.len() as u64;
        e
    }

    /// Looks `key` up; a hit makes the entry the most recently used one.
    pub fn get(&mut self, key: u64) -> (r: Option<Vec<u8>>)
        requires
            old(self).wf(),
        ensures
            final(self).wf(),
            entries_size(final(self)@) <= final(self).spec_capacity(),
            opt_bytes(r) == lookup(old(self)@, key),
            final(self)@ == refreshed(old(self)@, key),
            final(self).same_instance(old(self)),
            final(self).spec_metrics() == old(self).spec_metrics().after_get(
                has_key(old(self)@, key),
            ),
    {
        match self.find(key) {
            Some(i) => {
                let ghost prev = self@;
                let e = self.take_at(i);
                let v = copy_bytes(&e.1);
                let ghost mid = self@;
                proof {
                    lemma_remove_keys(prev, i as int);
                    lemma_size_remove(prev, i as int);
                    lemma_push_keys(mid, (e.0, e.1@));
                    lemma_size_push(mid, (e.0, e.1@));
                }
                self.total_bytes = self.total_bytes + e.1.len() as u64;
                self.entries.push(e);
                proof {
                    assert(self@ =~= mid.push(prev[i as int]));
                }
                self.metrics.hits = self.metrics.hits.saturating_add(1);
                Some(v)
            },
            None => {
                self.metrics.misses = self.metrics.misses.saturating_add(1);
                None
            },
        }
    }

    /// Removes `key` because its value was deleted from the trie. Removing a
    /// key that is not cached is a normal outcome and changes only the
    /// counters.
    pub fn pop(&mut self, key: u64) -> (r: Option<Vec<u8>>)
        requires
            old(self).wf(),
        ensures
            final(self).wf(),
            entries_size(final(self)@) <= final(self).spec_capacity(),
            opt_bytes(r) == lookup(old(self)@, key),
            final(self)@ == without(old(self)@, key),
            final(self).same_instance(old(self)),
            final(self).spec_metrics() == old(self).spec_metrics().after_pop(
                match lookup(old(self)@, key) {
                    Some(v) => Some(v.len()),
                    None => None,
                },
            ),
    {
        match self.find(key) {
            Some(i) => {
                let e = self.take_at(i);
                self.metrics.pop_hits = self.metrics.pop_hits.saturating_add(1);
                self.metrics.deleted_bytes = self.metrics.deleted_bytes.saturating_add(
                    e.1.len() as u64,
                );
                Some(e.1)
            },
            None => {
                self.metrics.pop_misses = self.metrics.pop_misses.saturating_add(1);
                None
            },
        }
    }

    /// Stores `value` under `key`. A value larger than the whole cache is
    /// refused and counted; otherwise least recently used entries are evicted
    /// until it fits and it becomes the most recently used entry.
    pub fn put(&mut self, key: u64, value: Vec<u8>)
        requires
            old(self).wf(),
        ensures
            final(self).wf(),
            entries_size(final(self)@) <= final(self).spec_capacity(),
            final(self)@ == inserted(old(self)@, old(self).spec_capacity(), key, value@),
            final(self).same_instance(old(self)),
            final(self).spec_metrics() == old(self).spec_metrics().after_put(
                value@.len() > old(self).spec_capacity(),
                eviction_count(old(self)@, old(self).spec_capacity(), key, value@),
                eviction_bytes(old(self)@, old(self).spec_capacity(), key, value@),
            ),
    {
        if value.len() as u64 > self.capacity {
            self.metrics.too_large = self.metrics.too_large.saturating_add(1);
            return ;
        }
        match self.find(key) {
            Some(i) => {
                let _ = self.take_at(i);
            },
            None => {},
        }
        let ghost base = self@;
        let ghost m0 = self.metrics;
        let room: u64 = self.capacity - value.len() as u64;
        while self.total_bytes > room
            invariant
                self.wf(),
                self.same_instance(old(self)),
                room == self.capacity - value@.len(),
                !has_key(self@, key),
                evicted(self@, room as nat) == evicted(base, room as nat),
                self@.len() <= base.len(),
                entries_size(self@) <= entries_size(base),
                self.metrics == (CacheMetrics {
                    lru_pops: bump(m0.lru_pops, (base.len() - self@.len()) as nat),
                    evicted_bytes: bump(
                        m0.evicted_bytes,
                        (entries_size(base) - entries_size(self@)) as nat,
                    ),
                    ..m0
                }),
            decreases self.entries.len(),
        {
            let ghost prev = self@;
            let e = self.take_at(0);
            proof {
                lemma_size_remove(prev, 0);
                lemma_remove_keys(prev, 0);
                assert(prev.remove(0) =~= prev.drop_first());
            }
            self.metrics.lru_pops = self.metrics.lru_pops.saturating_add(1);
            self.metrics.evicted_bytes = self.metrics.evicted_bytes.saturating_add(
                e.1.len() as u64,
            );
        }
        let ghost mid = self@;
        proof {
            lemma_push_keys(mid, (key, value@));
            lemma_size_push(mid, (key, value@));
        }
        self.total_bytes = self.total_bytes + value.len() as u64;
        self.entries.push((key, value));
        proof {
            assert(self@ =~= mid.push((key, value@)));
        }
    }
}

/// `keys[i]` paired with `vals[i]`, in order.
pub open spec fn pairs(keys: Seq<u64>, vals: Seq<Seq<u8>>) -> Entries {
    Seq::new(keys.len(), |i: int| (keys[i], vals[i]))
}

/// `s` after a put of each `(keys[i], vals[i])` in turn, with no lookups
/// between them.
pub open spec fn put_all(s: Entries, capacity: nat, keys: Seq<u64>, vals: Seq<Seq<u8>>) -> Entries
    decreases keys.len(),
{
    if keys.len() == 0 || vals.len() != keys.len() {
        s
    } else {
        inserted(
            put_all(s, capacity, keys.drop_last(), vals.drop_last()),
            capacity,
            keys.last(),
            vals.last(),
        )
    }
}

/// Values of `sz` bytes each, with `count` of them fitting in `capacity`.
pub open spec fn uniform_fill(vals: Seq<Seq<u8>>, sz: nat, count: nat, capacity: nat) -> bool {
    &&& forall|i: int| 0 <= i < vals.len() ==> #[trigger] vals[i].len() == sz
    &&& count * sz <= capacity
}

proof fn lemma_pairs_keys(keys: Seq<u64>, vals: Seq<Seq<u8>>, k: u64)
    requires
        keys.len() == vals.len(),
        keys.no_duplicates(),
    ensures
        keys_distinct(pairs(keys, vals)),
        has_key(pairs(keys, vals), k) <==> keys.contains(k),
{
    let p = pairs(keys, vals);
    if has_key(p, k) {
        let j = choose|j: int| 0 <= j < p.len() && p[j].0 == k;
        assert(keys[j] == k);
    }
    if keys.contains(k) {
        let j = choose|j: int| 0 <= j < keys.len() && keys[j] == k;
        assert(p[j].0 == k);
    }
}

/// Filling an empty cache with values that all fit evicts nothing.
proof fn lemma_fill(capacity: nat, keys: Seq<u64>, vals: Seq<Seq<u8>>, sz: nat)
    requires
        keys.len() == vals.len(),
        keys.no_duplicates(),
        uniform_fill(vals, sz, keys.len(), capacity),
    ensures
        put_all(Seq::empty(), capacity, keys, vals) == pairs(keys, vals),
        entries_size(pairs(keys, vals)) == keys.len() * sz,
    decreases keys.len(),
{
    if keys.len() == 0 {
        assert(pairs(keys, vals) =~= Seq::<(u64, Seq<u8>)>::empty());
    } else {
        let n = keys.len();
        let ks = keys.drop_last();
        let vs = vals.drop_last();
        assert((n - 1) * sz + sz == n * sz) by (nonlinear_arith);
        assert((n - 1) * sz <= n * sz) by (nonlinear_arith)
            requires
                n >= 1,
        ;
        lemma_fill(capacity, ks, vs, sz);
        let p = pairs(ks, vs);
        lemma_pairs_keys(ks, vs, keys.last());
        if ks.contains(keys.last()) {
            let j = choose|j: int| 0 <= j < ks.len() && ks[j] == keys.last();
            assert(keys[j] == keys[n - 1]);
        }
        assert(without(p, keys.last()) == p);
        assert(vals.last().len() == sz);
        assert(evicted(p, room_for(capacity, sz)) == p);
        lemma_size_push(p, (keys.last(), vals.last()));
        assert(pairs(keys, vals) =~= p.push((keys.last(), vals.last())));
    }
}

/// With room for exactly `keys.len() - 1` values, putting `keys.len()`
/// distinct keys into an empty cache evicts the first one put and keeps all
/// the others.
pub proof fn lemma_lru_evicts_oldest(capacity: nat, keys: Seq<u64>, vals: Seq<Seq<u8>>, sz: nat)
    requires
        keys.len() == vals.len(),
        keys.len() >= 2,
        keys.no_duplicates(),
        uniform_fill(vals, sz, (keys.len() - 1) as nat, capacity),
        capacity < keys.len() * sz,
    ensures
        !has_key(put_all(Seq::empty(), capacity, keys, vals), keys[0]),
        forall|i: int|
            1 <= i < keys.len() ==> has_key(
                put_all(Seq::empty(), capacity, keys, vals),
                #[trigger] keys[i],
            ),
{
    let n = keys.len();
    let ks = keys.drop_last();
    let vs = vals.drop_last();
    lemma_fill(capacity, ks, vs, sz);
    let s = pairs(ks, vs);
    lemma_pairs_keys(ks, vs, keys.last());
    if ks.contains(keys.last()) {
        let j = choose|j: int| 0 <= j < ks.len() && ks[j] == keys.last();
        assert(keys[j] == keys[n - 1]);
    }
    assert(without(s, keys.last()) == s);
    assert(vals.last().len() == sz);
    assert((n - 1) * sz + sz == n * sz) by (nonlinear_arith);
    let room = room_for(capacity, sz);
    assert(s.remove(0) =~= s.drop_first());
    lemma_size_remove(s, 0);
    assert(evicted(s.drop_first(), room) == s.drop_first());
    assert(evicted(s, room) == s.drop_first());
    let t = s.drop_first().push((keys.last(), vals.last()));
    assert(put_all(Seq::empty(), capacity, keys, vals) == t);
    if has_key(t, keys[0]) {
        let j = choose|j: int| 0 <= j < t.len() && t[j].0 == keys[0];
        if j < t.len() - 1 {
            assert(keys[j + 1] == keys[0]);
        } else {
            assert(keys[n - 1] == keys[0]);
        }
    }
    assert forall|i: int| 1 <= i < keys.len() implies has_key(t, #[trigger] keys[i]) by {
        if i < n - 1 {
            assert(t[i - 1].0 == keys[i]);
        } else {
            assert(t[n - 2].0 == keys[i]);
        }
    }
}

/// With room for exactly `keys.len() - 1` values, putting all keys but the
/// last into an empty cache, looking the first one up, and then putting the
/// last key evicts the second key put instead of the first.
pub proof fn lemma_lru_refresh(capacity: nat, keys: Seq<u64>, vals: Seq<Seq<u8>>, sz: nat)
    requires
        keys.len() == vals.len(),
        keys.len() >= 3,
        keys.no_duplicates(),
        uniform_fill(vals, sz, (keys.len() - 1) as nat, capacity),
        capacity < keys.len() * sz,
    ensures
        ({
            let filled = put_all(Seq::empty(), capacity, keys.drop_last(), vals.drop_last());
            let after = inserted(refreshed(filled, keys[0]), capacity, keys.last(), vals.last());
            &&& lookup(filled, keys[0]) == Some(vals[0])
            &&& has_key(after, keys[0])
            &&& !has_key(after, keys[1])
        }),
{
    let n = keys.len();
    let ks = keys.drop_last();
    let vs = vals.drop_last();
    lemma_fill(capacity, ks, vs, sz);
    let s = pairs(ks, vs);
    lemma_pairs_keys(ks, vs, keys.last());
    lemma_position_unique(s, 0);
    assert(lookup(s, keys[0]) == Some(vals[0]));
    let r = s.remove(0).push(s[0]);
    assert(refreshed(s, keys[0]) == r);
    lemma_size_remove(s, 0);
    lemma_size_push(s.remove(0), s[0]);
    lemma_remove_keys(s, 0);
    lemma_push_keys(s.remove(0), s[0]);
    if ks.contains(keys.last()) {
        let j = choose|j: int| 0 <= j < ks.len() && ks[j] == keys.last();
        assert(keys[j] == keys[n - 1]);
    }
    assert(!has_key(r, keys.last()));
    assert(without(r, keys.last()) == r);
    assert(vals.last().len() == sz);
    assert(vals[0].len() == sz);
    assert((n - 1) * sz + sz == n * sz) by (nonlinear_arith);
    let room = room_for(capacity, sz);
    assert(r.remove(0) =~= r.drop_first());
    lemma_size_remove(r, 0);
    assert(r[0] == s[1]);
    assert(evicted(r.drop_first(), room) == r.drop_first());
    assert(evicted(r, room) == r.drop_first());
    let t = r.drop_first().push((keys.last(), vals.last()));
    assert(t[n - 3].0 == keys[0]);
    if has_key(t, keys[1]) {
        let j = choose|j: int| 0 <= j < t.len() && t[j].0 == keys[1];
        if j < n - 3 {
            assert(keys[j + 2] == keys[1]);
        } else if j == n - 3 {
            assert(keys[0] == keys[1]);
        } else {
            assert(keys[n - 1] == keys[1]);
        }
    }
}

/// A put of a value that fits is visible to the lookup that follows it.
pub proof fn lemma_get_after_put(s: Entries, capacity: nat, k: u64, v: Seq<u8>)
    requires
        keys_distinct(s),
        v.len() <= capacity,
    ensures
        lookup(inserted(s, capacity, k, v), k) == Some(v),
        keys_distinct(inserted(s, capacity, k, v)),
{
    let w = without(s, k);
    if has_key(s, k) {
        lemma_remove_keys(s, position(s, k));
    }
    let room = room_for(capacity, v.len());
    lemma_evicted_suffix(w, room);
    let e = evicted(w, room);
    lemma_push_keys(e, (k, v));
    lemma_position_unique(e.push((k, v)), e.len() as int);
}

/// What eviction keeps is a suffix of what it started from.
pub proof fn lemma_evicted_suffix(s: Entries, room: nat)
    requires
        keys_distinct(s),
    ensures
        keys_distinct(evicted(s, room)),
        forall|k: u64| has_key(evicted(s, room), k) ==> has_key(s, k),
        evicted(s, room).len() <= s.len(),
    decreases s.len(),
{
    if !(s.len() == 0 || entries_size(s) <= room) {
        assert(s.remove(0) =~= s.drop_first());
        lemma_remove_keys(s, 0);
        lemma_evicted_suffix(s.drop_first(), room);
    }
}

/// A put of a value larger than the whole cache changes no entry, evicts
/// nothing, and counts one refusal.
pub proof fn lemma_oversized_put(s: Entries, capacity: nat, k: u64, v: Seq<u8>, m: CacheMetrics)
    requires
        v.len() > capacity,
    ensures
        inserted(s, capacity, k, v) == s,
        eviction_count(s, capacity, k, v) == 0,
        eviction_bytes(s, capacity, k, v) == 0,
        m.after_put(true, 0, 0) == (CacheMetrics { too_large: bump(m.too_large, 1), ..m }),
{
}

/// Popping a cached key removes exactly its value's bytes; popping a key
/// that is not cached changes no entry.
pub proof fn lemma_pop_bytes(s: Entries, k: u64)
    requires
        keys_distinct(s),
    ensures
        has_key(s, k) ==> entries_size(without(s, k)) + lookup(s, k).unwrap().len()
            == entries_size(s),
        has_key(s, k) ==> !has_key(without(s, k), k),
        !has_key(s, k) ==> without(s, k) == s && lookup(s, k) is None,
{
    if has_key(s, k) {
        let i = position(s, k);
        lemma_size_remove(s, i);
        lemma_remove_keys(s, i);
    }
}

} // verus!
