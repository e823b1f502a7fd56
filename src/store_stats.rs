//! Export of a store's statistics into a registry of integer gauges, kept
//! apart for the hot and the cold store.
use vstd::prelude::*;

verus! {

/// Which store a statistic comes from.
#[derive(Clone, Copy, Debug, PartialEq, Eq, Structural)]
pub enum Temperature {
    Hot,
    Cold,
}

/// One value of a store statistic.
#[derive(Clone, Copy, Debug, PartialEq, Eq, Structural)]
pub enum StatsValue {
    Count(i64),
    Sum(i64),
}

/// A snapshot of a store's statistics: each name with its values.
pub struct StoreStatistics {
    pub data: Vec<(String, Vec<StatsValue>)>,
}

pub type StatsView = Seq<(Seq<char>, Seq<StatsValue>)>;

impl View for StoreStatistics {
    type V = StatsView;

    open spec fn view(&self) -> StatsView {
        self.data@.map_values(|e: (String, Vec<StatsValue>)| (e.0@, e.1@))
    }
}

/// Gauges as `(name, temperature, value)`, in the order they were first set.
pub type Gauges = Seq<(Seq<char>, Temperature, i64)>;

pub open spec fn gauge_keys_distinct(s: Gauges) -> bool {
    forall|i: int, j: int|
        0 <= i < j < s.len() ==> s[i].0 != s[j].0 || s[i].1 != s[j].1
}

pub open spec fn has_gauge(s: Gauges, name: Seq<char>, t: Temperature) -> bool {
    exists|i: int| 0 <= i < s.len() && s[i].0 == name && s[i].1 == t
}

pub open spec fn gauge_pos(s: Gauges, name: Seq<char>, t: Temperature) -> int {
    choose|i: int| 0 <= i < s.len() && s[i].0 == name && s[i].1 == t
}

pub open spec fn gauge_value(s: Gauges, name: Seq<char>, t: Temperature) -> Option<i64> {
    if has_gauge(s, name, t) {
        Some(s[gauge_pos(s, name, t)].2)
    } else {
        None
    }
}

/// `s` with gauge `(name, t)` set to `v`.
pub open spec fn with_gauge(s: Gauges, name: Seq<char>, t: Temperature, v: i64) -> Gauges {
    if has_gauge(s, name, t) {
        s.update(gauge_pos(s, name, t), (name, t, v))
    } else {
        s.push((name, t, v))
    }
}

/// The value that a statistic exports as a gauge: only a statistic made of
/// a single count has one.
pub open spec fn single_count(values: Seq<StatsValue>) -> Option<i64> {
    if values.len() == 1 {
        match values[0] {
            StatsValue::Count(v) => Some(v),
            _ => None,
        }
    } else {
        None
    }
}

/// `g` after the statistics `data` of the `t` store were exported, in order.
pub open spec fn exported(g: Gauges, data: StatsView, t: Temperature) -> Gauges
    decreases data.len(),
{
    if data.len() == 0 {
        g
    } else {
        let before = exported(g, data.drop_last(), t);
        match single_count(data.last().1) {
            Some(v) => with_gauge(before, data.last().0, t, v),
            None => before,
        }
    }
}

/// Integer gauges keyed by name and store temperature.
pub struct GaugeRegistry {
    gauges: Vec<(String, Temperature, i64)>,
}

impl View for GaugeRegistry {
    type V = Gauges;

    closed spec fn view(&self) -> Gauges {
        self.gauges@.map_values(|e: (String, Temperature, i64)| (e.0@, e.1, e.2))
    }
}

impl GaugeRegistry {
    pub closed spec fn wf(&self) -> bool {
        gauge_keys_distinct(self@)
    }

    pub fn new() -> (r: GaugeRegistry)
        ensures
            r.wf(),
            r@ == Seq::<(Seq<char>, Temperature, i64)>::empty(),
    {
        let r = GaugeRegistry { gauges: Vec::new() };
        proof {
            assert(r@ =~= Seq::<(Seq<char>, Temperature, i64)>::empty());
        }
        r
    }

    pub fn len(&self) -> (r: usize)
        ensures
            r == self@.len(),
    {
        self.gauges.len()
    }

    fn find(&self, name: &String, t: Temperature) -> (r: Option<usize>)
        requires
            self.wf(),
        ensures
            match r {
                Some(i) => {
                    &&& i < self@.len()
                    &&& has_gauge(self@, name@, t)
                    &&& gauge_pos(self@, name@, t) == i
                },
                None => !has_gauge(self@, name@, t),
            },
    {
        let mut i: usize = 0;
        while i < self.gauges.len()
            invariant
                self.wf(),
                i <= self.gauges.len(),
                forall|j: int| 0 <= j < i ==> !(self@[j].0 == name@ && self@[j].1 == t),
            decreases self.gauges.len() - i,
        {
            if self.gauges[i].1 == t && self.gauges[i].0.eq(name) {
                proof {
                    assert(self@[i as int].0 == name@);
                    assert(has_gauge(self@, name@, t));
                    let p = gauge_pos(self@, name@, t);
                    assert(p == i);
                }
                return Some(i);
            }
            i += 1;
        }
        None
    }

    /// The value of gauge `(name, t)`, if it was ever set.
    pub fn get(&self, name: &String, t: Temperature) -> (r: Option<i64>)
        requires
            self.wf(),
        ensures
            r == gauge_value(self@, name@, t),
    {
        match self.find(name, t) {
            Some(i) => Some(self.gauges[i].2),
            None => None,
        }
    }

    /// Sets gauge `(name, t)` to `v`.
    pub fn set(&mut self, name: &String, t: Temperature, v: i64)
        requires
            old(self).wf(),
        ensures
            final(self).wf(),
            final(self)@ == with_gauge(old(self)@, name@, t, v),
    {
        let ghost prev = self@;
        match self.find(name, t) {
            Some(i) => {
                self.gauges[i] = (name.clone(), t, v);
                proof {
                    assert(self@ =~= prev.update(i as int, (name@, t, v)));
                }
            },
            None => {
                self.gauges.push((name.clone(), t, v));
                proof {
                    assert(self@ =~= prev.push((name@, t, v)));
                }
            },
        }
    }
}

/// Exports the statistics of the `temperature` store into `gauges`: each
/// statistic made of a single count sets the gauge of its name. Returns
/// whether there were statistics to export.
pub fn export_store_stats(
    stats: Option<&StoreStatistics>,
    temperature: Temperature,
    gauges: &mut GaugeRegistry,
) -> (r: bool)
    requires
        old(gauges).wf(),
    ensures
        final(gauges).wf(),
        r == stats.is_some(),
        final(gauges)@ == match stats {
            Some(s) => exported(old(gauges)@, s@, temperature),
            None => old(gauges)@,
        },
{
    match stats {
        Some(s) => {
            let ghost g0 = gauges@;
            let mut i: usize = 0;
            while i < s.data.len()
                invariant
                    gauges.wf(),
                    i <= s.data.len(),
                    gauges@ == exported(g0, s@.subrange(0, i as int), temperature),
                decreases s.data.len() - i,
            {
                let entry = &s.data[i];
                proof {
                    assert(s@.subrange(0, i as int + 1).drop_last() =~= s@.subrange(0, i as int));
                }
                if entry.1.len() == 1 {
                    match entry.1[0] {
                        StatsValue::Count(v) => {
                            gauges.set(&entry.0, temperature, v);
                        },
                        _ => {},
                    }
                }
                i += 1;
            }
            proof {
                assert(s@.subrange(0, s@.len() as int) =~= s@);
            }
            true
        },
        None => false,
    }
}

} // verus!
