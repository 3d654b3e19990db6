//! Instrumented zone profiler: scopes timed with the cycle counter
//! accumulate, per zone name, the number of calls and the total, minimum
//! and maximum cycles. At most [`MAX_ZONES`] names are tracked; records for
//! further names only count as overflow. A report orders the zones by
//! total cycles, largest first.

use vstd::prelude::*;
use crate::text::str_eq;

verus! {

/// The most distinct zone names tracked.
pub const MAX_ZONES: usize = 64;

/// The statistics of one zone.
#[derive(Clone, Copy)]
pub struct Zone {
    pub name: &'static str,
    pub calls: u64,
    pub total: u64,
    pub min: u64,
    pub max: u64,
}

/// The zone registry and the on/off switch.
pub struct Profiler {
    pub enabled: bool,
    pub zones: Vec<Zone>,
    pub overflow: u64,
}

/// The first zone named `name` among the first `n`.
pub open spec fn zone_index(z: Seq<Zone>, name: Seq<char>, n: int) -> Option<int>
    decreases n,
{
    if n <= 0 {
        None
    } else {
        match zone_index(z, name, n - 1) {
            Some(i) => Some(i),
            None => if z[n - 1].name@ == name { Some(n - 1) } else { None },
        }
    }
}

/// `z` with `cycles` added to its statistics.
pub open spec fn add_sample(z: Zone, cycles: u64) -> Zone {
    Zone {
        name: z.name,
        calls: (z.calls + 1) as u64,
        total: z.total.wrapping_add(cycles),
        min: if cycles < z.min { cycles } else { z.min },
        max: if cycles > z.max { cycles } else { z.max },
    }
}

proof fn lemma_zone_index(z: Seq<Zone>, name: Seq<char>, n: int)
    ensures
        zone_index(z, name, n) matches Some(i) ==> 0 <= i < n && z[i].name@ == name
            && forall|j: int| 0 <= j < i ==> z[j].name@ != name,
        zone_index(z, name, n) is None ==> forall|j: int| 0 <= j < n ==> z[j].name@ != name,
    decreases n,
{
    if n > 0 {
        lemma_zone_index(z, name, n - 1);
    }
}

impl Profiler {
    /// Off, with no zones.
    pub fn new() -> (p: Profiler)
        ensures
            !p.enabled && p.zones@.len() == 0 && p.overflow == 0,
    {
        Profiler { enabled: false, zones: Vec::new(), overflow: 0 }
    }

    /// At most [`MAX_ZONES`] zones.
    pub open spec fn wf(&self) -> bool {
        self.zones@.len() <= MAX_ZONES
    }

    /// Room for one more record without a counter overflowing.
    pub open spec fn can_record(&self) -> bool {
        &&& self.overflow < u64::MAX
        &&& forall|i: int| 0 <= i < self.zones@.len() ==> (#[trigger] self.zones@[i]).calls < u64::MAX
    }

    /// Start profiling (accumulations are kept).
    pub fn enable(&mut self)
        ensures
            final(self).enabled,
            final(self).zones@ == old(self).zones@ && final(self).overflow == old(self).overflow,
    {
        self.enabled = true;
    }

    /// Stop profiling.
    pub fn disable(&mut self)
        ensures
            !final(self).enabled,
            final(self).zones@ == old(self).zones@ && final(self).overflow == old(self).overflow,
    {
        self.enabled = false;
    }

    /// Whether profiling is on.
    pub fn is_enabled(&self) -> (b: bool)
        ensures
            b == self.enabled,
    {
        self.enabled
    }

    /// Clear all accumulated data.
    pub fn reset(&mut self)
        ensures
            final(self).zones@.len() == 0 && final(self).overflow == 0,
            final(self).enabled == old(self).enabled,
    {
        self.zones = Vec::new();
        self.overflow = 0;
    }

    /// Add one timed run of `cycles` to zone `name` (zones are told apart by
    /// their text); a new name opens a zone while there is room, else it
    /// counts as overflow.
    pub fn record(&mut self, name: &'static str, cycles: u64)
        requires
            old(self).wf(),
            old(self).can_record(),
        ensures
            final(self).wf(),
            final(self).enabled == old(self).enabled,
            match zone_index(old(self).zones@, name@, old(self).zones@.len() as int) {
                Some(i) => final(self).zones@ == old(self).zones@.update(i, add_sample(old(self).zones@[i], cycles))
                    && final(self).overflow == old(self).overflow,
                None => if old(self).zones@.len() >= MAX_ZONES {
                    final(self).zones@ == old(self).zones@ && final(self).overflow == old(self).overflow + 1
                } else {
                    final(self).zones@ == old(self).zones@.push(Zone { name, calls: 1, total: cycles, min: cycles, max: cycles })
                        && final(self).overflow == old(self).overflow
                },
            },
    {
        let ghost z0 = self.zones@;
        proof { lemma_zone_index(z0, name@, z0.len() as int); }
        let mut i: usize = 0;
        while i < self.zones.len()
            invariant
                i <= self.zones@.len(),
                self.zones@ == z0,
                old(self).can_record(),
                self.zones@ == old(self).zones@,
                self.overflow == old(self).overflow,
                self.enabled == old(self).enabled,
                old(self).wf(),
                forall|j: int| 0 <= j < i ==> z0[j].name@ != name@,
            decreases self.zones@.len() - i,
        {
            if str_eq(self.zones[i].name, name) {
                let z = self.zones[i];
                let nz = Zone {
                    name: z.name,
                    calls: z.calls + 1,
                    total: z.total.wrapping_add(cycles),
                    min: if cycles < z.min { cycles } else { z.min },
                    max: if cycles > z.max { cycles } else { z.max },
                };
                self.zones.set(i, nz);
                proof {
                    lemma_zone_index(z0, name@, z0.len() as int);
                    let k = zone_index(z0, name@, z0.len() as int);
                    assert(k == Some(i as int)) by {
                        if k is None {} else { let kk = k->0; if kk < i { } else if kk > i { } }
                    }
                }
                return;
            }
            i = i + 1;
        }
        proof { lemma_zone_index(z0, name@, z0.len() as int); }
        if self.zones.len() >= MAX_ZONES {
            self.overflow = self.overflow + 1;
            return;
        }
        self.zones.push(Zone { name, calls: 1, total: cycles, min: cycles, max: cycles });
    }

    /// The zone named `name`, if recorded.
    fn find(&self, name: &str) -> (r: Option<usize>)
        ensures
            r matches Some(i) ==> i < self.zones@.len()
                && zone_index(self.zones@, name@, self.zones@.len() as int) == Some(i as int),
            r is None ==> zone_index(self.zones@, name@, self.zones@.len() as int) is None,
    {
        proof { lemma_zone_index(self.zones@, name@, self.zones@.len() as int); }
        let mut i: usize = 0;
        while i < self.zones.len()
            invariant
                i <= self.zones@.len(),
                forall|j: int| 0 <= j < i ==> self.zones@[j].name@ != name@,
            decreases self.zones@.len() - i,
        {
            if str_eq(self.zones[i].name, name) {
                proof {
                    lemma_zone_index(self.zones@, name@, self.zones@.len() as int);
                    let k = zone_index(self.zones@, name@, self.zones@.len() as int);
                    assert(k == Some(i as int)) by {
                        if k is None {} else { let kk = k->0; if kk < i { } else if kk > i { } }
                    }
                }
                return Some(i);
            }
            i = i + 1;
        }
        proof { lemma_zone_index(self.zones@, name@, self.zones@.len() as int); }
        None
    }

    /// Total cycles of zone `name` (0 if never recorded).
    pub fn zone_total(&self, name: &str) -> (t: u64)
        ensures
            t == (match zone_index(self.zones@, name@, self.zones@.len() as int) {
                Some(i) => self.zones@[i].total,
                None => 0,
            }),
    {
        proof { lemma_zone_index(self.zones@, name@, self.zones@.len() as int); }
        match self.find(name) {
            Some(i) => self.zones[i].total,
            None => 0,
        }
    }

    /// Calls of zone `name` (0 if never recorded).
    pub fn zone_calls(&self, name: &str) -> (c: u64)
        ensures
            c == (match zone_index(self.zones@, name@, self.zones@.len() as int) {
                Some(i) => self.zones@[i].calls,
                None => 0,
            }),
    {
        proof { lemma_zone_index(self.zones@, name@, self.zones@.len() as int); }
        match self.find(name) {
            Some(i) => self.zones[i].calls,
            None => 0,
        }
    }

    /// Number of distinct zones recorded.
    pub fn zone_count(&self) -> (n: usize)
        ensures
            n == self.zones@.len(),
    {
        self.zones.len()
    }

    /// The zones ordered by total cycles, largest first (equal totals keep
    /// their recording order), with the sum of all totals.
    pub fn report_rows(&self) -> (r: (Vec<Zone>, u64))
        requires
            self.wf(),
            total_sum(self.zones@, self.zones@.len() as int) <= u64::MAX,
        ensures
            r.0@.to_multiset() == self.zones@.to_multiset(),
            forall|i: int, j: int| 0 <= i < j < r.0@.len() ==> r.0@[i].total >= r.0@[j].total,
            r.1 == total_sum(self.zones@, self.zones@.len() as int),
    {
        let mut sorted: Vec<Zone> = Vec::new();
        let mut grand: u64 = 0;
        let mut k: usize = 0;
        assert(self.zones@.take(0) =~= Seq::<Zone>::empty());
        assert(sorted@ =~= self.zones@.take(0));
        while k < self.zones.len()
            invariant
                k <= self.zones@.len() <= MAX_ZONES,
                total_sum(self.zones@, self.zones@.len() as int) <= u64::MAX,
                grand == total_sum(self.zones@, k as int),
                sorted@.to_multiset() == self.zones@.take(k as int).to_multiset(),
                sorted@.len() == k,
                forall|i: int, j: int| 0 <= i < j < sorted@.len() ==> sorted@[i].total >= sorted@[j].total,
            decreases self.zones@.len() - k,
        {
            let z = self.zones[k];
            proof { lemma_total_sum_mono(self.zones@, k + 1, self.zones@.len() as int); }
            grand = grand + z.total;
            let mut p: usize = 0;
            while p < sorted.len() && sorted[p].total >= z.total
                invariant
                    p <= sorted@.len(),
                    forall|q: int| 0 <= q < p ==> sorted@[q].total >= z.total,
                decreases sorted@.len() - p,
            {
                p = p + 1;
            }
            let ghost before = sorted@;
            sorted.insert(p, z);
            proof {
                assert(sorted@ == before.insert(p as int, z));
                assert(self.zones@.take(k + 1) =~= self.zones@.take(k as int).push(z));
                vstd::seq_lib::to_multiset_insert(before, p as int, z);
                vstd::seq_lib::to_multiset_build(self.zones@.take(k as int), z);
                assert forall|i: int, j: int| 0 <= i < j < sorted@.len() implies sorted@[i].total >= sorted@[j].total by {
                    if j < p {
                        assert(sorted@[i] == before[i] && sorted@[j] == before[j]);
                    } else if j == p {
                        assert(sorted@[i] == before[i]);
                    } else if i < p {
                        assert(sorted@[i] == before[i] && sorted@[j] == before[j - 1]);
                    } else if i == p {
                        assert(sorted@[j] == before[j - 1]);
                        if p < before.len() { assert(before[p as int].total < z.total); }
                    } else {
                        assert(sorted@[i] == before[i - 1] && sorted@[j] == before[j - 1]);
                    }
                }
            }
            k = k + 1;
        }
        assert(self.zones@.take(self.zones@.len() as int) =~= self.zones@);
        (sorted, grand)
    }
}

/// Sum of the first `n` zones' totals.
pub open spec fn total_sum(z: Seq<Zone>, n: int) -> nat
    decreases n,
{
    if n <= 0 { 0 } else { total_sum(z, n - 1) + z[n - 1].total as nat }
}

proof fn lemma_total_sum_mono(z: Seq<Zone>, a: int, b: int)
    requires
        a <= b,
    ensures
        total_sum(z, a) <= total_sum(z, b),
    decreases b - a,
{
    if a < b {
        lemma_total_sum_mono(z, a, b - 1);
    }
}

/// A scope timer: started at `start` cycles when profiling was on.
pub struct Guard {
    pub name: &'static str,
    pub start: u64,
    pub active: bool,
}

impl Guard {
    /// Open a zone at cycle count `now`; inert when profiling is off.
    pub fn new(p: &Profiler, name: &'static str, now: u64) -> (g: Guard)
        ensures
            g.name == name,
            g.active == p.enabled,
            g.active ==> g.start == now,
            !g.active ==> g.start == 0,
    {
        if !p.enabled {
            return Guard { name, start: 0, active: false };
        }
        Guard { name, start: now, active: true }
    }

    /// Close the zone at cycle count `now`, recording the elapsed cycles
    /// (wrapping) when it was active.
    pub fn finish(self, p: &mut Profiler, now: u64)
        requires
            old(p).wf(),
            old(p).can_record(),
        ensures
            final(p).wf(),
            !self.active ==> final(p).zones@ == old(p).zones@ && final(p).overflow == old(p).overflow,
            self.active ==> final(p).enabled == old(p).enabled,
            self.active ==> ({
                let c = now.wrapping_sub(self.start);
                match zone_index(old(p).zones@, self.name@, old(p).zones@.len() as int) {
                    Some(i) => final(p).zones@ == old(p).zones@.update(i, add_sample(old(p).zones@[i], c))
                        && final(p).overflow == old(p).overflow,
                    None => if old(p).zones@.len() >= MAX_ZONES {
                        final(p).zones@ == old(p).zones@ && final(p).overflow == old(p).overflow + 1
                    } else {
                        final(p).zones@ == old(p).zones@.push(Zone { name: self.name, calls: 1, total: c, min: c, max: c })
                            && final(p).overflow == old(p).overflow
                    },
                }
            }),
    {
        if !self.active {
            return;
        }
        let elapsed = now.wrapping_sub(self.start);
        p.record(self.name, elapsed);
    }
}

} // verus!
