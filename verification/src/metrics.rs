use std::collections::HashMap;
use vstd::prelude::*;
use vstd::string::StringExecFns;
use vstd::wrapping::usize_specs;
use vstd::std_specs::hash::spec_hash_map_iter;
use vstd::std_specs::iter::IteratorSpec;

verus! {

broadcast use vstd::std_specs::hash::group_hash_axioms;

/// Most distinct stack traces that the metrics keep.
pub const MAX_STACK_TRACES: usize = 1024;

/// Most allocations whose metadata the metrics keep at one time.
pub const MAX_ACTIVE_ALLOCATIONS: usize = 65536;

/// Custom error type for metrics operations
#[derive(Debug, Clone, Copy, PartialEq, Eq)]
pub enum MetricsError {
    MutexPoisoned,
    InvalidData,
}

/// What is remembered of a live allocation that was attributed to a stack
/// trace.
#[derive(Debug, Clone, Copy, PartialEq, Eq)]
pub struct AllocationMeta {
    /// Size of the allocation in bytes
    pub size: usize,
    /// Id of the stack trace that made it (never 0 once stored)
    pub stack_id: u64,
}

/// Statistics for allocation call sites
#[derive(Debug, Clone, Copy, PartialEq, Eq)]
pub struct AllocationStats {
    /// Total bytes allocated from this call site
    pub allocated: usize,
    /// Bytes allocated from this call site and not freed yet
    pub live_bytes: usize,
    /// Number of allocations from this call site
    pub alloc_count: usize,
    /// Number of deallocations of memory allocated from this call site
    pub dealloc_count: usize,
}

/// Global memory metrics: the counters that every allocation event updates,
/// and, for allocations attributed to stack traces, their metadata and the
/// per-call-site statistics.
pub struct Metrics {
    total_allocated: usize,
    total_freed: usize,
    current_usage: usize,
    allocation_count: usize,
    deallocation_count: usize,
    /// Metadata of sampled live allocations, by address
    active_allocations: HashMap<usize, AllocationMeta>,
    /// Distinct stack traces; the trace at index `i` has id `i + 1`
    stack_traces: Vec<String>,
    /// Per-call-site statistics, by stack id
    allocation_stats: HashMap<u64, AllocationStats>,
    /// Highest current usage seen by each open scope, by scope id
    scope_peaks: HashMap<u64, usize>,
    /// Id that the next opened scope gets
    next_scope_id: u64,
}

/// The abstract state of `Metrics`.
pub struct MetricsView {
    /// Total bytes allocated (wraps around like an atomic counter)
    pub total_allocated: usize,
    /// Total bytes freed (wraps around like an atomic counter)
    pub total_freed: usize,
    /// Current usage: allocated minus freed, modulo the word size
    pub current_usage: usize,
    /// Number of allocation operations
    pub allocation_count: usize,
    /// Number of deallocation operations
    pub deallocation_count: usize,
    /// Metadata of sampled live allocations, by address
    pub active: Map<usize, AllocationMeta>,
    /// The recorded stack traces; the one at index `i` has id `i + 1`
    pub traces: Seq<Seq<char>>,
    /// Per-call-site statistics, by stack id
    pub sites: Map<u64, AllocationStats>,
    /// Highest current usage seen since each open scope was opened, by scope id
    pub scopes: Map<u64, usize>,
    /// Id that the next opened scope gets
    pub next_scope: u64,
}

impl MetricsView {
    /// Current usage is allocated minus freed, modulo the word size.
    pub open spec fn usage_balanced(self) -> bool {
        self.current_usage == wrap_sub(self.total_allocated, self.total_freed)
    }

    /// The invariant of the metrics: usage is balanced, the tables are within
    /// their bounds, no stack trace is recorded twice, and no open scope has
    /// seen less than the current usage.
    pub open spec fn wf(self) -> bool {
        &&& self.usage_balanced()
        &&& self.active.dom().finite()
        &&& self.active.len() <= MAX_ACTIVE_ALLOCATIONS
        &&& self.traces.len() <= MAX_STACK_TRACES
        &&& self.traces.no_duplicates()
        &&& self.sites.dom().finite()
        &&& self.scopes.dom().finite()
        &&& forall|id: u64| #[trigger] self.scopes.contains_key(id) ==> self.scopes[id] >= self.current_usage
    }
}

/// `a + b` modulo the word size, as an atomic `fetch_add` computes it.
pub open spec fn wrap_add(a: usize, b: usize) -> usize {
    usize_specs::wrapping_add(a, b)
}

/// `a - b` modulo the word size, as an atomic `fetch_sub` computes it.
pub open spec fn wrap_sub(a: usize, b: usize) -> usize {
    usize_specs::wrapping_sub(a, b)
}

/// Statistics of a call site before its first allocation.
pub open spec fn empty_site() -> AllocationStats {
    AllocationStats { allocated: 0, live_bytes: 0, alloc_count: 0, dealloc_count: 0 }
}

/// A call site's statistics after an allocation of `size` bytes.
pub open spec fn site_after_alloc(s: AllocationStats, size: usize) -> AllocationStats {
    AllocationStats {
        allocated: wrap_add(s.allocated, size),
        live_bytes: s.live_bytes.saturating_add(size),
        alloc_count: wrap_add(s.alloc_count, 1),
        dealloc_count: s.dealloc_count,
    }
}

/// A call site's statistics after a deallocation of `size` bytes.
pub open spec fn site_after_dealloc(s: AllocationStats, size: usize) -> AllocationStats {
    AllocationStats {
        allocated: s.allocated,
        live_bytes: s.live_bytes.saturating_sub(size),
        alloc_count: s.alloc_count,
        dealloc_count: wrap_add(s.dealloc_count, 1),
    }
}

/// The per-site statistics after `record_allocation(size, stack_id)`.
pub open spec fn sites_after_alloc(
    sites: Map<u64, AllocationStats>,
    size: usize,
    stack_id: u64,
) -> Map<u64, AllocationStats> {
    if stack_id == 0 {
        sites
    } else {
        let prev = if sites.contains_key(stack_id) {
            sites[stack_id]
        } else {
            empty_site()
        };
        sites.insert(stack_id, site_after_alloc(prev, size))
    }
}

/// The per-site statistics after `record_deallocation(size, stack_id)`:
/// only a site that has statistics is updated.
pub open spec fn sites_after_dealloc(
    sites: Map<u64, AllocationStats>,
    size: usize,
    stack_id: u64,
) -> Map<u64, AllocationStats> {
    if stack_id != 0 && sites.contains_key(stack_id) {
        sites.insert(stack_id, site_after_dealloc(sites[stack_id], size))
    } else {
        sites
    }
}

/// The high-water mark `peak` after the current usage became `usage`.
pub open spec fn raised_peak(peak: usize, usage: usize) -> usize {
    if peak >= usage {
        peak
    } else {
        usage
    }
}

/// The scopes' high-water marks after the current usage became `usage`.
pub open spec fn raise_peaks(scopes: Map<u64, usize>, usage: usize) -> Map<u64, usize> {
    scopes.map_values(|peak: usize| raised_peak(peak, usage))
}

/// The metrics after `record_allocation(size, stack_id)`.
pub open spec fn after_allocation(m: MetricsView, size: usize, stack_id: u64) -> MetricsView {
    MetricsView {
        total_allocated: wrap_add(m.total_allocated, size),
        current_usage: wrap_add(m.current_usage, size),
        allocation_count: wrap_add(m.allocation_count, 1),
        sites: sites_after_alloc(m.sites, size, stack_id),
        scopes: raise_peaks(m.scopes, wrap_add(m.current_usage, size)),
        ..m
    }
}

/// The metrics after `record_deallocation(size, stack_id)`.
pub open spec fn after_deallocation(m: MetricsView, size: usize, stack_id: u64) -> MetricsView {
    MetricsView {
        total_freed: wrap_add(m.total_freed, size),
        current_usage: wrap_sub(m.current_usage, size),
        deallocation_count: wrap_add(m.deallocation_count, 1),
        sites: sites_after_dealloc(m.sites, size, stack_id),
        scopes: raise_peaks(m.scopes, wrap_sub(m.current_usage, size)),
        ..m
    }
}

/// The stack id that `record_stack_trace(key)` returns.
pub open spec fn recorded_trace_id(traces: Seq<Seq<char>>, key: Seq<char>) -> u64 {
    if traces.contains(key) {
        (traces.index_of(key) + 1) as u64
    } else if traces.len() >= MAX_STACK_TRACES {
        0
    } else {
        (traces.len() + 1) as u64
    }
}

/// The traces after `record_stack_trace(key)`.
pub open spec fn traces_after_record(traces: Seq<Seq<char>>, key: Seq<char>) -> Seq<Seq<char>> {
    if traces.contains(key) || traces.len() >= MAX_STACK_TRACES {
        traces
    } else {
        traces.push(key)
    }
}

/// Whether `store_allocation_metadata(ptr, meta)` stores the metadata.
pub open spec fn metadata_stored(active: Map<usize, AllocationMeta>, ptr: usize, meta: AllocationMeta) -> bool {
    meta.stack_id != 0 && (active.contains_key(ptr) || active.len() < MAX_ACTIVE_ALLOCATIONS)
}

/// Whether the text `t` is `expected`.
pub open spec fn text_matches(t: Option<String>, expected: Option<Seq<char>>) -> bool {
    match t {
        Some(s) => expected == Some(s@),
        None => expected is None,
    }
}

/// The text of the trace with id `id`, if there is one.
pub open spec fn trace_of(traces: Seq<Seq<char>>, id: u64) -> Option<Seq<char>> {
    if 1 <= id <= traces.len() {
        Some(traces[id - 1])
    } else {
        None
    }
}

/// Whether call site `a` ranks above call site `b` among the hotspots: more
/// live bytes first, and among equals the smaller stack id first.
pub open spec fn ranks_above(a: (u64, AllocationStats), b: (u64, AllocationStats)) -> bool {
    a.1.live_bytes > b.1.live_bytes || (a.1.live_bytes == b.1.live_bytes && a.0 < b.0)
}

/// The call sites and statistics of a hotspot list, without the traces.
pub open spec fn site_pairs(top: Seq<(u64, AllocationStats, Option<String>)>) -> Seq<(u64, AllocationStats)> {
    Seq::new(top.len(), |i: int| (top[i].0, top[i].1))
}

/// `top` lists the `limit` highest-ranked call sites of `sites` (all of them
/// where there are fewer), highest first.
pub open spec fn is_top_sites(
    sites: Map<u64, AllocationStats>,
    limit: usize,
    top: Seq<(u64, AllocationStats)>,
) -> bool {
    &&& top.len() == if limit < sites.len() {
        limit as int
    } else {
        sites.len() as int
    }
    &&& forall|a: int|
        0 <= a < top.len() ==> sites.contains_key(#[trigger] top[a].0) && sites[top[a].0] == top[a].1
    &&& forall|a: int, b: int| 0 <= a < b < top.len() ==> ranks_above(top[a], top[b])
    &&& forall|k: u64|
        #[trigger] sites.contains_key(k) && (forall|a: int| 0 <= a < top.len() ==> top[a].0 != k)
            ==> forall|a: int| 0 <= a < top.len() ==> ranks_above(top[a], (k, sites[k]))
}

impl View for Metrics {
    type V = MetricsView;

    closed spec fn view(&self) -> MetricsView {
        MetricsView {
            total_allocated: self.total_allocated,
            total_freed: self.total_freed,
            current_usage: self.current_usage,
            allocation_count: self.allocation_count,
            deallocation_count: self.deallocation_count,
            active: self.active_allocations@,
            traces: self.stack_traces@.map_values(|s: String| s@),
            sites: self.allocation_stats@,
            scopes: self.scope_peaks@,
            next_scope: self.next_scope_id,
        }
    }
}

impl Metrics {
    /// The invariant that every operation keeps.
    pub open spec fn wf(&self) -> bool {
        self@.wf()
    }

    /// Metrics with every counter at zero and empty tables.
    pub fn new() -> (m: Self)
        ensures
            m.wf(),
            m@ == (MetricsView {
                total_allocated: 0,
                total_freed: 0,
                current_usage: 0,
                allocation_count: 0,
                deallocation_count: 0,
                active: Map::empty(),
                traces: Seq::empty(),
                sites: Map::empty(),
                scopes: Map::empty(),
                next_scope: 0,
            }),
    {
        let m = Metrics {
            total_allocated: 0,
            total_freed: 0,
            current_usage: 0,
            allocation_count: 0,
            deallocation_count: 0,
            active_allocations: HashMap::new(),
            stack_traces: Vec::new(),
            allocation_stats: HashMap::new(),
            scope_peaks: HashMap::new(),
            next_scope_id: 0,
        };
        assert(m@.traces =~= Seq::<Seq<char>>::empty());
        m
    }

    /// Record an allocation of `size` bytes; a nonzero `stack_id` attributes
    /// it to that call site.
    pub fn record_allocation(&mut self, size: usize, stack_id: u64)
        requires
            old(self).wf(),
        ensures
            final(self).wf(),
            final(self)@ == after_allocation(old(self)@, size, stack_id),
            stack_id != 0 ==> ({
                let prev = if old(self)@.sites.contains_key(stack_id) {
                    old(self)@.sites[stack_id]
                } else {
                    empty_site()
                };
                let now = final(self)@.sites[stack_id];
                &&& final(self)@.sites.contains_key(stack_id)
                &&& prev.allocated + size <= usize::MAX ==> now.allocated == prev.allocated + size
                &&& prev.live_bytes + size <= usize::MAX ==> now.live_bytes == prev.live_bytes + size
                &&& prev.alloc_count < usize::MAX ==> now.alloc_count == prev.alloc_count + 1
                &&& now.dealloc_count == prev.dealloc_count
            }),
    {
        self.total_allocated = self.total_allocated.wrapping_add(size);
        self.current_usage = self.current_usage.wrapping_add(size);
        self.allocation_count = self.allocation_count.wrapping_add(1);
        raise_peaks_in(&mut self.scope_peaks, self.current_usage);
        if stack_id != 0 {
            let prev = match self.allocation_stats.get(&stack_id) {
                Some(s) => *s,
                None => AllocationStats { allocated: 0, live_bytes: 0, alloc_count: 0, dealloc_count: 0 },
            };
            let next = AllocationStats {
                allocated: prev.allocated.wrapping_add(size),
                live_bytes: prev.live_bytes.saturating_add(size),
                alloc_count: prev.alloc_count.wrapping_add(1),
                dealloc_count: prev.dealloc_count,
            };
            self.allocation_stats.insert(stack_id, next);
        }
    }

    /// Record a deallocation of `size` bytes; a nonzero `stack_id` that has
    /// statistics has them updated.
    pub fn record_deallocation(&mut self, size: usize, stack_id: u64)
        requires
            old(self).wf(),
        ensures
            final(self).wf(),
            final(self)@ == after_deallocation(old(self)@, size, stack_id),
            stack_id != 0 && old(self)@.sites.contains_key(stack_id) ==> ({
                let prev = old(self)@.sites[stack_id];
                let now = final(self)@.sites[stack_id];
                &&& final(self)@.sites.contains_key(stack_id)
                &&& now.allocated == prev.allocated
                &&& now.alloc_count == prev.alloc_count
                &&& now.live_bytes == (if prev.live_bytes >= size {
                    prev.live_bytes - size
                } else {
                    0
                })
                &&& prev.dealloc_count < usize::MAX ==> now.dealloc_count == prev.dealloc_count + 1
            }),
    {
        self.total_freed = self.total_freed.wrapping_add(size);
        self.current_usage = self.current_usage.wrapping_sub(size);
        self.deallocation_count = self.deallocation_count.wrapping_add(1);
        raise_peaks_in(&mut self.scope_peaks, self.current_usage);
        if stack_id != 0 {
            let found = match self.allocation_stats.get(&stack_id) {
                Some(s) => Some(*s),
                None => None,
            };
            if let Some(prev) = found {
                let next = AllocationStats {
                    allocated: prev.allocated,
                    live_bytes: prev.live_bytes.saturating_sub(size),
                    alloc_count: prev.alloc_count,
                    dealloc_count: prev.dealloc_count.wrapping_add(1),
                };
                self.allocation_stats.insert(stack_id, next);
            }
        }
    }

    /// Record a stack trace and return its id: the id it already has, a new
    /// nonzero id while fewer than `MAX_STACK_TRACES` are recorded, else 0.
    pub fn record_stack_trace(&mut self, key: String) -> (id: u64)
        requires
            old(self).wf(),
        ensures
            final(self).wf(),
            id == recorded_trace_id(old(self)@.traces, key@),
            final(self)@ == (MetricsView {
                traces: traces_after_record(old(self)@.traces, key@),
                ..old(self)@
            }),
    {
        let ghost traces = self@.traces;
        let n: usize = self.stack_traces.len();
        let mut i: usize = 0;
        while i < n
            invariant
                n == self.stack_traces@.len(),
                traces == self@.traces,
                self.wf(),
                i <= n,
                forall|j: int| 0 <= j < i ==> traces[j] != key@,
            decreases n - i,
        {
            if self.stack_traces[i] == key {
                proof {
                    assert(traces[i as int] == key@);
                    assert(traces.contains(key@));
                    let j = traces.index_of(key@);
                    assert(0 <= j < traces.len() && traces[j] == key@);
                    assert(j == i as int);
                }
                return (i + 1) as u64;
            }
            i = i + 1;
        }
        assert(!traces.contains(key@));
        if n >= MAX_STACK_TRACES {
            return 0;
        }
        self.stack_traces.push(key);
        proof {
            assert(self@.traces =~= traces.push(key@));
            assert forall|a: int, b: int| 0 <= a < b < self@.traces.len() implies self@.traces[a]
                != self@.traces[b] by {
                if b == traces.len() {
                    assert(traces[a] != key@);
                }
            }
        }
        (n + 1) as u64
    }

    /// Store metadata for the allocation at `ptr`. Only metadata that names
    /// a stack trace is stored, and only while the table has room or already
    /// holds `ptr`; the result says whether it was stored.
    pub fn store_allocation_metadata(&mut self, ptr: usize, meta: AllocationMeta) -> (stored: bool)
        requires
            old(self).wf(),
        ensures
            final(self).wf(),
            stored == metadata_stored(old(self)@.active, ptr, meta),
            final(self)@ == (MetricsView {
                active: if stored {
                    old(self)@.active.insert(ptr, meta)
                } else {
                    old(self)@.active
                },
                ..old(self)@
            }),
    {
        if meta.stack_id == 0 {
            return false;
        }
        let known = self.active_allocations.contains_key(&ptr);
        if !known && self.active_allocations.len() >= MAX_ACTIVE_ALLOCATIONS {
            return false;
        }
        self.active_allocations.insert(ptr, meta);
        proof {
            if !known {
                assert(self@.active.len() == old(self)@.active.len() + 1);
            } else {
                assert(self@.active.dom() =~= old(self)@.active.dom());
            }
        }
        true
    }

    /// Remove and return the metadata stored for the allocation at `ptr`.
    pub fn take_allocation_metadata(&mut self, ptr: usize) -> (meta: Option<AllocationMeta>)
        requires
            old(self).wf(),
        ensures
            final(self).wf(),
            meta == (if old(self)@.active.contains_key(ptr) {
                Some(old(self)@.active[ptr])
            } else {
                None
            }),
            final(self)@ == (MetricsView { active: old(self)@.active.remove(ptr), ..old(self)@ }),
    {
        let r = self.active_allocations.remove(&ptr);
        proof {
            if old(self)@.active.contains_key(ptr) {
                assert(self@.active.len() == old(self)@.active.len() - 1);
            } else {
                assert(self@.active =~= old(self)@.active);
            }
        }
        r
    }

    /// The text of the stack trace with id `id`, if one is recorded.
    pub fn trace_for(&self, id: u64) -> (t: Option<String>)
        requires
            self.wf(),
        ensures
            text_matches(t, trace_of(self@.traces, id)),
    {
        if id >= 1 && id <= self.stack_traces.len() as u64 {
            Some(self.stack_traces[(id - 1) as usize].clone())
        } else {
            None
        }
    }

    /// Number of recorded stack traces.
    pub fn stack_trace_count(&self) -> (n: usize)
        requires
            self.wf(),
        ensures
            n == self@.traces.len(),
    {
        self.stack_traces.len()
    }

    /// Number of live allocations whose metadata is stored.
    pub fn active_allocation_count(&self) -> (n: usize)
        requires
            self.wf(),
        ensures
            n == self@.active.len(),
    {
        self.active_allocations.len()
    }

    /// The statistics of the call site with id `stack_id`, if it has any.
    pub fn site_stats(&self, stack_id: u64) -> (s: Option<AllocationStats>)
        requires
            self.wf(),
        ensures
            s == (if self@.sites.contains_key(stack_id) {
                Some(self@.sites[stack_id])
            } else {
                None
            }),
    {
        match self.allocation_stats.get(&stack_id) {
            Some(s) => Some(*s),
            None => None,
        }
    }

    /// The `limit` call sites with the most live bytes (all of them where
    /// there are fewer), highest first, each with the text of its stack
    /// trace where one is recorded for its id.
    pub fn top_allocation_stats(&self, limit: usize) -> (top: Vec<(u64, AllocationStats, Option<String>)>)
        requires
            self.wf(),
        ensures
            is_top_sites(self@.sites, limit, site_pairs(top@)),
            forall|a: int| 0 <= a < top.len() ==> self@.sites.contains_key(#[trigger] top@[a].0)
                && self@.sites[top@[a].0] == top@[a].1,
            forall|a: int, b: int|
                0 <= a < b < top.len() ==> (#[trigger] top@[a]).1.live_bytes >= (
                #[trigger] top@[b]).1.live_bytes && (top@[a].1.live_bytes == top@[b].1.live_bytes
                    ==> top@[a].0 < top@[b].0),
            forall|k: u64, a: int|
                #![trigger self@.sites[k], top@[a]]
                self@.sites.contains_key(k) && (forall|c: int| 0 <= c < top.len() ==> top@[c].0 != k)
                    && 0 <= a < top.len() ==> top@[a].1.live_bytes >= self@.sites[k].live_bytes && (
                top@[a].1.live_bytes == self@.sites[k].live_bytes ==> top@[a].0 < k),
            forall|a: int|
                0 <= a < top.len() ==> text_matches(
                    (#[trigger] top@[a]).2,
                    trace_of(self@.traces, top@[a].0),
                ),
    {
        let entries = map_entries(&self.allocation_stats);
        let ranked = top_ranked(&entries, limit);
        let mut top: Vec<(u64, AllocationStats, Option<String>)> = Vec::new();
        let mut i: usize = 0;
        while i < ranked.len()
            invariant
                self.wf(),
                i <= ranked.len(),
                top.len() == i,
                forall|a: int| 0 <= a < i ==> (#[trigger] top@[a]).0 == ranked@[a].0 && top@[a].1 == ranked@[a].1,
                forall|a: int|
                    0 <= a < i ==> text_matches(
                        (#[trigger] top@[a]).2,
                        trace_of(self@.traces, top@[a].0),
                    ),
            decreases ranked.len() - i,
        {
            let (id, stats) = ranked[i];
            let trace = self.trace_for(id);
            top.push((id, stats, trace));
            i = i + 1;
        }
        proof {
            let sites = self@.sites;
            let view = site_pairs(top@);
            assert(view =~= ranked@);
            assert(forall|a: int| 0 <= a < top.len() ==> view[a] == (top@[a].0, top@[a].1));
            assert forall|a: int| 0 <= a < view.len() implies sites.contains_key(#[trigger] view[a].0)
                && sites[view[a].0] == view[a].1 by {
                assert(entries@.contains(ranked@[a]));
                let j = choose|j: int| 0 <= j < entries.len() && entries@[j] == ranked@[a];
                assert(sites.contains_key(entries@[j].0));
            }
            assert forall|k: u64|
                #[trigger] sites.contains_key(k) && (forall|a: int| 0 <= a < view.len() ==> view[a].0 != k)
                implies forall|a: int| 0 <= a < view.len() ==> ranks_above(view[a], (k, sites[k])) by {
                assert(entries@.contains((k, sites[k])));
                let j = choose|j: int| 0 <= j < entries.len() && entries@[j] == (k, sites[k]);
                if ranked@.contains(entries@[j]) {
                    let a = choose|a: int| 0 <= a < ranked.len() && ranked@[a] == entries@[j];
                    assert(view[a].0 == k);
                } else {
                    assert(forall|a: int| 0 <= a < ranked.len() ==> ranks_above(ranked@[a], entries@[j]));
                }
            }
        }
        proof {
            lemma_hotspots_ordered_by_live_bytes(self@.sites, limit, site_pairs(top@));
            let view = site_pairs(top@);
            assert(forall|a: int| 0 <= a < top.len() ==> view[a] == (top@[a].0, top@[a].1));
            assert forall|k: u64, a: int|
                #![trigger self@.sites[k], top@[a]]
                self@.sites.contains_key(k) && (forall|c: int| 0 <= c < top.len() ==> top@[c].0 != k)
                    && 0 <= a < top.len() implies top@[a].1.live_bytes >= self@.sites[k].live_bytes
                && (top@[a].1.live_bytes == self@.sites[k].live_bytes ==> top@[a].0 < k) by {
                assert(forall|c: int| 0 <= c < view.len() ==> view[c].0 != k);
                assert(view[a] == (top@[a].0, top@[a].1));
            }
        }
        top
    }

    /// Open a scope: it gets the next scope id, and its high-water mark
    /// starts at the current usage.
    pub fn open_scope(&mut self) -> (id: u64)
        requires
            old(self).wf(),
        ensures
            final(self).wf(),
            id == old(self)@.next_scope,
            final(self)@ == (MetricsView {
                scopes: old(self)@.scopes.insert(id, old(self)@.current_usage),
                next_scope: (if id == u64::MAX { 0 } else { (id + 1) as u64 }),
                ..old(self)@
            }),
    {
        let id = self.next_scope_id;
        self.next_scope_id = self.next_scope_id.wrapping_add(1);
        self.scope_peaks.insert(id, self.current_usage);
        id
    }

    /// Close the scope with id `id`: its high-water mark is no longer kept.
    pub fn close_scope(&mut self, id: u64)
        requires
            old(self).wf(),
        ensures
            final(self).wf(),
            final(self)@ == (MetricsView { scopes: old(self)@.scopes.remove(id), ..old(self)@ }),
    {
        self.scope_peaks.remove(&id);
    }

    /// The highest current usage seen since the scope with id `id` opened,
    /// where that scope is open.
    pub fn scope_peak(&self, id: u64) -> (p: Option<usize>)
        requires
            self.wf(),
        ensures
            p == (if self@.scopes.contains_key(id) {
                Some(self@.scopes[id])
            } else {
                None
            }),
    {
        match self.scope_peaks.get(&id) {
            Some(p) => Some(*p),
            None => None,
        }
    }
}

/// The entries of `m` as a list of `(key, value)`, each key once, in no
/// particular order.
fn map_entries<V: Copy>(m: &HashMap<u64, V>) -> (v: Vec<(u64, V)>)
    ensures
        v.len() == m@.len(),
        forall|j: int|
            0 <= j < v.len() ==> m@.contains_key(#[trigger] v@[j].0) && m@[v@[j].0] == v@[j].1,
        forall|k: u64| #[trigger] m@.contains_key(k) ==> v@.contains((k, m@[k])),
        forall|a: int, b: int| 0 <= a < b < v.len() ==> v@[a].0 != v@[b].0,
{
    let mut v: Vec<(u64, V)> = Vec::new();
    for pair in it: m.iter()
        invariant
            v.len() == it.index(),
            forall|j: int| 0 <= j < v.len() ==> v@[j] == (*it.seq()[j].0, *it.seq()[j].1),
    {
        let (k, s) = pair;
        v.push((*k, *s));
    }
    proof {
        let r = spec_hash_map_iter(m).remaining();
        assert(v.len() == r.len());
        assert(r.no_duplicates());
        assert forall|k: u64| #[trigger] m@.contains_key(k) implies v@.contains((k, m@[k])) by {
            assert(r.contains((&k, &m@[k])));
            let j = choose|j: int| 0 <= j < r.len() && r[j] == (&k, &m@[k]);
            assert(v@[j] == (k, m@[k]));
        }
        assert forall|a: int, b: int| 0 <= a < b < v.len() implies v@[a].0 != v@[b].0 by {
            if v@[a].0 == v@[b].0 {
                assert(m@.contains_key(*r[a].0) && m@[*r[a].0] == *r[a].1);
                assert(m@.contains_key(*r[b].0) && m@[*r[b].0] == *r[b].1);
                assert(r[a] == r[b]);
            }
        }
    }
    v
}

/// Raise every high-water mark in `peaks` to at least `usage`.
fn raise_peaks_in(peaks: &mut HashMap<u64, usize>, usage: usize)
    ensures
        final(peaks)@ == raise_peaks(old(peaks)@, usage),
{
    let entries = map_entries(peaks);
    let ghost old_map = peaks@;
    let mut i: usize = 0;
    while i < entries.len()
        invariant
            old_map == old(peaks)@,
            i <= entries.len(),
            entries.len() == old_map.len(),
            forall|j: int|
                0 <= j < entries.len() ==> old_map.contains_key(#[trigger] entries@[j].0)
                    && old_map[entries@[j].0] == entries@[j].1,
            forall|k: u64| #[trigger] old_map.contains_key(k) ==> entries@.contains((k, old_map[k])),
            forall|a: int, b: int| 0 <= a < b < entries.len() ==> entries@[a].0 != entries@[b].0,
            peaks@.dom() == old_map.dom(),
            forall|j: int|
                0 <= j < i ==> peaks@[#[trigger] entries@[j].0] == raised_peak(entries@[j].1, usage),
            forall|j: int| i <= j < entries.len() ==> peaks@[#[trigger] entries@[j].0] == entries@[j].1,
        decreases entries.len() - i,
    {
        let (k, p) = entries[i];
        let raised = if p >= usage {
            p
        } else {
            usage
        };
        peaks.insert(k, raised);
        proof {
            assert(peaks@.dom() =~= old_map.dom());
        }
        i = i + 1;
    }
    proof {
        assert forall|k: u64| #[trigger] old_map.contains_key(k) implies peaks@[k] == raised_peak(
            old_map[k],
            usage,
        ) by {
            assert(entries@.contains((k, old_map[k])));
            let j = choose|j: int| 0 <= j < entries.len() && entries@[j] == (k, old_map[k]);
            assert(peaks@[entries@[j].0] == raised_peak(entries@[j].1, usage));
        }
        assert(peaks@ =~= raise_peaks(old_map, usage));
    }
}

fn ranks_above_exec(a: &(u64, AllocationStats), b: &(u64, AllocationStats)) -> (r: bool)
    ensures
        r == ranks_above(*a, *b),
{
    a.1.live_bytes > b.1.live_bytes || (a.1.live_bytes == b.1.live_bytes && a.0 < b.0)
}

/// The `limit` highest-ranked entries of `entries` (all of them where there
/// are fewer), highest first.
fn top_ranked(entries: &Vec<(u64, AllocationStats)>, limit: usize) -> (top: Vec<
    (u64, AllocationStats),
>)
    requires
        forall|a: int, b: int| 0 <= a < b < entries.len() ==> entries@[a].0 != entries@[b].0,
    ensures
        top.len() == if limit < entries.len() {
            limit as int
        } else {
            entries.len() as int
        },
        forall|a: int| 0 <= a < top.len() ==> entries@.contains(#[trigger] top@[a]),
        forall|a: int, b: int| 0 <= a < b < top.len() ==> ranks_above(top@[a], top@[b]),
        forall|j: int|
            0 <= j < entries.len() ==> top@.contains(#[trigger] entries@[j]) || (forall|a: int|
                0 <= a < top.len() ==> ranks_above(top@[a], entries@[j])),
{
    let mut top: Vec<(u64, AllocationStats)> = Vec::new();
    let mut i: usize = 0;
    while i < entries.len()
        invariant
            forall|a: int, b: int| 0 <= a < b < entries.len() ==> entries@[a].0 != entries@[b].0,
            i <= entries.len(),
            top.len() == if limit < i {
                limit as int
            } else {
                i as int
            },
            forall|a: int| 0 <= a < top.len() ==> entries@.subrange(0, i as int).contains(#[trigger] top@[a]),
            forall|a: int, b: int| 0 <= a < b < top.len() ==> ranks_above(top@[a], top@[b]),
            forall|j: int|
                0 <= j < i ==> top@.contains(#[trigger] entries@[j]) || (forall|a: int|
                    0 <= a < top.len() ==> ranks_above(top@[a], entries@[j])),
            top.len() < limit ==> forall|j: int| 0 <= j < i ==> top@.contains(#[trigger] entries@[j]),
        decreases entries.len() - i,
    {
        let e = entries[i];
        proof {
            assert forall|a: int| 0 <= a < top.len() implies top@[a].0 != e.0 by {
                assert(entries@.subrange(0, i as int).contains(top@[a]));
                let j = choose|j: int| 0 <= j < i && entries@.subrange(0, i as int)[j] == top@[a];
                assert(entries@[j] == top@[a]);
            }
        }
        let mut p: usize = 0;
        while p < top.len() && ranks_above_exec(&top[p], &e)
            invariant
                p <= top.len(),
                forall|a: int| 0 <= a < p ==> ranks_above(top@[a], e),
            decreases top.len() - p,
        {
            p = p + 1;
        }
        proof {
            if p < top.len() {
                assert(!ranks_above(top@[p as int], e));
                assert(top@[p as int].0 != e.0);
                assert(ranks_above(e, top@[p as int]));
                assert forall|a: int| p <= a < top.len() implies ranks_above(e, top@[a]) by {
                    if a > p {
                        assert(ranks_above(top@[p as int], top@[a]));
                    }
                }
            }
        }
        let ghost old_top = top@;
        if p < limit {
            top.insert(p, e);
            if top.len() > limit {
                top.pop();
            }
        }
        proof {
            if p < limit {
                let ins = old_top.insert(p as int, e);
                assert(ins[p as int] == e);
                assert(top@.contains(e)) by {
                    assert(top@[p as int] == e);
                }
                assert forall|j: int| 0 <= j <= i implies top@.contains(#[trigger] entries@[j])
                    || (forall|a: int| 0 <= a < top.len() ==> ranks_above(top@[a], entries@[j])) by {
                    if j < i {
                        if old_top.contains(entries@[j]) {
                            let b = choose|b: int| 0 <= b < old_top.len() && old_top[b] == entries@[j];
                            let b2 = if b < p { b } else { b + 1 };
                            assert(ins[b2] == entries@[j]);
                            if b2 < top.len() {
                                assert(top@[b2] == entries@[j]);
                            } else {
                                assert forall|a: int| 0 <= a < top.len() implies ranks_above(
                                    top@[a],
                                    entries@[j],
                                ) by {
                                    assert(top@[a] == ins[a]);
                                }
                            }
                        } else {
                            assert(old_top.len() == limit);
                            assert forall|a: int| 0 <= a < top.len() implies ranks_above(
                                top@[a],
                                entries@[j],
                            ) by {
                                assert(ranks_above(old_top[old_top.len() - 1], entries@[j]));
                                if top@[a] != e {
                                    let c = if a < p { a } else { a - 1 };
                                    assert(top@[a] == old_top[c]);
                                }
                            }
                        }
                    }
                }
                if top.len() < limit {
                    assert(old_top.len() < limit);
                    assert forall|j: int| 0 <= j <= i implies top@.contains(
                        #[trigger] entries@[j],
                    ) by {
                        if j < i {
                            assert(old_top.contains(entries@[j]));
                            let b = choose|b: int| 0 <= b < old_top.len() && old_top[b] == entries@[j];
                            let b2 = if b < p { b } else { b + 1 };
                            assert(top@[b2] == entries@[j]);
                        }
                    }
                }
            } else {
                assert(p == top.len());
            }
        }
        proof {
            let prefix = entries@.subrange(0, i as int);
            let next = entries@.subrange(0, i + 1);
            assert(next[i as int] == e);
            assert forall|a: int| 0 <= a < top.len() implies next.contains(#[trigger] top@[a]) by {
                if top@[a] == e {
                    assert(next[i as int] == top@[a]);
                } else {
                    assert(old_top.contains(top@[a]));
                    let b = choose|b: int| 0 <= b < old_top.len() && old_top[b] == top@[a];
                    assert(prefix.contains(old_top[b]));
                    let j = choose|j: int| 0 <= j < prefix.len() && prefix[j] == old_top[b];
                    assert(next[j] == top@[a]);
                }
            }
        }
        i = i + 1;
    }
    proof {
        assert(entries@.subrange(0, entries.len() as int) =~= entries@);
    }
    top
}

/// Memory statistics snapshot
#[derive(Debug, Clone, Copy, PartialEq, Eq)]
pub struct MemoryStats {
    /// Total bytes allocated since tracking started
    pub total_allocated: usize,
    /// Total bytes freed since tracking started
    pub total_freed: usize,
    /// Current memory usage (allocated - freed)
    pub current_usage: usize,
    /// Total number of allocation operations
    pub allocation_count: usize,
    /// Total number of deallocation operations
    pub deallocation_count: usize,
}

/// Whether `s` holds the counters of `m`.
pub open spec fn is_snapshot_of(s: MemoryStats, m: MetricsView) -> bool {
    &&& s.total_allocated == m.total_allocated
    &&& s.total_freed == m.total_freed
    &&& s.current_usage == m.current_usage
    &&& s.allocation_count == m.allocation_count
    &&& s.deallocation_count == m.deallocation_count
}

/// Take a snapshot of current memory statistics
pub fn snapshot(metrics: &Metrics) -> (s: MemoryStats)
    ensures
        is_snapshot_of(s, metrics@),
{
    MemoryStats {
        total_allocated: metrics.total_allocated,
        total_freed: metrics.total_freed,
        current_usage: metrics.current_usage,
        allocation_count: metrics.allocation_count,
        deallocation_count: metrics.deallocation_count,
    }
}

/// Per-thread memory statistics
#[derive(Debug)]
pub struct ThreadMemoryStats {
    /// Thread ID
    pub thread_id: String,
    /// Thread name
    pub thread_name: String,
    /// Bytes allocated by this thread
    pub allocated: usize,
    /// Bytes freed by this thread
    pub freed: usize,
    /// Current memory usage by this thread
    pub current_usage: usize,
    /// Allocation count for this thread
    pub allocation_count: usize,
    /// Deallocation count for this thread
    pub deallocation_count: usize,
    /// Thread uptime
    pub uptime_seconds: u64,
}

/// Whether `t` carries the global counters of `m` under the label `label`,
/// with no uptime.
pub open spec fn is_global_thread_stats(t: ThreadMemoryStats, m: MetricsView, label: Seq<char>) -> bool {
    &&& t.thread_id@ == label
    &&& t.thread_name@ == label
    &&& t.allocated == m.total_allocated
    &&& t.freed == m.total_freed
    &&& t.current_usage == m.current_usage
    &&& t.allocation_count == m.allocation_count
    &&& t.deallocation_count == m.deallocation_count
    &&& t.uptime_seconds == 0
}

fn global_thread_stats(metrics: &Metrics, label: &str) -> (t: ThreadMemoryStats)
    ensures
        is_global_thread_stats(t, metrics@, label@),
{
    ThreadMemoryStats {
        thread_id: String::from_str(label),
        thread_name: String::from_str(label),
        allocated: metrics.total_allocated,
        freed: metrics.total_freed,
        current_usage: metrics.current_usage,
        allocation_count: metrics.allocation_count,
        deallocation_count: metrics.deallocation_count,
        uptime_seconds: 0,
    }
}

/// Get memory statistics for all threads.
/// Per-thread tracking is not implemented: the result is the global
/// statistics as a single thread labelled "main".
pub fn thread_stats(metrics: &Metrics) -> (v: Vec<ThreadMemoryStats>)
    ensures
        v.len() == 1,
        is_global_thread_stats(v@[0], metrics@, "main"@),
{
    let mut v: Vec<ThreadMemoryStats> = Vec::new();
    v.push(global_thread_stats(metrics, "main"));
    v
}

/// Get current thread's memory statistics.
/// Per-thread tracking is not implemented: the result is the global
/// statistics labelled "current".
pub fn current_thread_stats(metrics: &Metrics) -> (t: ThreadMemoryStats)
    ensures
        is_global_thread_stats(t, metrics@, "current"@),
{
    global_thread_stats(metrics, "current")
}

/// In metrics that the operations have kept valid, the current usage is the
/// bytes allocated minus the bytes freed, modulo the word size; while no more
/// has been freed than allocated it is exactly that difference.
pub proof fn lemma_current_usage_is_allocated_minus_freed(m: MetricsView)
    requires
        m.wf(),
    ensures
        m.current_usage == wrap_sub(m.total_allocated, m.total_freed),
        m.total_freed <= m.total_allocated ==> m.current_usage == m.total_allocated - m.total_freed,
{
}

/// Freeing what an allocation took, at the same call site, restores the
/// current usage; the call site's live bytes are restored too unless adding
/// the allocation saturated them. Each operation is counted once.
pub proof fn lemma_deallocation_undoes_allocation(m: MetricsView, size: usize, stack_id: u64)
    ensures
        ({
            let after = after_deallocation(after_allocation(m, size, stack_id), size, stack_id);
            &&& after.current_usage == m.current_usage
            &&& after.total_allocated == wrap_add(m.total_allocated, size)
            &&& after.total_freed == wrap_add(m.total_freed, size)
            &&& after.allocation_count == wrap_add(m.allocation_count, 1)
            &&& after.deallocation_count == wrap_add(m.deallocation_count, 1)
            &&& after.active == m.active
            &&& after.traces == m.traces
            &&& stack_id == 0 ==> after.sites == m.sites
            &&& stack_id != 0 ==> {
                let prev = if m.sites.contains_key(stack_id) {
                    m.sites[stack_id]
                } else {
                    empty_site()
                };
                &&& after.sites.contains_key(stack_id)
                &&& prev.live_bytes + size <= usize::MAX ==> after.sites[stack_id].live_bytes
                    == prev.live_bytes
                &&& after.sites[stack_id].alloc_count == wrap_add(prev.alloc_count, 1)
                &&& after.sites[stack_id].dealloc_count == wrap_add(prev.dealloc_count, 1)
                &&& after.sites.remove(stack_id) == m.sites.remove(stack_id)
            }
        }),
{
    let mid = after_allocation(m, size, stack_id);
    let after = after_deallocation(mid, size, stack_id);
    if stack_id != 0 {
        assert(after.sites.remove(stack_id) =~= m.sites.remove(stack_id));
    }
}

/// A recorded trace keeps its id: recording it again returns the same id and
/// changes nothing.
pub proof fn lemma_recording_a_trace_twice(traces: Seq<Seq<char>>, key: Seq<char>)
    requires
        traces.no_duplicates(),
        traces.len() <= MAX_STACK_TRACES,
    ensures
        recorded_trace_id(traces_after_record(traces, key), key) == recorded_trace_id(traces, key),
        traces_after_record(traces_after_record(traces, key), key) == traces_after_record(traces, key),
{
    let t1 = traces_after_record(traces, key);
    if !traces.contains(key) && traces.len() < MAX_STACK_TRACES {
        assert(t1[traces.len() as int] == key);
        assert(t1.contains(key));
        let j = t1.index_of(key);
        assert(0 <= j < t1.len() && t1[j] == key);
        assert(j == traces.len() as int);
    }
}

/// A nonzero id that recording a trace returns names that trace.
pub proof fn lemma_recorded_id_names_trace(traces: Seq<Seq<char>>, key: Seq<char>)
    requires
        traces.len() <= MAX_STACK_TRACES,
        recorded_trace_id(traces, key) != 0,
    ensures
        trace_of(traces_after_record(traces, key), recorded_trace_id(traces, key)) == Some(key),
{
    if traces.contains(key) {
        let j = traces.index_of(key);
        assert(0 <= j < traces.len() && traces[j] == key);
    }
}

/// The hotspots are ordered by live bytes: each listed site holds at least
/// as many live bytes as every site listed after it and every site not
/// listed, and among sites holding the same, the smaller stack id comes
/// first.
pub proof fn lemma_hotspots_ordered_by_live_bytes(
    sites: Map<u64, AllocationStats>,
    limit: usize,
    top: Seq<(u64, AllocationStats)>,
)
    requires
        is_top_sites(sites, limit, top),
    ensures
        forall|a: int, b: int|
            0 <= a < b < top.len() ==> (#[trigger] top[a]).1.live_bytes >= (#[trigger] top[b]).1.live_bytes
                && (top[a].1.live_bytes == top[b].1.live_bytes ==> top[a].0 < top[b].0),
        forall|k: u64, a: int|
            #![trigger sites[k], top[a]]
            sites.contains_key(k) && (forall|c: int| 0 <= c < top.len() ==> top[c].0 != k) && 0 <= a
                < top.len() ==> top[a].1.live_bytes >= sites[k].live_bytes && (top[a].1.live_bytes
                == sites[k].live_bytes ==> top[a].0 < k),
{
    assert forall|a: int, b: int| 0 <= a < b < top.len() implies (#[trigger] top[a]).1.live_bytes
        >= (#[trigger] top[b]).1.live_bytes && (top[a].1.live_bytes == top[b].1.live_bytes ==> top[a].0
        < top[b].0) by {
        assert(ranks_above(top[a], top[b]));
    }
    assert forall|k: u64, a: int|
        #![trigger sites[k], top[a]]
        sites.contains_key(k) && (forall|c: int| 0 <= c < top.len() ==> top[c].0 != k) && 0 <= a
            < top.len() implies top[a].1.live_bytes >= sites[k].live_bytes && (top[a].1.live_bytes
        == sites[k].live_bytes ==> top[a].0 < k) by {
        assert(ranks_above(top[a], (k, sites[k])));
    }
}

/// A call site's `allocated` is the sum of the sizes of every allocation
/// recorded for it, whatever was freed in between: from no statistics, after
/// allocations of `a` and `b` bytes with a deallocation of `d` bytes between
/// them, it is `a + b`, with two allocations and one deallocation counted and
/// `a - d + b` bytes live where `d <= a`.
pub proof fn lemma_site_allocated_is_sum_of_allocations(
    m: MetricsView,
    a: usize,
    d: usize,
    b: usize,
    stack_id: u64,
)
    requires
        stack_id != 0,
        !m.sites.contains_key(stack_id),
        a + b <= usize::MAX,
    ensures
        ({
            let after = after_allocation(
                after_deallocation(after_allocation(m, a, stack_id), d, stack_id),
                b,
                stack_id,
            );
            let site = after.sites[stack_id];
            &&& after.sites.contains_key(stack_id)
            &&& site.allocated == a + b
            &&& site.alloc_count == 2
            &&& site.dealloc_count == 1
            &&& d <= a ==> site.live_bytes == a - d + b
        }),
{
}

/// Recording at one call site leaves every other call site's statistics as
/// they were.
pub proof fn lemma_other_sites_unchanged(m: MetricsView, size: usize, stack_id: u64, other: u64)
    requires
        other != stack_id,
    ensures
        after_allocation(m, size, stack_id).sites.contains_key(other) == m.sites.contains_key(other),
        after_deallocation(m, size, stack_id).sites.contains_key(other) == m.sites.contains_key(other),
        m.sites.contains_key(other) ==> after_allocation(m, size, stack_id).sites[other] == m.sites[other]
            && after_deallocation(m, size, stack_id).sites[other] == m.sites[other],
{
}

/// A trace not recorded yet gets the next id while there is room, counting
/// from 1, and is then the last recorded trace; with no room it gets 0 and
/// nothing is recorded. A recorded trace gets the id that names it.
pub proof fn lemma_trace_ids_count_from_one(traces: Seq<Seq<char>>, key: Seq<char>)
    requires
        traces.no_duplicates(),
        traces.len() <= MAX_STACK_TRACES,
    ensures
        !traces.contains(key) && traces.len() < MAX_STACK_TRACES ==> recorded_trace_id(traces, key)
            == traces.len() + 1 && traces_after_record(traces, key) == traces.push(key),
        !traces.contains(key) && traces.len() >= MAX_STACK_TRACES ==> recorded_trace_id(traces, key)
            == 0 && traces_after_record(traces, key) == traces,
        traces.contains(key) ==> recorded_trace_id(traces, key) >= 1 && traces[recorded_trace_id(
            traces,
            key,
        ) - 1] == key && traces_after_record(traces, key) == traces,
{
    if traces.contains(key) {
        let j = traces.index_of(key);
        assert(0 <= j < traces.len() && traces[j] == key);
    }
}

} // verus!
