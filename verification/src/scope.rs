use vstd::prelude::*;
use crate::metrics::{is_snapshot_of, snapshot, wrap_sub, MemoryStats, Metrics, MetricsView};

verus! {

/// Bytes a scope must have allocated for its completion to be reported.
pub const SCOPE_REPORT_THRESHOLD: usize = 1048576;

/// Scoped memory tracking: the name of the scope, the statistics when it
/// was opened, and the id under which the metrics keep its high-water mark.
pub struct MemoryScope {
    name: String,
    start_stats: MemoryStats,
    id: u64,
}

/// Statistics for a memory scope
#[derive(Debug)]
pub struct ScopedStats {
    /// Scope name
    pub name: String,
    /// Total bytes allocated in this scope
    pub allocated: usize,
    /// Total bytes freed in this scope
    pub freed: usize,
    /// Peak memory usage in this scope: the highest current usage seen while
    /// it was open, above the usage when it opened
    pub peak_usage: usize,
    /// Number of allocations in this scope
    pub allocation_count: usize,
    /// Number of deallocations in this scope
    pub deallocation_count: usize,
}

/// Whether no counter of `m` is below its value in `start`: the counters have
/// not wrapped around since `start` was taken.
pub open spec fn counters_not_below(start: MemoryStats, m: MetricsView) -> bool {
    &&& start.total_allocated <= m.total_allocated
    &&& start.total_freed <= m.total_freed
    &&& start.allocation_count <= m.allocation_count
    &&& start.deallocation_count <= m.deallocation_count
}

/// The peak usage of a scope that opened at `start` and whose high-water mark
/// is `peak`: how far the highest usage rose above the usage at the start.
pub open spec fn peak_above(peak: usize, start: MemoryStats) -> usize {
    peak.saturating_sub(start.current_usage)
}

/// Whether `s` holds the growth of the counters from `start` to `m`.
pub open spec fn is_scope_delta(s: ScopedStats, start: MemoryStats, m: MetricsView) -> bool {
    &&& s.allocated == m.total_allocated - start.total_allocated
    &&& s.freed == m.total_freed - start.total_freed
    &&& s.allocation_count == m.allocation_count - start.allocation_count
    &&& s.deallocation_count == m.deallocation_count - start.deallocation_count
}

impl MemoryScope {
    /// The statistics at the start are balanced as the metrics' are: usage is
    /// allocated minus freed, modulo the word size.
    #[verifier::type_invariant]
    spec fn start_balanced(&self) -> bool {
        self.start_stats.current_usage == wrap_sub(
            self.start_stats.total_allocated,
            self.start_stats.total_freed,
        )
    }

    /// The id under which the metrics keep the scope's high-water mark.
    pub closed spec fn id_spec(&self) -> u64 {
        self.id
    }

    /// The id under which the metrics keep the scope's high-water mark.
    pub fn scope_id(&self) -> (id: u64)
        ensures
            id == self.id_spec(),
    {
        self.id
    }

    /// The scope's name.
    pub closed spec fn label(&self) -> Seq<char> {
        self.name@
    }

    /// The statistics when the scope was opened.
    pub closed spec fn start(&self) -> MemoryStats {
        self.start_stats
    }

    /// Create a new memory scope with the given name: it opens a scope in
    /// the metrics and takes a snapshot of their counters.
    pub fn new(name: String, metrics: &mut Metrics) -> (s: Self)
        requires
            old(metrics).wf(),
        ensures
            final(metrics).wf(),
            s.label() == name@,
            is_snapshot_of(s.start(), old(metrics)@),
            s.id_spec() == old(metrics)@.next_scope,
            final(metrics)@ == (MetricsView {
                scopes: old(metrics)@.scopes.insert(s.id_spec(), old(metrics)@.current_usage),
                next_scope: (if s.id_spec() == u64::MAX {
                    0
                } else {
                    (s.id_spec() + 1) as u64
                }),
                ..old(metrics)@
            }),
    {
        let id = metrics.open_scope();
        let start_stats = snapshot(metrics);
        Self { name, start_stats, id }
    }

    /// The statistics when the scope was opened.
    pub fn start_stats(&self) -> (s: MemoryStats)
        ensures
            s == self.start(),
    {
        self.start_stats
    }

    /// Get memory statistics for this scope: what was allocated and freed,
    /// and how often, since it was opened, and how far usage rose above its
    /// level at the start.
    pub fn stats(&self, metrics: &Metrics) -> (s: ScopedStats)
        requires
            metrics.wf(),
            counters_not_below(self.start(), metrics@),
            metrics@.scopes.contains_key(self.id_spec()),
        ensures
            s.name@ == self.label(),
            is_scope_delta(s, self.start(), metrics@),
            s.allocated == metrics@.total_allocated - self.start().total_allocated,
            s.freed == metrics@.total_freed - self.start().total_freed,
            s.allocation_count == metrics@.allocation_count - self.start().allocation_count,
            s.deallocation_count == metrics@.deallocation_count - self.start().deallocation_count,
            s.peak_usage == peak_above(metrics@.scopes[self.id_spec()], self.start()),
            s.peak_usage >= metrics@.current_usage - self.start().current_usage,
            self.start().total_freed <= self.start().total_allocated && metrics@.total_freed
                <= metrics@.total_allocated ==> s.peak_usage >= s.allocated - s.freed,
    {
        proof {
            use_type_invariant(self);
        }
        let current = snapshot(metrics);
        let peak = match metrics.scope_peak(self.id) {
            Some(p) => p,
            None => current.current_usage,
        };
        ScopedStats {
            name: self.name.clone(),
            allocated: current.total_allocated - self.start_stats.total_allocated,
            freed: current.total_freed - self.start_stats.total_freed,
            peak_usage: peak.saturating_sub(self.start_stats.current_usage),
            allocation_count: current.allocation_count - self.start_stats.allocation_count,
            deallocation_count: current.deallocation_count - self.start_stats.deallocation_count,
        }
    }
}

impl ScopedStats {
    /// Whether the scope's completion is worth reporting: more than 1MB was
    /// allocated in it.
    pub fn should_report(&self) -> (r: bool)
        ensures
            r == (self.allocated > SCOPE_REPORT_THRESHOLD),
    {
        self.allocated > SCOPE_REPORT_THRESHOLD
    }
}

/// A scope opened before an allocation of `size` bytes, with no other
/// operation in between, measures exactly that allocation (while the counters
/// do not wrap around).
pub proof fn lemma_scope_measures_allocation(start: MemoryStats, m: MetricsView, size: usize, stack_id: u64)
    requires
        is_snapshot_of(start, m),
        m.total_allocated + size <= usize::MAX,
        m.allocation_count + 1 <= usize::MAX,
    ensures
        ({
            let after = crate::metrics::after_allocation(m, size, stack_id);
            &&& counters_not_below(start, after)
            &&& after.total_allocated - start.total_allocated == size
            &&& after.allocation_count - start.allocation_count == 1
            &&& after.total_freed - start.total_freed == 0
            &&& after.deallocation_count - start.deallocation_count == 0
        }),
{
}

/// A scope opened before another sees at least what the other sees: an
/// outer scope's statistics include those of the scopes nested in it.
pub proof fn lemma_outer_scope_includes_inner(outer: MemoryStats, inner: MemoryStats, m: MetricsView)
    requires
        outer.total_allocated <= inner.total_allocated,
        outer.total_freed <= inner.total_freed,
        outer.allocation_count <= inner.allocation_count,
        outer.deallocation_count <= inner.deallocation_count,
        counters_not_below(inner, m),
    ensures
        counters_not_below(outer, m),
        m.total_allocated - outer.total_allocated >= m.total_allocated - inner.total_allocated,
        m.total_freed - outer.total_freed >= m.total_freed - inner.total_freed,
        m.allocation_count - outer.allocation_count >= m.allocation_count - inner.allocation_count,
        m.deallocation_count - outer.deallocation_count >= m.deallocation_count
            - inner.deallocation_count,
{
}

} // verus!
