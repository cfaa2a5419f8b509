use vstd::prelude::*;
use crate::metrics::{
    after_allocation, empty_site, site_after_alloc, after_deallocation, metadata_stored, recorded_trace_id,
    traces_after_record, wrap_add, AllocationMeta, Metrics, MetricsView,
};

verus! {

/// The backtrace settings that `init_tracker` installs, and the count of
/// sampling decisions made so far: one allocation in `sample_rate` has its
/// stack trace captured while capturing is enabled.
pub struct BacktraceSampler {
    /// Whether stack traces are captured at all
    pub enabled: bool,
    /// One in `sample_rate` sampling decisions captures a trace (0: none)
    pub sample_rate: usize,
    /// Number of sampling decisions made so far (wraps around)
    pub counter: usize,
}

/// Whether the next sampling decision of `s` captures a trace.
pub open spec fn samples_next(s: BacktraceSampler) -> bool {
    s.sample_rate != 0 && s.counter % s.sample_rate == 0
}

/// `s` after one sampling decision: the counter advances unless the rate is 0.
pub open spec fn after_decision(s: BacktraceSampler) -> BacktraceSampler {
    if s.sample_rate == 0 {
        s
    } else {
        BacktraceSampler { counter: wrap_add(s.counter, 1), ..s }
    }
}

/// `s` after a capture attempt: a decision is made only while enabled.
pub open spec fn after_capture_attempt(s: BacktraceSampler) -> BacktraceSampler {
    if s.enabled {
        after_decision(s)
    } else {
        s
    }
}

/// Whether a capture attempt with `s` is sampled.
pub open spec fn capture_sampled(s: BacktraceSampler) -> bool {
    s.enabled && samples_next(s)
}

impl BacktraceSampler {
    /// Capturing disabled, one in 100 allocations sampled once enabled.
    pub fn new() -> (s: Self)
        ensures
            s == (BacktraceSampler { enabled: false, sample_rate: 100, counter: 0 }),
    {
        BacktraceSampler { enabled: false, sample_rate: 100, counter: 0 }
    }

    /// Decide whether this allocation's stack trace is sampled: every
    /// `sample_rate`-th decision is, none where the rate is 0.
    pub fn should_sample_backtrace(&mut self) -> (sampled: bool)
        ensures
            sampled == samples_next(*old(self)),
            *final(self) == after_decision(*old(self)),
    {
        let sample_rate = self.sample_rate;
        if sample_rate == 0 {
            return false;
        }
        let index = self.counter;
        self.counter = self.counter.wrapping_add(1);
        index % sample_rate == 0
    }
}

/// `backtrace::Backtrace::new()`, rendered with its `Debug` format. The text
/// depends on the call stack at run time, so nothing is stated of it.
#[verifier::external_body]
fn capture_backtrace_text() -> String {
    format!("{:?}", backtrace::Backtrace::new())
}

/// The metrics and the stack id after a capture attempt that is `sampled`
/// (or not) and, where sampled, captures the trace text `key`.
pub open spec fn after_capture(m: MetricsView, sampled: bool, key: Seq<char>) -> (MetricsView, u64) {
    if sampled {
        (
            MetricsView { traces: traces_after_record(m.traces, key), ..m },
            recorded_trace_id(m.traces, key),
        )
    } else {
        (m, 0)
    }
}

/// Capture the current stack trace, if capturing is enabled and this
/// allocation is sampled, and return its id (0 for none, or where no more
/// traces can be recorded). The caller keeps the hooks from running for the
/// allocations that capturing makes.
pub fn capture_stack_id(sampler: &mut BacktraceSampler, metrics: &mut Metrics) -> (id: u64)
    requires
        old(metrics).wf(),
    ensures
        final(metrics).wf(),
        *final(sampler) == after_capture_attempt(*old(sampler)),
        exists|key: Seq<char>|
            (final(metrics)@, id) == #[trigger] after_capture(
                old(metrics)@,
                capture_sampled(*old(sampler)),
                key,
            ),
{
    if !sampler.enabled || !sampler.should_sample_backtrace() {
        assert((metrics@, 0u64) == after_capture(
            old(metrics)@,
            capture_sampled(*old(sampler)),
            Seq::empty(),
        ));
        return 0;
    }
    let key = capture_backtrace_text();
    let id = metrics.record_stack_trace(key);
    assert((metrics@, id) == after_capture(old(metrics)@, capture_sampled(*old(sampler)), key@));
    id
}

/// The metadata size of `meta`, or `size` where there is none.
pub open spec fn size_or(meta: Option<AllocationMeta>, size: usize) -> usize {
    match meta {
        Some(m) => m.size,
        None => size,
    }
}

/// The stack id of `meta`, or 0 where there is none.
pub open spec fn stack_id_of(meta: Option<AllocationMeta>) -> u64 {
    match meta {
        Some(m) => m.stack_id,
        None => 0,
    }
}

/// The metadata stored for `ptr` in `m`, if any.
pub open spec fn stored_meta(m: MetricsView, ptr: usize) -> Option<AllocationMeta> {
    if m.active.contains_key(ptr) {
        Some(m.active[ptr])
    } else {
        None
    }
}

/// The metrics after the deallocation hook for `ptr` of `size` bytes: the
/// pointer's metadata is taken, and its size and stack id, where it has
/// metadata, are what is recorded.
pub open spec fn after_dealloc_hook(m: MetricsView, ptr: usize, size: usize) -> MetricsView {
    let meta = stored_meta(m, ptr);
    after_deallocation(
        MetricsView { active: m.active.remove(ptr), ..m },
        size_or(meta, size),
        stack_id_of(meta),
    )
}

/// The metrics after an allocation of `size` bytes at `ptr` attributed to
/// `stack_id`: the attribution is kept only where its metadata is stored.
pub open spec fn after_attributed_allocation(m: MetricsView, ptr: usize, size: usize, stack_id: u64) -> MetricsView {
    let meta = AllocationMeta { size, stack_id };
    if stack_id != 0 && metadata_stored(m.active, ptr, meta) {
        after_allocation(MetricsView { active: m.active.insert(ptr, meta), ..m }, size, stack_id)
    } else {
        after_allocation(m, size, 0)
    }
}

/// The metrics after the allocation hook for `size` bytes at `ptr`, where
/// the capture attempt is `sampled` (or not) and captures `key`: the
/// allocation is attributed to the captured trace where one was recorded and
/// its metadata can be stored.
pub open spec fn after_alloc_hook(m: MetricsView, sampled: bool, key: Seq<char>, ptr: usize, size: usize) -> MetricsView {
    let (m1, id) = after_capture(m, sampled, key);
    after_attributed_allocation(m1, ptr, size, id)
}

/// The metrics after the reallocation hook: a deallocation of the old
/// pointer, then an allocation at the new one, attributed to the old
/// pointer's stack id where it has metadata, else to a trace captured as in
/// the allocation hook.
pub open spec fn after_realloc_hook(
    m: MetricsView,
    old_ptr: usize,
    new_ptr: usize,
    old_size: usize,
    new_size: usize,
    sampled: bool,
    key: Seq<char>,
) -> MetricsView {
    let meta = stored_meta(m, old_ptr);
    let m1 = after_dealloc_hook(m, old_ptr, old_size);
    let (m2, id) = match meta {
        Some(md) => (m1, md.stack_id),
        None => after_capture(m1, sampled, key),
    };
    after_attributed_allocation(m2, new_ptr, new_size, id)
}

/// Generic allocator wrapper that tracks allocations for any underlying
/// allocator. The hooks below hold the bookkeeping that the wrapper runs for
/// each allocation event; the caller keeps them from running again for the
/// allocations they make themselves (capturing a stack trace allocates).
pub struct TrackingAllocator<A> {
    inner: A,
}

impl<A> TrackingAllocator<A> {
    /// The wrapped allocator.
    pub closed spec fn wrapped(&self) -> A {
        self.inner
    }

    /// Create a new tracking allocator wrapping the given allocator
    pub fn new(inner: A) -> (t: Self)
        ensures
            t.wrapped() == inner,
    {
        Self { inner }
    }

    /// The wrapped allocator.
    pub fn inner(&self) -> (a: &A)
        ensures
            *a == self.wrapped(),
    {
        &self.inner
    }

    /// Track an allocation of `size` bytes at `ptr`: make the sampling
    /// decision, capture the stack trace where sampled, attribute the
    /// allocation to it where its metadata can be stored, and count it.
    pub fn track_alloc(metrics: &mut Metrics, sampler: &mut BacktraceSampler, ptr: usize, size: usize)
        requires
            old(metrics).wf(),
        ensures
            final(metrics).wf(),
            *final(sampler) == after_capture_attempt(*old(sampler)),
            exists|key: Seq<char>|
                final(metrics)@ == after_alloc_hook(
                    old(metrics)@,
                    capture_sampled(*old(sampler)),
                    key,
                    ptr,
                    size,
                ),
            !capture_sampled(*old(sampler)) ==> final(metrics)@ == after_allocation(old(metrics)@, size, 0),
    {
        let ghost m0 = metrics@;
        let ghost sampled = capture_sampled(*sampler);
        let mut stack_id = capture_stack_id(sampler, metrics);
        let ghost key = choose|key: Seq<char>| (metrics@, stack_id) == after_capture(m0, sampled, key);
        if stack_id != 0 {
            let meta = AllocationMeta { size, stack_id };
            let stored = metrics.store_allocation_metadata(ptr, meta);
            if !stored {
                stack_id = 0;
            }
        }
        metrics.record_allocation(size, stack_id);
        assert(metrics@ == after_alloc_hook(m0, sampled, key, ptr, size));
    }

    /// Track a deallocation of `size` bytes at `ptr`, using the size and
    /// call site stored for the pointer where it has metadata.
    pub fn track_dealloc(metrics: &mut Metrics, ptr: usize, size: usize)
        requires
            old(metrics).wf(),
        ensures
            final(metrics).wf(),
            final(metrics)@ == after_dealloc_hook(old(metrics)@, ptr, size),
    {
        let metadata = metrics.take_allocation_metadata(ptr);
        let dealloc_size = match metadata {
            Some(m) => m.size,
            None => size,
        };
        let stack_id = match metadata {
            Some(m) => m.stack_id,
            None => 0,
        };
        metrics.record_deallocation(dealloc_size, stack_id);
    }

    /// Track a reallocation as a deallocation of the old pointer and an
    /// allocation at the new pointer. The new allocation keeps the old one's
    /// call site; where the old one had none, it is attributed as a fresh
    /// allocation would be.
    pub fn track_realloc(
        metrics: &mut Metrics,
        sampler: &mut BacktraceSampler,
        old_ptr: usize,
        new_ptr: usize,
        old_size: usize,
        new_size: usize,
    )
        requires
            old(metrics).wf(),
        ensures
            final(metrics).wf(),
            *final(sampler) == if stored_meta(old(metrics)@, old_ptr) is Some {
                *old(sampler)
            } else {
                after_capture_attempt(*old(sampler))
            },
            exists|key: Seq<char>|
                final(metrics)@ == after_realloc_hook(
                    old(metrics)@,
                    old_ptr,
                    new_ptr,
                    old_size,
                    new_size,
                    capture_sampled(*old(sampler)),
                    key,
                ),
    {
        let ghost m0 = metrics@;
        let ghost sampled = capture_sampled(*sampler);
        let old_meta = metrics.take_allocation_metadata(old_ptr);
        let old_dealloc_size = match old_meta {
            Some(m) => m.size,
            None => old_size,
        };
        let old_stack_id = match old_meta {
            Some(m) => m.stack_id,
            None => 0,
        };
        metrics.record_deallocation(old_dealloc_size, old_stack_id);
        let ghost m1 = metrics@;
        let mut stack_id = match old_meta {
            Some(m) => m.stack_id,
            None => capture_stack_id(sampler, metrics),
        };
        let ghost key = choose|key: Seq<char>| (metrics@, stack_id) == after_capture(m1, sampled, key);
        if stack_id != 0 {
            let meta = AllocationMeta { size: new_size, stack_id };
            let stored = metrics.store_allocation_metadata(new_ptr, meta);
            if !stored {
                stack_id = 0;
            }
        }
        metrics.record_allocation(new_size, stack_id);
        assert(metrics@ == after_realloc_hook(m0, old_ptr, new_ptr, old_size, new_size, sampled, key));
    }
}

/// Freeing a fresh allocation through the hooks undoes it: after the
/// allocation hook and then the deallocation hook for the same pointer and
/// size, the current usage and the stored metadata are as before, and one
/// allocation and one deallocation of `size` bytes are counted.
pub proof fn lemma_dealloc_hook_undoes_alloc_hook(
    m: MetricsView,
    sampled: bool,
    key: Seq<char>,
    ptr: usize,
    size: usize,
)
    requires
        !m.active.contains_key(ptr),
    ensures
        ({
            let after = after_dealloc_hook(after_alloc_hook(m, sampled, key, ptr, size), ptr, size);
            &&& after.current_usage == m.current_usage
            &&& after.active == m.active
            &&& after.traces == after_capture(m, sampled, key).0.traces
            &&& after.total_allocated == wrap_add(m.total_allocated, size)
            &&& after.total_freed == wrap_add(m.total_freed, size)
            &&& after.allocation_count == wrap_add(m.allocation_count, 1)
            &&& after.deallocation_count == wrap_add(m.deallocation_count, 1)
        }),
{
    let (m1, id) = after_capture(m, sampled, key);
    let meta = AllocationMeta { size, stack_id: id };
    let mid = after_alloc_hook(m, sampled, key, ptr, size);
    if id != 0 && metadata_stored(m1.active, ptr, meta) {
        assert(mid.active == m.active.insert(ptr, meta));
        assert(mid.active.remove(ptr) =~= m.active);
    } else {
        assert(mid.active.remove(ptr) =~= m.active);
    }
}

/// With capturing sampled and the trace recorded, an allocation whose
/// metadata can be stored is attributed to its call site: the pointer's
/// metadata names the trace, and the site counts one more allocation of
/// `size` bytes.
pub proof fn lemma_sampled_allocation_is_attributed(m: MetricsView, key: Seq<char>, ptr: usize, size: usize)
    requires
        recorded_trace_id(m.traces, key) != 0,
        metadata_stored(
            m.active,
            ptr,
            AllocationMeta { size, stack_id: recorded_trace_id(m.traces, key) },
        ),
    ensures
        ({
            let id = recorded_trace_id(m.traces, key);
            let after = after_alloc_hook(m, true, key, ptr, size);
            let prev = if m.sites.contains_key(id) {
                m.sites[id]
            } else {
                empty_site()
            };
            &&& after.active.contains_key(ptr)
            &&& after.active[ptr] == (AllocationMeta { size, stack_id: id })
            &&& after.sites.contains_key(id)
            &&& after.sites[id] == site_after_alloc(prev, size)
        }),
{
}

/// Reallocating an allocation that has metadata moves its attribution: the
/// old pointer's metadata is gone and, where it can be stored, the new
/// pointer's names the same stack trace with the new size.
pub proof fn lemma_realloc_moves_attribution(
    m: MetricsView,
    old_ptr: usize,
    new_ptr: usize,
    old_size: usize,
    new_size: usize,
    sampled: bool,
    key: Seq<char>,
)
    requires
        m.active.contains_key(old_ptr),
        m.active[old_ptr].stack_id != 0,
        old_ptr != new_ptr,
    ensures
        ({
            let after = after_realloc_hook(m, old_ptr, new_ptr, old_size, new_size, sampled, key);
            let meta = AllocationMeta { size: new_size, stack_id: m.active[old_ptr].stack_id };
            &&& !after.active.contains_key(old_ptr)
            &&& metadata_stored(m.active.remove(old_ptr), new_ptr, meta) ==> after.active.contains_key(new_ptr)
                && after.active[new_ptr] == meta
        }),
{
}

/// The outcomes of `k` consecutive sampling decisions starting from `s`.
pub open spec fn decisions(s: BacktraceSampler, k: nat) -> Seq<bool>
    decreases k,
{
    if k == 0 {
        Seq::empty()
    } else {
        seq![samples_next(s)] + decisions(after_decision(s), (k - 1) as nat)
    }
}

/// While the counter does not wrap, the `i`-th of consecutive decisions
/// samples exactly when the counter then is a multiple of the rate.
pub proof fn lemma_decisions_follow_counter(s: BacktraceSampler, k: nat)
    requires
        s.sample_rate > 0,
        s.counter + k <= usize::MAX,
    ensures
        decisions(s, k).len() == k,
        forall|i: int| 0 <= i < k ==> #[trigger] decisions(s, k)[i] == ((s.counter + i) % (s.sample_rate as int) == 0),
    decreases k,
{
    if k > 0 {
        let next = after_decision(s);
        lemma_decisions_follow_counter(next, (k - 1) as nat);
        assert forall|i: int| 0 <= i < k implies #[trigger] decisions(s, k)[i] == ((s.counter + i) % (
        s.sample_rate as int) == 0) by {
            if i > 0 {
                assert(decisions(s, k)[i] == decisions(next, (k - 1) as nat)[i - 1]);
            }
        }
    }
}

spec fn lands_on_multiple(c: int, r: int, i: int) -> bool {
    (c + i) % r == 0
}

proof fn lemma_one_multiple_in_window(c: int, r: int)
    requires
        c >= 0,
        r > 0,
    ensures
        ({
            let j = (r - c % r) % r;
            &&& 0 <= j < r
            &&& (c + j) % r == 0
            &&& forall|i: int| 0 <= i < r && i != j ==> !#[trigger] lands_on_multiple(c, r, i)
        }),
{
    let j = (r - c % r) % r;
    vstd::arithmetic::div_mod::lemma_fundamental_div_mod(c, r);
    assert(0 <= c % r < r) by (nonlinear_arith)
        requires
            r > 0,
    ;
    assert((c + j) % r == 0) by (nonlinear_arith)
        requires
            r > 0,
            0 <= c % r < r,
            j == (r - c % r) % r,
            c == r * (c / r) + c % r,
    {
        if c % r == 0 {
            assert(j == 0);
        } else {
            assert(j == r - c % r);
            assert(c + j == r * (c / r + 1));
        }
    }
    assert forall|i: int| 0 <= i < r && i != j implies !#[trigger] lands_on_multiple(c, r, i) by {
        if (c + i) % r == 0 {
            vstd::arithmetic::div_mod::lemma_fundamental_div_mod(c + i, r);
            vstd::arithmetic::div_mod::lemma_fundamental_div_mod(c + j, r);
            assert(false) by (nonlinear_arith)
                requires
                    r > 0,
                    0 <= i < r,
                    0 <= j < r,
                    i != j,
                    (c + i) % r == 0,
                    (c + j) % r == 0,
                    c + i == r * ((c + i) / r) + (c + i) % r,
                    c + j == r * ((c + j) / r) + (c + j) % r,
            ;
        }
    }
}

/// One in `sample_rate` allocations is sampled: of any `sample_rate`
/// consecutive decisions (while the counter does not wrap), exactly one
/// samples.
pub proof fn lemma_one_in_rate_sampled(s: BacktraceSampler)
    requires
        s.sample_rate > 0,
        s.counter + s.sample_rate <= usize::MAX,
    ensures
        exists|j: int|
            0 <= j < s.sample_rate && #[trigger] decisions(s, s.sample_rate as nat)[j] && forall|i: int|
                0 <= i < s.sample_rate && i != j ==> !decisions(s, s.sample_rate as nat)[i],
{
    let r = s.sample_rate as int;
    let d = decisions(s, s.sample_rate as nat);
    lemma_decisions_follow_counter(s, s.sample_rate as nat);
    lemma_one_multiple_in_window(s.counter as int, r);
    let j = (r - (s.counter as int) % r) % r;
    assert(d[j]);
    assert forall|i: int| 0 <= i < r && i != j implies !d[i] by {
        assert(d[i] == ((s.counter + i) % r == 0));
        assert(!lands_on_multiple(s.counter as int, r, i));
    }
}

/// Total size of the live allocations in `live` (pairs of address and size).
pub open spec fn live_bytes(live: Seq<(usize, usize)>) -> int
    decreases live.len(),
{
    if live.len() == 0 {
        0
    } else {
        live_bytes(live.drop_last()) + live.last().1
    }
}

/// Whether no two live allocations in `live` share an address.
pub open spec fn distinct_addresses(live: Seq<(usize, usize)>) -> bool {
    forall|a: int, b: int| 0 <= a < b < live.len() ==> live[a].0 != live[b].0
}

/// Whether `ptr` is the address of no live allocation in `live`.
pub open spec fn is_fresh(live: Seq<(usize, usize)>, ptr: usize) -> bool {
    forall|i: int| 0 <= i < live.len() ==> live[i].0 != ptr
}

/// Whether the metrics account for exactly the live allocations `live`:
/// every byte allocated is either freed or live (with no wrap-around), and
/// the stored metadata of an address gives the size it was allocated with.
pub open spec fn accounts_for(m: MetricsView, live: Seq<(usize, usize)>) -> bool {
    &&& distinct_addresses(live)
    &&& m.total_freed + live_bytes(live) == m.total_allocated
    &&& forall|p: usize| #[trigger] m.active.contains_key(p) ==> live.contains((p, m.active[p].size))
}

proof fn lemma_live_bytes_remove(live: Seq<(usize, usize)>, i: int)
    requires
        0 <= i < live.len(),
    ensures
        live_bytes(live.remove(i)) == live_bytes(live) - live[i].1,
        live_bytes(live) >= live[i].1,
    decreases live.len(),
{
    if i == live.len() - 1 {
        assert(live.remove(i) =~= live.drop_last());
        lemma_live_bytes_nonnegative(live.drop_last());
    } else {
        let shorter = live.drop_last();
        lemma_live_bytes_remove(shorter, i);
        assert(live.remove(i).drop_last() =~= shorter.remove(i));
        assert(live.remove(i).last() == live.last());
    }
}

proof fn lemma_live_bytes_nonnegative(live: Seq<(usize, usize)>)
    ensures
        live_bytes(live) >= 0,
    decreases live.len(),
{
    if live.len() > 0 {
        lemma_live_bytes_nonnegative(live.drop_last());
    }
}

/// Fresh metrics account for no live allocations.
pub proof fn lemma_new_metrics_account_for_nothing(m: MetricsView)
    requires
        m.total_allocated == 0,
        m.total_freed == 0,
        m.active == Map::<usize, AllocationMeta>::empty(),
    ensures
        accounts_for(m, Seq::empty()),
{
}

proof fn lemma_attributed_allocation_accounts(
    m: MetricsView,
    live: Seq<(usize, usize)>,
    ptr: usize,
    size: usize,
    id: u64,
)
    requires
        accounts_for(m, live),
        is_fresh(live, ptr),
        m.total_allocated + size <= usize::MAX,
    ensures
        accounts_for(after_attributed_allocation(m, ptr, size, id), live.push((ptr, size))),
{
    let after = after_attributed_allocation(m, ptr, size, id);
    let next = live.push((ptr, size));
    assert(next.drop_last() =~= live);
    assert forall|p: usize| #[trigger] after.active.contains_key(p) implies next.contains(
        (p, after.active[p].size),
    ) by {
        if p == ptr && after.active != m.active {
            assert(next[live.len() as int] == (ptr, size));
        } else {
            assert(m.active.contains_key(p));
            assert(live.contains((p, m.active[p].size)));
            let i = choose|i: int| 0 <= i < live.len() && live[i] == (p, m.active[p].size);
            assert(next[i] == live[i]);
        }
    }
}

/// The allocation hook keeps the accounting: a fresh address of `size`
/// bytes joins the live allocations.
pub proof fn lemma_alloc_hook_accounts(
    m: MetricsView,
    live: Seq<(usize, usize)>,
    sampled: bool,
    key: Seq<char>,
    ptr: usize,
    size: usize,
)
    requires
        accounts_for(m, live),
        is_fresh(live, ptr),
        m.total_allocated + size <= usize::MAX,
    ensures
        accounts_for(after_alloc_hook(m, sampled, key, ptr, size), live.push((ptr, size))),
{
    let (m1, id) = after_capture(m, sampled, key);
    lemma_attributed_allocation_accounts(m1, live, ptr, size, id);
}

/// The deallocation hook keeps the accounting: freeing the live allocation
/// at index `i` with the size it was allocated with removes it from the live
/// allocations.
pub proof fn lemma_dealloc_hook_accounts(m: MetricsView, live: Seq<(usize, usize)>, i: int)
    requires
        accounts_for(m, live),
        0 <= i < live.len(),
    ensures
        accounts_for(after_dealloc_hook(m, live[i].0, live[i].1), live.remove(i)),
{
    let (ptr, size) = live[i];
    let after = after_dealloc_hook(m, ptr, size);
    let rest = live.remove(i);
    lemma_live_bytes_remove(live, i);
    if m.active.contains_key(ptr) {
        let j = choose|j: int| 0 <= j < live.len() && live[j] == (ptr, m.active[ptr].size);
        assert(j == i);
    }
    assert(m.total_freed + size <= usize::MAX);
    assert forall|a: int, b: int| 0 <= a < b < rest.len() implies rest[a].0 != rest[b].0 by {
        let a2 = if a < i { a } else { a + 1 };
        let b2 = if b < i { b } else { b + 1 };
        assert(rest[a] == live[a2] && rest[b] == live[b2]);
    }
    assert forall|p: usize| #[trigger] after.active.contains_key(p) implies rest.contains(
        (p, after.active[p].size),
    ) by {
        assert(m.active.contains_key(p) && p != ptr);
        assert(live.contains((p, m.active[p].size)));
        let j = choose|j: int| 0 <= j < live.len() && live[j] == (p, m.active[p].size);
        assert(j != i);
        let j2 = if j < i { j } else { j - 1 };
        assert(rest[j2] == live[j]);
    }
}

/// The reallocation hook keeps the accounting: the live allocation at index
/// `i` is replaced by one of `new_size` bytes at a fresh address (or the same
/// one).
pub proof fn lemma_realloc_hook_accounts(
    m: MetricsView,
    live: Seq<(usize, usize)>,
    i: int,
    new_ptr: usize,
    new_size: usize,
    sampled: bool,
    key: Seq<char>,
)
    requires
        accounts_for(m, live),
        0 <= i < live.len(),
        is_fresh(live.remove(i), new_ptr),
        m.total_allocated + new_size <= usize::MAX,
    ensures
        accounts_for(
            after_realloc_hook(m, live[i].0, new_ptr, live[i].1, new_size, sampled, key),
            live.remove(i).push((new_ptr, new_size)),
        ),
{
    let (ptr, size) = live[i];
    lemma_dealloc_hook_accounts(m, live, i);
    let m1 = after_dealloc_hook(m, ptr, size);
    let meta = stored_meta(m, ptr);
    let (m2, id) = match meta {
        Some(md) => (m1, md.stack_id),
        None => after_capture(m1, sampled, key),
    };
    lemma_attributed_allocation_accounts(m2, live.remove(i), new_ptr, new_size, id);
}

/// In metrics that account for their live allocations, no more has been
/// freed than allocated, and the current usage is exactly the allocated
/// bytes minus the freed ones: the bytes still live.
pub proof fn lemma_freed_never_exceeds_allocated(m: MetricsView, live: Seq<(usize, usize)>)
    requires
        m.wf(),
        accounts_for(m, live),
    ensures
        m.total_freed <= m.total_allocated,
        m.current_usage == m.total_allocated - m.total_freed,
        m.current_usage == live_bytes(live),
{
    lemma_live_bytes_nonnegative(live);
}

} // verus!
