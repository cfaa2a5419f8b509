use heap_sentry::allocator::{capture_stack_id, BacktraceSampler, TrackingAllocator};
use heap_sentry::metrics::{AllocationMeta, Metrics};
use heap_sentry::snapshot;

type Tracker = TrackingAllocator<()>;

#[test]
fn sampler_picks_one_in_rate() {
    let mut s = BacktraceSampler::new();
    assert!(!s.enabled);
    assert_eq!(s.sample_rate, 100);
    s.sample_rate = 3;
    let picks: Vec<bool> = (0..7).map(|_| s.should_sample_backtrace()).collect();
    assert_eq!(picks, vec![true, false, false, true, false, false, true]);
    assert_eq!(s.counter, 7);
    s.sample_rate = 0;
    assert!(!s.should_sample_backtrace());
    assert_eq!(s.counter, 7);
}

#[test]
fn capture_records_the_current_stack() {
    let mut metrics = Metrics::new();
    let mut s = BacktraceSampler { enabled: true, sample_rate: 1, counter: 0 };
    let id = capture_stack_id(&mut s, &mut metrics);
    assert_eq!(id, 1);
    assert_eq!(metrics.stack_trace_count(), 1);
    let text = metrics.trace_for(id).unwrap();
    assert!(!text.is_empty());
    assert_eq!(s.counter, 1);
}

#[test]
fn capture_needs_enabling_and_sampling() {
    let mut metrics = Metrics::new();
    let mut s = BacktraceSampler { enabled: true, sample_rate: 2, counter: 1 };
    assert_eq!(capture_stack_id(&mut s, &mut metrics), 0);
    assert_eq!(metrics.stack_trace_count(), 0);
    assert_eq!(s.counter, 2);
    let mut off = BacktraceSampler::new();
    assert_eq!(capture_stack_id(&mut off, &mut metrics), 0);
    assert_eq!(off.counter, 0);
}

#[test]
fn alloc_then_dealloc_hooks_restore_usage() {
    let mut metrics = Metrics::new();
    let mut s = BacktraceSampler { enabled: true, sample_rate: 2, counter: 1 };
    Tracker::track_alloc(&mut metrics, &mut s, 0x4000, 256);
    assert_eq!(s.counter, 2);
    assert_eq!(snapshot(&metrics).current_usage, 256);
    assert_eq!(metrics.active_allocation_count(), 0);
    Tracker::track_dealloc(&mut metrics, 0x4000, 256);
    let st = snapshot(&metrics);
    assert_eq!(st.current_usage, 0);
    assert_eq!(st.total_allocated, 256);
    assert_eq!(st.total_freed, 256);
    assert_eq!(st.allocation_count, 1);
    assert_eq!(st.deallocation_count, 1);
}

#[test]
fn sampled_allocations_are_attributed() {
    let mut metrics = Metrics::new();
    let mut s = BacktraceSampler { enabled: true, sample_rate: 1, counter: 0 };
    Tracker::track_alloc(&mut metrics, &mut s, 0x4000, 256);
    assert_eq!(metrics.stack_trace_count(), 1);
    assert_eq!(metrics.active_allocation_count(), 1);
    let site = metrics.site_stats(1).expect("the allocation is attributed to its call site");
    assert_eq!(site.live_bytes, 256);
    assert_eq!(site.alloc_count, 1);
    Tracker::track_dealloc(&mut metrics, 0x4000, 256);
    assert_eq!(metrics.active_allocation_count(), 0);
    let site = metrics.site_stats(1).unwrap();
    assert_eq!(site.live_bytes, 0);
    assert_eq!(site.dealloc_count, 1);
    assert_eq!(snapshot(&metrics).current_usage, 0);
}

#[test]
fn dealloc_hook_uses_stored_metadata() {
    let mut metrics = Metrics::new();
    assert!(metrics.store_allocation_metadata(0x5000, AllocationMeta { size: 40, stack_id: 9 }));
    metrics.record_allocation(40, 9);
    Tracker::track_dealloc(&mut metrics, 0x5000, 999);
    let st = snapshot(&metrics);
    assert_eq!(st.total_freed, 40);
    assert_eq!(st.current_usage, 0);
    let site = metrics.site_stats(9).unwrap();
    assert_eq!(site.live_bytes, 0);
    assert_eq!(site.dealloc_count, 1);
    assert_eq!(metrics.active_allocation_count(), 0);
}

#[test]
fn realloc_hook_moves_attribution() {
    let mut metrics = Metrics::new();
    let mut s = BacktraceSampler { enabled: true, sample_rate: 1, counter: 0 };
    assert!(metrics.store_allocation_metadata(0x6000, AllocationMeta { size: 16, stack_id: 4 }));
    metrics.record_allocation(16, 4);
    Tracker::track_realloc(&mut metrics, &mut s, 0x6000, 0x7000, 16, 64);
    assert_eq!(s.counter, 0);
    assert_eq!(metrics.take_allocation_metadata(0x6000), None);
    assert_eq!(metrics.take_allocation_metadata(0x7000), Some(AllocationMeta { size: 64, stack_id: 4 }));
    let site = metrics.site_stats(4).unwrap();
    assert_eq!(site.live_bytes, 64);
    assert_eq!(site.alloc_count, 2);
    assert_eq!(site.dealloc_count, 1);
    let st = snapshot(&metrics);
    assert_eq!(st.current_usage, 64);
    assert_eq!(st.total_allocated, 80);
    assert_eq!(st.total_freed, 16);
}

#[test]
fn realloc_of_untracked_pointer_samples() {
    let mut metrics = Metrics::new();
    let mut s = BacktraceSampler { enabled: true, sample_rate: 5, counter: 0 };
    Tracker::track_realloc(&mut metrics, &mut s, 0x10, 0x20, 8, 24);
    assert_eq!(s.counter, 1);
    let st = snapshot(&metrics);
    assert_eq!(st.total_freed, 8);
    assert_eq!(st.total_allocated, 24);
    assert_eq!(st.current_usage, 16);
    assert_eq!(metrics.take_allocation_metadata(0x20), Some(AllocationMeta { size: 24, stack_id: 1 }));
    let mut quiet = BacktraceSampler { enabled: true, sample_rate: 5, counter: 1 };
    Tracker::track_realloc(&mut metrics, &mut quiet, 0x30, 0x40, 8, 24);
    assert_eq!(metrics.active_allocation_count(), 0);
}

#[test]
fn tracking_allocator_wraps_its_inner_allocator() {
    let t = TrackingAllocator::new(42u32);
    assert_eq!(*t.inner(), 42);
}

#[test]
fn hooks_never_free_more_than_allocated() {
    let mut metrics = Metrics::new();
    let mut s = BacktraceSampler { enabled: true, sample_rate: 2, counter: 0 };
    Tracker::track_alloc(&mut metrics, &mut s, 0x100, 64);
    Tracker::track_alloc(&mut metrics, &mut s, 0x200, 32);
    Tracker::track_realloc(&mut metrics, &mut s, 0x100, 0x300, 64, 128);
    Tracker::track_dealloc(&mut metrics, 0x200, 32);
    let st = snapshot(&metrics);
    assert!(st.total_freed <= st.total_allocated);
    assert_eq!(st.current_usage, 128);
    assert_eq!(st.current_usage, st.total_allocated - st.total_freed);
    Tracker::track_dealloc(&mut metrics, 0x300, 128);
    let st = snapshot(&metrics);
    assert_eq!(st.total_allocated, st.total_freed);
    assert_eq!(st.current_usage, 0);
    assert_eq!(metrics.active_allocation_count(), 0);
}

#[test]
fn one_in_rate_decisions_sample() {
    let mut s = BacktraceSampler { enabled: true, sample_rate: 4, counter: 6 };
    let picks: Vec<bool> = (0..4).map(|_| s.should_sample_backtrace()).collect();
    assert_eq!(picks.iter().filter(|p| **p).count(), 1);
    assert_eq!(picks, vec![false, false, true, false]);
}
