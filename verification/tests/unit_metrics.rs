use heap_sentry::metrics::{AllocationMeta, AllocationStats, Metrics, MAX_STACK_TRACES};

#[test]
fn stack_trace_storage_is_bounded() {
    let mut metrics = Metrics::new();

    for i in 0..(MAX_STACK_TRACES + 10) {
        let stack_id = metrics.record_stack_trace(format!("trace-{}", i));
        if i < MAX_STACK_TRACES {
            assert_ne!(stack_id, 0, "expected unique stack traces to be tracked when under capacity");
        } else {
            assert_eq!(stack_id, 0, "expected excess stack traces to be rejected when at capacity");
        }
    }

    assert_eq!(metrics.stack_trace_count(), MAX_STACK_TRACES);
}

#[test]
fn only_sampled_allocations_are_stored() {
    let mut metrics = Metrics::new();

    metrics.store_allocation_metadata(0x1000, AllocationMeta { size: 128, stack_id: 0 });
    assert!(metrics.active_allocation_count() == 0);

    metrics.store_allocation_metadata(0x1000, AllocationMeta { size: 128, stack_id: 42 });
    assert_eq!(metrics.active_allocation_count(), 1);
}

#[test]
fn allocation_and_deallocation_update_live_stats() {
    let mut metrics = Metrics::new();

    let stack_id = 123;
    metrics.record_stack_trace("test-stack".to_string());
    metrics.record_allocation(256, stack_id);
    metrics.record_deallocation(256, stack_id);

    let allocation_stat = metrics.site_stats(stack_id).expect("expected aggregation for stack id");
    assert_eq!(allocation_stat.live_bytes, 0);
    assert_eq!(allocation_stat.alloc_count, 1);
    assert_eq!(allocation_stat.dealloc_count, 1);
}

#[test]
fn recording_a_trace_twice_keeps_its_id() {
    let mut metrics = Metrics::new();
    let a = metrics.record_stack_trace("a".to_string());
    let b = metrics.record_stack_trace("b".to_string());
    assert_eq!(a, 1);
    assert_eq!(b, 2);
    assert_eq!(metrics.record_stack_trace("a".to_string()), 1);
    assert_eq!(metrics.stack_trace_count(), 2);
    assert_eq!(metrics.trace_for(2).as_deref(), Some("b"));
    assert_eq!(metrics.trace_for(0), None);
    assert_eq!(metrics.trace_for(3), None);
}

#[test]
fn current_usage_is_allocated_minus_freed() {
    let mut metrics = Metrics::new();
    metrics.record_allocation(1000, 0);
    metrics.record_allocation(24, 0);
    metrics.record_deallocation(512, 0);
    let s = heap_sentry::snapshot(&metrics);
    assert_eq!(s.total_allocated, 1024);
    assert_eq!(s.total_freed, 512);
    assert_eq!(s.current_usage, 512);
    assert_eq!(s.allocation_count, 2);
    assert_eq!(s.deallocation_count, 1);
}

#[test]
fn freeing_more_than_allocated_wraps_like_an_atomic() {
    let mut metrics = Metrics::new();
    metrics.record_allocation(10, 0);
    metrics.record_deallocation(20, 0);
    let s = heap_sentry::snapshot(&metrics);
    assert_eq!(s.current_usage, usize::MAX - 9);
    metrics.record_allocation(10, 0);
    assert_eq!(heap_sentry::snapshot(&metrics).current_usage, 0);
}

#[test]
fn deallocation_undoes_allocation_at_a_site() {
    let mut metrics = Metrics::new();
    metrics.record_allocation(100, 7);
    metrics.record_allocation(50, 7);
    metrics.record_deallocation(50, 7);
    let s = metrics.site_stats(7).unwrap();
    assert_eq!(
        s,
        AllocationStats { allocated: 150, live_bytes: 100, alloc_count: 2, dealloc_count: 1 }
    );
    // A site without statistics is not created by a deallocation.
    metrics.record_deallocation(10, 9);
    assert!(metrics.site_stats(9).is_none());
    // Live bytes do not fall below zero.
    metrics.record_deallocation(1000, 7);
    assert_eq!(metrics.site_stats(7).unwrap().live_bytes, 0);
}

#[test]
fn metadata_is_taken_once() {
    let mut metrics = Metrics::new();
    let meta = AllocationMeta { size: 64, stack_id: 3 };
    assert!(metrics.store_allocation_metadata(0x2000, meta));
    assert_eq!(metrics.take_allocation_metadata(0x2000), Some(meta));
    assert_eq!(metrics.take_allocation_metadata(0x2000), None);
    assert_eq!(metrics.active_allocation_count(), 0);
}

#[test]
fn hotspots_are_ranked_by_live_bytes_then_id() {
    let mut metrics = Metrics::new();
    metrics.record_stack_trace("first".to_string());
    metrics.record_allocation(10, 1);
    metrics.record_allocation(500, 2);
    metrics.record_allocation(300, 3);
    metrics.record_allocation(300, 4);
    metrics.record_allocation(700, 5);
    metrics.record_allocation(1, 6);
    metrics.record_deallocation(600, 5);
    let top = metrics.top_allocation_stats(5);
    let ids: Vec<u64> = top.iter().map(|t| t.0).collect();
    assert_eq!(ids, vec![2, 3, 4, 5, 1]);
    assert_eq!(top[0].1.live_bytes, 500);
    assert_eq!(top[3].1.live_bytes, 100);
    assert_eq!(top[4].2.as_deref(), Some("first"));
    assert_eq!(top[0].2, None);
    assert_eq!(metrics.top_allocation_stats(0).len(), 0);
    assert_eq!(metrics.top_allocation_stats(100).len(), 6);
}
