use heap_sentry::metrics::Metrics;
use heap_sentry::scope::MemoryScope;

#[test]
fn nested_scopes_measure_their_allocations() {
    let mut metrics = Metrics::new();
    metrics.record_allocation(77, 0);
    let outer = MemoryScope::new("outer_scope".to_string(), &mut metrics);
    let inner_stats = {
        let inner = MemoryScope::new("inner_scope".to_string(), &mut metrics);
        metrics.record_allocation(1024 * 1024, 0);
        let stats = inner.stats(&metrics);
        metrics.close_scope(inner.scope_id());
        stats
    };
    assert_eq!(inner_stats.name, "inner_scope");
    assert_eq!(inner_stats.allocated, 1024 * 1024);
    assert_eq!(inner_stats.peak_usage, 1024 * 1024);
    assert!(!inner_stats.should_report());
    metrics.record_allocation(512 * 1024, 0);
    metrics.record_deallocation(1024 * 1024, 0);
    let outer_stats = outer.stats(&metrics);
    assert_eq!(outer_stats.name, "outer_scope");
    assert_eq!(outer_stats.allocated, 1024 * 1024 + 512 * 1024);
    assert_eq!(outer_stats.freed, 1024 * 1024);
    assert_eq!(outer_stats.allocation_count, 2);
    assert_eq!(outer_stats.deallocation_count, 1);
    assert_eq!(outer_stats.peak_usage, 1024 * 1024 + 512 * 1024);
    assert!(outer_stats.peak_usage >= outer_stats.allocated - outer_stats.freed);
    assert!(outer_stats.should_report());
}

#[test]
fn peak_usage_remembers_freed_memory() {
    let mut metrics = Metrics::new();
    let scope = MemoryScope::new("peak".to_string(), &mut metrics);
    metrics.record_allocation(100, 0);
    metrics.record_allocation(50, 0);
    metrics.record_deallocation(150, 0);
    metrics.record_allocation(20, 0);
    let stats = scope.stats(&metrics);
    assert_eq!(stats.allocated, 170);
    assert_eq!(stats.freed, 150);
    assert_eq!(stats.peak_usage, 150);
    metrics.close_scope(scope.scope_id());
    assert_eq!(metrics.scope_peak(scope.scope_id()), None);
}
