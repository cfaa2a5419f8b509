use heap_sentry::config::TrackerConfig;
use heap_sentry::metrics::{current_thread_stats, snapshot, thread_stats, Metrics};

#[test]
fn config_validation_and_thread_stats_work() {
    assert!(TrackerConfig::default().validate().is_ok());

    let invalid = TrackerConfig {
        sampling_interval_ms: 0,
        ..TrackerConfig::default()
    };
    assert!(invalid.validate().is_err());

    let metrics = Metrics::new();
    let stats = thread_stats(&metrics);
    assert_eq!(stats.len(), 1);
    assert_eq!(stats[0].thread_id, "main");

    let current = current_thread_stats(&metrics);
    assert_eq!(current.thread_id, "current");
}

#[test]
fn thread_stats_carry_global_counters() {
    let mut metrics = Metrics::new();
    metrics.record_allocation(300, 0);
    metrics.record_deallocation(100, 0);
    let stats = thread_stats(&metrics);
    assert_eq!(stats[0].thread_name, "main");
    assert_eq!(stats[0].allocated, 300);
    assert_eq!(stats[0].freed, 100);
    assert_eq!(stats[0].current_usage, 200);
    assert_eq!(stats[0].allocation_count, 1);
    assert_eq!(stats[0].deallocation_count, 1);
    assert_eq!(stats[0].uptime_seconds, 0);
    let current = current_thread_stats(&metrics);
    assert_eq!(current.thread_name, "current");
    assert_eq!(current.current_usage, 200);
    let snap = snapshot(&metrics);
    assert_eq!(snap.total_allocated, 300);
    assert_eq!(snap.total_freed, 100);
    assert_eq!(snap.current_usage, 200);
}
