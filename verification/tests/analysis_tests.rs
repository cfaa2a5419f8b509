use heap_sentry::allocator::BacktraceSampler;
use heap_sentry::analysis::{
    analyze_and_report, growth_finding, init, init_tracker, leak_finding, push_sample, GrowthFinding,
    Sample, MAX_SAMPLES,
};
use heap_sentry::config::{EnvSettings, TrackerConfig};
use heap_sentry::metrics::Metrics;

fn sample(t_ms: u64, usage: usize) -> Sample {
    Sample { timestamp_nanos: t_ms * 1_000_000, memory_usage: usage }
}

#[test]
fn window_keeps_last_hundred_samples() {
    let mut v = Vec::new();
    for i in 0..150u64 {
        push_sample(&mut v, sample(i, i as usize));
    }
    assert_eq!(v.len(), MAX_SAMPLES);
    assert_eq!(v[0].memory_usage, 50);
    assert_eq!(v[99].memory_usage, 149);
}

#[test]
fn leak_needs_threshold_and_non_falling_usage() {
    let rising = vec![sample(0, 10), sample(1, 20), sample(2, 30)];
    assert_eq!(leak_finding(&rising, 1000, 100, 500), Some(900));
    assert_eq!(leak_finding(&rising, 1000, 100, 900), None);
    assert_eq!(leak_finding(&rising, 100, 1000, 0), None);
    let falling = vec![sample(0, 30), sample(1, 30), sample(2, 10)];
    assert_eq!(leak_finding(&falling, 1000, 100, 500), None);
    // Only the last ten samples count.
    let mut v = vec![sample(0, 0), sample(1, 100)];
    for i in 0..10 {
        v.push(sample(2 + i, 90 - i as usize));
    }
    assert_eq!(leak_finding(&v, 1000, 0, 1), None);
}

#[test]
fn growth_compares_rate_with_threshold() {
    let v = vec![sample(0, 1000), sample(500, 1200), sample(2000, 3000)];
    // 2000 bytes over 2 seconds: 1000 bytes per second.
    assert_eq!(
        growth_finding(&v, 999),
        Some(GrowthFinding { growth_bytes: 2000, elapsed_nanos: 2_000_000_000 })
    );
    assert_eq!(growth_finding(&v, 1000), None);
    let shrinking = vec![sample(0, 3000), sample(1000, 1000)];
    assert_eq!(growth_finding(&shrinking, 0), None);
    let instant = vec![sample(5, 0), sample(5, 1_000_000)];
    assert_eq!(growth_finding(&instant, 1), None);
}

#[test]
fn analysis_needs_two_samples() {
    let mut metrics = Metrics::new();
    metrics.record_allocation(1 << 20, 0);
    let config = TrackerConfig { leak_threshold_bytes: 1, growth_threshold_bytes_per_sec: 1, ..TrackerConfig::default() };
    let r = analyze_and_report(&vec![sample(0, 0)], &metrics, &config);
    assert!(r.leak_bytes.is_none() && r.growth.is_none() && r.hotspots.is_empty());
    let r = analyze_and_report(&vec![sample(0, 0), sample(1000, 4096)], &metrics, &config);
    assert_eq!(r.leak_bytes, Some(1 << 20));
    assert_eq!(r.growth, Some(GrowthFinding { growth_bytes: 4096, elapsed_nanos: 1_000_000_000 }));
    assert!(r.hotspots.is_empty());
}

#[test]
fn analysis_lists_hotspots_when_backtraces_enabled() {
    let mut metrics = Metrics::new();
    for id in 1..=7u64 {
        metrics.record_allocation(id as usize * 10, id);
    }
    let config = TrackerConfig::debug();
    let r = analyze_and_report(&vec![sample(0, 0), sample(1, 0)], &metrics, &config);
    let ids: Vec<u64> = r.hotspots.iter().map(|h| h.0).collect();
    assert_eq!(ids, vec![7, 6, 5, 4, 3]);
}

#[test]
fn monitor_ticks_sample_current_usage() {
    let mut sampler = BacktraceSampler::new();
    let config = TrackerConfig { growth_threshold_bytes_per_sec: 100, leak_threshold_bytes: 1, ..TrackerConfig::default() };
    let mut monitor = init_tracker(config, &mut sampler).unwrap();
    assert!(!sampler.enabled);
    let mut metrics = Metrics::new();
    let r = monitor.tick(0, &metrics);
    assert!(r.leak_bytes.is_none() && r.growth.is_none());
    metrics.record_allocation(5000, 0);
    let r = monitor.tick(1_000_000_000, &metrics);
    assert_eq!(r.leak_bytes, Some(5000));
    assert_eq!(r.growth, Some(GrowthFinding { growth_bytes: 5000, elapsed_nanos: 1_000_000_000 }));
    assert_eq!(monitor.config().growth_threshold_bytes_per_sec, 100);
}

#[test]
fn init_tracker_installs_backtrace_settings() {
    let mut sampler = BacktraceSampler::new();
    sampler.counter = 4;
    let config = TrackerConfig { enable_backtrace: true, backtrace_sample_rate: 7, ..TrackerConfig::default() };
    assert!(init_tracker(config, &mut sampler).is_ok());
    assert!(sampler.enabled);
    assert_eq!(sampler.sample_rate, 7);
    assert_eq!(sampler.counter, 4);
    let bad = TrackerConfig { backtrace_sample_rate: 0, enable_backtrace: false, ..TrackerConfig::default() };
    let e = init_tracker(bad, &mut sampler).err().unwrap();
    assert_eq!(e, "backtrace_sample_rate must be greater than 0");
    assert!(sampler.enabled);
}

#[test]
fn init_uses_environment_or_default() {
    let env = EnvSettings {
        mode: None,
        interval: None,
        growth_threshold: None,
        leak_threshold: None,
        backtrace_sample_rate: Some("30".to_string()),
    };
    let mut sampler = BacktraceSampler::new();
    let monitor = init(&env, &mut sampler).unwrap();
    assert_eq!(monitor.config().backtrace_sample_rate, 30);
    assert_eq!(sampler.sample_rate, 30);
    let bad = EnvSettings { mode: Some("loud".to_string()), ..env };
    let monitor = init(&bad, &mut sampler).unwrap();
    assert_eq!(monitor.config().sampling_interval_ms, 1000);
    assert_eq!(sampler.sample_rate, 100);
}

