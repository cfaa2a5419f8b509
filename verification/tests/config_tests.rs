use heap_sentry::config::{EnvSettings, OutputFormat, TrackerConfig};

fn env(
    mode: Option<&str>,
    interval: Option<&str>,
    growth: Option<&str>,
    leak: Option<&str>,
    rate: Option<&str>,
) -> EnvSettings {
    EnvSettings {
        mode: mode.map(|s| s.to_string()),
        interval: interval.map(|s| s.to_string()),
        growth_threshold: growth.map(|s| s.to_string()),
        leak_threshold: leak.map(|s| s.to_string()),
        backtrace_sample_rate: rate.map(|s| s.to_string()),
    }
}

#[test]
fn presets_have_documented_settings() {
    let d = TrackerConfig::default();
    assert_eq!(d.sampling_interval_ms, 1000);
    assert_eq!(d.growth_threshold_bytes_per_sec, 1024 * 1024);
    assert_eq!(d.leak_threshold_bytes, 10 * 1024 * 1024);
    assert!(!d.enable_backtrace);
    assert_eq!(d.backtrace_sample_rate, 100);
    let g = TrackerConfig::debug();
    assert_eq!(g.sampling_interval_ms, 500);
    assert_eq!(g.growth_threshold_bytes_per_sec, 100 * 1024);
    assert_eq!(g.leak_threshold_bytes, 1024 * 1024);
    assert!(g.enable_backtrace);
    assert_eq!(g.backtrace_sample_rate, 20);
    let p = TrackerConfig::production();
    assert_eq!(p.sampling_interval_ms, 5000);
    assert_eq!(p.growth_threshold_bytes_per_sec, 10 * 1024 * 1024);
    assert_eq!(p.leak_threshold_bytes, 100 * 1024 * 1024);
    assert!(!p.enable_backtrace);
    assert!(TrackerConfig::debug().validate().is_ok());
    assert!(TrackerConfig::production().validate().is_ok());
}

#[test]
fn validate_reports_each_rule() {
    let cases: Vec<(TrackerConfig, &str)> = vec![
        (TrackerConfig { sampling_interval_ms: 0, ..TrackerConfig::default() }, "sampling_interval_ms must be greater than 0"),
        (TrackerConfig { sampling_interval_ms: 3600001, ..TrackerConfig::default() }, "sampling_interval_ms should be less than 3600000 (1 hour)"),
        (TrackerConfig { growth_threshold_bytes_per_sec: 0, ..TrackerConfig::default() }, "growth_threshold_bytes_per_sec must be greater than 0"),
        (TrackerConfig { leak_threshold_bytes: 0, ..TrackerConfig::default() }, "leak_threshold_bytes must be greater than 0"),
        (TrackerConfig { backtrace_sample_rate: 0, ..TrackerConfig::default() }, "backtrace_sample_rate must be greater than 0"),
        (TrackerConfig { output_format: OutputFormat::File(String::new()), ..TrackerConfig::default() }, "file path cannot be empty"),
    ];
    for (config, message) in cases {
        assert_eq!(config.validate().unwrap_err(), message);
    }
    let boundary = TrackerConfig { sampling_interval_ms: 3600000, ..TrackerConfig::default() };
    assert!(boundary.validate().is_ok());
    let file = TrackerConfig { output_format: OutputFormat::File("out.log".to_string()), ..TrackerConfig::default() };
    let ok = file.validate().unwrap();
    assert!(matches!(ok.output_format, OutputFormat::File(ref p) if p == "out.log"));
    // The first broken rule is the one reported.
    let two = TrackerConfig { sampling_interval_ms: 0, leak_threshold_bytes: 0, ..TrackerConfig::default() };
    assert_eq!(two.validate().unwrap_err(), "sampling_interval_ms must be greater than 0");
}

#[test]
fn from_env_without_variables_is_default() {
    let c = TrackerConfig::from_env(&env(None, None, None, None, None)).unwrap();
    assert_eq!(c.sampling_interval_ms, 1000);
    assert_eq!(c.backtrace_sample_rate, 100);
}

#[test]
fn from_env_mode_is_case_insensitive() {
    let c = TrackerConfig::from_env(&env(Some("DEBUG"), None, None, None, None)).unwrap();
    assert_eq!(c.sampling_interval_ms, 500);
    assert!(c.enable_backtrace);
    let c = TrackerConfig::from_env(&env(Some("Development"), None, None, None, None)).unwrap();
    assert_eq!(c.backtrace_sample_rate, 20);
    let c = TrackerConfig::from_env(&env(Some("production"), None, None, None, None)).unwrap();
    assert_eq!(c.sampling_interval_ms, 5000);
}

#[test]
fn from_env_rejects_unknown_mode() {
    let e = TrackerConfig::from_env(&env(Some("Verbose"), None, None, None, None)).unwrap_err();
    assert_eq!(e, "Unknown HEAP_SENTRY_MODE: Verbose. Use 'debug' or 'production'");
}

#[test]
fn from_env_overrides_and_parses() {
    let c = TrackerConfig::from_env(&env(Some("production"), Some("250"), Some("+4096"), Some("777"), Some("30"))).unwrap();
    assert_eq!(c.sampling_interval_ms, 250);
    assert_eq!(c.growth_threshold_bytes_per_sec, 4096);
    assert_eq!(c.leak_threshold_bytes, 777);
    assert_eq!(c.backtrace_sample_rate, 30);
    assert!(!c.enable_backtrace);
}

#[test]
fn from_env_reports_bad_numbers() {
    assert_eq!(
        TrackerConfig::from_env(&env(None, Some("fast"), None, None, None)).unwrap_err(),
        "Invalid HEAP_SENTRY_INTERVAL: fast"
    );
    assert_eq!(
        TrackerConfig::from_env(&env(None, None, Some("-1"), None, None)).unwrap_err(),
        "Invalid HEAP_SENTRY_GROWTH_THRESHOLD: -1"
    );
    assert_eq!(
        TrackerConfig::from_env(&env(None, None, None, Some(""), None)).unwrap_err(),
        "Invalid HEAP_SENTRY_LEAK_THRESHOLD: "
    );
    assert_eq!(
        TrackerConfig::from_env(&env(None, None, None, None, Some(" 5"))).unwrap_err(),
        "Invalid HEAP_SENTRY_BACKTRACE_SAMPLE_RATE:  5"
    );
    // Parsed values are validated afterwards.
    assert_eq!(
        TrackerConfig::from_env(&env(None, Some("0"), None, None, None)).unwrap_err(),
        "sampling_interval_ms must be greater than 0"
    );
}

#[test]
fn auto_falls_back_to_default() {
    let c = TrackerConfig::auto(&env(Some("nonsense"), None, None, None, None));
    assert_eq!(c.sampling_interval_ms, 1000);
    let c = TrackerConfig::auto(&env(None, None, None, None, Some("0")));
    assert_eq!(c.backtrace_sample_rate, 100);
    let c = TrackerConfig::auto(&env(None, None, None, None, Some("30")));
    assert_eq!(c.backtrace_sample_rate, 30);
}

#[test]
fn preset_for_recognises_modes() {
    assert!(heap_sentry::config::preset_for(&"debug".to_string()).is_some());
    assert!(heap_sentry::config::preset_for(&"development".to_string()).is_some());
    assert!(heap_sentry::config::preset_for(&"production".to_string()).is_some());
    assert!(heap_sentry::config::preset_for(&"DEBUG".to_string()).is_none());
}
