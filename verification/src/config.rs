use vstd::prelude::*;
use vstd::string::StringExecFns;

verus! {

/// Output format for memory reports
#[derive(Debug, Clone)]
pub enum OutputFormat {
    /// Output to stderr (default)
    Stderr,
    /// Output structured JSON to stderr
    JsonStderr,
    /// Output to a file (not implemented yet)
    File(String),
}

/// Configuration for the heap sentry tracker
#[derive(Debug)]
pub struct TrackerConfig {
    /// Sampling interval in milliseconds
    pub sampling_interval_ms: u64,
    /// Growth threshold in bytes per second
    pub growth_threshold_bytes_per_sec: usize,
    /// Leak threshold in bytes
    pub leak_threshold_bytes: usize,
    /// Enable backtrace collection for call sites
    pub enable_backtrace: bool,
    /// Backtrace sampling rate (1 in N allocations)
    pub backtrace_sample_rate: usize,
    /// Output format for reports
    pub output_format: OutputFormat,
}

/// Longest accepted sampling interval: one hour, in milliseconds.
pub const MAX_SAMPLING_INTERVAL_MS: u64 = 3600000;

/// The first rule of `validate` that `c` breaks, as the message that
/// `validate` returns for it; `None` when `c` is valid.
pub open spec fn validation_error(c: TrackerConfig) -> Option<Seq<char>> {
    if c.sampling_interval_ms == 0 {
        Some("sampling_interval_ms must be greater than 0"@)
    } else if c.sampling_interval_ms > MAX_SAMPLING_INTERVAL_MS {
        Some("sampling_interval_ms should be less than 3600000 (1 hour)"@)
    } else if c.growth_threshold_bytes_per_sec == 0 {
        Some("growth_threshold_bytes_per_sec must be greater than 0"@)
    } else if c.leak_threshold_bytes == 0 {
        Some("leak_threshold_bytes must be greater than 0"@)
    } else if c.backtrace_sample_rate == 0 {
        Some("backtrace_sample_rate must be greater than 0"@)
    } else if c.output_format matches OutputFormat::File(path) && path@.len() == 0 {
        Some("file path cannot be empty"@)
    } else {
        None
    }
}

/// The default configuration.
pub open spec fn default_settings() -> TrackerConfig {
    TrackerConfig {
        sampling_interval_ms: 1000,
        growth_threshold_bytes_per_sec: 1048576usize,
        leak_threshold_bytes: 10485760usize,
        enable_backtrace: false,
        backtrace_sample_rate: 100,
        output_format: OutputFormat::Stderr,
    }
}

/// The debug configuration: more sensitive thresholds, backtraces on.
pub open spec fn debug_settings() -> TrackerConfig {
    TrackerConfig {
        sampling_interval_ms: 500,
        growth_threshold_bytes_per_sec: 102400usize,
        leak_threshold_bytes: 1048576usize,
        enable_backtrace: true,
        backtrace_sample_rate: 20,
        output_format: OutputFormat::Stderr,
    }
}

/// The production configuration: conservative thresholds, backtraces off.
pub open spec fn production_settings() -> TrackerConfig {
    TrackerConfig {
        sampling_interval_ms: 5000,
        growth_threshold_bytes_per_sec: 10485760usize,
        leak_threshold_bytes: 104857600usize,
        enable_backtrace: false,
        backtrace_sample_rate: 100,
        output_format: OutputFormat::Stderr,
    }
}

impl Default for TrackerConfig {
    fn default() -> (c: Self)
        ensures
            c == default_settings(),
    {
        Self {
            sampling_interval_ms: 1000,
            growth_threshold_bytes_per_sec: 1024 * 1024,  // 1MB/s
            leak_threshold_bytes: 10 * 1024 * 1024,  // 10MB
            enable_backtrace: false,
            backtrace_sample_rate: 100,
            output_format: OutputFormat::Stderr,
        }
    }
}

impl TrackerConfig {
    /// Validate configuration and return a validated config
    pub fn validate(self) -> (r: Result<Self, String>)
        ensures
            validation_error(self) is None <==> r is Ok,
            r matches Ok(c) ==> c == self,
            r matches Err(e) ==> validation_error(self) == Some(e@),
            r is Ok <==> is_acceptable(self),
    {
        proof {
            lemma_validate_accepts_exactly(self);
        }
        if self.sampling_interval_ms == 0 {
            return Err(String::from_str("sampling_interval_ms must be greater than 0"));
        }
        if self.sampling_interval_ms > MAX_SAMPLING_INTERVAL_MS {
            return Err(
                String::from_str("sampling_interval_ms should be less than 3600000 (1 hour)"),
            );
        }
        if self.growth_threshold_bytes_per_sec == 0 {
            return Err(String::from_str("growth_threshold_bytes_per_sec must be greater than 0"));
        }
        if self.leak_threshold_bytes == 0 {
            return Err(String::from_str("leak_threshold_bytes must be greater than 0"));
        }
        if self.backtrace_sample_rate == 0 {
            return Err(String::from_str("backtrace_sample_rate must be greater than 0"));
        }
        let empty_path = match &self.output_format {
            OutputFormat::File(path) => path.as_str().is_empty(),
            _ => false,
        };
        if empty_path {
            return Err(String::from_str("file path cannot be empty"));
        }
        Ok(self)
    }

    /// Create a debug configuration with more sensitive settings
    pub fn debug() -> (c: Self)
        ensures
            c == debug_settings(),
    {
        Self {
            sampling_interval_ms: 500,
            growth_threshold_bytes_per_sec: 100 * 1024,  // 100KB/s
            leak_threshold_bytes: 1024 * 1024,  // 1MB
            enable_backtrace: true,
            backtrace_sample_rate: 20,
            output_format: OutputFormat::Stderr,
        }
    }

    /// Create a production configuration with conservative settings
    pub fn production() -> (c: Self)
        ensures
            c == production_settings(),
    {
        Self {
            sampling_interval_ms: 5000,  // Less frequent sampling
            growth_threshold_bytes_per_sec: 10 * 1024 * 1024,  // 10MB/s
            leak_threshold_bytes: 100 * 1024 * 1024,  // 100MB
            enable_backtrace: false,  // Disable for performance
            backtrace_sample_rate: 100,
            output_format: OutputFormat::Stderr,
        }
    }
}


/// Raw values of the environment variables that configure the tracker:
/// `HEAP_SENTRY_MODE`, `HEAP_SENTRY_INTERVAL`, `HEAP_SENTRY_GROWTH_THRESHOLD`,
/// `HEAP_SENTRY_LEAK_THRESHOLD` and `HEAP_SENTRY_BACKTRACE_SAMPLE_RATE`;
/// `None` for a variable that is not set.
pub struct EnvSettings {
    pub mode: Option<String>,
    pub interval: Option<String>,
    pub growth_threshold: Option<String>,
    pub leak_threshold: Option<String>,
    pub backtrace_sample_rate: Option<String>,
}

/// What Unicode lower-casing (`str::to_lowercase`) makes of `s`.
pub uninterp spec fn lowercased(s: Seq<char>) -> Seq<char>;

/// `str::to_lowercase`.
#[verifier::external_body]
fn to_lowercase(s: &str) -> (r: String)
    ensures
        r@ == lowercased(s@),
{
    s.to_lowercase()
}

pub open spec fn is_ascii_digit(c: char) -> bool {
    '0' <= c && c <= '9'
}

/// The number that a sequence of decimal digits denotes.
pub open spec fn digits_value(s: Seq<char>) -> int
    decreases s.len(),
{
    if s.len() == 0 {
        0
    } else {
        digits_value(s.drop_last()) * 10 + (s.last() as int - '0' as int)
    }
}

/// The digits of an unsigned number's text: the text without a leading `+`.
pub open spec fn unsigned_digits(s: Seq<char>) -> Seq<char> {
    if s.len() > 0 && s[0] == '+' {
        s.drop_first()
    } else {
        s
    }
}

/// Whether `d` is one or more ASCII digits.
pub open spec fn all_digits(d: Seq<char>) -> bool {
    d.len() > 0 && forall|i: int| 0 <= i < d.len() ==> is_ascii_digit(#[trigger] d[i])
}

/// What an unsigned integer type's `from_str` accepts: an optional `+`,
/// then one or more ASCII digits whose value is at most `max`.
pub open spec fn parsed_unsigned(s: Seq<char>, max: int) -> Option<int> {
    let digits = unsigned_digits(s);
    if all_digits(digits) && digits_value(digits) <= max {
        Some(digits_value(digits))
    } else {
        None
    }
}

/// `str::parse::<u64>`: `Some` of the value where the text is an optional
/// `+` followed by decimal digits whose value fits in a `u64`, else `None`.
#[verifier::external_body]
fn parse_u64(s: &str) -> (r: Option<u64>)
    ensures
        r matches Some(v) ==> parsed_unsigned(s@, u64::MAX as int) == Some(v as int),
        r is None ==> parsed_unsigned(s@, u64::MAX as int) is None,
{
    s.parse::<u64>().ok()
}

/// `str::parse::<usize>`: as `parse_u64`, with the range of `usize`.
#[verifier::external_body]
fn parse_usize(s: &str) -> (r: Option<usize>)
    ensures
        r matches Some(v) ==> parsed_unsigned(s@, usize::MAX as int) == Some(v as int),
        r is None ==> parsed_unsigned(s@, usize::MAX as int) is None,
{
    s.parse::<usize>().ok()
}

/// The preset that a lower-cased `HEAP_SENTRY_MODE` selects.
pub open spec fn preset_for_mode(lowered: Seq<char>) -> Option<TrackerConfig> {
    if lowered == "debug"@ || lowered == "development"@ {
        Some(debug_settings())
    } else if lowered == "production"@ {
        Some(production_settings())
    } else {
        None
    }
}

pub open spec fn unknown_mode_message(mode: Seq<char>) -> Seq<char> {
    "Unknown HEAP_SENTRY_MODE: "@ + mode + ". Use 'debug' or 'production'"@
}

pub open spec fn invalid_value_message(prefix: Seq<char>, value: Seq<char>) -> Seq<char> {
    prefix + value
}

/// The configuration that the environment describes before validation, or
/// the message for the first variable that cannot be used. `lowered` is the
/// lower-cased mode.
pub open spec fn env_outcome(env: EnvSettings, lowered: Seq<char>) -> Result<TrackerConfig, Seq<char>> {
    let base = match env.mode {
        None => Ok(default_settings()),
        Some(m) => match preset_for_mode(lowered) {
            Some(c) => Ok(c),
            None => Err(unknown_mode_message(m@)),
        },
    };
    let with_interval = match (base, env.interval) {
        (Err(e), _) => Err(e),
        (Ok(c), None) => Ok(c),
        (Ok(c), Some(v)) => match parsed_unsigned(v@, u64::MAX as int) {
            Some(n) => Ok(TrackerConfig { sampling_interval_ms: n as u64, ..c }),
            None => Err(invalid_value_message("Invalid HEAP_SENTRY_INTERVAL: "@, v@)),
        },
    };
    let with_growth = match (with_interval, env.growth_threshold) {
        (Err(e), _) => Err(e),
        (Ok(c), None) => Ok(c),
        (Ok(c), Some(v)) => match parsed_unsigned(v@, usize::MAX as int) {
            Some(n) => Ok(TrackerConfig { growth_threshold_bytes_per_sec: n as usize, ..c }),
            None => Err(invalid_value_message("Invalid HEAP_SENTRY_GROWTH_THRESHOLD: "@, v@)),
        },
    };
    let with_leak = match (with_growth, env.leak_threshold) {
        (Err(e), _) => Err(e),
        (Ok(c), None) => Ok(c),
        (Ok(c), Some(v)) => match parsed_unsigned(v@, usize::MAX as int) {
            Some(n) => Ok(TrackerConfig { leak_threshold_bytes: n as usize, ..c }),
            None => Err(invalid_value_message("Invalid HEAP_SENTRY_LEAK_THRESHOLD: "@, v@)),
        },
    };
    match (with_leak, env.backtrace_sample_rate) {
        (Err(e), _) => Err(e),
        (Ok(c), None) => Ok(c),
        (Ok(c), Some(v)) => match parsed_unsigned(v@, usize::MAX as int) {
            Some(n) => Ok(TrackerConfig { backtrace_sample_rate: n as usize, ..c }),
            None => Err(
                invalid_value_message("Invalid HEAP_SENTRY_BACKTRACE_SAMPLE_RATE: "@, v@),
            ),
        },
    }
}

/// What `from_env` returns: the outcome of the environment, then validated.
pub open spec fn env_result_matches(
    env: EnvSettings,
    lowered: Seq<char>,
    r: Result<TrackerConfig, String>,
) -> bool {
    match env_outcome(env, lowered) {
        Err(m) => r matches Err(e) && e@ == m,
        Ok(c) => match validation_error(c) {
            None => r matches Ok(rc) && rc == c,
            Some(m) => r matches Err(e) && e@ == m,
        },
    }
}

/// The configuration that a lower-cased `HEAP_SENTRY_MODE` selects.
pub fn preset_for(lowered: &String) -> (r: Option<TrackerConfig>)
    ensures
        r == preset_for_mode(lowered@),
{
    if *lowered == String::from_str("debug") || *lowered == String::from_str("development") {
        Some(TrackerConfig::debug())
    } else if *lowered == String::from_str("production") {
        Some(TrackerConfig::production())
    } else {
        None
    }
}

/// The configuration that `auto` picks for `env`: the one the environment
/// describes where it is valid, else the default.
pub open spec fn auto_config(env: EnvSettings) -> TrackerConfig {
    let lowered = match env.mode {
        Some(m) => lowercased(m@),
        None => Seq::empty(),
    };
    match env_outcome(env, lowered) {
        Ok(v) => if validation_error(v) is None {
            v
        } else {
            default_settings()
        },
        Err(_) => default_settings(),
    }
}

impl TrackerConfig {
    /// Create configuration from the values of the environment variables,
    /// given the mode already lower-cased (`lowered_mode`, read only when a
    /// mode is set).
    pub fn from_env_lowered(env: &EnvSettings, lowered_mode: &String) -> (r: Result<Self, String>)
        ensures
            env_result_matches(*env, lowered_mode@, r),
    {
        let mut config = match &env.mode {
            None => Self::default(),
            Some(mode) => match preset_for(lowered_mode) {
                Some(c) => c,
                None => {
                    let msg = String::from_str("Unknown HEAP_SENTRY_MODE: ").concat(
                        mode.as_str(),
                    ).concat(". Use 'debug' or 'production'");
                    return Err(msg);
                },
            },
        };
        if let Some(v) = &env.interval {
            match parse_u64(v.as_str()) {
                Some(n) => {
                    config.sampling_interval_ms = n;
                },
                None => {
                    return Err(String::from_str("Invalid HEAP_SENTRY_INTERVAL: ").concat(v.as_str()));
                },
            }
        }
        if let Some(v) = &env.growth_threshold {
            match parse_usize(v.as_str()) {
                Some(n) => {
                    config.growth_threshold_bytes_per_sec = n;
                },
                None => {
                    return Err(
                        String::from_str("Invalid HEAP_SENTRY_GROWTH_THRESHOLD: ").concat(
                            v.as_str(),
                        ),
                    );
                },
            }
        }
        if let Some(v) = &env.leak_threshold {
            match parse_usize(v.as_str()) {
                Some(n) => {
                    config.leak_threshold_bytes = n;
                },
                None => {
                    return Err(
                        String::from_str("Invalid HEAP_SENTRY_LEAK_THRESHOLD: ").concat(v.as_str()),
                    );
                },
            }
        }
        if let Some(v) = &env.backtrace_sample_rate {
            match parse_usize(v.as_str()) {
                Some(n) => {
                    config.backtrace_sample_rate = n;
                },
                None => {
                    return Err(
                        String::from_str("Invalid HEAP_SENTRY_BACKTRACE_SAMPLE_RATE: ").concat(
                            v.as_str(),
                        ),
                    );
                },
            }
        }
        config.validate()
    }

    /// Create configuration from the values of the environment variables.
    /// Supports: HEAP_SENTRY_MODE, HEAP_SENTRY_INTERVAL, HEAP_SENTRY_GROWTH_THRESHOLD,
    /// HEAP_SENTRY_LEAK_THRESHOLD, HEAP_SENTRY_BACKTRACE_SAMPLE_RATE
    pub fn from_env(env: &EnvSettings) -> (r: Result<Self, String>)
        ensures
            env.mode matches Some(m) ==> env_result_matches(*env, lowercased(m@), r),
            env.mode is None ==> env_result_matches(*env, Seq::empty(), r),
    {
        let lowered = match &env.mode {
            Some(mode) => to_lowercase(mode.as_str()),
            None => String::new(),
        };
        Self::from_env_lowered(env, &lowered)
    }

    /// Zero-config initialization: the configuration that the environment
    /// describes, or the default one where it describes none that is valid.
    pub fn auto(env: &EnvSettings) -> (c: Self)
        ensures
            c == auto_config(*env),
            validation_error(c) is None,
    {
        match Self::from_env(env) {
            Ok(c) => c,
            Err(_) => Self::default(),
        }
    }
}

/// The built-in configurations (default, debug, production) pass validation.
pub proof fn lemma_presets_are_valid()
    ensures
        validation_error(default_settings()) is None,
        validation_error(debug_settings()) is None,
        validation_error(production_settings()) is None,
{
}

/// The configurations that are fit to track with: an interval from 1 ms to
/// one hour, nonzero thresholds and sample rate, and any output format but a
/// file with an empty path.
pub open spec fn is_acceptable(c: TrackerConfig) -> bool {
    &&& 1 <= c.sampling_interval_ms <= 3600000
    &&& c.growth_threshold_bytes_per_sec > 0
    &&& c.leak_threshold_bytes > 0
    &&& c.backtrace_sample_rate > 0
    &&& match c.output_format {
        OutputFormat::Stderr => true,
        OutputFormat::JsonStderr => true,
        OutputFormat::File(path) => path@.len() > 0,
    }
}

/// Validation accepts exactly the acceptable configurations: every output
/// format but a file with an empty path passes, and each numeric setting is
/// checked only against its documented range.
pub proof fn lemma_validate_accepts_exactly(c: TrackerConfig)
    ensures
        validation_error(c) is None <==> is_acceptable(c),
        c.output_format is JsonStderr && 1 <= c.sampling_interval_ms <= 3600000
            && c.growth_threshold_bytes_per_sec > 0 && c.leak_threshold_bytes > 0
            && c.backtrace_sample_rate > 0 ==> validation_error(c) is None,
        c.output_format is Stderr && 1 <= c.sampling_interval_ms <= 3600000
            && c.growth_threshold_bytes_per_sec > 0 && c.leak_threshold_bytes > 0
            && c.backtrace_sample_rate > 0 ==> validation_error(c) is None,
        (match c.output_format {
            OutputFormat::File(path) => path@.len() > 0,
            _ => false,
        }) && 1 <= c.sampling_interval_ms <= 3600000 && c.growth_threshold_bytes_per_sec > 0
            && c.leak_threshold_bytes > 0 && c.backtrace_sample_rate > 0 ==> validation_error(c) is None,
        (match c.output_format {
            OutputFormat::File(path) => path@.len() == 0,
            _ => false,
        }) ==> validation_error(c) is Some,
        c.sampling_interval_ms == 0 || c.sampling_interval_ms > 3600000
            || c.growth_threshold_bytes_per_sec == 0 || c.leak_threshold_bytes == 0
            || c.backtrace_sample_rate == 0 ==> validation_error(c) is Some,
{
}

/// Without a mode, each variable that holds a number overrides its setting
/// of the default configuration, and the others keep theirs; a variable that
/// holds no number makes the environment unusable.
pub proof fn lemma_env_numbers_override_defaults(env: EnvSettings, lowered: Seq<char>)
    requires
        env.mode is None,
    ensures
        ({
            let interval = match env.interval {
                Some(v) => parsed_unsigned(v@, u64::MAX as int),
                None => Some(1000),
            };
            let growth = match env.growth_threshold {
                Some(v) => parsed_unsigned(v@, usize::MAX as int),
                None => Some(1048576),
            };
            let leak = match env.leak_threshold {
                Some(v) => parsed_unsigned(v@, usize::MAX as int),
                None => Some(10485760),
            };
            let rate = match env.backtrace_sample_rate {
                Some(v) => parsed_unsigned(v@, usize::MAX as int),
                None => Some(100),
            };
            &&& (interval is Some && growth is Some && leak is Some && rate is Some) ==> env_outcome(
                env,
                lowered,
            ) == Ok::<TrackerConfig, Seq<char>>(
                TrackerConfig {
                    sampling_interval_ms: interval.unwrap() as u64,
                    growth_threshold_bytes_per_sec: growth.unwrap() as usize,
                    leak_threshold_bytes: leak.unwrap() as usize,
                    enable_backtrace: false,
                    backtrace_sample_rate: rate.unwrap() as usize,
                    output_format: OutputFormat::Stderr,
                },
            )
            &&& !(interval is Some && growth is Some && leak is Some && rate is Some) ==> env_outcome(
                env,
                lowered,
            ) is Err
        }),
{
}

/// The modes select their presets: "debug" and "development" the sensitive
/// one with backtraces (500 ms, 100 KiB/s, 1 MiB, one in 20), "production"
/// the conservative one (5 s, 10 MiB/s, 100 MiB, no backtraces); any other
/// mode none.
pub proof fn lemma_modes_select_presets(lowered: Seq<char>)
    ensures
        (lowered == "debug"@ || lowered == "development"@) ==> (preset_for_mode(lowered) matches Some(
            c,
        ) && c.sampling_interval_ms == 500 && c.growth_threshold_bytes_per_sec == 102400
            && c.leak_threshold_bytes == 1048576 && c.enable_backtrace && c.backtrace_sample_rate == 20),
        lowered == "production"@ ==> (preset_for_mode(lowered) matches Some(c) && c.sampling_interval_ms
            == 5000 && c.growth_threshold_bytes_per_sec == 10485760 && c.leak_threshold_bytes
            == 104857600 && !c.enable_backtrace && c.backtrace_sample_rate == 100),
        lowered != "debug"@ && lowered != "development"@ && lowered != "production"@ ==> preset_for_mode(
            lowered,
        ) is None,
{
    reveal_strlit("production");
    reveal_strlit("debug");
    reveal_strlit("development");
    if lowered == "production"@ {
        assert(lowered[0] == 'p');
        assert("debug"@[0] == 'd');
        assert("development"@[0] == 'd');
    }
}

} // verus!
