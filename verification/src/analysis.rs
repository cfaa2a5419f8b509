use vstd::prelude::*;
use crate::allocator::BacktraceSampler;
use crate::config::{auto_config, validation_error, EnvSettings, TrackerConfig};
use crate::metrics::{is_top_sites, site_pairs, text_matches, trace_of, AllocationStats, Metrics, MetricsView};

verus! {

/// Most samples that the monitor keeps.
pub const MAX_SAMPLES: usize = 100;

/// Number of most recent samples that leak detection looks at.
pub const RECENT_SAMPLES: usize = 10;

/// Number of call sites that a report lists as hotspots.
pub const HOTSPOT_COUNT: usize = 5;

/// Nanoseconds in a second.
pub const NANOS_PER_SEC: u128 = 1000000000;

/// Sample of memory usage at a point in time
#[derive(Debug, Clone, Copy, PartialEq, Eq)]
pub struct Sample {
    /// When the sample was taken: nanoseconds since the monitor started
    pub timestamp_nanos: u64,
    /// Current memory usage in bytes
    pub memory_usage: usize,
}

/// Growth of memory usage between the first and the last sample.
#[derive(Debug, Clone, Copy, PartialEq, Eq)]
pub struct GrowthFinding {
    /// Bytes by which usage grew
    pub growth_bytes: usize,
    /// Nanoseconds over which it grew
    pub elapsed_nanos: u64,
}

/// What one analysis of the samples found.
#[derive(Debug)]
pub struct AnalysisReport {
    /// Bytes allocated and not freed, where a leak is suspected
    pub leak_bytes: Option<usize>,
    /// The growth, where it is faster than the threshold
    pub growth: Option<GrowthFinding>,
    /// The call sites with the most live bytes, where backtraces are enabled
    pub hotspots: Vec<(u64, AllocationStats, Option<String>)>,
}

/// The sample window after `sample` is added: only the last `MAX_SAMPLES`
/// are kept.
pub open spec fn window_after_push(samples: Seq<Sample>, sample: Sample) -> Seq<Sample> {
    if samples.len() + 1 > MAX_SAMPLES {
        samples.push(sample).drop_first()
    } else {
        samples.push(sample)
    }
}

/// Add a sample to the window, keeping only the last `MAX_SAMPLES`.
pub fn push_sample(samples: &mut Vec<Sample>, sample: Sample)
    requires
        old(samples).len() <= MAX_SAMPLES,
    ensures
        final(samples)@ == window_after_push(old(samples)@, sample),
        final(samples).len() <= MAX_SAMPLES,
{
    samples.push(sample);
    if samples.len() > MAX_SAMPLES {
        samples.remove(0);
    }
    proof {
        let pushed = old(samples)@.push(sample);
        if pushed.len() > MAX_SAMPLES {
            assert(pushed.remove(0) =~= pushed.drop_first());
        }
    }
}

/// Memory usage never rises from one sample to the next.
pub open spec fn non_increasing(s: Seq<Sample>) -> bool {
    forall|i: int, j: int| 0 <= i < j < s.len() ==> s[j].memory_usage <= s[i].memory_usage
}

/// The last `RECENT_SAMPLES` samples (all of them where there are fewer).
pub open spec fn recent(s: Seq<Sample>) -> Seq<Sample> {
    if s.len() > RECENT_SAMPLES {
        s.subrange(s.len() - RECENT_SAMPLES, s.len() as int)
    } else {
        s
    }
}

/// Bytes allocated and not freed, as a leak size: 0 where more was freed.
pub open spec fn leak_size(total_allocated: usize, total_freed: usize) -> usize {
    total_allocated.saturating_sub(total_freed)
}

/// The suspected leak: the unfreed bytes exceed the threshold and usage did
/// not keep falling over the recent samples.
pub open spec fn suspected_leak(
    samples: Seq<Sample>,
    total_allocated: usize,
    total_freed: usize,
    leak_threshold: usize,
) -> Option<usize> {
    let leak = leak_size(total_allocated, total_freed);
    if leak > leak_threshold && !non_increasing(recent(samples)) {
        Some(leak)
    } else {
        None
    }
}

/// Whether usage grew from `first` to `last` faster than `threshold` bytes
/// per second: a positive time passed, usage rose, and the growth divided by
/// the elapsed seconds exceeds the threshold.
pub open spec fn growth_exceeds(first: Sample, last: Sample, threshold: usize) -> bool {
    let elapsed = last.timestamp_nanos - first.timestamp_nanos;
    &&& elapsed > 0
    &&& last.memory_usage > first.memory_usage
    &&& (last.memory_usage - first.memory_usage) * NANOS_PER_SEC > threshold * elapsed
}

/// The growth finding for `samples`: from the first to the last sample.
pub open spec fn growth_of(samples: Seq<Sample>, threshold: usize) -> Option<GrowthFinding> {
    let first = samples[0];
    let last = samples[samples.len() - 1];
    if growth_exceeds(first, last, threshold) {
        Some(
            GrowthFinding {
                growth_bytes: (last.memory_usage - first.memory_usage) as usize,
                elapsed_nanos: (last.timestamp_nanos - first.timestamp_nanos) as u64,
            },
        )
    } else {
        None
    }
}

/// Whether usage keeps from rising over `samples`.
fn is_non_increasing(samples: &[Sample]) -> (r: bool)
    ensures
        r == non_increasing(samples@),
{
    let n = samples.len();
    let mut k: usize = 1;
    if n == 0 {
        return true;
    }
    while k < n
        invariant
            n == samples@.len(),
            1 <= k <= n,
            non_increasing(samples@.subrange(0, k as int)),
        decreases n - k,
    {
        if samples[k].memory_usage > samples[k - 1].memory_usage {
            assert(samples@.subrange(0, k + 1)[k - 1] == samples@[k - 1]);
            return false;
        }
        proof {
            let prev = samples@.subrange(0, k as int);
            let next = samples@.subrange(0, k + 1);
            assert forall|i: int, j: int| 0 <= i < j < next.len() implies next[j].memory_usage
                <= next[i].memory_usage by {
                if j < k {
                    assert(next[j] == prev[j] && next[i] == prev[i]);
                } else if i < k - 1 {
                    assert(prev[k - 1].memory_usage <= prev[i].memory_usage);
                }
            }
        }
        k = k + 1;
    }
    assert(samples@.subrange(0, n as int) =~= samples@);
    true
}

/// Check for a leak: the unfreed bytes exceed the threshold and usage did not
/// keep falling over the last `RECENT_SAMPLES` samples.
pub fn leak_finding(
    samples: &Vec<Sample>,
    total_allocated: usize,
    total_freed: usize,
    leak_threshold: usize,
) -> (r: Option<usize>)
    ensures
        r == suspected_leak(samples@, total_allocated, total_freed, leak_threshold),
        r matches Some(leak) ==> total_allocated > total_freed && leak == total_allocated
            - total_freed && leak > leak_threshold,
        total_allocated - total_freed <= leak_threshold ==> r is None,
        ({
            let start = recent_start(samples.len() as int);
            &&& total_allocated - total_freed > leak_threshold && (exists|i: int, j: int|
                start <= i < j < samples.len() && #[trigger] samples@[j].memory_usage
                    > #[trigger] samples@[i].memory_usage) ==> r == Some(
                (total_allocated - total_freed) as usize,
            )
            &&& (forall|i: int, j: int|
                start <= i < j < samples.len() ==> #[trigger] samples@[j].memory_usage
                    <= #[trigger] samples@[i].memory_usage) ==> r is None
        }),
{
    proof {
        lemma_leak_reported_on_recent_rise(samples@, total_allocated, total_freed, leak_threshold);
    }
    let leak = total_allocated.saturating_sub(total_freed);
    if leak > leak_threshold {
        let start = samples.len().saturating_sub(RECENT_SAMPLES);
        let recent_samples = vstd::slice::slice_subrange(samples.as_slice(), start, samples.len());
        proof {
            assert(recent_samples@ =~= recent(samples@));
        }
        if !is_non_increasing(recent_samples) {
            return Some(leak);
        }
    }
    None
}

/// Check for growth faster than `threshold` bytes per second from the first
/// to the last sample.
pub fn growth_finding(samples: &Vec<Sample>, threshold: usize) -> (r: Option<GrowthFinding>)
    requires
        samples.len() >= 1,
    ensures
        r == growth_of(samples@, threshold),
{
    let first = samples[0];
    let last = samples[samples.len() - 1];
    let elapsed = last.timestamp_nanos.saturating_sub(first.timestamp_nanos);
    if elapsed > 0 && last.memory_usage > first.memory_usage {
        let growth = last.memory_usage - first.memory_usage;
        let g: u128 = growth as u128;
        let t: u128 = threshold as u128;
        let e: u128 = elapsed as u128;
        assert(g * NANOS_PER_SEC <= u128::MAX) by (nonlinear_arith)
            requires
                g <= u64::MAX,
        ;
        assert(t * e <= u128::MAX) by (nonlinear_arith)
            requires
                t <= u64::MAX,
                e <= u64::MAX,
        ;
        if g * NANOS_PER_SEC > t * e {
            return Some(GrowthFinding { growth_bytes: growth, elapsed_nanos: elapsed });
        }
    }
    None
}

/// Whether `hotspots` lists the `HOTSPOT_COUNT` call sites of `m` with the
/// most live bytes, highest first, each with its trace text where recorded.
pub open spec fn are_hotspots_of(hotspots: Seq<(u64, AllocationStats, Option<String>)>, m: MetricsView) -> bool {
    &&& is_top_sites(m.sites, HOTSPOT_COUNT, site_pairs(hotspots))
    &&& forall|a: int|
        0 <= a < hotspots.len() ==> text_matches(
            (#[trigger] hotspots[a]).2,
            trace_of(m.traces, hotspots[a].0),
        )
}

/// Analyze the samples against the configured thresholds: with fewer than two
/// samples nothing is reported; else a suspected leak, growth faster than the
/// threshold, and, where backtraces are enabled, the hotspots.
pub fn analyze_and_report(samples: &Vec<Sample>, metrics: &Metrics, config: &TrackerConfig) -> (r: AnalysisReport)
    requires
        metrics.wf(),
    ensures
        samples.len() < 2 ==> r.leak_bytes is None && r.growth is None && r.hotspots.len() == 0,
        samples.len() >= 2 ==> {
            &&& r.leak_bytes == suspected_leak(
                samples@,
                metrics@.total_allocated,
                metrics@.total_freed,
                config.leak_threshold_bytes,
            )
            &&& r.growth == growth_of(samples@, config.growth_threshold_bytes_per_sec)
            &&& config.enable_backtrace ==> are_hotspots_of(r.hotspots@, metrics@)
            &&& !config.enable_backtrace ==> r.hotspots.len() == 0
        },
{
    if samples.len() < 2 {
        return AnalysisReport { leak_bytes: None, growth: None, hotspots: Vec::new() };
    }
    let stats = crate::metrics::snapshot(metrics);
    let leak_bytes = leak_finding(
        samples,
        stats.total_allocated,
        stats.total_freed,
        config.leak_threshold_bytes,
    );
    let growth = growth_finding(samples, config.growth_threshold_bytes_per_sec);
    let hotspots = if config.enable_backtrace {
        metrics.top_allocation_stats(HOTSPOT_COUNT)
    } else {
        Vec::new()
    };
    AnalysisReport { leak_bytes, growth, hotspots }
}

/// The state of the sampling loop that `init_tracker` starts: the validated
/// configuration and the last `MAX_SAMPLES` samples.
pub struct Monitor {
    config: TrackerConfig,
    samples: Vec<Sample>,
}

impl Monitor {
    /// The configuration the monitor analyzes with.
    pub closed spec fn configuration(&self) -> TrackerConfig {
        self.config
    }

    /// The configuration the monitor analyzes with.
    pub fn config(&self) -> (c: &TrackerConfig)
        ensures
            *c == self.configuration(),
    {
        &self.config
    }

    /// The samples kept, oldest first.
    pub closed spec fn samples(&self) -> Seq<Sample> {
        self.samples@
    }

    pub closed spec fn wf(&self) -> bool {
        self.samples@.len() <= MAX_SAMPLES
    }

    /// A monitor with no samples yet.
    pub fn new(config: TrackerConfig) -> (m: Self)
        ensures
            m.wf(),
            m.configuration() == config,
            m.samples() == Seq::<Sample>::empty(),
    {
        Monitor { config, samples: Vec::new() }
    }

    /// One step of the sampling loop: record the current usage at time
    /// `now_nanos` and analyze the window.
    pub fn tick(&mut self, now_nanos: u64, metrics: &Metrics) -> (r: AnalysisReport)
        requires
            old(self).wf(),
            metrics.wf(),
        ensures
            final(self).wf(),
            final(self).configuration() == old(self).configuration(),
            final(self).samples() == window_after_push(
                old(self).samples(),
                Sample { timestamp_nanos: now_nanos, memory_usage: metrics@.current_usage },
            ),
            final(self).samples().len() < 2 ==> r.leak_bytes is None && r.growth is None
                && r.hotspots.len() == 0,
            final(self).samples().len() >= 2 ==> {
                &&& r.leak_bytes == suspected_leak(
                    final(self).samples(),
                    metrics@.total_allocated,
                    metrics@.total_freed,
                    final(self).configuration().leak_threshold_bytes,
                )
                &&& r.growth == growth_of(final(self).samples(), final(self).configuration().growth_threshold_bytes_per_sec)
                &&& final(self).configuration().enable_backtrace ==> are_hotspots_of(r.hotspots@, metrics@)
                &&& !final(self).configuration().enable_backtrace ==> r.hotspots.len() == 0
            },
    {
        let usage = crate::metrics::snapshot(metrics).current_usage;
        let sample = Sample { timestamp_nanos: now_nanos, memory_usage: usage };
        push_sample(&mut self.samples, sample);
        analyze_and_report(&self.samples, metrics, &self.config)
    }
}

/// Initialize the tracker with the given configuration: validate it, install
/// its backtrace settings, and return the monitor that the sampling loop
/// drives. An invalid configuration is returned as its error, with nothing
/// installed.
pub fn init_tracker(config: TrackerConfig, sampler: &mut BacktraceSampler) -> (r: Result<Monitor, String>)
    ensures
        validation_error(config) is None <==> r is Ok,
        r matches Err(m) ==> validation_error(config) == Some(m@) && *final(sampler) == *old(sampler),
        r matches Ok(mon) ==> mon.wf() && mon.configuration() == config && mon.samples() == Seq::<
            Sample,
        >::empty() && *final(sampler) == (BacktraceSampler {
            enabled: config.enable_backtrace,
            sample_rate: config.backtrace_sample_rate,
            counter: old(sampler).counter,
        }),
{
    let config = match config.validate() {
        Ok(c) => c,
        Err(e) => {
            return Err(e);
        },
    };
    sampler.enabled = config.enable_backtrace;
    sampler.sample_rate = config.backtrace_sample_rate;
    Ok(Monitor::new(config))
}

/// Initialize with the configuration that the environment describes, or the
/// default one (`TrackerConfig::auto`).
pub fn init(env: &EnvSettings, sampler: &mut BacktraceSampler) -> (r: Result<Monitor, String>)
    ensures
        r is Ok,
        r matches Ok(mon) ==> mon.wf() && mon.configuration() == auto_config(*env) && mon.samples()
            == Seq::<Sample>::empty() && *final(sampler) == (BacktraceSampler {
                enabled: mon.configuration().enable_backtrace,
                sample_rate: mon.configuration().backtrace_sample_rate,
                counter: old(sampler).counter,
            }),
{
    let config = TrackerConfig::auto(env);
    init_tracker(config, sampler)
}

/// The last `MAX_SAMPLES` samples of `history` (all of it where it is
/// shorter), oldest first.
pub open spec fn last_samples(history: Seq<Sample>) -> Seq<Sample> {
    if history.len() > MAX_SAMPLES {
        history.subrange(history.len() - MAX_SAMPLES, history.len() as int)
    } else {
        history
    }
}

/// The window that pushing every sample of `history`, in order, onto an
/// empty window leaves.
pub open spec fn window_after_all(history: Seq<Sample>) -> Seq<Sample>
    decreases history.len(),
{
    if history.len() == 0 {
        Seq::empty()
    } else {
        window_after_push(window_after_all(history.drop_last()), history.last())
    }
}

/// Pushing a sample onto the last samples of a history gives the last
/// samples of the history with that sample.
pub proof fn lemma_push_keeps_last_samples(history: Seq<Sample>, sample: Sample)
    ensures
        window_after_push(last_samples(history), sample) == last_samples(history.push(sample)),
{
    let w = last_samples(history);
    let h = history.push(sample);
    if history.len() > MAX_SAMPLES {
        assert(w.push(sample).drop_first() =~= h.subrange(h.len() - MAX_SAMPLES, h.len() as int));
    } else if history.len() == MAX_SAMPLES {
        assert(w.push(sample).drop_first() =~= h.subrange(h.len() - MAX_SAMPLES, h.len() as int));
    } else {
        assert(w.push(sample) =~= h);
    }
}

/// After `k` ticks, the monitor's window is the last min(k, `MAX_SAMPLES`)
/// samples taken, in time order.
pub proof fn lemma_window_is_last_samples(history: Seq<Sample>)
    ensures
        window_after_all(history) == last_samples(history),
        window_after_all(history).len() <= MAX_SAMPLES,
    decreases history.len(),
{
    if history.len() > 0 {
        let prefix = history.drop_last();
        lemma_window_is_last_samples(prefix);
        lemma_push_keeps_last_samples(prefix, history.last());
        assert(prefix.push(history.last()) =~= history);
    }
}

/// Index of the first of the last `RECENT_SAMPLES` of `len` samples.
pub open spec fn recent_start(len: int) -> int {
    if len > RECENT_SAMPLES {
        len - RECENT_SAMPLES
    } else {
        0
    }
}

/// A leak is suspected exactly when more was allocated than freed by more
/// than the threshold and usage rose somewhere among the last
/// `RECENT_SAMPLES` samples (between any two of them, not only at the last
/// step); the leak is then the unfreed bytes.
pub proof fn lemma_leak_reported_on_recent_rise(
    samples: Seq<Sample>,
    total_allocated: usize,
    total_freed: usize,
    leak_threshold: usize,
)
    ensures
        ({
            let start = recent_start(samples.len() as int);
            let rose = exists|i: int, j: int|
                start <= i < j < samples.len() && #[trigger] samples[j].memory_usage
                    > #[trigger] samples[i].memory_usage;
            let r = suspected_leak(samples, total_allocated, total_freed, leak_threshold);
            &&& (total_allocated - total_freed > leak_threshold && rose) ==> r == Some(
                (total_allocated - total_freed) as usize,
            )
            &&& !(total_allocated - total_freed > leak_threshold && rose) ==> r is None
            &&& r matches Some(leak) ==> leak == total_allocated - total_freed
        }),
{
    let start = recent_start(samples.len() as int);
    let w = recent(samples);
    assert(w.len() == samples.len() - start);
    assert(forall|k: int| 0 <= k < w.len() ==> #[trigger] w[k] == samples[start + k]);
    let rose = exists|i: int, j: int|
        start <= i < j < samples.len() && #[trigger] samples[j].memory_usage
            > #[trigger] samples[i].memory_usage;
    if rose {
        let (i, j) = choose|i: int, j: int|
            start <= i < j < samples.len() && #[trigger] samples[j].memory_usage
                > #[trigger] samples[i].memory_usage;
        assert(w[i - start] == samples[i] && w[j - start] == samples[j]);
        assert(!non_increasing(w));
    } else {
        assert forall|a: int, b: int| 0 <= a < b < w.len() implies w[b].memory_usage
            <= w[a].memory_usage by {
            assert(w[a] == samples[start + a] && w[b] == samples[start + b]);
            assert(!(samples[start + b].memory_usage > samples[start + a].memory_usage));
        }
        assert(non_increasing(w));
    }
}

/// Growth is reported exactly when, from the first to the last sample, time
/// passed and usage rose by more than the threshold times the elapsed
/// seconds; the finding gives that rise and that time. A lower threshold
/// reports whatever a higher one does.
pub proof fn lemma_growth_reported_when_rate_exceeds(samples: Seq<Sample>, threshold: usize, lower: usize)
    requires
        samples.len() >= 1,
        lower <= threshold,
    ensures
        ({
            let first = samples[0];
            let last = samples[samples.len() - 1];
            let rose = last.timestamp_nanos > first.timestamp_nanos && last.memory_usage
                > first.memory_usage && (last.memory_usage - first.memory_usage) * 1000000000
                > threshold * (last.timestamp_nanos - first.timestamp_nanos);
            &&& rose ==> growth_of(samples, threshold) == Some(
                GrowthFinding {
                    growth_bytes: (last.memory_usage - first.memory_usage) as usize,
                    elapsed_nanos: (last.timestamp_nanos - first.timestamp_nanos) as u64,
                },
            )
            &&& !rose ==> growth_of(samples, threshold) is None
            &&& growth_of(samples, threshold) is Some ==> growth_of(samples, lower) == growth_of(
                samples,
                threshold,
            )
        }),
{
    let first = samples[0];
    let last = samples[samples.len() - 1];
    if last.timestamp_nanos > first.timestamp_nanos {
        let e = last.timestamp_nanos - first.timestamp_nanos;
        assert(lower * e <= threshold * e) by (nonlinear_arith)
            requires
                lower <= threshold,
                e >= 0,
        ;
    }
}

} // verus!
