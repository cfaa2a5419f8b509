//! Heap Sentry: bookkeeping for heap allocations, memory-leak detection and
//! detection of unbounded memory growth.
//!
//! The library holds the state and the decisions: the allocation counters and
//! per-call-site statistics (`metrics`), the tracking hooks that a global
//! allocator runs on each allocation event (`allocator`), the configuration
//! and its validation (`config`), the sample window and the leak and growth
//! analysis (`analysis`), and scoped measurements (`scope`).

pub mod allocator;
pub mod analysis;
pub mod config;
pub mod metrics;
pub mod scope;

pub use allocator::{BacktraceSampler, TrackingAllocator};
pub use analysis::{init, init_tracker, AnalysisReport, Monitor, Sample};
pub use config::{EnvSettings, OutputFormat, TrackerConfig};
pub use metrics::{current_thread_stats, snapshot, thread_stats, MemoryStats, Metrics, ThreadMemoryStats};
pub use scope::{MemoryScope, ScopedStats};
