//! Turns a backup tool's snapshot listing into a source-partitioned
//! inventory and a catalog of Prometheus metrics derived from it.

pub mod backoff;
pub mod exposition;
pub mod invocation;
pub mod inventory;
pub mod kopia;
pub mod metrics;
pub mod order;
pub mod source;
pub mod source_map;
pub mod tally;
pub mod time;

pub use crate::source::{Error, ErrorKind, Source, SourceStr};
pub use crate::source_map::SourceMap;
pub use crate::tally::Tally;
pub use crate::kopia::{get_retention_counts, RootEntry, Snapshot, Stats, Summary};
pub use crate::inventory::KopiaSnapshots;
pub use crate::time::Timestamp;
pub use crate::exposition::{MetricLabel, MetricType, Metrics, Sample};
pub use crate::metrics::{MetricKind, SourceStat};
pub use crate::invocation::{decide_poll, finish_run, timed_out, IngestOutcome, InvocationError, PollAction, POLL_INTERVAL_MS};
pub use crate::backoff::calculate_delay_seconds;
pub use crate::source::Error as SourceStrError;
