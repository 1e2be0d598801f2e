//! The catalog of metrics derived from an inventory.

use crate::exposition::{
    exposition_text, push_block, sample_views, MetricHead, MetricLabel, MetricType, Metrics, Rows, Sample,
};
use crate::inventory::KopiaSnapshots;
use crate::kopia::{carried_labels, get_retention_counts, Snapshot};
use crate::source::SourceStr;
use crate::tally::{tally_of, Tally};
use crate::time::{age_seconds, instant_nanos, parse_timestamp, parsed_instant, round_seconds, Timestamp};
use vstd::prelude::*;
use vstd::string::*;

verus! {

/// A per-source value derived from a history.
#[derive(Clone, Copy, Debug)]
pub enum SourceStat {
    /// Length of the history.
    SnapshotCount,
    /// Total size of the latest snapshot.
    TotalSize,
    /// Latest total size minus the previous one.
    SizeChange,
    /// Errors of the latest snapshot.
    ErrorCount,
    /// Ignored errors of the latest snapshot.
    IgnoredErrorCount,
    /// Failed files of the latest snapshot.
    FailedFiles,
    /// Snapshots whose end time does not parse.
    TimestampParseErrors,
    /// End time of the latest snapshot, in Unix seconds.
    LastSuccess,
    /// Seconds from the latest snapshot's end time to the given instant.
    Age(Timestamp),
}

/// Number of snapshots of `h` whose end time does not parse.
pub open spec fn unparsed_count(h: Seq<Snapshot>) -> nat
    decreases h.len(),
{
    if h.len() == 0 {
        0
    } else {
        unparsed_count(h.drop_last()) + if parsed_instant(h.last().end_time@) is None { 1nat } else { 0nat }
    }
}

/// The value of `stat` for history `h`, or `None` where the metric has no
/// row for it.
pub open spec fn stat_value(stat: SourceStat, h: Seq<Snapshot>) -> Option<int> {
    let n = h.len();
    match stat {
        SourceStat::SnapshotCount => Some(n as int),
        SourceStat::TotalSize => if n > 0 { Some(h.last().stats.total_size as int) } else { None },
        SourceStat::SizeChange => if n >= 2 {
            Some(h.last().stats.total_size - h[n - 2].stats.total_size)
        } else {
            None
        },
        SourceStat::ErrorCount => if n > 0 { Some(h.last().stats.error_count as int) } else { None },
        SourceStat::IgnoredErrorCount => if n > 0 {
            Some(h.last().stats.ignored_error_count as int)
        } else {
            None
        },
        SourceStat::FailedFiles => if n > 0 { Some(h.last().root_entry.summ.num_failed as int) } else { None },
        SourceStat::TimestampParseErrors => if unparsed_count(h) > 0 {
            Some(unparsed_count(h) as int)
        } else {
            None
        },
        SourceStat::LastSuccess => if n > 0 {
            match parsed_instant(h.last().end_time@) {
                Some((sec, _nano)) => Some(sec),
                None => None,
            }
        } else {
            None
        },
        SourceStat::Age(now) => if n > 0 {
            match parsed_instant(h.last().end_time@) {
                Some((sec, nano)) => Some(round_seconds(now.nanos() - instant_nanos(sec, nano))),
                None => None,
            }
        } else {
            None
        },
    }
}

/// The size change of a history is present exactly when it holds two
/// snapshots or more, and is then the latest total size minus the previous.
pub proof fn lemma_size_change_presence(h: Seq<Snapshot>)
    ensures
        stat_value(SourceStat::SizeChange, h) is None <==> h.len() < 2,
        h.len() >= 2 ==> stat_value(SourceStat::SizeChange, h) == Some(
            h[h.len() - 1].stats.total_size - h[h.len() - 2].stats.total_size,
        ),
{
}

/// A history whose latest end time parses to an instant exactly `s` whole
/// seconds before `now` has age `s`.
pub proof fn lemma_age_of_whole_seconds(now: Timestamp, h: Seq<Snapshot>, sec: int, nano: int, s: int)
    requires
        h.len() > 0,
        parsed_instant(h.last().end_time@) == Some((sec, nano)),
        now.nanos() - instant_nanos(sec, nano) == s * 1_000_000_000,
    ensures
        stat_value(SourceStat::Age(now), h) == Some(s),
{
    assert(round_seconds(now.nanos() - instant_nanos(sec, nano)) == s) by {
        vstd::arithmetic::div_mod::lemma_fundamental_div_mod_converse_div(
            s * 1_000_000_000 + 500_000_000,
            1_000_000_000,
            s,
            500_000_000,
        );
    }
}

/// One row per source, in key order, labelled `source`, for the sources
/// where `stat` has a value.
pub open spec fn source_rows(entries: Seq<(SourceStr, Vec<Snapshot>)>, stat: SourceStat) -> Rows
    decreases entries.len(),
{
    if entries.len() == 0 {
        Seq::empty()
    } else {
        let rest = source_rows(entries.drop_last(), stat);
        match stat_value(stat, entries.last().1@) {
            Some(v) => rest.push((seq![("source"@, entries.last().0@)], v)),
            None => rest,
        }
    }
}

/// Rows of one source's retention counts, labelled `source` and
/// `retention_reason`.
pub open spec fn reason_rows(key: Seq<char>, counts: Seq<(Seq<char>, u64)>) -> Rows {
    counts.map_values(|c: (Seq<char>, u64)| (seq![("source"@, key), ("retention_reason"@, c.0)], c.1 as int))
}

/// Retention rows of every source, in key order: each label carried by a
/// source's snapshots, with the number of those snapshots that carry it.
pub open spec fn retention_rows(entries: Seq<(SourceStr, Vec<Snapshot>)>) -> Rows
    decreases entries.len(),
{
    if entries.len() == 0 {
        Seq::empty()
    } else {
        retention_rows(entries.drop_last()) + reason_rows(
            entries.last().0@,
            tally_of(carried_labels(entries.last().1@)),
        )
    }
}

/// Rows of a tally, each labelled `key` with the counted value.
pub open spec fn tally_rows(key: Seq<char>, counts: Seq<(Seq<char>, u64)>) -> Rows {
    counts.map_values(|c: (Seq<char>, u64)| (seq![(key, c.0)], c.1 as int))
}

/// The metrics of the catalog.
#[derive(Clone, Copy, Debug, PartialEq, Eq)]
pub enum MetricKind {
    SnapshotsByRetention,
    SnapshotsTotal,
    SizeBytesTotal,
    SizeBytesChange,
    AgeSeconds,
    LastSuccessTimestamp,
    ErrorsTotal,
    ErrorsIgnoredTotal,
    FailedFilesTotal,
    ParseErrorsTimestampTotal,
    ParseErrorsSource,
}

/// Name and help text of each metric of the catalog; all are gauges.
pub open spec fn kind_head(kind: MetricKind) -> MetricHead {
    let (name, help) = match kind {
        MetricKind::SnapshotsByRetention => (
            "kopia_snapshots_by_retention"@,
            "Number of snapshots by retention reason"@,
        ),
        MetricKind::SnapshotsTotal => ("kopia_snapshots_total"@, "Total number of snapshots"@),
        MetricKind::SizeBytesTotal => (
            "kopia_snapshot_size_bytes_total"@,
            "Total size of latest snapshot in bytes"@,
        ),
        MetricKind::SizeBytesChange => (
            "kopia_snapshot_size_bytes_change"@,
            "Change in size from previous snapshot"@,
        ),
        MetricKind::AgeSeconds => ("kopia_snapshot_age_seconds"@, "Age of newest snapshot in seconds"@),
        MetricKind::LastSuccessTimestamp => (
            "kopia_snapshot_last_success_timestamp"@,
            "Unix timestamp of last successful snapshot"@,
        ),
        MetricKind::ErrorsTotal => ("kopia_snapshot_errors_total"@, "Total errors in latest snapshot"@),
        MetricKind::ErrorsIgnoredTotal => (
            "kopia_snapshot_errors_ignored_total"@,
            "Ignored errors in latest snapshot"@,
        ),
        MetricKind::FailedFilesTotal => (
            "kopia_snapshot_failed_files_total"@,
            "Number of failed files in latest snapshot"@,
        ),
        MetricKind::ParseErrorsTimestampTotal => (
            "kopia_snapshot_parse_errors_timestamp_total"@,
            "Number of snapshots with unparseable timestamps"@,
        ),
        MetricKind::ParseErrorsSource => (
            "kopia_snapshot_parse_errors_source"@,
            "Number of snapshots with unparseable sources"@,
        ),
    };
    MetricHead { name, help, ty: MetricType::Gauge }
}

impl MetricKind {
    /// The label of this metric.
    pub fn label(self) -> (r: MetricLabel)
        ensures
            r@ == kind_head(self),
    {
        match self {
            MetricKind::SnapshotsByRetention => MetricLabel::gauge(
                "kopia_snapshots_by_retention",
                "Number of snapshots by retention reason",
            ),
            MetricKind::SnapshotsTotal => MetricLabel::gauge("kopia_snapshots_total", "Total number of snapshots"),
            MetricKind::SizeBytesTotal => MetricLabel::gauge(
                "kopia_snapshot_size_bytes_total",
                "Total size of latest snapshot in bytes",
            ),
            MetricKind::SizeBytesChange => MetricLabel::gauge(
                "kopia_snapshot_size_bytes_change",
                "Change in size from previous snapshot",
            ),
            MetricKind::AgeSeconds => MetricLabel::gauge(
                "kopia_snapshot_age_seconds",
                "Age of newest snapshot in seconds",
            ),
            MetricKind::LastSuccessTimestamp => MetricLabel::gauge(
                "kopia_snapshot_last_success_timestamp",
                "Unix timestamp of last successful snapshot",
            ),
            MetricKind::ErrorsTotal => MetricLabel::gauge(
                "kopia_snapshot_errors_total",
                "Total errors in latest snapshot",
            ),
            MetricKind::ErrorsIgnoredTotal => MetricLabel::gauge(
                "kopia_snapshot_errors_ignored_total",
                "Ignored errors in latest snapshot",
            ),
            MetricKind::FailedFilesTotal => MetricLabel::gauge(
                "kopia_snapshot_failed_files_total",
                "Number of failed files in latest snapshot",
            ),
            MetricKind::ParseErrorsTimestampTotal => MetricLabel::gauge(
                "kopia_snapshot_parse_errors_timestamp_total",
                "Number of snapshots with unparseable timestamps",
            ),
            MetricKind::ParseErrorsSource => MetricLabel::gauge(
                "kopia_snapshot_parse_errors_source",
                "Number of snapshots with unparseable sources",
            ),
        }
    }
}

/// A metric that is present only when it has rows: `r` is `None` exactly
/// when `rows` is empty, and otherwise holds `kind`'s metric with `rows`.
pub open spec fn present_when_rows(r: Option<Metrics>, kind: MetricKind, rows: Rows) -> bool {
    if rows.len() == 0 {
        r is None
    } else {
        r matches Some(m) && m@ == (kind_head(kind), rows)
    }
}

fn count_unparsed(h: &Vec<Snapshot>) -> (r: usize)
    ensures
        r == unparsed_count(h@),
{
    let mut c: usize = 0;
    let mut i: usize = 0;
    while i < h.len()
        invariant
            i <= h@.len(),
            c == unparsed_count(h@.take(i as int)),
            c <= i,
        decreases h@.len() - i,
    {
        let parsed = parse_timestamp(h[i].end_time.as_str());
        assert(h@.take(i + 1).drop_last() =~= h@.take(i as int));
        if parsed.is_none() {
            c = c + 1;
        }
        i = i + 1;
    }
    assert(h@.take(i as int) =~= h@);
    c
}

/// The value of `stat` for history `h`.
pub fn stat_of(stat: SourceStat, h: &Vec<Snapshot>) -> (r: Option<i128>)
    ensures
        match r {
            Some(v) => stat_value(stat, h@) == Some(v as int),
            None => stat_value(stat, h@) is None,
        },
{
    let n = h.len();
    match stat {
        SourceStat::SnapshotCount => Some(n as i128),
        SourceStat::TotalSize => if n > 0 {
            Some(h[n - 1].stats.total_size as i128)
        } else {
            None
        },
        SourceStat::SizeChange => if n >= 2 {
            Some(h[n - 1].stats.total_size as i128 - h[n - 2].stats.total_size as i128)
        } else {
            None
        },
        SourceStat::ErrorCount => if n > 0 {
            Some(h[n - 1].stats.error_count as i128)
        } else {
            None
        },
        SourceStat::IgnoredErrorCount => if n > 0 {
            Some(h[n - 1].stats.ignored_error_count as i128)
        } else {
            None
        },
        SourceStat::FailedFiles => if n > 0 {
            Some(h[n - 1].root_entry.summ.num_failed as i128)
        } else {
            None
        },
        SourceStat::TimestampParseErrors => {
            let c = count_unparsed(h);
            if c > 0 {
                Some(c as i128)
            } else {
                None
            }
        },
        SourceStat::LastSuccess => if n > 0 {
            match parse_timestamp(h[n - 1].end_time.as_str()) {
                Some(t) => Some(t.second as i128),
                None => None,
            }
        } else {
            None
        },
        SourceStat::Age(now) => if n > 0 {
            match parse_timestamp(h[n - 1].end_time.as_str()) {
                Some(t) => Some(age_seconds(now, t)),
                None => None,
            }
        } else {
            None
        },
    }
}

fn pair(key: &str, value: &str) -> (r: (String, String))
    ensures
        r.0@ == key@,
        r.1@ == value@,
{
    (String::from_str(key), String::from_str(value))
}

/// The rows of `stat` for every source of `map`, in key order.
pub fn per_source_samples(map: &crate::source_map::SourceMap<Vec<Snapshot>>, stat: SourceStat) -> (r: Vec<Sample>)
    ensures
        sample_views(r@) == source_rows(map@, stat),
{
    let entries = map.iter();
    let mut out: Vec<Sample> = Vec::new();
    let mut i: usize = 0;
    while i < entries.len()
        invariant
            entries@ == map@,
            i <= entries@.len(),
            sample_views(out@) == source_rows(entries@.take(i as int), stat),
        decreases entries@.len() - i,
    {
        let ghost prefix = entries@.take(i + 1);
        assert(prefix.drop_last() =~= entries@.take(i as int));
        match stat_of(stat, &entries[i].1) {
            Some(v) => {
                let mut labels: Vec<(String, String)> = Vec::new();
                labels.push(pair("source", entries[i].0.as_str()));
                let sample = Sample { labels, value: v };
                assert(sample@.0 =~= seq![("source"@, entries@[i as int].0@)]);
                out.push(sample);
                assert(sample_views(out@) =~= source_rows(prefix, stat));
            },
            None => {},
        }
        i = i + 1;
    }
    assert(entries@.take(i as int) =~= entries@);
    out
}

fn tally_samples(key: &str, counts: &Tally) -> (r: Vec<Sample>)
    ensures
        sample_views(r@) == tally_rows(key@, counts@),
{
    let mut out: Vec<Sample> = Vec::new();
    let mut i: usize = 0;
    while i < counts.len()
        invariant
            i <= counts@.len(),
            sample_views(out@) =~= tally_rows(key@, counts@).take(i as int),
        decreases counts@.len() - i,
    {
        let (value, count) = counts.get(i);
        let mut labels: Vec<(String, String)> = Vec::new();
        labels.push(pair(key, value));
        let sample = Sample { labels, value: count as i128 };
        assert(sample@.0 =~= seq![(key@, counts@[i as int].0)]);
        assert(sample@ == tally_rows(key@, counts@)[i as int]);
        let ghost before = out@;
        out.push(sample);
        assert(sample_views(out@) =~= sample_views(before).push(sample@));
        assert(sample_views(out@) =~= tally_rows(key@, counts@).take(i + 1));
        i = i + 1;
    }
    out
}

/// Adds one metric to the list when it is present.
pub open spec fn with_series(done: Seq<(MetricHead, Rows)>, kind: MetricKind, rows: Rows, always: bool) -> Seq<
    (MetricHead, Rows),
> {
    if always || rows.len() > 0 {
        done.push((kind_head(kind), rows))
    } else {
        done
    }
}

fn push_present(out: &mut String, m: &Option<Metrics>, Ghost(done): Ghost<Seq<(MetricHead, Rows)>>)
    requires
        old(out)@ == exposition_text(done),
    ensures
        final(out)@ == exposition_text(
            match m {
                Some(x) => done.push(x@),
                None => done,
            },
        ),
{
    match m {
        Some(x) => push_block(out, x, Ghost(done)),
        None => {},
    }
}

impl KopiaSnapshots {
    fn per_source_metric(&self, kind: MetricKind, stat: SourceStat) -> (r: Option<Metrics>)
        ensures
            present_when_rows(r, kind, source_rows(self.snapshots_map@, stat)),
    {
        let samples = per_source_samples(&self.snapshots_map, stat);
        if samples.len() == 0 {
            None
        } else {
            Some(Metrics { label: kind.label(), samples })
        }
    }

    /// Metric `kopia_snapshots_by_retention`: for each source, one row per
    /// distinct retention label, with the number of its occurrences.
    pub fn kopia_snapshots_by_retention(&self) -> (r: Metrics)
        ensures
            self.snapshots_map.wf(),
            r@ == (kind_head(MetricKind::SnapshotsByRetention), retention_rows(self.snapshots_map@)),
    {
        self.snapshots_map.assert_sorted();
        let entries = self.snapshots_map.iter();
        let mut samples: Vec<Sample> = Vec::new();
        let mut i: usize = 0;
        while i < entries.len()
            invariant
                entries@ == self.snapshots_map@,
                i <= entries@.len(),
                sample_views(samples@) == retention_rows(entries@.take(i as int)),
            decreases entries@.len() - i,
        {
            let key = entries[i].0.as_str();
            let counts = get_retention_counts(entries[i].1.as_slice());
            let ghost base = sample_views(samples@);
            let mut j: usize = 0;
            while j < counts.len()
                invariant
                    j <= counts@.len(),
                    sample_views(samples@) =~= base + reason_rows(key@, counts@).take(j as int),
                decreases counts@.len() - j,
            {
                let (reason, count) = counts.get(j);
                let mut labels: Vec<(String, String)> = Vec::new();
                labels.push(pair("source", key));
                labels.push(pair("retention_reason", reason));
                let sample = Sample { labels, value: count as i128 };
                assert(sample@.0 =~= seq![("source"@, key@), ("retention_reason"@, counts@[j as int].0)]);
                assert(sample@ == reason_rows(key@, counts@)[j as int]);
                let ghost before = samples@;
                samples.push(sample);
                assert(sample_views(samples@) =~= sample_views(before).push(sample@));
                assert(sample_views(samples@) =~= base + reason_rows(key@, counts@).take(j + 1));
                j = j + 1;
            }
            assert(reason_rows(key@, counts@).take(j as int) =~= reason_rows(key@, counts@));
            assert(entries@.take(i + 1).drop_last() =~= entries@.take(i as int));
            i = i + 1;
        }
        assert(entries@.take(i as int) =~= entries@);
        Metrics { label: MetricKind::SnapshotsByRetention.label(), samples }
    }

    /// Metric `kopia_snapshots_total`: the length of each source's history.
    pub fn kopia_snapshots_total(&self) -> (r: Metrics)
        ensures
            self.snapshots_map.wf(),
            r@ == (kind_head(MetricKind::SnapshotsTotal), source_rows(self.snapshots_map@, SourceStat::SnapshotCount)),
    {
        self.snapshots_map.assert_sorted();
        let samples = per_source_samples(&self.snapshots_map, SourceStat::SnapshotCount);
        Metrics { label: MetricKind::SnapshotsTotal.label(), samples }
    }

    /// Metric `kopia_snapshot_size_bytes_total`: the latest total size of
    /// each source.
    pub fn kopia_snapshot_size_bytes_total(&self) -> (r: Option<Metrics>)
        ensures
            self.snapshots_map.wf(),
            present_when_rows(r, MetricKind::SizeBytesTotal, source_rows(self.snapshots_map@, SourceStat::TotalSize)),
    {
        self.snapshots_map.assert_sorted();
        self.per_source_metric(MetricKind::SizeBytesTotal, SourceStat::TotalSize)
    }

    /// Metric `kopia_snapshot_size_bytes_change`: latest minus previous total
    /// size, for sources with two snapshots or more.
    pub fn kopia_snapshot_size_bytes_change(&self) -> (r: Option<Metrics>)
        ensures
            self.snapshots_map.wf(),
            present_when_rows(r, MetricKind::SizeBytesChange, source_rows(self.snapshots_map@, SourceStat::SizeChange)),
    {
        self.snapshots_map.assert_sorted();
        self.per_source_metric(MetricKind::SizeBytesChange, SourceStat::SizeChange)
    }

    /// Metric `kopia_snapshot_age_seconds`: seconds from the latest
    /// snapshot's end time to `now`, rounded, where the end time parses.
    pub fn kopia_snapshot_age_seconds(&self, now: Timestamp) -> (r: Option<Metrics>)
        ensures
            self.snapshots_map.wf(),
            present_when_rows(r, MetricKind::AgeSeconds, source_rows(self.snapshots_map@, SourceStat::Age(now))),
    {
        self.snapshots_map.assert_sorted();
        self.per_source_metric(MetricKind::AgeSeconds, SourceStat::Age(now))
    }

    /// Metric `kopia_snapshot_last_success_timestamp`: the latest snapshot's
    /// end time in Unix seconds, where it parses.
    pub fn kopia_snapshot_last_success_timestamp(&self) -> (r: Option<Metrics>)
        ensures
            self.snapshots_map.wf(),
            present_when_rows(
                r,
                MetricKind::LastSuccessTimestamp,
                source_rows(self.snapshots_map@, SourceStat::LastSuccess),
            ),
    {
        self.snapshots_map.assert_sorted();
        self.per_source_metric(MetricKind::LastSuccessTimestamp, SourceStat::LastSuccess)
    }

    /// Metric `kopia_snapshot_errors_total`: errors of the latest snapshot.
    pub fn kopia_snapshot_errors_total(&self) -> (r: Option<Metrics>)
        ensures
            self.snapshots_map.wf(),
            present_when_rows(r, MetricKind::ErrorsTotal, source_rows(self.snapshots_map@, SourceStat::ErrorCount)),
    {
        self.snapshots_map.assert_sorted();
        self.per_source_metric(MetricKind::ErrorsTotal, SourceStat::ErrorCount)
    }

    /// Metric `kopia_snapshot_errors_ignored_total`: ignored errors of the
    /// latest snapshot.
    pub fn kopia_snapshot_errors_ignored_total(&self) -> (r: Option<Metrics>)
        ensures
            self.snapshots_map.wf(),
            present_when_rows(
                r,
                MetricKind::ErrorsIgnoredTotal,
                source_rows(self.snapshots_map@, SourceStat::IgnoredErrorCount),
            ),
    {
        self.snapshots_map.assert_sorted();
        self.per_source_metric(MetricKind::ErrorsIgnoredTotal, SourceStat::IgnoredErrorCount)
    }

    /// Metric `kopia_snapshot_failed_files_total`: failed files of the latest
    /// snapshot.
    pub fn kopia_snapshot_failed_files_total(&self) -> (r: Option<Metrics>)
        ensures
            self.snapshots_map.wf(),
            present_when_rows(r, MetricKind::FailedFilesTotal, source_rows(self.snapshots_map@, SourceStat::FailedFiles)),
    {
        self.snapshots_map.assert_sorted();
        self.per_source_metric(MetricKind::FailedFilesTotal, SourceStat::FailedFiles)
    }

    /// Metric `kopia_snapshot_parse_errors_timestamp_total`: the number of
    /// snapshots whose end time does not parse, for sources that have any.
    pub fn kopia_snapshot_parse_errors_timestamp_total(&self) -> (r: Option<Metrics>)
        ensures
            self.snapshots_map.wf(),
            present_when_rows(
                r,
                MetricKind::ParseErrorsTimestampTotal,
                source_rows(self.snapshots_map@, SourceStat::TimestampParseErrors),
            ),
    {
        self.snapshots_map.assert_sorted();
        self.per_source_metric(MetricKind::ParseErrorsTimestampTotal, SourceStat::TimestampParseErrors)
    }

    /// Metric `kopia_snapshot_parse_errors_source`: one row per rejected user
    /// name, then one per rejected host, with their counts.
    pub fn kopia_snapshot_parse_errors_source(&self) -> (r: Option<Metrics>)
        ensures
            self.snapshots_map.wf(),
            present_when_rows(
                r,
                MetricKind::ParseErrorsSource,
                tally_rows("invalid_user"@, self.invalid_user_names@) + tally_rows(
                    "invalid_host"@,
                    self.invalid_hosts@,
                ),
            ),
    {
        self.snapshots_map.assert_sorted();
        let mut samples = tally_samples("invalid_user", &self.invalid_user_names);
        let mut hosts = tally_samples("invalid_host", &self.invalid_hosts);
        let ghost users_v = samples@;
        let ghost hosts_v = hosts@;
        samples.append(&mut hosts);
        assert(sample_views(samples@) =~= sample_views(users_v) + sample_views(hosts_v));
        if samples.len() == 0 {
            None
        } else {
            Some(Metrics { label: MetricKind::ParseErrorsSource.label(), samples })
        }
    }

    /// The present metrics of the catalog, in catalog order.
    pub open spec fn catalog(&self, now: Timestamp) -> Seq<(MetricHead, Rows)> {
        let m = self.snapshots_map@;
        let s = with_series(Seq::empty(), MetricKind::SnapshotsByRetention, retention_rows(m), true);
        let s = with_series(s, MetricKind::SnapshotsTotal, source_rows(m, SourceStat::SnapshotCount), true);
        let s = with_series(s, MetricKind::SizeBytesTotal, source_rows(m, SourceStat::TotalSize), false);
        let s = with_series(s, MetricKind::SizeBytesChange, source_rows(m, SourceStat::SizeChange), false);
        let s = with_series(s, MetricKind::AgeSeconds, source_rows(m, SourceStat::Age(now)), false);
        let s = with_series(s, MetricKind::LastSuccessTimestamp, source_rows(m, SourceStat::LastSuccess), false);
        let s = with_series(s, MetricKind::ErrorsTotal, source_rows(m, SourceStat::ErrorCount), false);
        let s = with_series(s, MetricKind::ErrorsIgnoredTotal, source_rows(m, SourceStat::IgnoredErrorCount), false);
        let s = with_series(s, MetricKind::FailedFilesTotal, source_rows(m, SourceStat::FailedFiles), false);
        let s = with_series(
            s,
            MetricKind::ParseErrorsTimestampTotal,
            source_rows(m, SourceStat::TimestampParseErrors),
            false,
        );
        with_series(
            s,
            MetricKind::ParseErrorsSource,
            tally_rows("invalid_user"@, self.invalid_user_names@) + tally_rows("invalid_host"@, self.invalid_hosts@),
            false,
        )
    }

    /// The whole exposition: every present metric of the catalog, blank
    /// lines apart.
    pub fn generate_all_metrics(&self, now: Timestamp) -> (r: String)
        ensures
            self.snapshots_map.wf(),
            r@ == exposition_text(self.catalog(now)),
    {
        self.snapshots_map.assert_sorted();
        let mut out = String::new();
        let ghost done: Seq<(MetricHead, Rows)> = Seq::empty();
        let m = self.kopia_snapshots_by_retention();
        push_block(&mut out, &m, Ghost(done));
        proof {
            done = done.push(m@);
        }
        let m = self.kopia_snapshots_total();
        push_block(&mut out, &m, Ghost(done));
        proof {
            done = done.push(m@);
        }
        let m = self.kopia_snapshot_size_bytes_total();
        push_present(&mut out, &m, Ghost(done));
        proof {
            done = with_series(done, MetricKind::SizeBytesTotal, source_rows(self.snapshots_map@, SourceStat::TotalSize), false);
        }
        let m = self.kopia_snapshot_size_bytes_change();
        push_present(&mut out, &m, Ghost(done));
        proof {
            done = with_series(done, MetricKind::SizeBytesChange, source_rows(self.snapshots_map@, SourceStat::SizeChange), false);
        }
        let m = self.kopia_snapshot_age_seconds(now);
        push_present(&mut out, &m, Ghost(done));
        proof {
            done = with_series(done, MetricKind::AgeSeconds, source_rows(self.snapshots_map@, SourceStat::Age(now)), false);
        }
        let m = self.kopia_snapshot_last_success_timestamp();
        push_present(&mut out, &m, Ghost(done));
        proof {
            done = with_series(done, MetricKind::LastSuccessTimestamp, source_rows(self.snapshots_map@, SourceStat::LastSuccess), false);
        }
        let m = self.kopia_snapshot_errors_total();
        push_present(&mut out, &m, Ghost(done));
        proof {
            done = with_series(done, MetricKind::ErrorsTotal, source_rows(self.snapshots_map@, SourceStat::ErrorCount), false);
        }
        let m = self.kopia_snapshot_errors_ignored_total();
        push_present(&mut out, &m, Ghost(done));
        proof {
            done = with_series(done, MetricKind::ErrorsIgnoredTotal, source_rows(self.snapshots_map@, SourceStat::IgnoredErrorCount), false);
        }
        let m = self.kopia_snapshot_failed_files_total();
        push_present(&mut out, &m, Ghost(done));
        proof {
            done = with_series(done, MetricKind::FailedFilesTotal, source_rows(self.snapshots_map@, SourceStat::FailedFiles), false);
        }
        let m = self.kopia_snapshot_parse_errors_timestamp_total();
        push_present(&mut out, &m, Ghost(done));
        proof {
            done = with_series(done, MetricKind::ParseErrorsTimestampTotal, source_rows(self.snapshots_map@, SourceStat::TimestampParseErrors), false);
        }
        let m = self.kopia_snapshot_parse_errors_source();
        push_present(&mut out, &m, Ghost(done));
        proof {
            done = with_series(done, MetricKind::ParseErrorsSource, tally_rows("invalid_user"@, self.invalid_user_names@) + tally_rows("invalid_host"@, self.invalid_hosts@), false);
        }
        out
    }
}

} // verus!
