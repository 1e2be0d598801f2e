use kopia_exporter::{
    decide_poll, finish_run, timed_out, IngestOutcome, InvocationError, KopiaSnapshots, PollAction, RootEntry,
    Snapshot, Source, Stats, Summary, Timestamp, POLL_INTERVAL_MS,
};

fn test_snapshot(id: &str, total_size: u64, retention_reasons: &[&str]) -> Snapshot {
    Snapshot {
        id: id.to_string(),
        source: Source {
            host: "host".to_string(),
            user_name: "user_name".to_string(),
            path: "/path".to_string(),
        },
        description: String::new(),
        start_time: "2025-08-14T00:00:00Z".to_string(),
        end_time: "2025-08-14T00:01:00Z".to_string(),
        stats: Stats {
            total_size,
            excluded_total_size: 0,
            file_count: 10,
            cached_files: 5,
            non_cached_files: 5,
            dir_count: 2,
            excluded_file_count: 0,
            excluded_dir_count: 0,
            ignored_error_count: 0,
            error_count: 0,
        },
        root_entry: RootEntry {
            name: "test".to_string(),
            entry_type: "d".to_string(),
            mode: "0755".to_string(),
            mtime: "2025-08-14T00:00:00Z".to_string(),
            obj: format!("obj{id}"),
            summ: Summary {
                size: total_size,
                files: 10,
                symlinks: 0,
                dirs: 2,
                max_time: "2025-08-14T00:00:00Z".to_string(),
                num_failed: 0,
            },
        },
        retention_reason: retention_reasons.iter().map(|s| s.to_string()).collect(),
    }
}

fn with_source(mut s: Snapshot, user_name: &str, host: &str, path: &str) -> Snapshot {
    s.source = Source {
        host: host.to_string(),
        user_name: user_name.to_string(),
        path: path.to_string(),
    };
    s
}

fn ingest(snapshots: Vec<Snapshot>) -> KopiaSnapshots {
    KopiaSnapshots::new_from_snapshots(snapshots, |_| Ok(())).expect("valid")
}

#[test]
fn ingest_one_source_keeps_arrival_order() {
    let snapshots = vec![
        test_snapshot("c", 3000, &[]),
        test_snapshot("a", 1000, &[]),
        test_snapshot("b", 2000, &[]),
    ];
    let map = ingest(snapshots).into_inner_map();
    assert_eq!(map.len(), 1);
    let (key, history) = &map.iter()[0];
    assert_eq!(key.as_str(), "user_name@host:/path");
    let ids: Vec<&str> = history.iter().map(|s| s.id.as_str()).collect();
    assert_eq!(ids, vec!["c", "a", "b"]);
    assert_eq!(history.last().map(|s| s.id.as_str()), Some("b"));
}

#[test]
fn ingest_latest_is_last_appended_not_latest_time() {
    let mut early = test_snapshot("late-arrival", 1000, &[]);
    early.end_time = "2020-01-01T00:00:00Z".to_string();
    let mut late = test_snapshot("early-arrival", 2000, &[]);
    late.end_time = "2030-01-01T00:00:00Z".to_string();
    let ks = ingest(vec![late, early]);
    let text = ks.kopia_snapshot_size_bytes_total().expect("nonempty").render();
    assert!(text.contains("kopia_snapshot_size_bytes_total{source=\"user_name@host:/path\"} 1000"));
}

#[test]
fn ingest_partitions_and_sorts_sources() {
    let ks = ingest(vec![
        with_source(test_snapshot("1", 1, &[]), "zed", "h", "/"),
        with_source(test_snapshot("2", 2, &[]), "amy", "h", "/"),
        with_source(test_snapshot("3", 3, &[]), "zed", "h", "/"),
    ]);
    let map = ks.into_inner_map();
    let keys: Vec<(&str, usize)> = map.iter().iter().map(|(k, v)| (k.as_str(), v.len())).collect();
    assert_eq!(keys, vec![("amy@h:/", 1), ("zed@h:/", 2)]);
}

#[test]
fn ingest_skips_and_tallies_invalid_sources() {
    let ks = ingest(vec![
        with_source(test_snapshot("1", 1, &[]), "bad@user", "h", "/"),
        with_source(test_snapshot("2", 2, &[]), "ok", "bad:host", "/"),
        with_source(test_snapshot("3", 3, &[]), "bad@user", "h", "/x"),
        with_source(test_snapshot("4", 4, &[]), "ok", "h", "/"),
    ]);
    assert_eq!(ks.invalid_user_names.count_of("bad@user"), Some(2));
    assert_eq!(ks.invalid_hosts.count_of("bad:host"), Some(1));
    let map = ks.into_inner_map();
    assert_eq!(map.len(), 1);
    assert_eq!(map.iter()[0].0.as_str(), "ok@h:/");
}

#[test]
fn ingest_hook_error_aborts() {
    let snapshots = vec![
        test_snapshot("1", 1, &[]),
        with_source(test_snapshot("2", 2, &[]), "bad@user", "h", "/"),
        test_snapshot("3", 3, &[]),
    ];
    let result = KopiaSnapshots::new_from_snapshots(snapshots, |e| {
        Err(eyre::Report::msg(format!("rejected {}", e.invalid_user_name().unwrap_or("?"))))
    });
    let err = result.expect_err("hook aborts");
    assert_eq!(err.to_string(), "rejected bad@user");
}

#[test]
fn ingest_hook_sees_each_invalid_source() {
    let seen = std::cell::RefCell::new(Vec::new());
    let ks = KopiaSnapshots::new_from_snapshots(
        vec![
            with_source(test_snapshot("1", 1, &[]), "a@b", "h", "/"),
            with_source(test_snapshot("2", 2, &[]), "u", "h:1", "/"),
        ],
        |e| {
            seen.borrow_mut().push(e.value_source.path.clone() + &e.value_source.host);
            Ok(())
        },
    )
    .expect("hook accepts");
    assert!(ks.into_inner_map().is_empty());
    assert_eq!(*seen.borrow(), vec!["/h".to_string(), "/h:1".to_string()]);
}

#[test]
fn retention_labels_are_never_merged_by_prefix() {
    let ks = ingest(vec![
        test_snapshot("1", 1000, &["latest-1", "daily-1", "monthly-1"]),
        test_snapshot("2", 2000, &["latest-2", "daily-2", "monthly-2"]),
    ]);
    let m = ks.kopia_snapshots_by_retention();
    assert_eq!(m.samples.len(), 6);
    for s in &m.samples {
        assert_eq!(s.value, 1);
    }
    let text = m.render();
    for label in ["daily-1", "daily-2", "latest-1", "latest-2", "monthly-1", "monthly-2"] {
        let line = format!("kopia_snapshots_by_retention{{source=\"user_name@host:/path\",retention_reason=\"{label}\"}} 1");
        assert!(text.lines().any(|l| l == line), "missing {line}");
    }
}

#[test]
fn age_is_exact_for_whole_seconds() {
    let now = Timestamp::from_parts(1_755_000_000, 250_000_000);
    let mut s = test_snapshot("1", 1, &[]);
    s.end_time = "2025-08-12T11:30:00.25Z".to_string();
    let end = "2025-08-12T11:30:00.25Z".parse::<jiff::Timestamp>().expect("valid");
    let now = Timestamp::from_parts(end.as_second() + 1800, now.nanosecond);
    let text = ingest(vec![s]).kopia_snapshot_age_seconds(now).expect("nonempty").render();
    assert!(text.contains("kopia_snapshot_age_seconds{source=\"user_name@host:/path\"} 1800"));
}

#[test]
fn age_rounds_half_up() {
    let mut s = test_snapshot("1", 1, &[]);
    s.end_time = "1970-01-01T00:00:10Z".to_string();
    let ks = ingest(vec![s]);
    let cases = [(12, 499_999_999, "2"), (12, 500_000_000, "3"), (9, 500_000_000, "0"), (9, 499_999_999, "-1")];
    for (sec, nano, expected) in cases {
        let text = ks
            .kopia_snapshot_age_seconds(Timestamp::from_parts(sec, nano))
            .expect("nonempty")
            .render();
        let line = format!("kopia_snapshot_age_seconds{{source=\"user_name@host:/path\"}} {expected}");
        assert!(text.lines().any(|l| l == line), "{sec}.{nano}: {text}");
    }
}

#[test]
fn size_change_spans_full_u64_range() {
    let ks = ingest(vec![test_snapshot("1", u64::MAX, &[]), test_snapshot("2", 0, &[])]);
    let text = ks.kopia_snapshot_size_bytes_change().expect("nonempty").render();
    assert!(text.contains("} -18446744073709551615\n"));
}

#[test]
fn label_values_are_quoted_and_escaped() {
    let ks = ingest(vec![with_source(test_snapshot("1", 5, &[]), "we\"ird", "h", "/p")]);
    let text = ks.kopia_snapshots_total().render();
    assert!(text.contains("kopia_snapshots_total{source=\"we\\\"ird@h:/p\"} 1\n"), "{text}");
}

#[test]
fn exposition_of_single_snapshot() {
    let mut s = test_snapshot("1", 1000, &["daily-1"]);
    s.end_time = "2025-08-14T00:01:00Z".to_string();
    let ks = ingest(vec![s]);
    let end = "2025-08-14T00:01:00Z".parse::<jiff::Timestamp>().expect("valid").as_second();
    let text = ks.generate_all_metrics(Timestamp::from_parts(end + 60, 0));
    let expected = format!(
        "# HELP kopia_snapshots_by_retention Number of snapshots by retention reason
# TYPE kopia_snapshots_by_retention gauge
kopia_snapshots_by_retention{{source=\"user_name@host:/path\",retention_reason=\"daily-1\"}} 1

# HELP kopia_snapshots_total Total number of snapshots
# TYPE kopia_snapshots_total gauge
kopia_snapshots_total{{source=\"user_name@host:/path\"}} 1

# HELP kopia_snapshot_size_bytes_total Total size of latest snapshot in bytes
# TYPE kopia_snapshot_size_bytes_total gauge
kopia_snapshot_size_bytes_total{{source=\"user_name@host:/path\"}} 1000

# HELP kopia_snapshot_age_seconds Age of newest snapshot in seconds
# TYPE kopia_snapshot_age_seconds gauge
kopia_snapshot_age_seconds{{source=\"user_name@host:/path\"}} 60

# HELP kopia_snapshot_last_success_timestamp Unix timestamp of last successful snapshot
# TYPE kopia_snapshot_last_success_timestamp gauge
kopia_snapshot_last_success_timestamp{{source=\"user_name@host:/path\"}} {end}

# HELP kopia_snapshot_errors_total Total errors in latest snapshot
# TYPE kopia_snapshot_errors_total gauge
kopia_snapshot_errors_total{{source=\"user_name@host:/path\"}} 0

# HELP kopia_snapshot_errors_ignored_total Ignored errors in latest snapshot
# TYPE kopia_snapshot_errors_ignored_total gauge
kopia_snapshot_errors_ignored_total{{source=\"user_name@host:/path\"}} 0

# HELP kopia_snapshot_failed_files_total Number of failed files in latest snapshot
# TYPE kopia_snapshot_failed_files_total gauge
kopia_snapshot_failed_files_total{{source=\"user_name@host:/path\"}} 0
"
    );
    assert_eq!(text, expected);
}

#[test]
fn exposition_of_empty_inventory() {
    let ks = ingest(vec![]);
    let text = ks.generate_all_metrics(Timestamp::from_parts(0, 0));
    assert_eq!(
        text,
        "# HELP kopia_snapshots_by_retention Number of snapshots by retention reason
# TYPE kopia_snapshots_by_retention gauge

# HELP kopia_snapshots_total Total number of snapshots
# TYPE kopia_snapshots_total gauge
"
    );
}

#[test]
fn exposition_reports_source_errors_last() {
    let ks = ingest(vec![with_source(test_snapshot("1", 1, &[]), "x@y", "h", "/")]);
    let text = ks.generate_all_metrics(Timestamp::from_parts(0, 0));
    assert!(text.ends_with(
        "\n# HELP kopia_snapshot_parse_errors_source Number of snapshots with unparseable sources
# TYPE kopia_snapshot_parse_errors_source gauge
kopia_snapshot_parse_errors_source{invalid_user=\"x@y\"} 1
"
    ));
}

#[test]
fn poll_waits_collects_and_kills() {
    assert_eq!(decide_poll(true, 10_000, 100), PollAction::Collect);
    assert_eq!(decide_poll(false, 99, 100), PollAction::Wait);
    assert_eq!(decide_poll(false, 100, 100), PollAction::Kill);
    assert_eq!(POLL_INTERVAL_MS, 50);
}

#[test]
fn poll_kills_within_one_interval_of_timeout() {
    let timeout = 120;
    let mut elapsed = 0;
    while decide_poll(false, elapsed, timeout) == PollAction::Wait {
        elapsed += POLL_INTERVAL_MS;
    }
    assert_eq!(elapsed, 150);
    assert!(elapsed < timeout + POLL_INTERVAL_MS);
}

#[test]
fn failed_exit_discards_parsed_output() {
    let ks = ingest(vec![test_snapshot("1", 1, &[])]);
    match finish_run(false, Some(3), "boom".to_string(), IngestOutcome::Parsed(ks)) {
        Err(InvocationError::Exit { code, stderr }) => {
            assert_eq!(code, 3);
            assert_eq!(stderr, "boom");
        }
        other => panic!("unexpected {other:?}"),
    }
    match finish_run(false, None, String::new(), IngestOutcome::NotJson("bad".to_string())) {
        Err(InvocationError::Exit { code, .. }) => assert_eq!(code, -1),
        other => panic!("unexpected {other:?}"),
    }
}

#[test]
fn successful_exit_returns_ingestion_outcome() {
    let ks = ingest(vec![test_snapshot("1", 1, &[])]);
    let ok = finish_run(true, Some(0), String::new(), IngestOutcome::Parsed(ks)).expect("parsed");
    assert_eq!(ok.into_inner_map().len(), 1);
    match finish_run(true, Some(0), String::new(), IngestOutcome::NotUtf8("bytes".to_string())) {
        Err(InvocationError::Utf8 { message }) => assert_eq!(message, "bytes"),
        other => panic!("unexpected {other:?}"),
    }
    match finish_run(true, Some(0), String::new(), IngestOutcome::NotJson("eof".to_string())) {
        Err(InvocationError::Json { message }) => assert_eq!(message, "eof"),
        other => panic!("unexpected {other:?}"),
    }
}

#[test]
fn timeout_keeps_drained_stderr() {
    match timed_out(250, "partial".to_string()) {
        Err(InvocationError::Timeout { timeout_ms, stderr }) => {
            assert_eq!(timeout_ms, 250);
            assert_eq!(stderr, "partial");
        }
        other => panic!("unexpected {other:?}"),
    }
}

#[test]
fn retention_counts_snapshots_not_repeats() {
    let ks = ingest(vec![
        test_snapshot("1", 1, &["daily-1", "daily-1", "weekly-1"]),
        test_snapshot("2", 2, &["daily-1"]),
    ]);
    let text = ks.kopia_snapshots_by_retention().render();
    assert!(text.lines().any(|l| l == "kopia_snapshots_by_retention{source=\"user_name@host:/path\",retention_reason=\"daily-1\"} 2"), "{text}");
    assert!(text.lines().any(|l| l == "kopia_snapshots_by_retention{source=\"user_name@host:/path\",retention_reason=\"weekly-1\"} 1"), "{text}");
}

#[test]
fn ingest_stops_at_first_rejection() {
    let calls = std::cell::RefCell::new(Vec::new());
    let result = KopiaSnapshots::new_from_snapshots(
        vec![
            with_source(test_snapshot("1", 1, &[]), "a@1", "h", "/"),
            with_source(test_snapshot("2", 2, &[]), "b@2", "h", "/"),
            with_source(test_snapshot("3", 3, &[]), "c@3", "h", "/"),
        ],
        |e| {
            let user = e.invalid_user_name().unwrap_or("?").to_string();
            calls.borrow_mut().push(user.clone());
            if user == "a@1" {
                Ok(())
            } else {
                Err(eyre::Report::msg(user))
            }
        },
    );
    assert_eq!(result.expect_err("rejected").to_string(), "b@2");
    assert_eq!(*calls.borrow(), vec!["a@1".to_string(), "b@2".to_string()]);
}
