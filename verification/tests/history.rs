use lan_speedtest::history::{
    clamp_limit, cutoff, file_bytes, maintenance_wanted, retention_window, non_empty, window_reachable, nothing_measured_message, points_to_store, reclaimed,
    snapshot_file, snapshot_temp_file, too_large_message, ClientSummary, Measured, Pruned,
    MAX_POINTS_BYTES, MAX_SUMMARY_BYTES,
};

#[test]
fn the_limit_is_kept_between_one_and_a_thousand() {
    assert_eq!(clamp_limit(0), 1);
    assert_eq!(clamp_limit(1), 1);
    assert_eq!(clamp_limit(100), 100);
    assert_eq!(clamp_limit(5000), 1000);
}

#[test]
fn a_remembered_miss_is_not_a_name() {
    assert_eq!(non_empty(None), None);
    assert_eq!(non_empty(Some(String::new())), None);
    assert_eq!(non_empty(Some("  ".into())), None);
    assert_eq!(non_empty(Some(" nas ".into())).as_deref(), Some(" nas "));
}

#[test]
fn a_run_with_no_headline_figure_is_empty() {
    let none = Measured { download: false, upload: false, latency: false, jitter: false };
    assert!(none.is_empty());
    let partial = Measured { download: true, upload: false, latency: false, jitter: false };
    assert!(!partial.is_empty());
    assert_eq!(
        nothing_measured_message(),
        "the result contains no measurements at all — refusing to store an empty run"
    );
}

#[test]
fn oversized_samples_are_dropped_but_the_run_kept() {
    assert_eq!(points_to_store(Some("[1,2]".into())), "[1,2]");
    assert_eq!(points_to_store(None), "{}");
    let big = "x".repeat(MAX_POINTS_BYTES + 1);
    assert_eq!(points_to_store(Some(big)), "{}");
    let fits = "é".repeat(MAX_POINTS_BYTES / 2);
    assert_eq!(points_to_store(Some(fits.clone())), fits);
}

#[test]
fn sizes_are_reported_in_bytes() {
    assert_eq!(MAX_SUMMARY_BYTES, 512 * 1024);
    assert_eq!(
        too_large_message(600000, MAX_SUMMARY_BYTES),
        "result payload is 600000 bytes, limit is 524288"
    );
    assert_eq!(reclaimed(100, 40), 60);
    assert_eq!(reclaimed(40, 100), 0);
    assert_eq!(file_bytes(10, 4096), 40960);
    assert_eq!(file_bytes(-1, 4096), 0);
    assert_eq!(file_bytes(i64::MAX, i64::MAX), u64::MAX);
}

#[test]
fn a_prune_reports_only_what_it_did() {
    assert!(!Pruned::default().changed_anything());
    let p = Pruned { runs_deleted: 0, samples_cleared: 2, bytes_reclaimed: 0 };
    assert!(p.changed_anything());
    assert_eq!(snapshot_file(), "history-backup.db");
    assert_eq!(snapshot_temp_file(), "history-backup.db.tmp");
    let c = ClientSummary {
        client_ip: "10.0.0.1".into(),
        client_name: None,
        hostname: Some("nas".into()),
        runs: 3,
        last_seen: "2026-01-01T00:00:00Z".into(),
    };
    assert_eq!(c.clone().runs, 3);
}

#[test]
fn retention_is_off_until_asked_for() {
    assert!(!maintenance_wanted(0, 0, false));
    assert!(maintenance_wanted(0, 0, true));
    assert!(maintenance_wanted(30, 0, false));
    assert_eq!(retention_window(0), None);
    assert_eq!(retention_window(7), Some(7));
}

#[test]
fn a_retention_window_ends_that_many_days_before_now() {
    // 2026-08-26T10:00:00Z
    let now: i128 = 1_787_738_400 * 1_000_000_000;
    assert_eq!(cutoff(now, 0), None);
    assert_eq!(cutoff(now, 1).as_deref(), Some("2026-08-25T10:00:00Z"));
    assert_eq!(cutoff(now, 30).as_deref(), Some("2026-07-27T10:00:00Z"));
    assert!(window_reachable(now, 30));
    assert!(!window_reachable(now, u32::MAX));
}
