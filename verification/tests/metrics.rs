use lan_speedtest::metrics::{classification_index, escape, render, MetricRun};
use lan_speedtest::text::insert_named;

/// A run as the history stores it, with its figures still in their stored
/// units: bits per second, milliseconds, a ratio.
struct Stored {
    ip: String,
    name: Option<String>,
    recorded_at: String,
    download: Option<f64>,
    upload: Option<f64>,
    latency: Option<f64>,
    jitter: Option<f64>,
    down_loaded_latency: Option<f64>,
    up_loaded_latency: Option<f64>,
    packet_loss: Option<f64>,
    scores: Vec<(String, String)>,
}

fn run(ip: &str, name: Option<&str>) -> Stored {
    Stored {
        ip: ip.into(),
        name: name.map(str::to_string),
        recorded_at: "2026-08-26T10:00:00Z".into(),
        download: Some(940e6),
        upload: Some(880e6),
        latency: Some(0.6),
        jitter: Some(0.2),
        down_loaded_latency: Some(1.4),
        up_loaded_latency: Some(1.1),
        packet_loss: None,
        scores: Vec::new(),
    }
}

fn shown(v: Option<f64>) -> Option<String> {
    v.filter(|x| x.is_finite()).map(|x| x.to_string())
}

fn seconds(v: Option<f64>) -> Option<String> {
    shown(v.map(|ms| ms / 1000.0))
}

fn bloat(idle: Option<f64>, loaded: Option<f64>) -> Option<String> {
    let (idle, loaded) = (idle?, loaded?);
    if idle == 0.0 {
        return None;
    }
    shown(Some((loaded - idle) / idle))
}

fn exported(s: &Stored) -> MetricRun {
    MetricRun {
        client_ip: s.ip.clone(),
        client_name: s.name.clone(),
        hostname: None,
        profile: "lan-1g".into(),
        recorded_at: s.recorded_at.clone(),
        download: shown(s.download),
        upload: shown(s.upload),
        latency: seconds(s.latency),
        down_loaded_latency: seconds(s.down_loaded_latency),
        up_loaded_latency: seconds(s.up_loaded_latency),
        jitter: seconds(s.jitter),
        packet_loss: shown(s.packet_loss),
        bufferbloat_down: bloat(s.latency, s.down_loaded_latency),
        bufferbloat_up: bloat(s.latency, s.up_loaded_latency),
        scores: s.scores.iter().cloned().fold(Vec::new(), |mut scores, (service, class)| {
            insert_named(&mut scores, service, class);
            scores
        }),
    }
}

fn rendered(total: i64, runs: &[Stored]) -> String {
    let runs: Vec<MetricRun> = runs.iter().map(exported).collect();
    render("1.5.0", "abc", total, &runs)
}

#[test]
fn milliseconds_become_seconds() {
    let out = rendered(1, &[run("10.0.0.1", None)]);
    assert!(
        out.contains("speedtest_latency_seconds{client=\"10.0.0.1\",name=\"\",profile=\"lan-1g\"} 0.0006"),
        "{out}"
    );
}

#[test]
fn a_figure_that_was_never_measured_is_absent_not_zero() {
    let out = rendered(1, &[run("10.0.0.1", None)]);
    assert!(!out.contains("speedtest_packet_loss_ratio"), "{out}");

    let mut measured = run("10.0.0.1", None);
    measured.packet_loss = Some(0.0);
    let out = rendered(1, &[measured]);
    assert!(out.contains("speedtest_packet_loss_ratio"), "{out}");
}

#[test]
fn a_name_rides_alongside_the_address_rather_than_replacing_it() {
    let out = rendered(1, &[run("10.0.0.1", Some("stevie-pc"))]);
    assert!(out.contains("client=\"10.0.0.1\""), "{out}");
    assert!(out.contains("name=\"stevie-pc\""), "{out}");
}

#[test]
fn label_values_are_escaped_so_a_hostile_name_cannot_forge_a_label() {
    let out = rendered(1, &[run("10.0.0.1", Some("a\" evil=\"1"))]);
    assert!(out.contains(r#"name="a\" evil=\"1""#), "{out}");
    assert!(!out.contains(r#" evil="1""#), "{out}");
}

#[test]
fn the_header_is_written_once_per_family_and_only_when_it_has_a_value() {
    let runs = [run("10.0.0.1", None), run("10.0.0.2", None)];
    let out = rendered(2, &runs);
    assert_eq!(
        out.matches("# TYPE speedtest_download_bits_per_second gauge").count(),
        1,
        "{out}"
    );
    assert_eq!(out.matches("speedtest_download_bits_per_second{").count(), 2, "{out}");
}

#[test]
fn an_unparseable_timestamp_is_skipped_rather_than_drawn_at_the_epoch() {
    let mut broken = run("10.0.0.1", None);
    broken.recorded_at = "not a date".into();
    let out = rendered(1, &[broken]);
    assert!(!out.contains("speedtest_run_timestamp_seconds{"), "{out}");
}

#[test]
fn an_empty_history_still_produces_a_valid_body() {
    let out = render("1.5.0", "abc", 0, &[]);
    assert!(out.contains("speedtest_build_info{version=\"1.5.0\""), "{out}");
    assert!(out.contains("speedtest_history_runs_total 0"), "{out}");
    assert!(out.ends_with('\n'), "exposition must end with a newline");
}

#[test]
fn bufferbloat_factor_is_loaded_minus_idle_over_idle_for_each_direction() {
    let mut measured = run("10.0.0.1", None);
    measured.latency = Some(1.0);
    measured.down_loaded_latency = Some(2.0);
    measured.up_loaded_latency = Some(1.5);
    let out = rendered(1, &[measured]);
    assert!(
        out.contains(
            "speedtest_bufferbloat_factor{client=\"10.0.0.1\",name=\"\",profile=\"lan-1g\",direction=\"down\"} 1"
        ),
        "{out}"
    );
    assert!(
        out.contains(
            "speedtest_bufferbloat_factor{client=\"10.0.0.1\",name=\"\",profile=\"lan-1g\",direction=\"up\"} 0.5"
        ),
        "{out}"
    );
}

#[test]
fn bufferbloat_factor_is_absent_when_idle_or_loaded_latency_is_missing() {
    let mut no_idle = run("10.0.0.1", None);
    no_idle.latency = None;
    let out = rendered(1, &[no_idle]);
    assert!(!out.contains("speedtest_bufferbloat_factor"), "{out}");

    let mut down_only = run("10.0.0.1", None);
    down_only.up_loaded_latency = None;
    let out = rendered(1, &[down_only]);
    assert!(
        out.contains("speedtest_bufferbloat_factor{client=\"10.0.0.1\",name=\"\",profile=\"lan-1g\",direction=\"down\""),
        "{out}"
    );
    assert!(!out.contains("direction=\"up\""), "{out}");
}

#[test]
fn bufferbloat_factor_is_absent_when_idle_latency_is_zero() {
    let mut zero_idle = run("10.0.0.1", None);
    zero_idle.latency = Some(0.0);
    let out = rendered(1, &[zero_idle]);
    assert!(!out.contains("speedtest_bufferbloat_factor"), "{out}");
}

#[test]
fn quality_score_maps_each_classification_to_the_engines_own_ordinal() {
    let mut scored = run("10.0.0.1", None);
    let mut scores = vec![
        ("streaming".to_string(), "great".to_string()),
        ("gaming".to_string(), "bad".to_string()),
        ("rtc".to_string(), "poor".to_string()),
    ];
    scores.sort();
    scored.scores = scores;
    let out = rendered(1, &[scored]);
    assert!(
        out.contains("speedtest_quality_score{client=\"10.0.0.1\",name=\"\",profile=\"lan-1g\",service=\"streaming\"} 4"),
        "{out}"
    );
    assert!(
        out.contains("speedtest_quality_score{client=\"10.0.0.1\",name=\"\",profile=\"lan-1g\",service=\"gaming\"} 0"),
        "{out}"
    );
    assert!(
        out.contains("speedtest_quality_score{client=\"10.0.0.1\",name=\"\",profile=\"lan-1g\",service=\"rtc\"} 1"),
        "{out}"
    );
}

#[test]
fn quality_score_is_absent_when_the_run_recorded_no_scores() {
    let out = rendered(1, &[run("10.0.0.1", None)]);
    assert!(!out.contains("speedtest_quality_score"), "{out}");
}

#[test]
fn an_unrecognised_classification_name_is_skipped_rather_than_guessed_at() {
    let mut scored = run("10.0.0.1", None);
    scored.scores = vec![("streaming".to_string(), "excellent".to_string())];
    let out = rendered(1, &[scored]);
    assert!(!out.contains("speedtest_quality_score"), "{out}");
}

#[test]
fn the_run_timestamp_is_its_unix_time_in_whole_seconds() {
    let out = rendered(1, &[run("10.0.0.1", None)]);
    assert!(
        out.contains("speedtest_run_timestamp_seconds{client=\"10.0.0.1\",name=\"\",profile=\"lan-1g\"} 1787738400\n"),
        "{out}"
    );
    let mut early = run("10.0.0.1", None);
    early.recorded_at = "1969-12-31T23:59:59.5Z".into();
    let out = rendered(1, &[early]);
    assert!(out.contains("profile=\"lan-1g\"} -1\n"), "{out}");
}

#[test]
fn escaping_touches_only_backslash_quote_and_newline() {
    assert_eq!(escape("a\\b\"c\nd\te"), "a\\\\b\\\"c\\nd\te");
    assert_eq!(escape("plain"), "plain");
}

#[test]
fn classifications_have_their_ordinals() {
    assert_eq!(classification_index("bad"), Some(0));
    assert_eq!(classification_index("average"), Some(2));
    assert_eq!(classification_index("good"), Some(3));
    assert_eq!(classification_index("Great"), None);
}

#[test]
fn the_body_starts_with_build_information_and_the_run_count() {
    let out = render("1.5.0", "a\"b", 7, &[]);
    assert_eq!(
        out,
        "# HELP speedtest_build_info Build information for this deployment.\n\
         # TYPE speedtest_build_info gauge\n\
         speedtest_build_info{version=\"1.5.0\",git_sha=\"a\\\"b\"} 1\n\
         # HELP speedtest_history_runs_total Runs currently stored.\n\
         # TYPE speedtest_history_runs_total gauge\n\
         speedtest_history_runs_total 7\n"
    );
}
