use lan_speedtest::config::{Config, Measurement, Profile, ReverseDnsConfig, ServerConfig, TurnConfig};
use lan_speedtest::ip::{IpAddr, SocketAddr};
use lan_speedtest::netid::Cidr;
use lan_speedtest::routes::{
    chosen_profile_name, client_kind, client_name_text, engine_measurements, forwarded_for, history_filter,
    normalized_authority, note_text, origin_authority, origin_matches_host, over_cap,
    parse_blocks, requested_profile, split_port, check_transfer, engine_settings, same_origin_allows, unknown_profile_message, user_agent_text, ClientAddr,
    InvalidBytes, ReverseDns, TransferQuery, UploadTally,
};

/// The engine's own `server-timing` acceptance rule: a comma-separated
/// entry named `cfRequestDuration` (or `cfReqDur` / `cfRequestDur`), in any
/// case, carrying `dur=` above 0.01.
fn engine_accepts(server_timing: &str) -> Option<f64> {
    let hay = server_timing.to_ascii_lowercase();
    for part in hay.split(',') {
        let part = part.trim();
        for name in ["cfrequestduration", "cfrequestdur", "cfreqdur"] {
            if let Some(rest) = part.strip_prefix(name) {
                let rest = rest.trim_start();
                if let Some(v) = rest.strip_prefix(';') {
                    if let Some(v) = v.trim_start().strip_prefix("dur=") {
                        if let Ok(parsed) = v.trim().parse::<f64>() {
                            return if parsed > 0.01 { Some(parsed) } else { None };
                        }
                    }
                }
            }
        }
    }
    None
}

#[test]
fn a_plain_dur_header_would_not_be_accepted() {
    assert!(engine_accepts("dur=1.2").is_none());
    assert!(engine_accepts("total;dur=1.2").is_none());
    assert!(engine_accepts("cfRequestDuration;dur=1.2").is_some());
    assert!(engine_accepts("cfReqDur;dur=1.2").is_some());
}

#[test]
fn an_origin_matches_the_host_it_was_served_from() {
    for (origin, host) in [
        ("http://speedtest.example:8080", "speedtest.example:8080"),
        ("https://speedtest.example", "speedtest.example"),
        ("http://192.0.2.10:8080", "192.0.2.10:8080"),
        ("http://[2001:db8::1]:8080", "[2001:db8::1]:8080"),
        ("http://speedtest.example:8080", "speedtest.example:8080"),
        ("https://speedtest.example", "speedtest.example:443"),
        ("http://speedtest.example:80", "speedtest.example"),
        ("http://SpeedTest.Example:8080", "speedtest.example:8080"),
    ] {
        assert!(
            origin_matches_host(origin, host),
            "{origin} should be same-origin with {host}"
        );
    }
}

#[test]
fn a_foreign_origin_never_matches() {
    for (origin, host) in [
        ("http://evil.example", "speedtest.example:8080"),
        ("http://speedtest.example:8081", "speedtest.example:8080"),
        ("http://speedtest.example", "speedtest.example:8080"),
        ("http://speedtest.example:8080", "speedtest.example"),
        ("http://speedtest.example.evil.test", "speedtest.example"),
        ("http://evilspeedtest.example", "speedtest.example"),
        ("null", "speedtest.example"),
        ("", "speedtest.example"),
        ("speedtest.example", "speedtest.example"),
        ("http://", "speedtest.example"),
    ] {
        assert!(
            !origin_matches_host(origin, host),
            "{origin} must not be treated as same-origin with {host}"
        );
    }
}

fn pair(host: &str, port: Option<&str>) -> (String, Option<String>) {
    (host.to_string(), port.map(str::to_string))
}

#[test]
fn an_ipv6_literal_is_not_mistaken_for_a_host_and_port() {
    assert_eq!(split_port("[2001:db8::1]:8080"), pair("[2001:db8::1]", Some("8080")));
    assert_eq!(split_port("[2001:db8::1]"), pair("[2001:db8::1]", None));
    assert_eq!(split_port("2001:db8::1"), pair("2001:db8::1", None));
    assert_eq!(split_port("192.0.2.10:8080"), pair("192.0.2.10", Some("8080")));
    assert_eq!(split_port("192.0.2.10"), pair("192.0.2.10", None));
    assert!(!origin_matches_host(
        "http://[2001:db8::2]:8080",
        "[2001:db8::1]:8080"
    ));
}

#[test]
fn bytes_parameter_parsing() {
    let q = |v: Option<&str>| TransferQuery {
        bytes: v.map(str::to_string),
    };
    assert_eq!(q(Some("100000")).parse().unwrap(), 100_000);
    assert_eq!(q(Some("0")).parse().unwrap(), 0);
    assert_eq!(q(None).parse().unwrap(), 0);
    assert_eq!(q(Some("")).parse().unwrap(), 0);
    assert!(q(Some("abc")).parse().is_err());
    assert!(q(Some("-1")).parse().is_err());
}

#[test]
fn bytes_are_trimmed_and_bounded_by_u64() {
    let q = |v: &str| TransferQuery { bytes: Some(v.to_string()) };
    assert_eq!(q(" 42 ").parse().unwrap(), 42);
    assert_eq!(q("+7").parse().unwrap(), 7);
    assert_eq!(q("18446744073709551615").parse().unwrap(), u64::MAX);
    let err = q("18446744073709551616").parse().unwrap_err();
    assert_eq!(err.0, "18446744073709551616");
    assert_eq!(
        InvalidBytes("a\"b".into()).message(),
        "invalid 'bytes' parameter: \"a\\\"b\""
    );
}

#[test]
fn authorities_normalise_to_one_spelling() {
    assert_eq!(origin_authority("https://Host.Example/path?x#y").as_deref(), Some("Host.Example"));
    assert_eq!(origin_authority("null"), None);
    assert_eq!(normalized_authority("[2001:DB8::1]:443"), "2001:db8::1");
    assert_eq!(normalized_authority("Host:8080"), "host:8080");
    assert_eq!(normalized_authority("host:80"), "host");
}

#[test]
fn over_cap_names_both_sizes() {
    assert_eq!(over_cap(2000, 1000), "requested 2000 bytes, server cap is 1000");
}

#[test]
fn an_upload_is_counted_until_it_passes_the_cap() {
    let mut t = UploadTally::new(100);
    assert!(t.add(60));
    assert!(t.add(40));
    assert_eq!(t.received, 100);
    assert!(!t.add(1));
    assert_eq!(t.received, 101);
    let mut big = UploadTally::new(u64::MAX);
    big.received = u64::MAX - 1;
    assert!(big.add(5));
    assert_eq!(big.received, u64::MAX);
}

fn ip(s: &str) -> IpAddr {
    IpAddr::parse(s).unwrap()
}

#[test]
fn a_request_is_attributed_to_its_peer_unless_a_trusted_proxy_vouches() {
    let trusted = vec![Cidr::parse("10.0.0.1/32").unwrap()];
    let via_proxy = ClientAddr {
        peer: Some(SocketAddr::parse("10.0.0.1:5000").unwrap()),
        forwarded_for: Some("192.168.1.20".into()),
    };
    assert_eq!(via_proxy.effective(&trusted), Some(ip("192.168.1.20")));
    assert_eq!(via_proxy.ip(&trusted), "192.168.1.20");
    assert_eq!(via_proxy.ip(&[]), "10.0.0.1");

    let direct = ClientAddr {
        peer: Some(SocketAddr::parse("[::ffff:10.0.0.9]:5000").unwrap()),
        forwarded_for: Some("1.2.3.4".into()),
    };
    assert_eq!(direct.ip(&trusted), "10.0.0.9");

    let unknown = ClientAddr { peer: None, forwarded_for: None };
    assert_eq!(unknown.effective(&trusted), None);
    assert_eq!(unknown.ip(&trusted), "unknown");
}

#[test]
fn repeated_forwarding_lines_are_read_as_one_list() {
    assert_eq!(forwarded_for(&[]), None);
    assert_eq!(forwarded_for(&["".to_string()]), None);
    assert_eq!(
        forwarded_for(&["1.1.1.1".to_string(), "10.0.0.2".to_string()]).as_deref(),
        Some("1.1.1.1,10.0.0.2")
    );
    let long = "x".repeat(500);
    assert_eq!(forwarded_for(&[long]).unwrap().chars().count(), 400);
}

#[test]
fn submitted_text_is_trimmed_and_capped_in_characters() {
    let note = format!("  {}  ", "é".repeat(300));
    assert_eq!(note_text(&note).chars().count(), 280);
    assert_eq!(note_text("  upstairs  "), "upstairs");
    assert_eq!(client_name_text(&"n".repeat(61)).len(), 60);
    assert_eq!(user_agent_text(None), "");
    assert_eq!(user_agent_text(Some(&"u".repeat(301))).len(), 300);
}

#[test]
fn history_can_be_filtered_to_the_requesting_client() {
    assert_eq!(history_filter(None, "10.0.0.5"), None);
    assert_eq!(history_filter(Some(""), "10.0.0.5"), None);
    assert_eq!(history_filter(Some("all"), "10.0.0.5"), None);
    assert_eq!(history_filter(Some("mine"), "10.0.0.5").as_deref(), Some("10.0.0.5"));
    assert_eq!(history_filter(Some("10.0.0.7"), "10.0.0.5").as_deref(), Some("10.0.0.7"));
}

fn stage(kind: &str) -> Measurement {
    Measurement {
        kind: kind.to_string(),
        num_packets: None,
        bytes: None,
        count: None,
        bypass_min_duration: None,
        batch_size: None,
        batch_wait_time: None,
        responses_wait_time: None,
        connection_timeout: None,
    }
}

#[test]
fn packet_loss_is_handed_out_only_with_a_relay() {
    let stages = vec![stage("latency"), stage("packetLoss"), stage("download")];
    let without: Vec<String> = engine_measurements(&stages, false).into_iter().map(|m| m.kind).collect();
    assert_eq!(without, vec!["latency", "download"]);
    let with: Vec<String> = engine_measurements(&stages, true).into_iter().map(|m| m.kind).collect();
    assert_eq!(with, vec!["latency", "packetLoss", "download"]);
}

#[test]
fn a_profile_is_chosen_by_name_or_defaulted() {
    assert_eq!(chosen_profile_name(Some("lan-10g"), "lan-1g"), "lan-10g");
    assert_eq!(chosen_profile_name(Some(""), "lan-1g"), "lan-1g");
    assert_eq!(chosen_profile_name(None, "lan-1g"), "lan-1g");
    assert_eq!(unknown_profile_message("x"), "unknown profile 'x'");
}

fn rdns(enabled: bool, resolver: &str, ranges: &[&str]) -> ReverseDnsConfig {
    ReverseDnsConfig {
        enabled,
        resolver: resolver.into(),
        ranges: ranges.iter().map(|s| s.to_string()).collect(),
        timeout_ms: 500,
        ttl_secs: 60,
    }
}

#[test]
fn reverse_lookups_are_confined_to_the_configured_ranges() {
    assert!(ReverseDns::from_config(&rdns(false, "", &["10.0.0.0/8"])).is_none());
    let d = ReverseDns::from_config(&rdns(true, "", &["10.0.0.0/8", "nonsense"])).unwrap();
    assert_eq!(d.ranges.len(), 1);
    assert!(d.covers(ip("10.1.2.3")));
    assert!(!d.covers(ip("8.8.8.8")));
    assert_eq!(
        d.resolver(Some("nameserver 10.0.0.53\n")),
        Some(SocketAddr::parse("10.0.0.53:53").unwrap())
    );
    assert_eq!(d.resolver(None), None);
    let explicit = ReverseDns::from_config(&rdns(true, "10.0.0.1:5353", &[])).unwrap();
    assert_eq!(
        explicit.resolver(Some("nameserver 10.0.0.53\n")),
        Some(SocketAddr::parse("10.0.0.1:5353").unwrap())
    );
}

#[test]
fn a_remembered_name_stands_until_its_ttl_passes() {
    let d = ReverseDns::from_config(&rdns(true, "", &[])).unwrap();
    let at = "2026-08-26T10:00:00Z";
    let then: i128 = 1_787_738_400 * 1_000_000_000;
    assert!(d.lookup_due(None, then));
    assert!(d.lookup_due(Some("garbage"), then));
    assert!(!d.lookup_due(Some(at), then + 59 * 1_000_000_000));
    assert!(d.lookup_due(Some(at), then + 60 * 1_000_000_000));
    assert!(!d.lookup_due(Some(at), then - 1_000_000_000));
}

#[test]
fn only_the_blocks_that_parse_are_kept() {
    let blocks = parse_blocks(&["10.0.0.0/8".to_string(), "bad".to_string(), "fc00::/7".to_string()]);
    assert_eq!(blocks.len(), 2);
    assert!(blocks[1].contains(ip("fd00::1")));
}

#[test]
fn the_status_says_what_kind_of_address_the_client_has() {
    assert_eq!(client_kind(Some(ip("10.1.1.1"))), ("lan", "LAN"));
    assert_eq!(client_kind(Some(ip("100.64.0.9"))), ("cgnat", "Tailscale or carrier NAT"));
    assert_eq!(client_kind(None), ("unknown", "unknown"));
}

#[test]
fn a_lookup_is_wanted_only_inside_the_ranges_and_once_due() {
    let d = ReverseDns::from_config(&rdns(true, "", &["10.0.0.0/8"])).unwrap();
    let at = "2026-08-26T10:00:00Z";
    let then: i128 = 1_787_738_400 * 1_000_000_000;
    let later = then + 61 * 1_000_000_000;
    assert!(d.wants_lookup(ip("10.0.0.5"), None, later));
    assert!(d.wants_lookup(ip("10.0.0.5"), Some(at), later));
    assert!(!d.wants_lookup(ip("10.0.0.5"), Some(at), then + 1));
    assert!(!d.wants_lookup(ip("8.8.8.8"), None, later));
    assert!(d.due_after(None, 0));
    assert!(d.due_after(Some(i128::MIN), i128::MAX));
    assert!(!d.due_after(Some(i128::MAX), i128::MIN));
}

fn two_profiles() -> Config {
    let profile = |d: &str| Profile {
        description: d.to_string(),
        measurements: vec![],
        measure_download_loaded_latency: true,
        measure_upload_loaded_latency: true,
        auto_selectable: false,
    };
    Config {
        profile: "lan-1g".into(),
        server: ServerConfig::default(),
        turn: TurnConfig::default(),
        profiles: vec![("lan-1g".into(), profile("gigabit")), ("wifi".into(), profile("wireless"))],
    }
}

#[test]
fn a_named_profile_is_served_and_an_unknown_one_refused() {
    let cfg = two_profiles();
    assert_eq!(requested_profile(&cfg, None), Ok(("lan-1g".to_string(), 0)));
    assert_eq!(requested_profile(&cfg, Some("")), Ok(("lan-1g".to_string(), 0)));
    assert_eq!(requested_profile(&cfg, Some("wifi")), Ok(("wifi".to_string(), 1)));
    assert_eq!(
        requested_profile(&cfg, Some("fibre")),
        Err("unknown profile 'fibre'".to_string())
    );
}

fn staged(kind: &str) -> Measurement {
    Measurement {
        kind: kind.to_string(),
        num_packets: None,
        bytes: None,
        count: None,
        bypass_min_duration: None,
        batch_size: None,
        batch_wait_time: None,
        responses_wait_time: None,
        connection_timeout: None,
    }
}

#[test]
fn the_engine_is_pinned_to_the_lan_and_loses_the_packet_loss_stage_without_a_relay() {
    let mut cfg = two_profiles();
    cfg.profiles[1].1.measurements = vec![staged("latency"), staged("packetLoss"), staged("download")];
    cfg.turn.uri = "turn:10.0.0.5:3478".into();
    cfg.turn.user = "u".into();
    cfg.turn.pass = "p".into();

    let s = engine_settings(&cfg, 1);
    assert_eq!(s.profile, "wifi");
    assert_eq!(s.description, "wireless");
    assert_eq!(s.download_api_url, "/__down");
    assert_eq!(s.upload_api_url, "/__up");
    assert_eq!(s.log_aim_api_url, None);
    assert_eq!(s.log_measurement_api_url, None);
    assert!(!s.auto_start);
    assert!(!s.packet_loss_enabled);
    let kinds: Vec<&str> = s.measurements.iter().map(|m| m.kind.as_str()).collect();
    assert_eq!(kinds, ["latency", "download"]);
    assert!(s.turn.is_none());

    cfg.turn.enabled = true;
    let s = engine_settings(&cfg, 1);
    assert!(s.packet_loss_enabled);
    assert_eq!(s.measurements.len(), 3);
    assert_eq!(
        s.turn,
        Some(("turn:10.0.0.5:3478".to_string(), "u".to_string(), "p".to_string()))
    );
    assert_eq!(s.log_aim_api_url, None);
    assert_eq!(s.log_measurement_api_url, None);
}

#[test]
fn a_transfer_above_the_cap_is_refused_with_both_figures() {
    assert_eq!(check_transfer(0, 10), Ok(0));
    assert_eq!(check_transfer(10, 10), Ok(10));
    assert_eq!(
        check_transfer(11, 10),
        Err("requested 11 bytes, server cap is 10".to_string())
    );
}

#[test]
fn a_request_without_an_origin_passes_and_a_foreign_one_is_refused() {
    assert!(same_origin_allows(None, None));
    assert!(same_origin_allows(Some("http://speed.lan:8080"), Some("speed.lan:8080")));
    assert!(!same_origin_allows(Some("http://evil.example"), Some("speed.lan:8080")));
    assert!(!same_origin_allows(Some("http://speed.lan:8080"), None));
}
