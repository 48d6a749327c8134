use lan_speedtest::text::insert_named;
use lan_speedtest::config::{
    default_bind, default_site_name, default_reverse_dns_ranges, Config, ConfigError,
    EnvOverrides, Measurement, Profile, ServerConfig, TurnConfig, DEFAULT_MAX_TRANSFER_BYTES,
};

fn stage(kind: &str) -> Measurement {
    Measurement {
        kind: kind.to_string(),
        num_packets: None,
        bytes: None,
        count: None,
        bypass_min_duration: None,
        batch_size: None,
        batch_wait_time: None,
        responses_wait_time: None,
        connection_timeout: None,
    }
}

/// The minimal configuration: profile `lan` with a latency stage of 20
/// packets and a 100000-byte download stage run 4 times.
fn minimal() -> Config {
    let mut latency = stage("latency");
    latency.num_packets = Some(20);
    let mut download = stage("download");
    download.bytes = Some(100000);
    download.count = Some(4);
    Config {
        profile: "lan".into(),
        server: ServerConfig::default(),
        turn: TurnConfig::default(),
        profiles: vec![(
            "lan".into(),
            Profile {
                description: String::new(),
                measurements: vec![latency, download],
                measure_download_loaded_latency: true,
                measure_upload_loaded_latency: true,
                auto_selectable: false,
            },
        )],
    }
}

fn no_env() -> EnvOverrides {
    EnvOverrides {
        profile: None,
        site_name: None,
        bind: None,
        static_dir: None,
        tls_bind: None,
        history_db: None,
        tls_cert_file: None,
        tls_key_file: None,
        turn_uri: None,
        turn_user: None,
        turn_pass: None,
        trusted_proxies: None,
        reverse_dns: None,
        dns_resolver: None,
        turn_enabled: None,
        metrics: None,
        autostart: None,
    }
}

#[test]
fn parses_a_minimal_profile_and_applies_defaults() {
    let c = minimal();
    assert!(c.validate().is_ok());
    assert_eq!(c.profile, "lan");
    assert_eq!(c.server.bind, default_bind());
    assert_eq!(c.server.bind, "0.0.0.0:8080");
    assert_eq!(c.server.max_transfer_bytes, DEFAULT_MAX_TRANSFER_BYTES);
    assert!(c.active_profile().measure_download_loaded_latency);
    assert_eq!(c.active_profile().measurements.len(), 2);
}

#[test]
fn unknown_active_profile_is_rejected() {
    let mut c = minimal();
    c.profile = "nope".into();
    assert!(matches!(
        c.validate(),
        Err(ConfigError::UnknownProfile { .. })
    ));
}

#[test]
fn profile_exceeding_the_transfer_cap_is_rejected_at_startup() {
    let mut c = minimal();
    c.server.max_transfer_bytes = 1000;
    assert!(matches!(
        c.validate(),
        Err(ConfigError::LargestTransferExceedsCap {
            bytes: 100000,
            cap: 1000
        })
    ));
}

#[test]
fn turn_enabled_without_credentials_is_rejected() {
    let mut c = minimal();
    c.turn.enabled = true;
    c.turn.uri = "turn.example:3478".into();
    assert!(matches!(
        c.validate(),
        Err(ConfigError::TurnEnabledWithoutCredentials)
    ));
}

#[test]
fn site_name_comes_from_config_and_falls_back_when_blank() {
    let c = minimal();
    assert_eq!(c.server.site_name, default_site_name());
    assert_eq!(c.server.site_name, "LAN Speed Test");

    let mut named = minimal();
    named.server.site_name = "  Rack Room Speed Test  ".into();
    named.normalise_site_name();
    assert_eq!(
        named.server.site_name, "Rack Room Speed Test",
        "surrounding whitespace should not reach the heading"
    );

    let mut blank = minimal();
    blank.server.site_name = "   ".into();
    blank.normalise_site_name();
    assert_eq!(blank.server.site_name, "LAN Speed Test");
}

#[test]
fn tls_is_off_unless_both_halves_are_present() {
    let mut c = minimal();
    assert!(c.server.tls().is_none(), "no TLS by default");

    c.server.tls_cert_file = Some("/tls/fullchain.pem".into());
    c.server.tls_key_file = Some("/tls/privkey.pem".into());
    assert_eq!(
        c.server.tls(),
        Some(("/tls/fullchain.pem", "/tls/privkey.pem"))
    );
}

#[test]
fn half_configured_tls_is_rejected_rather_than_quietly_serving_http() {
    let mut c = minimal();
    c.server.tls_cert_file = Some("/tls/fullchain.pem".into());
    assert!(matches!(c.validate(), Err(ConfigError::HalfConfiguredTls)));

    c.server.tls_cert_file = None;
    c.server.tls_key_file = Some("/tls/privkey.pem".into());
    assert!(matches!(c.validate(), Err(ConfigError::HalfConfiguredTls)));
}

#[test]
fn an_empty_half_of_tls_leaves_it_off() {
    let mut c = minimal();
    c.server.tls_cert_file = Some(String::new());
    c.server.tls_key_file = Some("/tls/privkey.pem".into());
    assert!(c.server.tls().is_none());
}

#[test]
fn defaults_are_the_documented_ones() {
    let s = ServerConfig::default();
    assert_eq!(s.static_dir, "static");
    assert_eq!(s.tls_bind, "0.0.0.0:443");
    assert_eq!(s.history_db, "data/history.db");
    assert_eq!(s.max_transfer_bytes, 2 * 1024 * 1024 * 1024);
    assert_eq!(s.download_chunk_bytes, 4 * 1024 * 1024);
    assert!(s.trusted_proxies.is_empty());
    assert!(!s.reverse_dns.enabled);
    assert_eq!(s.reverse_dns.timeout_ms, 500);
    assert_eq!(s.reverse_dns.ttl_secs, 6 * 60 * 60);
    assert_eq!(
        default_reverse_dns_ranges(),
        vec!["10.0.0.0/8", "172.16.0.0/12", "192.168.0.0/16", "100.64.0.0/10", "fc00::/7"]
    );
}

#[test]
fn a_bad_trusted_proxy_block_is_refused_by_name() {
    let mut c = minimal();
    c.server.trusted_proxies = vec!["10.0.0.0/8".into(), "10.0.0.0/40".into()];
    match c.validate() {
        Err(ConfigError::BadCidr { field, detail }) => {
            assert_eq!(field, "trusted_proxies");
            assert_eq!(detail, "/40 is too long for 10.0.0.0");
        }
        other => panic!("unexpected {other:?}"),
    }
}

#[test]
fn a_bad_reverse_dns_range_is_refused_by_name() {
    let mut c = minimal();
    c.server.reverse_dns.ranges = vec!["lan".into()];
    match c.validate() {
        Err(ConfigError::BadCidr { field, .. }) => assert_eq!(field, "reverse_dns.ranges"),
        other => panic!("unexpected {other:?}"),
    }
}

#[test]
fn a_resolver_that_is_not_host_and_port_is_refused() {
    let mut c = minimal();
    c.server.reverse_dns.resolver = "10.0.0.1".into();
    assert!(matches!(c.validate(), Err(ConfigError::BadResolver(_))));
    c.server.reverse_dns.resolver = "10.0.0.1:53".into();
    assert!(c.validate().is_ok());
}

#[test]
fn config_errors_read_as_sentences() {
    let mut c = minimal();
    c.profile = "nope".into();
    assert_eq!(
        c.validate().unwrap_err().message(),
        "profile 'nope' is not defined; known profiles: lan"
    );
    let mut c = minimal();
    c.server.max_transfer_bytes = 1000;
    assert_eq!(
        c.validate().unwrap_err().message(),
        "profile requests a 100000-byte transfer but server.max_transfer_bytes is 1000"
    );
    assert_eq!(
        ConfigError::BadResolver("x".into()).message(),
        "server.reverse_dns.resolver: x (expected host:port, e.g. 10.0.0.1:53)"
    );
}

#[test]
fn the_environment_wins_over_the_file() {
    let mut c = minimal();
    let mut env = no_env();
    env.profile = Some("  fast ".into());
    env.site_name = Some("   ".into());
    env.history_db = Some("  ".into());
    env.trusted_proxies = Some(" 10.0.0.1/32 ,, 192.168.0.0/16 ".into());
    env.reverse_dns = Some("YES".into());
    env.turn_enabled = Some("0".into());
    env.tls_cert_file = Some("/tls/cert.pem".into());
    env.bind = Some("".into());
    c.apply_env_overrides(&env);
    assert_eq!(c.profile, "fast");
    assert_eq!(c.server.site_name, "LAN Speed Test");
    assert_eq!(c.server.history_db, "");
    assert_eq!(c.server.trusted_proxies, vec!["10.0.0.1/32", "192.168.0.0/16"]);
    assert!(c.server.reverse_dns.enabled);
    assert!(!c.turn.enabled);
    assert_eq!(c.server.tls_cert_file.as_deref(), Some("/tls/cert.pem"));
    assert_eq!(c.server.bind, "0.0.0.0:8080");
}

#[test]
fn applying_the_same_environment_twice_changes_nothing_more() {
    let mut env = no_env();
    env.site_name = Some(" Lab ".into());
    env.turn_user = Some("u".into());
    let mut once = minimal();
    once.apply_env_overrides(&env);
    let mut twice = once.clone();
    twice.apply_env_overrides(&env);
    assert_eq!(once.server.site_name, twice.server.site_name);
    assert_eq!(once.turn.user, twice.turn.user);
    assert_eq!(once.server.site_name, "Lab");
}

#[test]
fn metrics_is_off_and_autostart_on_unless_told_otherwise() {
    let mut c = minimal();
    assert!(!c.server.metrics);
    assert!(c.server.autostart);
    assert_eq!(c.server.backup_dir(), None);
    let mut env = no_env();
    env.metrics = Some("true".into());
    env.autostart = Some("0".into());
    c.apply_env_overrides(&env);
    assert!(c.server.metrics);
    assert!(!c.server.autostart);
    c.server.history_backup_dir = "/backups".into();
    assert_eq!(c.server.backup_dir(), Some("/backups"));
}

#[test]
fn named_entries_are_kept_once_each_in_name_order() {
    let mut v: Vec<(String, u32)> = Vec::new();
    for (name, n) in [("wifi", 1), ("lan-1g", 2), ("quick", 3), ("lan-10g", 4), ("wifi", 5), ("", 6)] {
        insert_named(&mut v, name.to_string(), n);
    }
    let names: Vec<&str> = v.iter().map(|(k, _)| k.as_str()).collect();
    assert_eq!(names, ["", "lan-10g", "lan-1g", "quick", "wifi"]);
    assert_eq!(v[4].1, 5);
    let mut w: Vec<(String, u32)> = Vec::new();
    insert_named(&mut w, "é".to_string(), 1);
    insert_named(&mut w, "z".to_string(), 2);
    insert_named(&mut w, "Z".to_string(), 3);
    let names: Vec<&str> = w.iter().map(|(k, _)| k.as_str()).collect();
    let mut sorted = names.clone();
    sorted.sort();
    assert_eq!(names, sorted);
}
