use lan_speedtest::ip::{IpAddr, SocketAddr};
use lan_speedtest::netid::{
    acceptable_hostname, classify, effective_client, encode_query, next_id, parse_ptr_response,
    resolver_from_resolv_conf, reverse_name, Cidr, Kind,
};

fn ip(s: &str) -> IpAddr {
    IpAddr::parse(s).unwrap()
}

#[test]
fn cidr_matches_only_inside_its_block() {
    let block = Cidr::parse("10.42.7.0/24").unwrap();
    assert!(block.contains(ip("10.42.7.1")));
    assert!(block.contains(ip("10.42.7.255")));
    assert!(!block.contains(ip("10.42.8.1")));
    assert!(!block.contains(ip("10.0.0.1")));

    // A non-byte-aligned prefix is where an off-by-one hides.
    let half = Cidr::parse("10.0.0.0/9").unwrap();
    assert!(half.contains(ip("10.127.255.255")));
    assert!(!half.contains(ip("10.128.0.0")));
}

#[test]
fn a_v4_mapped_v6_address_is_matched_by_v4_rules() {
    let lan = Cidr::parse("10.0.0.0/8").unwrap();
    assert!(lan.contains(ip("::ffff:10.0.0.5")));
    assert_eq!(classify(ip("::ffff:10.0.0.5")), Kind::Private);
}

#[test]
fn a_cidr_never_matches_across_families() {
    let v4 = Cidr::parse("0.0.0.0/0").unwrap();
    assert!(!v4.contains(ip("2001:db8::1")));
}

#[test]
fn addresses_are_classified_by_what_they_actually_are() {
    assert_eq!(classify(ip("127.0.0.1")), Kind::Loopback);
    assert_eq!(classify(ip("10.42.7.3")), Kind::Private);
    assert_eq!(classify(ip("192.168.1.9")), Kind::Private);
    assert_eq!(classify(ip("169.254.4.4")), Kind::LinkLocal);
    assert_eq!(classify(ip("8.8.8.8")), Kind::Public);
    assert_eq!(classify(ip("fd00::1")), Kind::Private);
    assert_eq!(classify(ip("fe80::1")), Kind::LinkLocal);
    assert_eq!(classify(ip("2001:db8::1")), Kind::Public);
}

#[test]
fn the_tailscale_range_is_called_out_rather_than_read_as_the_internet() {
    assert_eq!(classify(ip("100.64.0.1")), Kind::Cgnat);
    assert_eq!(classify(ip("100.127.255.254")), Kind::Cgnat);
    assert_eq!(classify(ip("100.128.0.1")), Kind::Public);
    assert_eq!(classify(ip("100.63.255.255")), Kind::Public);
}

#[test]
fn forwarded_for_is_ignored_unless_the_peer_is_a_trusted_proxy() {
    let trusted = vec![Cidr::parse("10.0.0.1/32").unwrap()];
    assert_eq!(
        effective_client(ip("10.0.0.9"), Some("1.2.3.4"), &trusted),
        ip("10.0.0.9"),
        "an untrusted peer's header must not be believed"
    );
    assert_eq!(
        effective_client(ip("10.0.0.1"), Some("1.2.3.4"), &trusted),
        ip("1.2.3.4"),
        "a trusted proxy's header should be believed"
    );
}

#[test]
fn a_chain_of_trusted_proxies_resolves_to_the_first_untrusted_hop() {
    let trusted = vec![
        Cidr::parse("10.0.0.0/24").unwrap(),
        Cidr::parse("192.168.5.0/24").unwrap(),
    ];
    assert_eq!(
        effective_client(ip("10.0.0.1"), Some("203.0.113.7, 192.168.5.2"), &trusted),
        ip("203.0.113.7"),
    );
}

#[test]
fn a_forged_prefix_cannot_reach_past_the_trusted_hops() {
    let trusted = vec![Cidr::parse("10.0.0.0/24").unwrap()];
    assert_eq!(
        effective_client(ip("10.0.0.1"), Some("9.9.9.9, 203.0.113.7"), &trusted),
        ip("203.0.113.7"),
    );
}

#[test]
fn no_trusted_proxies_means_the_header_is_never_read() {
    assert_eq!(
        effective_client(ip("10.0.0.1"), Some("1.2.3.4"), &[]),
        ip("10.0.0.1")
    );
}

#[test]
fn reverse_names_follow_the_arpa_conventions() {
    assert_eq!(reverse_name(ip("10.42.7.50")), "50.7.42.10.in-addr.arpa");
    assert!(reverse_name(ip("2001:db8::1")).ends_with(".ip6.arpa"));
    assert_eq!(
        reverse_name(ip("2001:db8::1")).len(),
        32 * 2 + "ip6.arpa".len()
    );
}

/// Builds a response for `question` answering with `answer`.
fn response(id: u16, question: &str, answer: &str, compress: bool) -> Vec<u8> {
    let mut msg = encode_query(id, question);
    msg[2] = 0x81;
    msg[3] = 0x80;
    msg[6..8].copy_from_slice(&1u16.to_be_bytes());
    if compress {
        msg.extend_from_slice(&[0xC0, 12]);
    } else {
        for label in question.split('.') {
            msg.push(label.len() as u8);
            msg.extend_from_slice(label.as_bytes());
        }
        msg.push(0);
    }
    msg.extend_from_slice(&12u16.to_be_bytes());
    msg.extend_from_slice(&1u16.to_be_bytes());
    msg.extend_from_slice(&300u32.to_be_bytes());

    let mut rdata = Vec::new();
    for label in answer.split('.') {
        rdata.push(label.len() as u8);
        rdata.extend_from_slice(label.as_bytes());
    }
    rdata.push(0);
    msg.extend_from_slice(&(rdata.len() as u16).to_be_bytes());
    msg.extend_from_slice(&rdata);
    msg
}

#[test]
fn a_ptr_answer_is_read_back() {
    let q = reverse_name(ip("10.42.7.50"));
    let msg = response(0x1234, &q, "speed.example.internal", false);
    assert_eq!(
        parse_ptr_response(&msg, 0x1234, &q).as_deref(),
        Some("speed.example.internal")
    );
}

#[test]
fn a_compressed_answer_name_is_followed() {
    let q = reverse_name(ip("10.42.7.50"));
    let msg = response(0x1234, &q, "host.example", true);
    assert_eq!(
        parse_ptr_response(&msg, 0x1234, &q).as_deref(),
        Some("host.example")
    );
}

#[test]
fn a_pointer_loop_terminates_instead_of_hanging() {
    let q = reverse_name(ip("10.0.0.1"));
    let mut msg = encode_query(0x1234, &q);
    msg[2] = 0x81;
    msg[3] = 0x80;
    msg[6..8].copy_from_slice(&1u16.to_be_bytes());
    let here = msg.len();
    msg.extend_from_slice(&[0xC0, here as u8]);
    msg.extend_from_slice(&12u16.to_be_bytes());
    msg.extend_from_slice(&1u16.to_be_bytes());
    msg.extend_from_slice(&0u32.to_be_bytes());
    msg.extend_from_slice(&0u16.to_be_bytes());
    assert_eq!(parse_ptr_response(&msg, 0x1234, &q), None);
}

#[test]
fn a_truncated_message_is_rejected_rather_than_panicking() {
    let q = reverse_name(ip("10.42.7.50"));
    let full = response(0x1234, &q, "host.example", false);
    for cut in 0..full.len() {
        let _ = parse_ptr_response(&full[..cut], 0x1234, &q);
    }
}

#[test]
fn a_response_to_a_different_question_is_refused() {
    let asked = reverse_name(ip("10.42.7.50"));
    let other = reverse_name(ip("10.42.7.51"));
    let msg = response(0x1234, &other, "wrong.example", false);
    assert_eq!(parse_ptr_response(&msg, 0x1234, &asked), None);
    assert_eq!(parse_ptr_response(&msg, 0x9999, &other), None);
}

#[test]
fn an_error_response_yields_nothing() {
    let q = reverse_name(ip("10.0.0.1"));
    let mut msg = response(0x1234, &q, "host.example", false);
    msg[3] |= 0x03;
    assert_eq!(parse_ptr_response(&msg, 0x1234, &q), None);
}

#[test]
fn only_plausible_hostnames_are_accepted() {
    assert_eq!(
        acceptable_hostname("Host.Example."),
        Some("host.example".into())
    );
    assert_eq!(acceptable_hostname("nas-01.lan"), Some("nas-01.lan".into()));
    assert_eq!(acceptable_hostname(""), None);
    assert_eq!(acceptable_hostname("."), None);
    assert_eq!(acceptable_hostname("<script>alert(1)</script>"), None);
    assert_eq!(acceptable_hostname("has space"), None);
    assert_eq!(acceptable_hostname(&"a".repeat(300)), None);
}

#[test]
fn the_resolver_is_read_from_resolv_conf() {
    let conf = "# comment\nsearch lan\nnameserver 10.42.7.1\nnameserver 1.1.1.1\n";
    assert_eq!(
        resolver_from_resolv_conf(conf),
        Some(SocketAddr::parse("10.42.7.1:53").unwrap())
    );
    assert_eq!(resolver_from_resolv_conf("search lan\n"), None);
    assert_eq!(resolver_from_resolv_conf("nameserver nonsense\n"), None);
}

#[test]
fn an_accepted_hostname_is_accepted_again_unchanged() {
    for name in ["Host.Example.", "nas-01.lan", "A.B.C"] {
        let once = acceptable_hostname(name).unwrap();
        assert_eq!(acceptable_hostname(&once), Some(once.clone()));
    }
}

#[test]
fn kinds_have_their_slugs_and_labels() {
    assert_eq!(Kind::Private.slug(), "lan");
    assert_eq!(Kind::Private.label(), "LAN");
    assert_eq!(Kind::Cgnat.slug(), "cgnat");
    assert_eq!(Kind::Cgnat.label(), "Tailscale or carrier NAT");
}

#[test]
fn cidr_errors_name_what_was_wrong() {
    assert_eq!(
        Cidr::parse("10.0.0.0").unwrap_err(),
        "\"10.0.0.0\" is not a CIDR block — expected something like 10.0.0.0/8"
    );
    assert_eq!(Cidr::parse("nope/8").unwrap_err(), "\"nope\" is not an IP address");
    assert_eq!(Cidr::parse("10.0.0.0/x").unwrap_err(), "\"x\" is not a prefix length");
    assert_eq!(Cidr::parse("10.0.0.0/33").unwrap_err(), "/33 is too long for 10.0.0.0");
}

#[test]
fn query_ids_advance_by_an_odd_step_and_wrap() {
    assert_eq!(next_id(0, 4), (5, 4));
    assert_eq!(next_id(65535, 2), (2, 1));
    assert_eq!(next_id(10, 7), (17, 17));
    assert_eq!(next_id(10, 6), (17, 16));
}

#[test]
fn the_query_is_the_name_plus_eighteen_bytes() {
    let name = "50.7.42.10.in-addr.arpa";
    let q = encode_query(0x1234, name);
    assert_eq!(q.len(), name.len() + 18);
    assert_eq!(&q[..12], &[0x12, 0x34, 1, 0, 0, 1, 0, 0, 0, 0, 0, 0]);
    assert_eq!(&q[12..15], &[2, b'5', b'0']);
    assert_eq!(&q[q.len() - 5..], &[0, 0, 12, 0, 1]);
}
