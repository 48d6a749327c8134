//! Server configuration and measurement profiles.
//!
//! The measurement profile decides which stages the browser-side engine runs
//! and how big each transfer is. The file itself is read and deserialised by
//! the binary; this module holds what the service does with the values: the
//! defaults, the environment overrides and the startup validation.
//!
//! A profile's floating-point tuning knobs are passed through to the browser
//! untouched and never decided on here, so they are not part of this model.

use vstd::prelude::*;
use crate::text::{
    string_views, join, join_strings, dec, push_dec, extend_str,
    trim, trimmed, chars_of, to_string, split, split_chars, views, lower_seq, to_lower,
    chars_eq_str, chars_lt, key_names, lemma_trim_idempotent, lemma_names_in_order_distinct, names_in_order,
};
use crate::netid::{Cidr, spec_cidr};
use crate::ip::{SocketAddr, spec_socket};

verus! {

broadcast use vstd::string::group_string_axioms;

/* --- defaults -------------------------------------------------------------- */

/// The transfer cap used when the file names none: 2 GiB.
pub const DEFAULT_MAX_TRANSFER_BYTES: u64 = 2147483648;

/// The download buffer size used when the file names none: 4 MiB.
pub const DEFAULT_DOWNLOAD_CHUNK_BYTES: usize = 4194304;

/// Shown when nothing names this deployment.
pub fn default_site_name() -> (s: String)
    ensures
        s@ == "LAN Speed Test"@,
{
    "LAN Speed Test".to_owned()
}

/// Plain HTTP listens here unless told otherwise.
pub fn default_bind() -> (s: String)
    ensures
        s@ == "0.0.0.0:8080"@,
{
    "0.0.0.0:8080".to_owned()
}

pub fn default_max_transfer_bytes() -> (n: u64)
    ensures
        n == DEFAULT_MAX_TRANSFER_BYTES,
{
    DEFAULT_MAX_TRANSFER_BYTES
}

pub fn default_download_chunk_bytes() -> (n: usize)
    ensures
        n == DEFAULT_DOWNLOAD_CHUNK_BYTES,
{
    DEFAULT_DOWNLOAD_CHUNK_BYTES
}

/// Directory of built front-end assets.
pub fn default_static_dir() -> (s: String)
    ensures
        s@ == "static"@,
{
    "static".to_owned()
}

/// Where HTTPS listens when a certificate is configured.
pub fn default_tls_bind() -> (s: String)
    ensures
        s@ == "0.0.0.0:443"@,
{
    "0.0.0.0:443".to_owned()
}

/// Where completed runs are stored.
pub fn default_history_db() -> (s: String)
    ensures
        s@ == "data/history.db"@,
{
    "data/history.db".to_owned()
}

/// The private and shared address blocks, the only ones looked up by default.
pub open spec fn spec_default_reverse_dns_ranges() -> Seq<Seq<char>> {
    seq!["10.0.0.0/8"@, "172.16.0.0/12"@, "192.168.0.0/16"@, "100.64.0.0/10"@, "fc00::/7"@]
}

pub fn default_reverse_dns_ranges() -> (v: Vec<String>)
    ensures
        v@.map_values(|s: String| s@) == spec_default_reverse_dns_ranges(),
{
    let v = vec![
        "10.0.0.0/8".to_owned(),
        "172.16.0.0/12".to_owned(),
        "192.168.0.0/16".to_owned(),
        "100.64.0.0/10".to_owned(),
        "fc00::/7".to_owned(),
    ];
    assert(v@.map_values(|s: String| s@) =~= spec_default_reverse_dns_ranges());
    v
}

pub fn default_reverse_dns_timeout_ms() -> (n: u64)
    ensures
        n == 500,
{
    500
}

/// Six hours.
pub fn default_reverse_dns_ttl_secs() -> (n: u64)
    ensures
        n == 21600,
{
    6 * 60 * 60
}

pub fn default_true() -> (b: bool)
    ensures
        b,
{
    true
}

/* --- the model ------------------------------------------------------------- */

/// One engine measurement stage, with the engine's own field meanings.
#[derive(Clone, Debug)]
pub struct Measurement {
    /// The stage type: `latency`, `download`, `upload` or `packetLoss`.
    pub kind: String,
    pub num_packets: Option<u32>,
    pub bytes: Option<u64>,
    pub count: Option<u32>,
    pub bypass_min_duration: Option<bool>,
    pub batch_size: Option<u32>,
    pub batch_wait_time: Option<u32>,
    pub responses_wait_time: Option<u32>,
    pub connection_timeout: Option<u32>,
}

/// The part of a measurement profile that the service itself acts on.
#[derive(Clone, Debug)]
pub struct Profile {
    pub description: String,
    pub measurements: Vec<Measurement>,
    pub measure_download_loaded_latency: bool,
    pub measure_upload_loaded_latency: bool,
    /// Whether automatic selection may choose it.
    pub auto_selectable: bool,
}

/// Naming clients by reverse lookup, restricted to explicit address ranges.
#[derive(Clone, Debug)]
pub struct ReverseDnsConfig {
    pub enabled: bool,
    /// `host:port`. Empty means the first `nameserver` in `/etc/resolv.conf`.
    pub resolver: String,
    /// Only addresses inside these blocks are ever looked up.
    pub ranges: Vec<String>,
    pub timeout_ms: u64,
    /// How long a resolved (or unresolvable) name is trusted.
    pub ttl_secs: u64,
}

#[derive(Clone, Debug)]
pub struct ServerConfig {
    /// Display name for this deployment: the page heading and the tab title.
    pub site_name: String,
    pub bind: String,
    pub max_transfer_bytes: u64,
    pub download_chunk_bytes: usize,
    pub static_dir: String,
    pub tls_bind: String,
    /// Full certificate chain. TLS is on only when this and the key are set.
    pub tls_cert_file: Option<String>,
    pub tls_key_file: Option<String>,
    /// Empty disables history entirely.
    pub history_db: String,
    /// CIDR blocks whose `X-Forwarded-For` header may be believed.
    pub trusted_proxies: Vec<String>,
    pub reverse_dns: ReverseDnsConfig,
    /// Serve `/metrics`. Off by default: the body names every client that has
    /// ever run a test.
    pub metrics: bool,
    /// Whether the page measures as soon as it loads; the deployment's
    /// default, which a browser's own choice overrides.
    pub autostart: bool,
    /// Delete runs older than this many days; 0 keeps them.
    pub retain_runs_days: u32,
    /// Drop the per-sample blob of runs older than this many days; 0 keeps it.
    pub retain_samples_days: u32,
    /// Where a nightly snapshot of the history is written; empty writes none.
    pub history_backup_dir: String,
}

/// TURN relay used by the engine's packet-loss stage.
#[derive(Clone, Debug)]
pub struct TurnConfig {
    pub enabled: bool,
    pub uri: String,
    pub user: String,
    pub pass: String,
}

/// The whole configuration. `profiles` holds each named profile once, in the
/// order of their names (`profiles_in_order`, kept by `insert_named`).
#[derive(Clone, Debug)]
pub struct Config {
    /// Name of the active profile.
    pub profile: String,
    pub server: ServerConfig,
    pub turn: TurnConfig,
    pub profiles: Vec<(String, Profile)>,
}

impl Config {
    /// Each profile name once, in name order: what a map keyed by name
    /// holds.
    pub open spec fn profiles_in_order(self) -> bool {
        names_in_order(key_names(self.profiles@))
    }
}

impl Default for ReverseDnsConfig {
    fn default() -> (r: Self)
        ensures
            !r.enabled,
            r.resolver@.len() == 0,
            string_views(r.ranges@) == spec_default_reverse_dns_ranges(),
            r.timeout_ms == 500,
            r.ttl_secs == 21600,
    {
        ReverseDnsConfig {
            enabled: false,
            resolver: String::new(),
            ranges: default_reverse_dns_ranges(),
            timeout_ms: default_reverse_dns_timeout_ms(),
            ttl_secs: default_reverse_dns_ttl_secs(),
        }
    }
}

impl Default for ServerConfig {
    fn default() -> (r: Self)
        ensures
            r.site_name@ == "LAN Speed Test"@,
            r.bind@ == "0.0.0.0:8080"@,
            r.max_transfer_bytes == DEFAULT_MAX_TRANSFER_BYTES,
            r.download_chunk_bytes == DEFAULT_DOWNLOAD_CHUNK_BYTES,
            r.static_dir@ == "static"@,
            r.tls_bind@ == "0.0.0.0:443"@,
            r.tls_cert_file is None,
            r.tls_key_file is None,
            r.history_db@ == "data/history.db"@,
            r.trusted_proxies@.len() == 0,
            !r.reverse_dns.enabled,
            r.reverse_dns.resolver@.len() == 0,
            string_views(r.reverse_dns.ranges@) == spec_default_reverse_dns_ranges(),
            r.reverse_dns.timeout_ms == 500,
            r.reverse_dns.ttl_secs == 21600,
            !r.metrics,
            r.autostart,
            r.retain_runs_days == 0,
            r.retain_samples_days == 0,
            r.history_backup_dir@.len() == 0,
    {
        ServerConfig {
            site_name: default_site_name(),
            bind: default_bind(),
            max_transfer_bytes: default_max_transfer_bytes(),
            download_chunk_bytes: default_download_chunk_bytes(),
            static_dir: default_static_dir(),
            tls_bind: default_tls_bind(),
            tls_cert_file: None,
            tls_key_file: None,
            history_db: default_history_db(),
            trusted_proxies: Vec::new(),
            reverse_dns: ReverseDnsConfig::default(),
            metrics: false,
            autostart: true,
            retain_runs_days: 0,
            retain_samples_days: 0,
            history_backup_dir: String::new(),
        }
    }
}

impl Default for TurnConfig {
    fn default() -> (r: Self)
        ensures
            !r.enabled,
            r.uri@.len() == 0,
            r.user@.len() == 0,
            r.pass@.len() == 0,
    {
        TurnConfig { enabled: false, uri: String::new(), user: String::new(), pass: String::new() }
    }
}

/// Whether TLS is configured: both halves present and non-empty.
pub open spec fn spec_tls(s: ServerConfig) -> Option<(Seq<char>, Seq<char>)> {
    match (s.tls_cert_file, s.tls_key_file) {
        (Some(c), Some(k)) => if c@.len() > 0 && k@.len() > 0 {
            Some((c@, k@))
        } else {
            None
        },
        _ => None,
    }
}

impl ServerConfig {
    /// The snapshot directory, when one is configured.
    pub fn backup_dir(&self) -> (d: Option<&str>)
        ensures
            match d {
                Some(x) => self.history_backup_dir@.len() > 0 && x@ == self.history_backup_dir@,
                None => self.history_backup_dir@.len() == 0,
            },
    {
        if self.history_backup_dir.as_str().is_empty() {
            None
        } else {
            Some(self.history_backup_dir.as_str())
        }
    }

    /// TLS is on only when both halves are present. One without the other is
    /// a misconfiguration rather than a partial success, and `validate`
    /// rejects it.
    pub fn tls(&self) -> (r: Option<(&str, &str)>)
        ensures
            spec_tls(*self) == match r {
                Some((c, k)) => Some((c@, k@)),
                None => None::<(Seq<char>, Seq<char>)>,
            },
    {
        match (&self.tls_cert_file, &self.tls_key_file) {
            (Some(c), Some(k)) => {
                if !c.as_str().is_empty() && !k.as_str().is_empty() {
                    Some((c.as_str(), k.as_str()))
                } else {
                    None
                }
            },
            _ => None,
        }
    }
}


/* --- validation ------------------------------------------------------------ */

/// Why a configuration was refused.
#[derive(Debug)]
pub enum ConfigError {
    UnknownProfile { requested: String, known: Vec<String> },
    LargestTransferExceedsCap { bytes: u64, cap: u64 },
    TurnEnabledWithoutCredentials,
    HalfConfiguredTls,
    BadCidr { field: &'static str, detail: String },
    BadResolver(String),
}

/// A `ConfigError` as plain values.
pub enum ConfigProblem {
    UnknownProfile { requested: Seq<char>, known: Seq<Seq<char>> },
    LargestTransferExceedsCap { bytes: u64, cap: u64 },
    TurnEnabledWithoutCredentials,
    HalfConfiguredTls,
    BadCidr { field: Seq<char>, detail: Seq<char> },
    BadResolver(Seq<char>),
}

impl View for ConfigError {
    type V = ConfigProblem;

    open spec fn view(&self) -> ConfigProblem {
        match self {
            ConfigError::UnknownProfile { requested, known } => ConfigProblem::UnknownProfile {
                requested: requested@,
                known: string_views(known@),
            },
            ConfigError::LargestTransferExceedsCap { bytes, cap } => {
                ConfigProblem::LargestTransferExceedsCap { bytes: *bytes, cap: *cap }
            },
            ConfigError::TurnEnabledWithoutCredentials => {
                ConfigProblem::TurnEnabledWithoutCredentials
            },
            ConfigError::HalfConfiguredTls => ConfigProblem::HalfConfiguredTls,
            ConfigError::BadCidr { field, detail } => ConfigProblem::BadCidr {
                field: field@,
                detail: detail@,
            },
            ConfigError::BadResolver(d) => ConfigProblem::BadResolver(d@),
        }
    }
}

/// The names of the profiles, in order.
pub open spec fn profile_names(ps: Seq<(String, Profile)>) -> Seq<Seq<char>> {
    ps.map_values(|p: (String, Profile)| p.0@)
}

/// Index of the first profile called `name`, or -1.
pub open spec fn find_profile(ps: Seq<(String, Profile)>, name: Seq<char>) -> int
    decreases ps.len(),
{
    if ps.len() == 0 {
        -1
    } else if ps[0].0@ == name {
        0
    } else {
        let r = find_profile(ps.drop_first(), name);
        if r < 0 {
            -1
        } else {
            r + 1
        }
    }
}

/// The largest `bytes` any stage asks for, if any stage names one.
pub open spec fn max_bytes(ms: Seq<Measurement>) -> Option<u64>
    decreases ms.len(),
{
    if ms.len() == 0 {
        None
    } else {
        let rest = max_bytes(ms.drop_last());
        match ms.last().bytes {
            None => rest,
            Some(b) => match rest {
                None => Some(b),
                Some(r) => Some(if b > r { b } else { r }),
            },
        }
    }
}

/// The message for the first entry that is not a CIDR block, if any.
pub open spec fn first_bad_block(v: Seq<Seq<char>>) -> Option<Seq<char>>
    decreases v.len(),
{
    if v.len() == 0 {
        None
    } else {
        match spec_cidr(v[0]) {
            Err(m) => Some(m),
            Ok(_) => first_bad_block(v.drop_first()),
        }
    }
}

/// What std's address parser says of text that is not `host:port`.
pub open spec fn bad_socket_message() -> Seq<char> {
    "invalid socket address syntax"@
}

/// The first rule a configuration breaks, checked in a fixed order: the
/// active profile exists, its largest transfer fits the cap, an enabled TURN
/// relay has all its credentials, TLS is configured whole or not at all, and
/// every block and the resolver address parse.
pub open spec fn spec_validate(c: Config) -> Option<ConfigProblem> {
    let i = find_profile(c.profiles@, c.profile@);
    if i < 0 {
        Some(
            ConfigProblem::UnknownProfile {
                requested: c.profile@,
                known: profile_names(c.profiles@),
            },
        )
    } else if max_bytes(c.profiles@[i].1.measurements@) is Some && max_bytes(
        c.profiles@[i].1.measurements@,
    )->0 > c.server.max_transfer_bytes {
        Some(
            ConfigProblem::LargestTransferExceedsCap {
                bytes: max_bytes(c.profiles@[i].1.measurements@)->0,
                cap: c.server.max_transfer_bytes,
            },
        )
    } else if c.turn.enabled && (c.turn.uri@.len() == 0 || c.turn.user@.len() == 0
        || c.turn.pass@.len() == 0) {
        Some(ConfigProblem::TurnEnabledWithoutCredentials)
    } else if (c.server.tls_cert_file is Some) != (c.server.tls_key_file is Some) {
        Some(ConfigProblem::HalfConfiguredTls)
    } else if first_bad_block(string_views(c.server.trusted_proxies@)) is Some {
        Some(
            ConfigProblem::BadCidr {
                field: "trusted_proxies"@,
                detail: first_bad_block(string_views(c.server.trusted_proxies@))->0,
            },
        )
    } else if first_bad_block(string_views(c.server.reverse_dns.ranges@)) is Some {
        Some(
            ConfigProblem::BadCidr {
                field: "reverse_dns.ranges"@,
                detail: first_bad_block(string_views(c.server.reverse_dns.ranges@))->0,
            },
        )
    } else if c.server.reverse_dns.resolver@.len() > 0 && spec_socket(
        c.server.reverse_dns.resolver@,
    ) is None {
        Some(ConfigProblem::BadResolver(bad_socket_message()))
    } else {
        None
    }
}

/// What a refused configuration is reported as.
pub open spec fn problem_message(p: ConfigProblem) -> Seq<char> {
    match p {
        ConfigProblem::UnknownProfile { requested, known } => "profile '"@ + requested
            + "' is not defined; known profiles: "@ + join(known, ", "@),
        ConfigProblem::LargestTransferExceedsCap { bytes, cap } => "profile requests a "@ + dec(
            bytes as nat,
        ) + "-byte transfer but server.max_transfer_bytes is "@ + dec(cap as nat),
        ConfigProblem::TurnEnabledWithoutCredentials =>
            "turn.enabled is true but uri/user/pass are not all set (pass is normally supplied via SPEEDTEST_TURN_PASS)"@,
        ConfigProblem::HalfConfiguredTls =>
            "exactly one of server.tls_cert_file / server.tls_key_file is set. Set both to serve HTTPS, or neither to serve plain HTTP"@,
        ConfigProblem::BadCidr { field, detail } => "server."@ + field + ": "@ + detail,
        ConfigProblem::BadResolver(detail) => "server.reverse_dns.resolver: "@ + detail
            + " (expected host:port, e.g. 10.0.0.1:53)"@,
    }
}

impl ConfigError {
    /// The message an operator sees for this error.
    pub fn message(&self) -> (m: String)
        ensures
            m@ == problem_message(self@),
    {
        let mut out: Vec<char> = Vec::new();
        match self {
            ConfigError::UnknownProfile { requested, known } => {
                extend_str(&mut out, "profile '");
                extend_str(&mut out, requested.as_str());
                extend_str(&mut out, "' is not defined; known profiles: ");
                let list = join_strings(known.as_slice(), ", ");
                extend_str(&mut out, list.as_str());
            },
            ConfigError::LargestTransferExceedsCap { bytes, cap } => {
                extend_str(&mut out, "profile requests a ");
                push_dec(&mut out, *bytes);
                extend_str(&mut out, "-byte transfer but server.max_transfer_bytes is ");
                push_dec(&mut out, *cap);
            },
            ConfigError::TurnEnabledWithoutCredentials => {
                extend_str(
                    &mut out,
                    "turn.enabled is true but uri/user/pass are not all set (pass is normally supplied via SPEEDTEST_TURN_PASS)",
                );
            },
            ConfigError::HalfConfiguredTls => {
                extend_str(
                    &mut out,
                    "exactly one of server.tls_cert_file / server.tls_key_file is set. Set both to serve HTTPS, or neither to serve plain HTTP",
                );
            },
            ConfigError::BadCidr { field, detail } => {
                extend_str(&mut out, "server.");
                extend_str(&mut out, field);
                extend_str(&mut out, ": ");
                extend_str(&mut out, detail.as_str());
            },
            ConfigError::BadResolver(detail) => {
                extend_str(&mut out, "server.reverse_dns.resolver: ");
                extend_str(&mut out, detail.as_str());
                extend_str(&mut out, " (expected host:port, e.g. 10.0.0.1:53)");
            },
        }
        assert(out@ =~= problem_message(self@));
        to_string(out.as_slice())
    }
}

/// Index of the first profile called `name`.
pub(crate) fn profile_index(ps: &Vec<(String, Profile)>, name: &String) -> (r: Option<usize>)
    ensures
        match r {
            Some(i) => find_profile(ps@, name@) == i && i < ps@.len(),
            None => find_profile(ps@, name@) < 0,
        },
{
    let mut i: usize = ps.len();
    let mut found: Option<usize> = None;
    // Scanned from the back so that the answer is the first match.
    while i > 0
        invariant
            i <= ps@.len(),
            match found {
                Some(j) => i <= j < ps@.len() && find_profile(ps@.skip(i as int), name@) == j - i,
                None => find_profile(ps@.skip(i as int), name@) < 0,
            },
        decreases i,
    {
        i = i - 1;
        assert(ps@.skip(i as int).drop_first() =~= ps@.skip(i + 1));
        if ps[i].0 == *name {
            found = Some(i);
        } else {
            found = match found {
                Some(j) => Some(j),
                None => None,
            };
        }
    }
    assert(ps@.skip(0) =~= ps@);
    found
}

/// The largest `bytes` among the stages.
fn largest_transfer(ms: &Vec<Measurement>) -> (r: Option<u64>)
    ensures
        r == max_bytes(ms@),
{
    let mut best: Option<u64> = None;
    let mut i: usize = 0;
    while i < ms.len()
        invariant
            i <= ms@.len(),
            best == max_bytes(ms@.take(i as int)),
        decreases ms.len() - i,
    {
        assert(ms@.take(i + 1).drop_last() =~= ms@.take(i as int));
        match ms[i].bytes {
            None => {},
            Some(b) => {
                best = match best {
                    None => Some(b),
                    Some(r) => Some(if b > r { b } else { r }),
                };
            },
        }
        i = i + 1;
    }
    assert(ms@.take(ms@.len() as int) =~= ms@);
    best
}

/// The message for the first entry of `v` that is not a CIDR block.
fn check_blocks(v: &Vec<String>) -> (r: Option<String>)
    ensures
        match r {
            Some(m) => first_bad_block(string_views(v@)) == Some(m@),
            None => first_bad_block(string_views(v@)) is None,
        },
{
    let mut i: usize = 0;
    assert(string_views(v@).skip(0) =~= string_views(v@));
    while i < v.len()
        invariant
            i <= v@.len(),
            first_bad_block(string_views(v@)) == first_bad_block(string_views(v@).skip(i as int)),
        decreases v.len() - i,
    {
        assert(string_views(v@).skip(i as int).drop_first() =~= string_views(v@).skip(i + 1));
        assert(string_views(v@).skip(i as int)[0] == v@[i as int]@);
        match Cidr::parse(v[i].as_str()) {
            Err(m) => {
                return Some(m);
            },
            Ok(_) => {},
        }
        i = i + 1;
    }
    None
}

impl Config {
    /// Refuses a configuration that would misbehave at request time: see
    /// `spec_validate` for the rules and the order they are checked in.
    pub fn validate(&self) -> (r: Result<(), ConfigError>)
        requires
            self.profiles_in_order(),
        ensures
            spec_validate(*self) == match r {
                Ok(_) => None,
                Err(e) => Some(e@),
            },
    {
        let i = match profile_index(&self.profiles, &self.profile) {
            Some(i) => i,
            None => {
                let mut known: Vec<String> = Vec::new();
                let mut k: usize = 0;
                while k < self.profiles.len()
                    invariant
                        k <= self.profiles@.len(),
                        string_views(known@) == profile_names(self.profiles@.take(k as int)),
                    decreases self.profiles.len() - k,
                {
                    let ghost before = known@;
                    known.push(self.profiles[k].0.clone());
                    assert(known@ == before.push(self.profiles@[k as int].0));
                    assert(string_views(known@) =~= string_views(before).push(self.profiles@[k as int].0@));
                    assert(profile_names(self.profiles@.take(k + 1)) =~= profile_names(
                        self.profiles@.take(k as int),
                    ).push(self.profiles@[k as int].0@));
                    assert(string_views(known@) =~= profile_names(self.profiles@.take(k + 1)));
                    k = k + 1;
                }
                assert(self.profiles@.take(self.profiles@.len() as int) =~= self.profiles@);
                return Err(ConfigError::UnknownProfile { requested: self.profile.clone(), known });
            },
        };
        match largest_transfer(&self.profiles[i].1.measurements) {
            Some(max) => {
                if max > self.server.max_transfer_bytes {
                    return Err(
                        ConfigError::LargestTransferExceedsCap {
                            bytes: max,
                            cap: self.server.max_transfer_bytes,
                        },
                    );
                }
            },
            None => {},
        }
        if self.turn.enabled && (self.turn.uri.as_str().is_empty()
            || self.turn.user.as_str().is_empty() || self.turn.pass.as_str().is_empty()) {
            return Err(ConfigError::TurnEnabledWithoutCredentials);
        }
        if self.server.tls_cert_file.is_some() != self.server.tls_key_file.is_some() {
            return Err(ConfigError::HalfConfiguredTls);
        }
        match check_blocks(&self.server.trusted_proxies) {
            Some(detail) => {
                return Err(ConfigError::BadCidr { field: "trusted_proxies", detail });
            },
            None => {},
        }
        match check_blocks(&self.server.reverse_dns.ranges) {
            Some(detail) => {
                return Err(ConfigError::BadCidr { field: "reverse_dns.ranges", detail });
            },
            None => {},
        }
        if !self.server.reverse_dns.resolver.as_str().is_empty() {
            match SocketAddr::parse(self.server.reverse_dns.resolver.as_str()) {
                Some(_) => {},
                None => {
                    return Err(
                        ConfigError::BadResolver("invalid socket address syntax".to_owned()),
                    );
                },
            }
        }
        Ok(())
    }
}

/* --- environment overrides ------------------------------------------------- */

/// The raw values of the environment variables that retune a deployment,
/// each `None` when the variable is unset.
#[derive(Clone, Debug)]
pub struct EnvOverrides {
    /// `SPEEDTEST_PROFILE`
    pub profile: Option<String>,
    /// `SPEEDTEST_SITE_NAME`
    pub site_name: Option<String>,
    /// `SPEEDTEST_BIND`
    pub bind: Option<String>,
    /// `SPEEDTEST_STATIC_DIR`
    pub static_dir: Option<String>,
    /// `SPEEDTEST_TLS_BIND`
    pub tls_bind: Option<String>,
    /// `SPEEDTEST_HISTORY_DB`
    pub history_db: Option<String>,
    /// `SPEEDTEST_TLS_CERT_FILE`
    pub tls_cert_file: Option<String>,
    /// `SPEEDTEST_TLS_KEY_FILE`
    pub tls_key_file: Option<String>,
    /// `SPEEDTEST_TURN_URI`
    pub turn_uri: Option<String>,
    /// `SPEEDTEST_TURN_USER`
    pub turn_user: Option<String>,
    /// `SPEEDTEST_TURN_PASS`
    pub turn_pass: Option<String>,
    /// `SPEEDTEST_TRUSTED_PROXIES`
    pub trusted_proxies: Option<String>,
    /// `SPEEDTEST_REVERSE_DNS`
    pub reverse_dns: Option<String>,
    /// `SPEEDTEST_DNS_RESOLVER`
    pub dns_resolver: Option<String>,
    /// `SPEEDTEST_TURN_ENABLED`
    pub turn_enabled: Option<String>,
    /// `SPEEDTEST_METRICS`
    pub metrics: Option<String>,
    /// `SPEEDTEST_AUTOSTART`
    pub autostart: Option<String>,
}

/// A variable's value, trimmed, when it holds anything but whitespace.
pub open spec fn env_value(v: Option<String>) -> Option<Seq<char>> {
    match v {
        Some(s) => if trim(s@).len() > 0 {
            Some(trim(s@))
        } else {
            None
        },
        None => None,
    }
}

/// The override when there is one, else the current value.
pub open spec fn pick(v: Option<Seq<char>>, current: Seq<char>) -> Seq<char> {
    match v {
        Some(x) => x,
        None => current,
    }
}

/// `1`, `true` or `yes`, in any case.
pub open spec fn affirmative(t: Seq<char>) -> bool {
    lower_seq(t) == "1"@ || lower_seq(t) == "true"@ || lower_seq(t) == "yes"@
}

/// Each piece trimmed, the blank ones dropped.
pub open spec fn nonblank_trimmed(parts: Seq<Seq<char>>) -> Seq<Seq<char>>
    decreases parts.len(),
{
    if parts.len() == 0 {
        Seq::empty()
    } else {
        let r = nonblank_trimmed(parts.drop_last());
        let t = trim(parts.last());
        if t.len() > 0 {
            r.push(t)
        } else {
            r
        }
    }
}

/// A comma-separated list of blocks, as the environment gives it.
pub open spec fn block_list(t: Seq<char>) -> Seq<Seq<char>> {
    nonblank_trimmed(split(t, ','))
}

/// The display name, trimmed, falling back to the default when blank.
pub open spec fn normalised_site_name(s: Seq<char>) -> Seq<char> {
    if trim(s).len() == 0 {
        "LAN Speed Test"@
    } else {
        trim(s)
    }
}

/// How `apply_env_overrides` leaves a configuration: every variable that is
/// set and not blank replaces its setting (a list is split on commas, a flag
/// reads `1`, `true` or `yes`), `SPEEDTEST_HISTORY_DB` applies even when
/// blank, the site name is normalised, and nothing else changes.
pub open spec fn env_applied(old: Config, new: Config, env: EnvOverrides) -> bool {
    &&& new.profile@ == pick(env_value(env.profile), old.profile@)
    &&& new.server.site_name@ == normalised_site_name(
        pick(env_value(env.site_name), old.server.site_name@),
    )
    &&& new.server.bind@ == pick(env_value(env.bind), old.server.bind@)
    &&& new.server.static_dir@ == pick(env_value(env.static_dir), old.server.static_dir@)
    &&& new.server.tls_bind@ == pick(env_value(env.tls_bind), old.server.tls_bind@)
    &&& new.server.history_db@ == match env.history_db {
        Some(v) => trim(v@),
        None => old.server.history_db@,
    }
    &&& match env_value(env.tls_cert_file) {
        Some(v) => new.server.tls_cert_file is Some && new.server.tls_cert_file->0@ == v,
        None => new.server.tls_cert_file == old.server.tls_cert_file,
    }
    &&& match env_value(env.tls_key_file) {
        Some(v) => new.server.tls_key_file is Some && new.server.tls_key_file->0@ == v,
        None => new.server.tls_key_file == old.server.tls_key_file,
    }
    &&& new.turn.uri@ == pick(env_value(env.turn_uri), old.turn.uri@)
    &&& new.turn.user@ == pick(env_value(env.turn_user), old.turn.user@)
    &&& new.turn.pass@ == pick(env_value(env.turn_pass), old.turn.pass@)
    &&& match env_value(env.trusted_proxies) {
        Some(v) => string_views(new.server.trusted_proxies@) == block_list(v),
        None => new.server.trusted_proxies == old.server.trusted_proxies,
    }
    &&& new.server.reverse_dns.enabled == match env_value(env.reverse_dns) {
        Some(v) => affirmative(v),
        None => old.server.reverse_dns.enabled,
    }
    &&& new.server.reverse_dns.resolver@ == pick(
        env_value(env.dns_resolver),
        old.server.reverse_dns.resolver@,
    )
    &&& new.turn.enabled == match env_value(env.turn_enabled) {
        Some(v) => affirmative(v),
        None => old.turn.enabled,
    }
    &&& new.server.metrics == match env_value(env.metrics) {
        Some(v) => affirmative(v),
        None => old.server.metrics,
    }
    &&& new.server.autostart == match env_value(env.autostart) {
        Some(v) => affirmative(v),
        None => old.server.autostart,
    }
    &&& new.server.retain_runs_days == old.server.retain_runs_days
    &&& new.server.retain_samples_days == old.server.retain_samples_days
    &&& new.server.history_backup_dir == old.server.history_backup_dir
    &&& new.server.max_transfer_bytes == old.server.max_transfer_bytes
    &&& new.server.download_chunk_bytes == old.server.download_chunk_bytes
    &&& new.server.reverse_dns.ranges == old.server.reverse_dns.ranges
    &&& new.server.reverse_dns.timeout_ms == old.server.reverse_dns.timeout_ms
    &&& new.server.reverse_dns.ttl_secs == old.server.reverse_dns.ttl_secs
    &&& new.profiles == old.profiles
}

/// A variable's value, trimmed, when it holds anything but whitespace.
pub fn non_empty_env(v: &Option<String>) -> (r: Option<String>)
    ensures
        match r {
            Some(s) => env_value(*v) == Some(s@),
            None => env_value(*v) is None,
        },
{
    match v {
        Some(s) => {
            let t = trimmed(chars_of(s.as_str()).as_slice());
            if t.len() > 0 {
                Some(to_string(t.as_slice()))
            } else {
                None
            }
        },
        None => None,
    }
}

/// Whether a flag's value switches it on.
fn is_affirmative(t: &String) -> (b: bool)
    ensures
        b == affirmative(t@),
{
    let l = to_lower(chars_of(t.as_str()).as_slice());
    chars_eq_str(l.as_slice(), "1") || chars_eq_str(l.as_slice(), "true") || chars_eq_str(
        l.as_slice(),
        "yes",
    )
}

/// The blocks of a comma-separated list, trimmed, blanks dropped.
fn parse_block_list(t: &String) -> (r: Vec<String>)
    ensures
        string_views(r@) == block_list(t@),
{
    let parts = split_chars(chars_of(t.as_str()).as_slice(), ',');
    let mut r: Vec<String> = Vec::new();
    let mut i: usize = 0;
    while i < parts.len()
        invariant
            i <= parts@.len(),
            views(parts@) == split(t@, ','),
            string_views(r@) == nonblank_trimmed(views(parts@).take(i as int)),
        decreases parts.len() - i,
    {
        assert(views(parts@).take(i + 1).drop_last() =~= views(parts@).take(i as int));
        assert(views(parts@).take(i + 1).last() == parts@[i as int]@);
        let piece = trimmed(parts[i].as_slice());
        if piece.len() > 0 {
            let ghost before = r@;
            r.push(to_string(piece.as_slice()));
            assert(string_views(r@) =~= string_views(before).push(piece@));
        }
        i = i + 1;
    }
    assert(views(parts@).take(parts@.len() as int) =~= views(parts@));
    r
}

/// The display name, trimmed, or the default when that leaves nothing.
fn normalised_name(s: &String) -> (r: String)
    ensures
        r@ == normalised_site_name(s@),
{
    let t = trimmed(chars_of(s.as_str()).as_slice());
    if t.len() == 0 {
        default_site_name()
    } else {
        to_string(t.as_slice())
    }
}

/// Replaces `field` with the variable's value when it is set and not blank.
fn override_text(field: &mut String, v: &Option<String>)
    ensures
        final(field)@ == pick(env_value(*v), old(field)@),
{
    match non_empty_env(v) {
        Some(x) => {
            *field = x;
        },
        None => {},
    }
}

/// Sets an optional path when the variable is set and not blank.
fn override_path(field: &mut Option<String>, v: &Option<String>)
    ensures
        match env_value(*v) {
            Some(x) => *final(field) is Some && (*final(field))->0@ == x,
            None => *final(field) == *old(field),
        },
{
    match non_empty_env(v) {
        Some(x) => {
            *field = Some(x);
        },
        None => {},
    }
}

/// Sets a flag from the variable when it is set and not blank.
fn override_flag(field: &mut bool, v: &Option<String>)
    ensures
        *final(field) == match env_value(*v) {
            Some(x) => affirmative(x),
            None => *old(field),
        },
{
    match non_empty_env(v) {
        Some(x) => {
            *field = is_affirmative(&x);
        },
        None => {},
    }
}

impl Config {
    /// The environment wins over the file, so a container can be retuned
    /// without rebuilding an image or mounting a new config.
    pub fn apply_env_overrides(&mut self, env: &EnvOverrides)
        ensures
            env_applied(*old(self), *final(self), *env),
    {
        override_text(&mut self.profile, &env.profile);
        let mut site = self.server.site_name.clone();
        override_text(&mut site, &env.site_name);
        override_text(&mut self.server.bind, &env.bind);
        override_text(&mut self.server.static_dir, &env.static_dir);
        override_text(&mut self.server.tls_bind, &env.tls_bind);
        match &env.history_db {
            // Deliberately accepts an empty value: that is how history is
            // turned off.
            Some(v) => {
                self.server.history_db = to_string(
                    trimmed(chars_of(v.as_str()).as_slice()).as_slice(),
                );
            },
            None => {},
        }
        override_path(&mut self.server.tls_cert_file, &env.tls_cert_file);
        override_path(&mut self.server.tls_key_file, &env.tls_key_file);
        override_text(&mut self.turn.uri, &env.turn_uri);
        override_text(&mut self.turn.user, &env.turn_user);
        override_text(&mut self.turn.pass, &env.turn_pass);
        match non_empty_env(&env.trusted_proxies) {
            Some(v) => {
                self.server.trusted_proxies = parse_block_list(&v);
            },
            None => {},
        }
        override_flag(&mut self.server.reverse_dns.enabled, &env.reverse_dns);
        override_text(&mut self.server.reverse_dns.resolver, &env.dns_resolver);
        override_flag(&mut self.turn.enabled, &env.turn_enabled);
        override_flag(&mut self.server.metrics, &env.metrics);
        override_flag(&mut self.server.autostart, &env.autostart);
        self.server.site_name = normalised_name(&site);
    }

    /// Trims the display name, and refuses to leave it blank: a blank name is
    /// a mistake rather than an instruction to render an empty heading.
    pub fn normalise_site_name(&mut self)
        ensures
            final(self).server.site_name@ == normalised_site_name(old(self).server.site_name@),
            final(self).profile == old(self).profile,
            final(self).turn == old(self).turn,
            final(self).profiles == old(self).profiles,
            final(self).server.bind == old(self).server.bind,
            final(self).server.max_transfer_bytes == old(self).server.max_transfer_bytes,
            final(self).server.download_chunk_bytes == old(self).server.download_chunk_bytes,
            final(self).server.static_dir == old(self).server.static_dir,
            final(self).server.tls_bind == old(self).server.tls_bind,
            final(self).server.tls_cert_file == old(self).server.tls_cert_file,
            final(self).server.tls_key_file == old(self).server.tls_key_file,
            final(self).server.history_db == old(self).server.history_db,
            final(self).server.trusted_proxies == old(self).server.trusted_proxies,
            final(self).server.reverse_dns == old(self).server.reverse_dns,
            final(self).server.metrics == old(self).server.metrics,
            final(self).server.autostart == old(self).server.autostart,
            final(self).server.retain_runs_days == old(self).server.retain_runs_days,
            final(self).server.retain_samples_days == old(self).server.retain_samples_days,
            final(self).server.history_backup_dir == old(self).server.history_backup_dir,
    {
        self.server.site_name = normalised_name(&self.server.site_name);
    }

    /// The active profile, which `validate` has proved exists.
    pub fn active_profile(&self) -> (p: &Profile)
        requires
            self.profiles_in_order(),
            find_profile(self.profiles@, self.profile@) >= 0,
        ensures
            *p == self.profiles@[find_profile(self.profiles@, self.profile@)].1,
            forall|i: int|
                0 <= i < self.profiles@.len() && (#[trigger] self.profiles@[i]).0@ == self.profile@
                    ==> *p == self.profiles@[i].1,
    {
        proof {
            lemma_profile_lookup(*self);
        }
        let i = match profile_index(&self.profiles, &self.profile) {
            Some(i) => i,
            None => 0,
        };
        &self.profiles[i].1
    }
}

/* --- laws -------------------------------------------------------------------------- */

/// With the profiles in name order, a name is found exactly where it
/// stands: the lookup the configuration answers by name cannot pick one of
/// two profiles that share it.
pub proof fn lemma_profile_lookup(c: Config)
    requires
        c.profiles_in_order(),
    ensures
        forall|i: int|
            0 <= i < c.profiles@.len() && (#[trigger] c.profiles@[i]).0@ == c.profile@ ==> find_profile(
                c.profiles@,
                c.profile@,
            ) == i,
{
    assert forall|i: int|
        0 <= i < c.profiles@.len() && (#[trigger] c.profiles@[i]).0@ == c.profile@ implies find_profile(
            c.profiles@,
            c.profile@,
        ) == i by {
        lemma_find_profile_unique(c.profiles@, c.profile@, i);
    }
}

proof fn lemma_find_profile_unique(ps: Seq<(String, Profile)>, name: Seq<char>, i: int)
    requires
        names_in_order(key_names(ps)),
        0 <= i < ps.len(),
        ps[i].0@ == name,
    ensures
        find_profile(ps, name) == i,
    decreases ps.len(),
{
    if i > 0 {
        assert(key_names(ps)[0] == ps[0].0@);
        assert(key_names(ps)[i] == ps[i].0@);
        lemma_names_in_order_distinct(key_names(ps), 0, i);
        let rest = ps.drop_first();
        assert forall|a: int, b: int| 0 <= a < b < key_names(rest).len() implies chars_lt(
            #[trigger] key_names(rest)[a],
            #[trigger] key_names(rest)[b],
        ) by {
            assert(key_names(rest)[a] == key_names(ps)[a + 1]);
            assert(key_names(rest)[b] == key_names(ps)[b + 1]);
        }
        assert(rest[i - 1] == ps[i]);
        lemma_find_profile_unique(rest, name, i - 1);
    }
}

/// The largest transfer a profile asks for is the largest `bytes` among its
/// stages: none when no stage names one; otherwise one of them, and at least
/// every other.
pub proof fn lemma_max_bytes_is_largest(ms: Seq<Measurement>)
    ensures
        max_bytes(ms) is None <==> forall|k: int| 0 <= k < ms.len() ==> (#[trigger] ms[k]).bytes is None,
        max_bytes(ms) matches Some(m) ==> (forall|k: int|
            0 <= k < ms.len() && (#[trigger] ms[k]).bytes is Some ==> ms[k].bytes->0 <= m) && (exists|k: int|
            0 <= k < ms.len() && (#[trigger] ms[k]).bytes == Some(m)),
    decreases ms.len(),
{
    if ms.len() > 0 {
        let rest = ms.drop_last();
        lemma_max_bytes_is_largest(rest);
        assert forall|k: int| 0 <= k < rest.len() implies #[trigger] rest[k] == ms[k] by {}
        let last = ms.len() - 1;
        assert(ms[last] == ms.last());
        match max_bytes(ms) {
            Some(m) => {
                assert forall|k: int| 0 <= k < ms.len() && (#[trigger] ms[k]).bytes is Some implies ms[k].bytes->0
                    <= m by {
                    if k < rest.len() {
                        assert(rest[k].bytes is Some);
                        assert(max_bytes(rest) is Some);
                    }
                }
                if max_bytes(rest) == Some(m) {
                    let k = choose|k: int| 0 <= k < rest.len() && (#[trigger] rest[k]).bytes == Some(m);
                    assert(ms[k].bytes == Some(m));
                } else {
                    assert(ms[last].bytes == Some(m));
                }
            },
            None => {
                assert forall|k: int| 0 <= k < ms.len() implies (#[trigger] ms[k]).bytes is None by {
                    if k < rest.len() {
                        assert(rest[k].bytes is None);
                    }
                }
            },
        }
        if forall|k: int| 0 <= k < ms.len() ==> (#[trigger] ms[k]).bytes is None {
            assert(ms[last].bytes is None);
            assert forall|k: int| 0 <= k < rest.len() implies (#[trigger] rest[k]).bytes is None by {
                assert(ms[k].bytes is None);
            }
        }
    }
}

/// Startup refuses a transfer the server would refuse mid-test: a
/// configuration passes validation only if every stage of its active
/// profile asks for at most `max_transfer_bytes`; and when the active
/// profile has a stage above it, validation fails naming the largest such
/// transfer and the cap.
pub proof fn lemma_every_stage_fits_the_cap(c: Config)
    ensures
        spec_validate(c) is None ==> {
            let i = find_profile(c.profiles@, c.profile@);
            let ms = c.profiles@[i].1.measurements@;
            &&& 0 <= i < c.profiles@.len()
            &&& forall|k: int|
                0 <= k < ms.len() && (#[trigger] ms[k]).bytes is Some ==> ms[k].bytes->0
                    <= c.server.max_transfer_bytes
        },
        ({
            let i = find_profile(c.profiles@, c.profile@);
            let ms = c.profiles@[i].1.measurements@;
            i >= 0 && (exists|k: int|
                0 <= k < ms.len() && (#[trigger] ms[k]).bytes is Some && ms[k].bytes->0
                    > c.server.max_transfer_bytes)
        }) ==> {
            let i = find_profile(c.profiles@, c.profile@);
            let ms = c.profiles@[i].1.measurements@;
            spec_validate(c) matches Some(ConfigProblem::LargestTransferExceedsCap { bytes, cap }) && cap
                == c.server.max_transfer_bytes && bytes > cap && (forall|k: int|
                0 <= k < ms.len() && (#[trigger] ms[k]).bytes is Some ==> ms[k].bytes->0 <= bytes)
                && (exists|k: int| 0 <= k < ms.len() && (#[trigger] ms[k]).bytes == Some(bytes))
        },
        ({
            let i = find_profile(c.profiles@, c.profile@);
            let ms = c.profiles@[i].1.measurements@;
            i >= 0 && (forall|k: int|
                0 <= k < ms.len() && (#[trigger] ms[k]).bytes is Some ==> ms[k].bytes->0
                    <= c.server.max_transfer_bytes)
        }) ==> !(spec_validate(c) matches Some(ConfigProblem::LargestTransferExceedsCap { .. })),
{
    lemma_find_profile_range(c.profiles@, c.profile@);
    let i = find_profile(c.profiles@, c.profile@);
    if i >= 0 {
        lemma_max_bytes_is_largest(c.profiles@[i].1.measurements@);
    }
}

proof fn lemma_find_profile_range(ps: Seq<(String, Profile)>, name: Seq<char>)
    ensures
        find_profile(ps, name) < ps.len(),
        find_profile(ps, name) >= 0 ==> ps[find_profile(ps, name)].0@ == name,
    decreases ps.len(),
{
    if ps.len() > 0 {
        lemma_find_profile_range(ps.drop_first(), name);
    }
}

/// The environment wins: every variable that is set and not blank replaces
/// its own setting, trimmed (a flag is on for `1`, `true` or `yes` in any
/// case), and a setting whose variable is unset or blank keeps its value.
pub proof fn lemma_environment_wins(old: Config, new: Config, env: EnvOverrides)
    requires
        env_applied(old, new, env),
    ensures
        match env.profile {
            Some(v) => if trim(v@).len() > 0 {
                new.profile@ == trim(v@)
            } else {
                new.profile@ == old.profile@
            },
            None => new.profile@ == old.profile@,
        },
        match env.bind {
            Some(v) => if trim(v@).len() > 0 {
                new.server.bind@ == trim(v@)
            } else {
                new.server.bind@ == old.server.bind@
            },
            None => new.server.bind@ == old.server.bind@,
        },
        match env.static_dir {
            Some(v) => if trim(v@).len() > 0 {
                new.server.static_dir@ == trim(v@)
            } else {
                new.server.static_dir@ == old.server.static_dir@
            },
            None => new.server.static_dir@ == old.server.static_dir@,
        },
        match env.tls_bind {
            Some(v) => if trim(v@).len() > 0 {
                new.server.tls_bind@ == trim(v@)
            } else {
                new.server.tls_bind@ == old.server.tls_bind@
            },
            None => new.server.tls_bind@ == old.server.tls_bind@,
        },
        match env.turn_uri {
            Some(v) => if trim(v@).len() > 0 {
                new.turn.uri@ == trim(v@)
            } else {
                new.turn.uri@ == old.turn.uri@
            },
            None => new.turn.uri@ == old.turn.uri@,
        },
        match env.turn_user {
            Some(v) => if trim(v@).len() > 0 {
                new.turn.user@ == trim(v@)
            } else {
                new.turn.user@ == old.turn.user@
            },
            None => new.turn.user@ == old.turn.user@,
        },
        match env.turn_pass {
            Some(v) => if trim(v@).len() > 0 {
                new.turn.pass@ == trim(v@)
            } else {
                new.turn.pass@ == old.turn.pass@
            },
            None => new.turn.pass@ == old.turn.pass@,
        },
        match env.dns_resolver {
            Some(v) => if trim(v@).len() > 0 {
                new.server.reverse_dns.resolver@ == trim(v@)
            } else {
                new.server.reverse_dns.resolver@ == old.server.reverse_dns.resolver@
            },
            None => new.server.reverse_dns.resolver@ == old.server.reverse_dns.resolver@,
        },
        match env.tls_cert_file {
            Some(v) => if trim(v@).len() > 0 {
                new.server.tls_cert_file is Some && new.server.tls_cert_file->0@ == trim(v@)
            } else {
                new.server.tls_cert_file == old.server.tls_cert_file
            },
            None => new.server.tls_cert_file == old.server.tls_cert_file,
        },
        match env.tls_key_file {
            Some(v) => if trim(v@).len() > 0 {
                new.server.tls_key_file is Some && new.server.tls_key_file->0@ == trim(v@)
            } else {
                new.server.tls_key_file == old.server.tls_key_file
            },
            None => new.server.tls_key_file == old.server.tls_key_file,
        },
        match env.reverse_dns {
            Some(v) => if trim(v@).len() > 0 {
                new.server.reverse_dns.enabled == (lower_seq(trim(v@)) == "1"@ || lower_seq(trim(v@)) == "true"@ || lower_seq(trim(v@)) == "yes"@)
            } else {
                new.server.reverse_dns.enabled == old.server.reverse_dns.enabled
            },
            None => new.server.reverse_dns.enabled == old.server.reverse_dns.enabled,
        },
        match env.turn_enabled {
            Some(v) => if trim(v@).len() > 0 {
                new.turn.enabled == (lower_seq(trim(v@)) == "1"@ || lower_seq(trim(v@)) == "true"@ || lower_seq(trim(v@)) == "yes"@)
            } else {
                new.turn.enabled == old.turn.enabled
            },
            None => new.turn.enabled == old.turn.enabled,
        },
        match env.metrics {
            Some(v) => if trim(v@).len() > 0 {
                new.server.metrics == (lower_seq(trim(v@)) == "1"@ || lower_seq(trim(v@)) == "true"@ || lower_seq(trim(v@)) == "yes"@)
            } else {
                new.server.metrics == old.server.metrics
            },
            None => new.server.metrics == old.server.metrics,
        },
        match env.autostart {
            Some(v) => if trim(v@).len() > 0 {
                new.server.autostart == (lower_seq(trim(v@)) == "1"@ || lower_seq(trim(v@)) == "true"@ || lower_seq(trim(v@)) == "yes"@)
            } else {
                new.server.autostart == old.server.autostart
            },
            None => new.server.autostart == old.server.autostart,
        },
        match env.history_db {
            Some(v) => new.server.history_db@ == trim(v@),
            None => new.server.history_db@ == old.server.history_db@,
        },
        match env.site_name {
            Some(v) => trim(v@).len() > 0 ==> new.server.site_name@ == trim(v@),
            None => true,
        },
{
    match env.site_name {
        Some(v) => lemma_trim_idempotent(v@),
        None => {},
    }
}

/// A configuration with the relay switched on passes validation only with
/// its URI, user and password all set.
pub proof fn lemma_validated_relay_has_credentials(c: Config)
    requires
        spec_validate(c) is None,
        c.turn.enabled,
    ensures
        c.turn.uri@.len() > 0,
        c.turn.user@.len() > 0,
        c.turn.pass@.len() > 0,
{
}

/// A configuration that passed validation names a profile that exists, so
/// `active_profile` can always be asked for it.
pub proof fn lemma_validated_config_has_active_profile(c: Config)
    requires
        spec_validate(c) is None,
    ensures
        find_profile(c.profiles@, c.profile@) >= 0,
{
}

/// A configuration that passed validation has TLS configured whole or not at
/// all: never a certificate without its key, or a key without its
/// certificate.
pub proof fn lemma_validated_tls_is_whole(c: Config)
    requires
        spec_validate(c) is None,
    ensures
        (c.server.tls_cert_file is Some) == (c.server.tls_key_file is Some),
{
}

/// A configuration that passed validation lets every transfer its active
/// profile asks for through the cap.
pub proof fn lemma_validated_profile_fits_the_cap(c: Config)
    requires
        spec_validate(c) is None,
    ensures
        max_bytes(c.profiles@[find_profile(c.profiles@, c.profile@)].1.measurements@) matches Some(
            m,
        ) ==> m <= c.server.max_transfer_bytes,
{
}

/// The display name is never blank, whatever the file or the environment
/// said.
pub proof fn lemma_site_name_never_blank(s: Seq<char>)
    ensures
        normalised_site_name(s).len() > 0,
{
    reveal_strlit("LAN Speed Test");
}

} // verus!
