//! The decisions behind the HTTP surface.
//!
//! The handlers themselves live with the server; what they decide lives here:
//! how a measurement request's `bytes` is read, whether a state-changing
//! request came from the page this service served, whom a request is
//! attributed to, and how submitted text is bounded.

use vstd::prelude::*;
use crate::text::{
    chars_of, chars_eq_str, dec, extend_chars, extend_str, find_char, find_char_from, lower_seq,
    parse_uint, parse_uint_range, push_dec, rfind_char, rfind_char_vec, slice_range, take_chars,
    take_chars_string, to_lower, to_string, trim, trim_bounds, trim_end_char, trim_end_char_vec,
    trim_start_char, trim_start_char_vec, trimmed, join, join_strings, string_views,
};
use crate::ip::{IpAddr, SocketAddr, ip_text, spec_socket};
use crate::netid::{Cidr, classify, kind_slug, kind_label, spec_classify, debug_str, effective_client, spec_effective_client, spec_cidr, resolver_from_resolv_conf, spec_resolver_from_resolv_conf};
use crate::config::{Config, Measurement, ReverseDnsConfig, find_profile, profile_index};
use crate::timestamp::{rfc3339_unix_nanos, unix_nanos};

verus! {

broadcast use vstd::string::group_string_axioms;

/* --- measurement requests ---------------------------------------------------- */

/// Query string of a measurement request: the engine always sends `bytes`,
/// and unknown parameters are ignored.
#[derive(Clone, Debug)]
pub struct TransferQuery {
    pub bytes: Option<String>,
}

/// A `bytes` parameter that could not be read as a count; holds the value as
/// it was sent.
#[derive(Clone, Debug)]
pub struct InvalidBytes(pub String);

/// What `TransferQuery::parse` gives: absent or empty is 0 (a bare latency
/// ping), otherwise the trimmed value read as a `u64`.
pub open spec fn spec_transfer_bytes(bytes: Option<Seq<char>>) -> Result<u64, Seq<char>> {
    match bytes {
        None => Ok(0),
        Some(raw) => if raw.len() == 0 {
            Ok(0)
        } else {
            match parse_uint(trim(raw), u64::MAX as nat) {
                Some(n) => Ok(n as u64),
                None => Err(raw),
            }
        },
    }
}

impl TransferQuery {
    /// The requested size; an unreadable value is refused with the value as
    /// sent.
    pub fn parse(&self) -> (r: Result<u64, InvalidBytes>)
        ensures
            spec_transfer_bytes(
                match self.bytes {
                    Some(b) => Some(b@),
                    None => None,
                },
            ) == match r {
                Ok(n) => Ok(n),
                Err(e) => Err(e.0@),
            },
    {
        match &self.bytes {
            None => Ok(0),
            Some(raw) => {
                if raw.as_str().is_empty() {
                    return Ok(0);
                }
                let v = chars_of(raw.as_str());
                let (a, b) = trim_bounds(v.as_slice(), 0, v.len());
                assert(v@.subrange(0, v@.len() as int) =~= v@);
                match parse_uint_range(v.as_slice(), a, b, u64::MAX) {
                    Some(n) => Ok(n),
                    None => Err(InvalidBytes(raw.clone())),
                }
            },
        }
    }
}

impl InvalidBytes {
    /// The response body for a refused `bytes`.
    pub fn message(&self) -> (m: String)
        ensures
            m@ == "invalid 'bytes' parameter: "@ + debug_str(self.0@),
    {
        let mut out: Vec<char> = Vec::new();
        extend_str(&mut out, "invalid 'bytes' parameter: ");
        let d = crate::netid::str_debug(self.0.as_str());
        extend_str(&mut out, d.as_str());
        to_string(out.as_slice())
    }
}

/// The response body for a transfer over the cap.
pub open spec fn over_cap_message(requested: u64, cap: u64) -> Seq<char> {
    "requested "@ + dec(requested as nat) + " bytes, server cap is "@ + dec(cap as nat)
}

pub fn over_cap(requested: u64, cap: u64) -> (m: String)
    ensures
        m@ == over_cap_message(requested, cap),
{
    let mut out: Vec<char> = Vec::new();
    extend_str(&mut out, "requested ");
    push_dec(&mut out, requested);
    extend_str(&mut out, " bytes, server cap is ");
    push_dec(&mut out, cap);
    to_string(out.as_slice())
}

/// Bytes counted while an upload drains. The count saturates rather than
/// wrapping, so a body that runs past the cap is always reported as over it.
#[derive(Clone, Copy, Debug)]
pub struct UploadTally {
    pub received: u64,
    pub cap: u64,
}

impl UploadTally {
    pub fn new(cap: u64) -> (t: UploadTally)
        ensures
            t.received == 0,
            t.cap == cap,
    {
        UploadTally { received: 0, cap }
    }

    /// Counts one frame and says whether the body is still within the cap.
    pub fn add(&mut self, len: usize) -> (within: bool)
        ensures
            final(self).cap == old(self).cap,
            final(self).received == if old(self).received + len > u64::MAX {
                u64::MAX as int
            } else {
                old(self).received + len
            },
            within == (final(self).received <= final(self).cap),
    {
        let n: u64 = if len as u128 > u64::MAX as u128 {
            u64::MAX
        } else {
            len as u64
        };
        self.received = self.received.saturating_add(n);
        self.received <= self.cap
    }
}

/// A transfer size against the server's cap: within it, the size to serve;
/// above it, the refusal's message.
pub fn check_transfer(bytes: u64, cap: u64) -> (r: Result<u64, String>)
    ensures
        bytes <= cap ==> r == Ok::<u64, String>(bytes),
        bytes > cap ==> r is Err && r->Err_0@ == over_cap_message(bytes, cap),
{
    if bytes > cap {
        Err(over_cap(bytes, cap))
    } else {
        Ok(bytes)
    }
}

/* --- same-origin guard ------------------------------------------------------- */

/// Index of the first `://` in `s`, or -1.
pub open spec fn find_scheme_sep(s: Seq<char>) -> int
    decreases s.len(),
{
    if s.len() < 3 {
        -1
    } else if s[0] == ':' && s[1] == '/' && s[2] == '/' {
        0
    } else {
        let r = find_scheme_sep(s.drop_first());
        if r < 0 {
            -1
        } else {
            r + 1
        }
    }
}

pub open spec fn is_delim(c: char) -> bool {
    c == '/' || c == '?' || c == '#'
}

/// Index of the first `/`, `?` or `#` in `s`, or -1.
pub open spec fn first_delim(s: Seq<char>) -> int
    decreases s.len(),
{
    if s.len() == 0 {
        -1
    } else if is_delim(s[0]) {
        0
    } else {
        let r = first_delim(s.drop_first());
        if r < 0 {
            -1
        } else {
            r + 1
        }
    }
}

/// The `host[:port]` of a serialised origin: what follows the first `://`,
/// up to any path, query or fragment. `None` when there is no `://`, which
/// includes the literal `null`.
pub open spec fn spec_origin_authority(o: Seq<char>) -> Option<Seq<char>> {
    let i = find_scheme_sep(o);
    if i < 0 {
        None
    } else {
        let rest = o.skip(i + 3);
        let j = first_delim(rest);
        Some(
            if j < 0 {
                rest
            } else {
                rest.take(j)
            },
        )
    }
}

/// Where the port separator of `host:port` is, or -1. After a closing
/// bracket only; and an unbracketed text with more than one colon is a bare
/// IPv6 literal, which has no port.
pub open spec fn port_colon(a: Seq<char>) -> int {
    let b = rfind_char(a, ']');
    if b >= 0 {
        let j = find_char(a.skip(b), ':');
        if j < 0 {
            -1
        } else {
            b + j
        }
    } else if find_char(a, ':') != rfind_char(a, ':') {
        -1
    } else {
        find_char(a, ':')
    }
}

pub open spec fn spec_split_port(a: Seq<char>) -> (Seq<char>, Option<Seq<char>>) {
    let i = port_colon(a);
    if i < 0 {
        (a, None)
    } else {
        (a.take(i), Some(a.skip(i + 1)))
    }
}

/// Lower-cased host with any brackets removed, then `:port` unless the port
/// is absent, 80 or 443.
pub open spec fn spec_normalized_authority(a: Seq<char>) -> Seq<char> {
    let (host, port) = spec_split_port(a);
    let h = lower_seq(trim_end_char(trim_start_char(host, '['), ']'));
    match port {
        None => h,
        Some(p) => if p == "80"@ || p == "443"@ {
            h
        } else {
            h + seq![':'] + p
        },
    }
}

/// Whether an `Origin` header value names the same host and port as the
/// request's `Host`. The scheme is ignored; the port is not, once a default
/// port is dropped from both sides.
pub open spec fn spec_origin_matches_host(origin: Seq<char>, host: Seq<char>) -> bool {
    match spec_origin_authority(origin) {
        None => false,
        Some(a) => spec_normalized_authority(a).len() > 0 && spec_normalized_authority(a)
            == spec_normalized_authority(host),
    }
}

fn find_scheme_sep_vec(v: &[char]) -> (r: Option<usize>)
    ensures
        match r {
            Some(i) => i + 3 <= v@.len() && find_scheme_sep(v@) == i,
            None => find_scheme_sep(v@) < 0,
        },
{
    let mut i: usize = 0;
    assert(v@.skip(0) =~= v@);
    while v.len() >= 3 && i <= v.len() - 3
        invariant
            i <= v@.len(),
            find_scheme_sep(v@) == if find_scheme_sep(v@.skip(i as int)) < 0 {
                -1
            } else {
                find_scheme_sep(v@.skip(i as int)) + i
            },
        decreases v.len() - i,
    {
        if v[i] == ':' && v[i + 1] == '/' && v[i + 2] == '/' {
            return Some(i);
        }
        assert(v@.skip(i as int).drop_first() =~= v@.skip(i + 1));
        i = i + 1;
    }
    None
}

fn first_delim_vec(v: &[char]) -> (r: Option<usize>)
    ensures
        match r {
            Some(i) => i < v@.len() && first_delim(v@) == i,
            None => first_delim(v@) < 0,
        },
{
    let mut i: usize = 0;
    assert(v@.skip(0) =~= v@);
    while i < v.len()
        invariant
            i <= v@.len(),
            first_delim(v@) == if first_delim(v@.skip(i as int)) < 0 {
                -1
            } else {
                first_delim(v@.skip(i as int)) + i
            },
        decreases v.len() - i,
    {
        if v[i] == '/' || v[i] == '?' || v[i] == '#' {
            return Some(i);
        }
        assert(v@.skip(i as int).drop_first() =~= v@.skip(i + 1));
        i = i + 1;
    }
    None
}

/// The `host[:port]` part of a serialised origin, or `None` if it does not
/// look like one.
pub fn origin_authority(origin: &str) -> (r: Option<String>)
    ensures
        match r {
            Some(a) => spec_origin_authority(origin@) == Some(a@),
            None => spec_origin_authority(origin@) is None,
        },
{
    let v = chars_of(origin);
    let i = match find_scheme_sep_vec(v.as_slice()) {
        Some(i) => i,
        None => {
            return None;
        },
    };
    assert(i + 3 <= v.len());
    let rest = slice_range(v.as_slice(), i + 3, v.len());
    assert(rest@ =~= v@.skip(i + 3));
    match first_delim_vec(rest.as_slice()) {
        Some(j) => {
            let head = slice_range(rest.as_slice(), 0, j);
            assert(head@ =~= rest@.take(j as int));
            Some(to_string(head.as_slice()))
        },
        None => Some(to_string(rest.as_slice())),
    }
}

/// Splits `host:port`, knowing that an IPv6 literal is full of colons that
/// are not the port separator.
pub fn split_port(authority: &str) -> (r: (String, Option<String>))
    ensures
        spec_split_port(authority@) == (
            r.0@,
            match r.1 {
                Some(p) => Some(p@),
                None => None,
            },
        ),
{
    let v = chars_of(authority);
    let colon: Option<usize> = match rfind_char_vec(v.as_slice(), ']') {
        Some(b) => find_char_from(v.as_slice(), ':', b),
        None => {
            let first = find_char_from(v.as_slice(), ':', 0);
            let last = rfind_char_vec(v.as_slice(), ':');
            assert(v@.skip(0) =~= v@);
            match (first, last) {
                (Some(x), Some(y)) => if x == y {
                    Some(x)
                } else {
                    None
                },
                _ => None,
            }
        },
    };
    assert(colon matches Some(i) ==> i < v@.len());
    let n = v.len();
    match colon {
        Some(i) => {
            assert(i < n);
            let host = slice_range(v.as_slice(), 0, i);
            let port = slice_range(v.as_slice(), i + 1, v.len());
            assert(host@ =~= v@.take(i as int));
            assert(port@ =~= v@.skip(i + 1));
            (to_string(host.as_slice()), Some(to_string(port.as_slice())))
        },
        None => (to_string(v.as_slice()), None),
    }
}

/// Lower-cased `host[:port]` with a default port and any IPv6 brackets
/// removed, so two spellings of one origin compare equal.
pub fn normalized_authority(authority: &str) -> (r: String)
    ensures
        r@ == spec_normalized_authority(authority@),
{
    let (host, port) = split_port(authority);
    let h0 = trim_start_char_vec(chars_of(host.as_str()).as_slice(), '[');
    let h1 = trim_end_char_vec(h0.as_slice(), ']');
    let mut h = to_lower(h1.as_slice());
    match port {
        None => to_string(h.as_slice()),
        Some(p) => {
            let pv = chars_of(p.as_str());
            if chars_eq_str(pv.as_slice(), "80") || chars_eq_str(pv.as_slice(), "443") {
                to_string(h.as_slice())
            } else {
                h.push(':');
                extend_chars(&mut h, pv.as_slice());
                to_string(h.as_slice())
            }
        },
    }
}

/// Whether an `Origin` header value names the same host and port as the
/// request's `Host`. `Origin: null` never matches.
pub fn origin_matches_host(origin: &str, host: &str) -> (b: bool)
    ensures
        b == spec_origin_matches_host(origin@, host@),
{
    let a = match origin_authority(origin) {
        Some(a) => a,
        None => {
            return false;
        },
    };
    let n = normalized_authority(a.as_str());
    let m = normalized_authority(host);
    !n.as_str().is_empty() && n == m
}

/// The same-origin guard on state-changing requests: a request that carries
/// no `Origin` is let through; one that does needs a `Host` (or request
/// authority) that its origin names.
pub fn same_origin_allows(origin: Option<&str>, host: Option<&str>) -> (b: bool)
    ensures
        b == match origin {
            None => true,
            Some(o) => match host {
                Some(h) => spec_origin_matches_host(o@, h@),
                None => false,
            },
        },
{
    match origin {
        None => true,
        Some(o) => match host {
            Some(h) => origin_matches_host(o, h),
            None => false,
        },
    }
}

/* --- who is asking ------------------------------------------------------------ */

/// The connection's peer address, when the server knows it, and the
/// `X-Forwarded-For` value, captured but not trusted here.
#[derive(Clone, Debug)]
pub struct ClientAddr {
    pub peer: Option<SocketAddr>,
    pub forwarded_for: Option<String>,
}

/// The longest forwarding header kept, in characters.
pub const MAX_FORWARDED_FOR_CHARS: usize = 400;

/// Every `X-Forwarded-For` line joined with commas, so the parser sees one
/// list, then cut to the cap; `None` when that leaves nothing.
pub open spec fn spec_forwarded_for(lines: Seq<Seq<char>>) -> Option<Seq<char>> {
    if join(lines, ","@).len() == 0 {
        None
    } else {
        Some(take_chars(join(lines, ","@), MAX_FORWARDED_FOR_CHARS as nat))
    }
}

/// The forwarding header as one list, from each of its lines (those that
/// were readable text).
pub fn forwarded_for(lines: &[String]) -> (r: Option<String>)
    ensures
        match r {
            Some(h) => spec_forwarded_for(string_views(lines@)) == Some(h@),
            None => spec_forwarded_for(string_views(lines@)) is None,
        },
{
    let joined = join_strings(lines, ",");
    if joined.as_str().is_empty() {
        None
    } else {
        let v = chars_of(joined.as_str());
        Some(take_chars_string(v.as_slice(), MAX_FORWARDED_FOR_CHARS))
    }
}

pub open spec fn opt_str(o: Option<String>) -> Option<Seq<char>> {
    match o {
        Some(s) => Some(s@),
        None => None,
    }
}

/// The address a request is attributed to, given the trusted proxies.
pub open spec fn spec_effective(c: ClientAddr, trusted: Seq<Cidr>) -> Option<IpAddr> {
    match c.peer {
        None => None,
        Some(p) => Some(spec_effective_client(p.ip, opt_str(c.forwarded_for), trusted)),
    }
}

impl ClientAddr {
    /// The address to attribute this request to: the peer, unless the peer
    /// is a trusted proxy that names someone behind it.
    pub fn effective(&self, trusted: &[Cidr]) -> (r: Option<IpAddr>)
        ensures
            r == spec_effective(*self, trusted@),
    {
        match self.peer {
            None => None,
            Some(peer) => {
                let header: Option<&str> = match &self.forwarded_for {
                    Some(h) => Some(h.as_str()),
                    None => None,
                };
                Some(effective_client(peer.ip, header, trusted))
            },
        }
    }

    /// The attributed address as text, or `unknown` when there is no peer.
    pub fn ip(&self, trusted: &[Cidr]) -> (s: String)
        ensures
            s@ == match spec_effective(*self, trusted@) {
                Some(a) => ip_text(a),
                None => "unknown"@,
            },
    {
        match self.effective(trusted) {
            Some(a) => a.to_string(),
            None => "unknown".to_owned(),
        }
    }
}

/// What kind of address the requester has, as a slug and a label, or
/// `unknown` for both when there is no address.
pub fn client_kind(ip: Option<IpAddr>) -> (r: (&'static str, &'static str))
    ensures
        match ip {
            Some(a) => r.0@ == kind_slug(spec_classify(a)) && r.1@ == kind_label(spec_classify(a)),
            None => r.0@ == "unknown"@ && r.1@ == "unknown"@,
        },
{
    match ip {
        Some(a) => {
            let k = classify(a);
            (k.slug(), k.label())
        },
        None => ("unknown", "unknown"),
    }
}

/* --- submitted text ------------------------------------------------------------- */

/// The longest note kept, in characters.
pub const MAX_NOTE_CHARS: usize = 280;

/// The longest client name kept, in characters.
pub const MAX_CLIENT_NAME_CHARS: usize = 60;

/// The longest user agent kept, in characters.
pub const MAX_USER_AGENT_CHARS: usize = 300;

/// A note as stored: trimmed, then capped in characters, so the cap does not
/// depend on the alphabet and truncation cannot split a code point.
pub fn note_text(raw: &str) -> (r: String)
    ensures
        r@ == take_chars(trim(raw@), MAX_NOTE_CHARS as nat),
{
    let t = trimmed(chars_of(raw).as_slice());
    take_chars_string(t.as_slice(), MAX_NOTE_CHARS)
}

/// A client name as stored: trimmed, then capped in characters.
pub fn client_name_text(raw: &str) -> (r: String)
    ensures
        r@ == take_chars(trim(raw@), MAX_CLIENT_NAME_CHARS as nat),
{
    let t = trimmed(chars_of(raw).as_slice());
    take_chars_string(t.as_slice(), MAX_CLIENT_NAME_CHARS)
}

/// The user agent as stored: capped in characters, empty when absent.
pub fn user_agent_text(raw: Option<&str>) -> (r: String)
    ensures
        r@ == match raw {
            Some(s) => take_chars(s@, MAX_USER_AGENT_CHARS as nat),
            None => Seq::<char>::empty(),
        },
{
    match raw {
        Some(s) => take_chars_string(chars_of(s).as_slice(), MAX_USER_AGENT_CHARS),
        None => String::new(),
    }
}

/// Which client's runs `/api/history` lists: everyone for nothing, an empty
/// value or `all`; the requesting address for `mine`; otherwise the value.
pub open spec fn spec_history_filter(client: Option<Seq<char>>, me: Seq<char>) -> Option<Seq<char>> {
    match client {
        None => None,
        Some(c) => if c.len() == 0 || c == "all"@ {
            None
        } else if c == "mine"@ {
            Some(me)
        } else {
            Some(c)
        },
    }
}

pub fn history_filter(client: Option<&str>, me: &str) -> (r: Option<String>)
    ensures
        opt_str(r) == spec_history_filter(
            match client {
                Some(c) => Some(c@),
                None => None,
            },
            me@,
        ),
{
    match client {
        None => None,
        Some(c) => {
            let v = chars_of(c);
            if v.len() == 0 || chars_eq_str(v.as_slice(), "all") {
                None
            } else if chars_eq_str(v.as_slice(), "mine") {
                Some(me.to_owned())
            } else {
                Some(c.to_owned())
            }
        },
    }
}

/* --- the engine configuration ------------------------------------------------- */

/// The profile a request asked for by name, or the configured one when it
/// named none.
pub fn chosen_profile_name(requested: Option<&str>, configured: &str) -> (r: String)
    ensures
        r@ == spec_chosen_profile(requested, configured@),
{
    match requested {
        Some(n) => if !n.is_empty() {
            n.to_owned()
        } else {
            configured.to_owned()
        },
        None => configured.to_owned(),
    }
}

/// The profile name a request is served under: the one it names, or the
/// configured default when it names none.
pub open spec fn spec_chosen_profile(requested: Option<&str>, configured: Seq<char>) -> Seq<char> {
    match requested {
        Some(n) => if n@.len() > 0 {
            n@
        } else {
            configured
        },
        None => configured,
    }
}

/// The profile a request is served: its name and its place in the
/// configuration. A name that matches no configured profile is refused with
/// its message, never replaced by another profile.
pub fn requested_profile(cfg: &Config, requested: Option<&str>) -> (r: Result<(String, usize), String>)
    ensures
        ({
            let name = spec_chosen_profile(requested, cfg.profile@);
            let i = find_profile(cfg.profiles@, name);
            &&& (r is Ok) == (i >= 0)
            &&& r matches Ok((n, j)) ==> n@ == name && j == i && j < cfg.profiles@.len()
            &&& r matches Err(m) ==> m@ == "unknown profile '"@ + name + "'"@
        }),
{
    let name = chosen_profile_name(requested, cfg.profile.as_str());
    match profile_index(&cfg.profiles, &name) {
        Some(i) => Ok((name, i)),
        None => Err(unknown_profile_message(name.as_str())),
    }
}

/// The answer to a request for a profile that does not exist.
pub fn unknown_profile_message(name: &str) -> (m: String)
    ensures
        m@ == "unknown profile '"@ + name@ + "'"@,
{
    let mut out: Vec<char> = Vec::new();
    extend_str(&mut out, "unknown profile '");
    extend_str(&mut out, name);
    extend_str(&mut out, "'");
    to_string(out.as_slice())
}

/// The stages handed to the engine: the packet-loss stage only when a relay
/// is configured, since without one it would stall on a connection that
/// cannot be made.
pub open spec fn engine_stages(ms: Seq<Measurement>, turn_on: bool) -> Seq<Measurement>
    decreases ms.len(),
{
    if ms.len() == 0 {
        Seq::empty()
    } else {
        let r = engine_stages(ms.drop_last(), turn_on);
        if turn_on || ms.last().kind@ != "packetLoss"@ {
            r.push(ms.last())
        } else {
            r
        }
    }
}

fn copy_measurement(m: &Measurement) -> (r: Measurement)
    ensures
        r == *m,
{
    Measurement {
        kind: m.kind.clone(),
        num_packets: m.num_packets,
        bytes: m.bytes,
        count: m.count,
        bypass_min_duration: m.bypass_min_duration,
        batch_size: m.batch_size,
        batch_wait_time: m.batch_wait_time,
        responses_wait_time: m.responses_wait_time,
        connection_timeout: m.connection_timeout,
    }
}

pub fn engine_measurements(ms: &[Measurement], turn_on: bool) -> (r: Vec<Measurement>)
    ensures
        r@ == engine_stages(ms@, turn_on),
{
    let mut r: Vec<Measurement> = Vec::new();
    let mut i: usize = 0;
    while i < ms.len()
        invariant
            i <= ms@.len(),
            r@ == engine_stages(ms@.take(i as int), turn_on),
        decreases ms.len() - i,
    {
        assert(ms@.take(i + 1).drop_last() =~= ms@.take(i as int));
        assert(ms@.take(i + 1).last() == ms@[i as int]);
        let keep = turn_on || !chars_eq_str(chars_of(ms[i].kind.as_str()).as_slice(), "packetLoss");
        if keep {
            r.push(copy_measurement(&ms[i]));
        }
        i = i + 1;
    }
    assert(ms@.take(ms@.len() as int) =~= ms@);
    r
}

/// What the engine is handed for one profile, apart from its float tuning.
/// The endpoints are relative, the two result-reporting URLs are pinned to
/// null and the engine never starts itself, so no run leaves the LAN; the
/// relay's credentials travel only when the relay is switched on.
pub struct EngineSettings {
    pub profile: String,
    pub description: String,
    pub download_api_url: String,
    pub upload_api_url: String,
    pub log_aim_api_url: Option<String>,
    pub log_measurement_api_url: Option<String>,
    pub auto_start: bool,
    pub packet_loss_enabled: bool,
    pub measurements: Vec<Measurement>,
    pub measure_download_loaded_latency: bool,
    pub measure_upload_loaded_latency: bool,
    /// The relay's URI, user and password.
    pub turn: Option<(String, String, String)>,
}

/// The engine configuration served for the profile at `index`.
pub fn engine_settings(cfg: &Config, index: usize) -> (s: EngineSettings)
    requires
        index < cfg.profiles@.len(),
    ensures
        s.profile@ == cfg.profiles@[index as int].0@,
        s.description@ == cfg.profiles@[index as int].1.description@,
        s.download_api_url@ == "/__down"@,
        s.upload_api_url@ == "/__up"@,
        s.log_aim_api_url is None,
        s.log_measurement_api_url is None,
        !s.auto_start,
        s.packet_loss_enabled == cfg.turn.enabled,
        s.measurements@ == engine_stages(cfg.profiles@[index as int].1.measurements@, cfg.turn.enabled),
        s.measure_download_loaded_latency == cfg.profiles@[index as int].1.measure_download_loaded_latency,
        s.measure_upload_loaded_latency == cfg.profiles@[index as int].1.measure_upload_loaded_latency,
        (s.turn is Some) == cfg.turn.enabled,
        s.turn matches Some((u, n, p)) ==> u@ == cfg.turn.uri@ && n@ == cfg.turn.user@ && p@ == cfg.turn.pass@,
{
    let p = &cfg.profiles[index];
    let turn_on = cfg.turn.enabled;
    let turn = if turn_on {
        Some((cfg.turn.uri.clone(), cfg.turn.user.clone(), cfg.turn.pass.clone()))
    } else {
        None
    };
    EngineSettings {
        profile: p.0.clone(),
        description: p.1.description.clone(),
        download_api_url: "/__down".to_owned(),
        upload_api_url: "/__up".to_owned(),
        log_aim_api_url: None,
        log_measurement_api_url: None,
        auto_start: false,
        packet_loss_enabled: turn_on,
        measurements: engine_measurements(p.1.measurements.as_slice(), turn_on),
        measure_download_loaded_latency: p.1.measure_download_loaded_latency,
        measure_upload_loaded_latency: p.1.measure_upload_loaded_latency,
        turn,
    }
}

/* --- reverse lookups ------------------------------------------------------------- */

/// The blocks among `raw` that parse, in order; the others are dropped.
pub open spec fn parsed_blocks(raw: Seq<Seq<char>>) -> Seq<(IpAddr, nat)>
    decreases raw.len(),
{
    if raw.len() == 0 {
        Seq::empty()
    } else {
        let r = parsed_blocks(raw.drop_last());
        match spec_cidr(raw.last()) {
            Ok((ip, n)) => r.push((ip, n as nat)),
            Err(_) => r,
        }
    }
}

/// The address and prefix of each block.
pub open spec fn block_views(v: Seq<Cidr>) -> Seq<(IpAddr, nat)> {
    v.map_values(|c: Cidr| (c.addr_spec(), c.prefix_spec()))
}

/// Parses each configured block, keeping those that parse. Validation has
/// already refused a configuration with one that does not.
pub fn parse_blocks(raw: &[String]) -> (r: Vec<Cidr>)
    ensures
        block_views(r@) == parsed_blocks(string_views(raw@)),
{
    let mut r: Vec<Cidr> = Vec::new();
    let mut i: usize = 0;
    while i < raw.len()
        invariant
            i <= raw@.len(),
            block_views(r@) == parsed_blocks(string_views(raw@).take(i as int)),
        decreases raw.len() - i,
    {
        assert(string_views(raw@).take(i + 1).drop_last() =~= string_views(raw@).take(i as int));
        assert(string_views(raw@).take(i + 1).last() == raw@[i as int]@);
        match Cidr::parse(raw[i].as_str()) {
            Ok(c) => {
                let ghost before = r@;
                r.push(c);
                assert(block_views(r@) =~= block_views(before).push(
                    (c.addr_spec(), c.prefix_spec()),
                ));
            },
            Err(_) => {},
        }
        i = i + 1;
    }
    assert(string_views(raw@).take(raw@.len() as int) =~= string_views(raw@));
    r
}

/// Everything a reverse lookup needs, resolved from configuration once.
#[derive(Debug)]
pub struct ReverseDns {
    /// Only addresses inside one of these are ever looked up.
    pub ranges: Vec<Cidr>,
    /// Explicit resolver, or `None` to read `/etc/resolv.conf` at lookup time.
    pub resolver: Option<SocketAddr>,
    pub timeout_ms: u64,
    pub ttl_secs: u64,
}

impl ReverseDns {
    /// The lookup settings, or `None` when the feature is off.
    pub fn from_config(c: &ReverseDnsConfig) -> (r: Option<ReverseDns>)
        ensures
            r is Some == c.enabled,
            r matches Some(d) ==> {
                &&& block_views(d.ranges@) == parsed_blocks(string_views(c.ranges@))
                &&& d.resolver == spec_socket(c.resolver@)
                &&& d.timeout_ms == c.timeout_ms
                &&& d.ttl_secs == c.ttl_secs
            },
    {
        if !c.enabled {
            return None;
        }
        Some(
            ReverseDns {
                ranges: parse_blocks(c.ranges.as_slice()),
                resolver: SocketAddr::parse(c.resolver.as_str()),
                timeout_ms: c.timeout_ms,
                ttl_secs: c.ttl_secs,
            },
        )
    }

    /// Whether `ip` may be looked up at all.
    pub fn covers(&self, ip: IpAddr) -> (b: bool)
        ensures
            b == crate::netid::trusted_by(self.ranges@, ip),
    {
        crate::netid::any_holds(self.ranges.as_slice(), ip)
    }

    /// The resolver to ask: the configured one, else the first `nameserver`
    /// of the given `/etc/resolv.conf` contents (read by the caller at lookup
    /// time, and `None` when it could not be read).
    pub fn resolver(&self, resolv_conf: Option<&str>) -> (r: Option<SocketAddr>)
        ensures
            r == match self.resolver {
                Some(explicit) => Some(explicit),
                None => match resolv_conf {
                    Some(t) => spec_resolver_from_resolv_conf(t@),
                    None => None,
                },
            },
    {
        match self.resolver {
            Some(explicit) => Some(explicit),
            None => match resolv_conf {
                Some(t) => resolver_from_resolv_conf(t),
                None => None,
            },
        }
    }

    /// Whether a remembered answer taken at `then` (nanoseconds since the
    /// epoch, `None` when there is none or it cannot be read) has expired at
    /// `now_nanos`: it stands until the TTL has passed, and a clock that has
    /// moved backwards counts as no time passed.
    pub fn due_after(&self, then: Option<i128>, now_nanos: i128) -> (due: bool)
        ensures
            due == self.spec_due(then, now_nanos),
    {
        match then {
            None => true,
            Some(then) => {
                let ttl: i128 = self.ttl_secs as i128 * 1_000_000_000;
                if now_nanos <= then {
                    0 >= ttl
                } else {
                    let age: u128 = if then >= 0 || now_nanos < 0 {
                        (now_nanos - then) as u128
                    } else {
                        (now_nanos as u128) + ((-(then + 1)) as u128) + 1
                    };
                    age >= ttl as u128
                }
            },
        }
    }

    /// Whether a lookup is worth making now, given when the remembered
    /// answer (including a remembered miss) was taken, as RFC 3339.
    pub fn lookup_due(&self, resolved_at: Option<&str>, now_nanos: i128) -> (due: bool)
        ensures
            due == self.spec_due(
                match resolved_at {
                    None => None,
                    Some(t) => rfc3339_unix_nanos(t@),
                },
                now_nanos,
            ),
    {
        let then = match resolved_at {
            None => None,
            Some(t) => unix_nanos(t),
        };
        self.due_after(then, now_nanos)
    }

    pub open spec fn spec_wants_lookup(self, ip: IpAddr, then: Option<i128>, now_nanos: i128) -> bool {
        crate::netid::trusted_by(self.ranges@, ip) && self.spec_due(then, now_nanos)
    }

    pub open spec fn spec_due(self, then: Option<i128>, now_nanos: i128) -> bool {
        match then {
            None => true,
            Some(t) => {
                let age = if now_nanos - t < 0 {
                    0
                } else {
                    now_nanos - t
                };
                age >= self.ttl_secs * 1_000_000_000
            },
        }
    }

    /// Whether to look `ip` up now: only inside the configured ranges, and
    /// only once any remembered answer has expired.
    pub fn wants_lookup(&self, ip: IpAddr, resolved_at: Option<&str>, now_nanos: i128) -> (b: bool)
        ensures
            b == self.spec_wants_lookup(
                ip,
                match resolved_at {
                    None => None,
                    Some(t) => rfc3339_unix_nanos(t@),
                },
                now_nanos,
            ),
    {
        self.covers(ip) && self.lookup_due(resolved_at, now_nanos)
    }
}

/* --- laws -------------------------------------------------------------------------- */

/// No entry is refused exactly when every entry parses.
pub proof fn lemma_no_bad_block(v: Seq<Seq<char>>)
    ensures
        crate::config::first_bad_block(v) is None <==> (forall|k: int|
            0 <= k < v.len() ==> spec_cidr(#[trigger] v[k]) is Ok),
    decreases v.len(),
{
    if v.len() > 0 {
        lemma_no_bad_block(v.drop_first());
        if crate::config::first_bad_block(v) is None {
            assert forall|k: int| 0 <= k < v.len() implies spec_cidr(#[trigger] v[k]) is Ok by {
                if k > 0 {
                    assert(v[k] == v.drop_first()[k - 1]);
                }
            }
        }
        if forall|k: int| 0 <= k < v.len() ==> spec_cidr(#[trigger] v[k]) is Ok {
            assert(spec_cidr(v[0]) is Ok);
            assert forall|k: int| 0 <= k < v.drop_first().len() implies spec_cidr(
                #[trigger] v.drop_first()[k],
            ) is Ok by {
                assert(v.drop_first()[k] == v[k + 1]);
            }
        }
    }
}

/// When every entry parses, none is dropped.
proof fn lemma_all_blocks_kept(v: Seq<Seq<char>>)
    requires
        forall|k: int| 0 <= k < v.len() ==> spec_cidr(#[trigger] v[k]) is Ok,
    ensures
        parsed_blocks(v).len() == v.len(),
    decreases v.len(),
{
    if v.len() > 0 {
        assert forall|k: int| 0 <= k < v.drop_last().len() implies spec_cidr(
            #[trigger] v.drop_last()[k],
        ) is Ok by {
            assert(v.drop_last()[k] == v[k]);
        }
        lemma_all_blocks_kept(v.drop_last());
        assert(spec_cidr(v[v.len() - 1]) is Ok);
    }
}

/// Once a configuration has passed validation, every trusted proxy and
/// every reverse-lookup range it lists is in force: parsing them for the
/// running service drops none.
pub proof fn lemma_validated_blocks_all_kept(c: crate::config::Config)
    requires
        crate::config::spec_validate(c) is None,
    ensures
        parsed_blocks(string_views(c.server.trusted_proxies@)).len()
            == c.server.trusted_proxies@.len(),
        parsed_blocks(string_views(c.server.reverse_dns.ranges@)).len()
            == c.server.reverse_dns.ranges@.len(),
{
    lemma_no_bad_block(string_views(c.server.trusted_proxies@));
    lemma_all_blocks_kept(string_views(c.server.trusted_proxies@));
    lemma_no_bad_block(string_views(c.server.reverse_dns.ranges@));
    lemma_all_blocks_kept(string_views(c.server.reverse_dns.ranges@));
}

/// The first `://` of `s + "://" + rest` is the one after `s` when `s` has
/// no colon.
proof fn lemma_scheme_sep_after(s: Seq<char>, rest: Seq<char>)
    requires
        forall|k: int| 0 <= k < s.len() ==> s[k] != ':',
    ensures
        find_scheme_sep(s + "://"@ + rest) == s.len(),
    decreases s.len(),
{
    reveal_strlit("://");
    let t = s + "://"@ + rest;
    if s.len() == 0 {
        assert(t =~= "://"@ + rest);
        assert(t[0] == ':' && t[1] == '/' && t[2] == '/');
    } else {
        assert forall|k: int| 0 <= k < s.drop_first().len() implies s.drop_first()[k] != ':' by {
            assert(s.drop_first()[k] == s[k + 1]);
        }
        lemma_scheme_sep_after(s.drop_first(), rest);
        assert(t.drop_first() =~= s.drop_first() + "://"@ + rest);
        assert(t[0] == s[0]);
    }
}

/// The scheme is not part of the comparison: the same deployment answers on
/// http and https, and the page came from the same place either way.
pub proof fn lemma_scheme_is_ignored(a: Seq<char>, b: Seq<char>, rest: Seq<char>, host: Seq<char>)
    requires
        forall|k: int| 0 <= k < a.len() ==> a[k] != ':',
        forall|k: int| 0 <= k < b.len() ==> b[k] != ':',
    ensures
        spec_origin_matches_host(a + "://"@ + rest, host) == spec_origin_matches_host(
            b + "://"@ + rest,
            host,
        ),
{
    reveal_strlit("://");
    lemma_scheme_sep_after(a, rest);
    lemma_scheme_sep_after(b, rest);
    assert((a + "://"@ + rest).skip(a.len() as int + 3) =~= rest);
    assert((b + "://"@ + rest).skip(b.len() as int + 3) =~= rest);
}

/// A remembered answer, a remembered miss included, is trusted for
/// `ttl_secs` after it was stored, and an address inside the ranges is asked
/// about again once that time has passed.
pub proof fn lemma_remembered_answer_lasts_its_ttl(d: ReverseDns, ip: IpAddr, then: i128, now_nanos: i128)
    requires
        then <= now_nanos,
    ensures
        now_nanos - then < d.ttl_secs * 1_000_000_000 ==> !d.spec_wants_lookup(ip, Some(then), now_nanos),
        now_nanos - then >= d.ttl_secs * 1_000_000_000 && crate::netid::trusted_by(d.ranges@, ip)
            ==> d.spec_wants_lookup(ip, Some(then), now_nanos),
{
}

/// An address outside the configured ranges is never looked up, whatever
/// is remembered about it and whatever the time.
pub proof fn lemma_outside_ranges_never_looked_up(d: ReverseDns, ip: IpAddr, then: Option<i128>, now_nanos: i128)
    requires
        !crate::netid::trusted_by(d.ranges@, ip),
    ensures
        !d.spec_wants_lookup(ip, then, now_nanos),
{
}

} // verus!
