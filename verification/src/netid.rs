//! Working out who a client is.
//!
//! Three separate jobs, deliberately kept apart because they have different
//! trust properties:
//!
//! * **Which address to attribute a run to.** The connection's peer address,
//!   unless the peer is a proxy we were explicitly told to trust — in which
//!   case the leftmost address in `X-Forwarded-For` that is not itself a
//!   trusted proxy. Trusting that header unconditionally would let anyone on
//!   the LAN attribute a run to any address they liked.
//!
//! * **What kind of address it is.** A `10.x` address that arrived through a
//!   Tailscale subnet router looks exactly like a LAN client, because the
//!   router rewrote the source before the packet ever reached us. Saying
//!   "LAN" or "CGNAT" next to the number is the honest amount of certainty
//!   available.
//!
//! * **What it is called.** A reverse lookup, restricted to the address
//!   ranges an operator configures (see `dns` for the wire format).

use vstd::prelude::*;
use vstd::string::StringSliceAdditionalSpecFns;
use vstd::utf8::{
    decode_utf8, decode_utf8_split, encode_utf8, encode_utf8_decode_utf8, encode_utf8_valid_utf8,
    is_char_boundary_iff_not_is_continuation_byte, valid_utf8, valid_utf8_split,
};

use crate::ip::{
    ip_octets, ip_text, is_v4, normalise, parse_ip, spec_ip, spec_normalise, v6_octets, IpAddr,
    Ipv4Addr, Ipv6Addr, SocketAddr,
};
use crate::text::{
    chars_eq, chars_eq_str, chars_of, dec, extend_chars, extend_str, find_char, find_char_from,
    hex_lower, hex_lower_char, is_ws, join, lemma_join_cons, lower, lower_seq, parse_uint, parse_uint_range, push_dec, push_hex_lower,
    slice_range, split, split_chars, to_lower, to_string, trim, trim_bounds, trim_end_char, trim_end_char_vec, trimmed, views,
};

verus! {

broadcast use vstd::array::group_array_axioms;

/* --- quoting for messages -------------------------------------------------- */

/// What `{:?}` writes for a string: the standard library's quoted and escaped
/// form.
pub uninterp spec fn debug_str(s: Seq<char>) -> Seq<char>;

/// `format!("{s:?}")`, the standard library's `Debug` form of a string.
/// Trusted to depend on the text alone; what it produces (quotes, escapes
/// decided by Unicode tables) is named by `debug_str` and not stated further.
#[verifier::external_body]
pub(crate) fn str_debug(s: &str) -> (r: String)
    ensures
        r@ == debug_str(s@),
{
    format!("{s:?}")
}

fn debug_chars(v: &[char]) -> (r: Vec<char>)
    ensures
        r@ == debug_str(v@),
{
    let s = to_string(v);
    let d = str_debug(s.as_str());
    chars_of(d.as_str())
}

/* --- CIDR blocks ----------------------------------------------------------- */

/// The longest prefix an address family allows.
pub open spec fn max_prefix(ip: IpAddr) -> nat {
    if is_v4(ip) {
        32
    } else {
        128
    }
}

/// Bit `i` of an address, counting from the most significant.
pub open spec fn bit(o: Seq<u8>, i: int) -> u8 {
    (o[i / 8] >> ((7 - i % 8) as u8)) & 1u8
}

/// The first `n` bits of `a` and `b` agree.
pub open spec fn same_prefix(a: Seq<u8>, b: Seq<u8>, n: nat) -> bool {
    forall|i: int| 0 <= i < n ==> #[trigger] bit(a, i) == bit(b, i)
}

/// Whether the block `net/prefix` holds `ip`: the same family once a
/// v4-mapped address is unwrapped, and the first `prefix` bits agree.
pub open spec fn in_block(net: IpAddr, prefix: nat, ip: IpAddr) -> bool {
    let cand = spec_normalise(ip);
    &&& is_v4(net) == is_v4(cand)
    &&& same_prefix(ip_octets(net), ip_octets(cand), prefix)
}

/// A parsed CIDR block.
#[derive(Debug, Clone, Copy, PartialEq, Eq)]
pub struct Cidr {
    addr: IpAddr,
    prefix: u8,
}

/// The message for text with no `/` in it.
pub open spec fn not_a_block_message(s: Seq<char>) -> Seq<char> {
    debug_str(s) + " is not a CIDR block — expected something like 10.0.0.0/8"@
}

/// What `Cidr::parse` gives: the address and prefix around the first `/`,
/// each trimmed, or the message naming what was wrong.
pub open spec fn spec_cidr(s: Seq<char>) -> Result<(IpAddr, u8), Seq<char>> {
    let i = find_char(s, '/');
    if i < 0 {
        Err(not_a_block_message(s))
    } else {
        let a = s.take(i);
        let p = s.skip(i + 1);
        match spec_ip(trim(a)) {
            None => Err(debug_str(a) + " is not an IP address"@),
            Some(ip) => match parse_uint(trim(p), 255) {
                None => Err(debug_str(p) + " is not a prefix length"@),
                Some(n) => if n > max_prefix(ip) {
                    Err("/"@ + dec(n) + " is too long for "@ + ip_text(ip))
                } else {
                    Ok((ip, n as u8))
                },
            },
        }
    }
}

impl Cidr {
    #[verifier::type_invariant]
    spec fn wf(self) -> bool {
        self.prefix <= max_prefix(self.addr)
    }

    pub closed spec fn addr_spec(self) -> IpAddr {
        self.addr
    }

    pub closed spec fn prefix_spec(self) -> nat {
        self.prefix as nat
    }

    /// Whether this block holds `ip`.
    pub open spec fn holds(self, ip: IpAddr) -> bool {
        in_block(self.addr_spec(), self.prefix_spec(), ip)
    }

    pub fn addr(&self) -> (a: IpAddr)
        ensures
            a == self.addr_spec(),
    {
        self.addr
    }

    pub fn prefix(&self) -> (p: u8)
        ensures
            p == self.prefix_spec(),
    {
        self.prefix
    }

    /// Reads `addr/prefix`, as in `10.0.0.0/8`.
    pub fn parse(s: &str) -> (r: Result<Cidr, String>)
        ensures
            match spec_cidr(s@) {
                Ok((ip, n)) => r is Ok && r.unwrap().addr_spec() == ip && r.unwrap().prefix_spec()
                    == n,
                Err(m) => r is Err && r->Err_0@ == m,
            },
    {
        let v = chars_of(s);
        let slash = match find_char_from(v.as_slice(), '/', 0) {
            Some(i) => i,
            None => {
                assert(v@.skip(0) =~= v@);
                let mut m = debug_chars(v.as_slice());
                extend_chars(
                    &mut m,
                    chars_of(" is not a CIDR block — expected something like 10.0.0.0/8").as_slice(),
                );
                return Err(to_string(m.as_slice()));
            },
        };
        assert(v@.skip(0) =~= v@);
        let ghost a = v@.take(slash as int);
        let ghost p = v@.skip(slash + 1);
        let addr_part = slice_range(v.as_slice(), 0, slash);
        assert(addr_part@ =~= a);
        assert(slash < v.len());
        let prefix_part = slice_range(v.as_slice(), slash + 1, v.len());
        assert(prefix_part@ =~= p);
        let (a0, a1) = trim_bounds(addr_part.as_slice(), 0, addr_part.len());
        assert(addr_part@.subrange(0, addr_part@.len() as int) =~= addr_part@);
        let addr_trimmed = slice_range(addr_part.as_slice(), a0, a1);
        let addr = match parse_ip(addr_trimmed.as_slice()) {
            Some(ip) => ip,
            None => {
                let mut m = debug_chars(addr_part.as_slice());
                extend_chars(&mut m, chars_of(" is not an IP address").as_slice());
                return Err(to_string(m.as_slice()));
            },
        };
        let (p0, p1) = trim_bounds(prefix_part.as_slice(), 0, prefix_part.len());
        assert(prefix_part@.subrange(0, prefix_part@.len() as int) =~= prefix_part@);
        let prefix = match parse_uint_range(prefix_part.as_slice(), p0, p1, 255) {
            Some(n) => n as u8,
            None => {
                let mut m = debug_chars(prefix_part.as_slice());
                extend_chars(&mut m, chars_of(" is not a prefix length").as_slice());
                return Err(to_string(m.as_slice()));
            },
        };
        let max: u8 = if addr.is_ipv4() {
            32
        } else {
            128
        };
        if prefix > max {
            let mut m: Vec<char> = Vec::new();
            m.push('/');
            push_dec(&mut m, prefix as u64);
            extend_chars(&mut m, chars_of(" is too long for ").as_slice());
            let t = addr.text();
            extend_chars(&mut m, t.as_slice());
            assert(m@ =~= "/"@ + dec(prefix as nat) + " is too long for "@ + ip_text(addr)) by {
                reveal_strlit("/");
            }
            return Err(to_string(m.as_slice()));
        }
        Ok(Cidr { addr, prefix })
    }

    /// Whether `ip` lies inside this block. A v4-mapped IPv6 address is
    /// matched by IPv4 rules, and different families never match.
    pub fn contains(&self, ip: IpAddr) -> (b: bool)
        ensures
            b == self.holds(ip),
    {
        proof {
            use_type_invariant(self);
        }
        let cand = normalise(ip);
        if self.addr.is_ipv4() != cand.is_ipv4() {
            return false;
        }
        let network = self.addr.octet_vec();
        let candidate = cand.octet_vec();
        let ghost na = network@;
        let ghost ca = candidate@;
        let ghost p = self.prefix as nat;
        assert(p <= 8 * na.len());
        let whole = (self.prefix / 8) as usize;
        let mut k: usize = 0;
        while k < whole
            invariant
                k <= whole,
                whole == p / 8,
                na == network@,
                ca == candidate@,
                na == ip_octets(self.addr),
                ca == ip_octets(cand),
                cand == spec_normalise(ip),
                is_v4(self.addr) == is_v4(cand),
                p == self.prefix,
                na.len() == ca.len(),
                p <= 8 * na.len(),
                forall|i: int| 0 <= i < 8 * k ==> #[trigger] bit(na, i) == bit(ca, i),
            decreases whole - k,
        {
            if network[k] != candidate[k] {
                proof {
                    let t = lemma_byte_differs(na[k as int], ca[k as int]);
                    let i = 8 * k + (7 - t);
                    assert(i / 8 == k && i % 8 == 7 - t);
                    assert(bit(na, i) != bit(ca, i));
                }
                return false;
            }
            proof {
                assert forall|i: int| 0 <= i < 8 * (k + 1) implies #[trigger] bit(na, i) == bit(
                    ca,
                    i,
                ) by {
                    if i >= 8 * k {
                        assert(i / 8 == k);
                    }
                }
            }
            k = k + 1;
        }
        let remainder = self.prefix % 8;
        if remainder == 0 {
            assert(p == 8 * whole);
            return true;
        }
        let shift = 8 - remainder;
        let a = network[whole];
        let c = candidate[whole];
        let r = (a >> shift) == (c >> shift);
        proof {
            lemma_top_bits(a, c, shift);
            if r {
                assert forall|i: int| 0 <= i < p implies #[trigger] bit(na, i) == bit(ca, i) by {
                    if i >= 8 * whole {
                        assert(i / 8 == whole);
                        let t = (7 - i % 8) as u8;
                        assert(shift <= t < 8);
                    }
                }
            } else {
                let t = choose|t: u8| shift <= t < 8 && ((a >> t) & 1u8) != ((c >> t) & 1u8);
                let i = 8 * whole + (7 - t);
                assert(i / 8 == whole && i % 8 == 7 - t);
                assert(bit(na, i) != bit(ca, i));
            }
        }
        r
    }
}

/// Two different bytes differ in some bit.
proof fn lemma_byte_differs(a: u8, b: u8) -> (t: u8)
    requires
        a != b,
    ensures
        t < 8,
        ((a >> t) & 1u8) != ((b >> t) & 1u8),
{
    lemma_top_bits(a, b, 0);
    assert(a >> 0u8 == a && b >> 0u8 == b) by (bit_vector);
    assert(exists|t: u8| 0 <= t < 8 && ((a >> t) & 1u8) != ((b >> t) & 1u8));
    choose|t: u8| 0 <= t < 8 && ((a >> t) & 1u8) != ((b >> t) & 1u8)
}

proof fn lemma_shift_step(a: u8, b: u8, s: u8)
    requires
        s < 8,
    ensures
        ((a >> s) == (b >> s)) <==> ((a >> ((s + 1) as u8)) == (b >> ((s + 1) as u8)) && ((a >> s)
            & 1u8) == ((b >> s) & 1u8)),
{
    assert(((a >> s) == (b >> s)) <==> ((a >> ((s + 1) as u8)) == (b >> ((s + 1) as u8)) && ((a
        >> s) & 1u8) == ((b >> s) & 1u8))) by (bit_vector)
        requires
            s < 8,
    ;
}

/// Two bytes agree above bit `s` exactly when every bit from `s` up agrees.
proof fn lemma_top_bits(a: u8, b: u8, s: u8)
    requires
        s <= 8,
    ensures
        ((a >> s) == (b >> s)) <==> (forall|t: u8| s <= t < 8 ==> ((a >> t) & 1u8) == ((b >> t)
            & 1u8)),
    decreases 8 - s,
{
    if s == 8 {
        assert((a >> 8u8) == 0u8 && (b >> 8u8) == 0u8) by (bit_vector);
    } else {
        lemma_top_bits(a, b, (s + 1) as u8);
        lemma_shift_step(a, b, s);
        if (a >> s) == (b >> s) {
            assert forall|t: u8| s <= t < 8 implies ((a >> t) & 1u8) == ((b >> t) & 1u8) by {
                if t > s {
                    assert(s + 1 <= t);
                }
            }
        }
    }
}

/// A block never matches an address of the other family: an IPv4 block
/// holds no IPv6 address (other than a v4-mapped one) and the other way round.
pub proof fn lemma_families_never_mix(c: Cidr, ip: IpAddr)
    requires
        is_v4(c.addr_spec()) != is_v4(spec_normalise(ip)),
    ensures
        !c.holds(ip),
{
}

/// A v4-mapped IPv6 address is matched exactly as the IPv4 address it wraps.
pub proof fn lemma_mapped_address_matches_as_v4(c: Cidr, ip: IpAddr)
    ensures
        c.holds(ip) == c.holds(spec_normalise(ip)),
{
    assert(spec_normalise(spec_normalise(ip)) == spec_normalise(ip));
}

/* --- what kind of address -------------------------------------------------- */

/// What kind of address this is, to the extent that can be known.
#[derive(Debug, Clone, Copy, PartialEq, Eq)]
pub enum Kind {
    Loopback,
    LinkLocal,
    /// 100.64.0.0/10. Tailscale's range, and also carrier-grade NAT.
    Cgnat,
    Private,
    Public,
}

pub open spec fn kind_slug(k: Kind) -> Seq<char> {
    match k {
        Kind::Loopback => "loopback"@,
        Kind::LinkLocal => "link-local"@,
        Kind::Cgnat => "cgnat"@,
        Kind::Private => "lan"@,
        Kind::Public => "public"@,
    }
}

pub open spec fn kind_label(k: Kind) -> Seq<char> {
    match k {
        Kind::Loopback => "loopback"@,
        Kind::LinkLocal => "link-local"@,
        Kind::Cgnat => "Tailscale or carrier NAT"@,
        Kind::Private => "LAN"@,
        Kind::Public => "public"@,
    }
}

impl Kind {
    pub fn slug(self) -> (s: &'static str)
        ensures
            s@ == kind_slug(self),
    {
        match self {
            Kind::Loopback => "loopback",
            Kind::LinkLocal => "link-local",
            Kind::Cgnat => "cgnat",
            Kind::Private => "lan",
            Kind::Public => "public",
        }
    }

    /// Shown next to the address. Hedged where hedging is honest: a private
    /// address may be the client or may be a router that rewrote it.
    pub fn label(self) -> (s: &'static str)
        ensures
            s@ == kind_label(self),
    {
        match self {
            Kind::Loopback => "loopback",
            Kind::LinkLocal => "link-local",
            Kind::Cgnat => "Tailscale or carrier NAT",
            Kind::Private => "LAN",
            Kind::Public => "public",
        }
    }
}

/// 100.64.0.0/10.
pub open spec fn v4_cgnat(o: Seq<u8>) -> bool {
    o[0] == 100 && 64 <= o[1] < 128
}

/// 10.0.0.0/8, 172.16.0.0/12 and 192.168.0.0/16.
pub open spec fn v4_private(o: Seq<u8>) -> bool {
    ||| o[0] == 10
    ||| o[0] == 172 && 16 <= o[1] < 32
    ||| o[0] == 192 && o[1] == 168
}

/// `::1`.
pub open spec fn v6_loopback(g: Seq<u16>) -> bool {
    g[0] == 0 && g[1] == 0 && g[2] == 0 && g[3] == 0 && g[4] == 0 && g[5] == 0 && g[6] == 0
        && g[7] == 1
}

/// The kind of `ip`, judged after a v4-mapped address is unwrapped: IPv4
/// loopback 127/8, link-local 169.254/16, CGNAT 100.64/10, private 10/8,
/// 172.16/12 and 192.168/16; IPv6 loopback `::1`, link-local `fe80::/10` and
/// unique-local `fc00::/7`; everything else public.
pub open spec fn spec_classify(ip: IpAddr) -> Kind {
    match spec_normalise(ip) {
        IpAddr::V4(a) => {
            let o = a.octets@;
            if o[0] == 127 {
                Kind::Loopback
            } else if o[0] == 169 && o[1] == 254 {
                Kind::LinkLocal
            } else if v4_cgnat(o) {
                Kind::Cgnat
            } else if v4_private(o) {
                Kind::Private
            } else {
                Kind::Public
            }
        },
        IpAddr::V6(a) => {
            let g = a.segments@;
            if v6_loopback(g) {
                Kind::Loopback
            } else if 0xfe80 <= g[0] <= 0xfebf {
                Kind::LinkLocal
            } else if 0xfc00 <= g[0] <= 0xfdff {
                Kind::Private
            } else {
                Kind::Public
            }
        },
    }
}

fn in_cgnat(v4: &Ipv4Addr) -> (b: bool)
    ensures
        b == v4_cgnat(v4.octets@),
{
    let o = v4.octets;
    let o1 = o[1];
    assert(((o1 & 0xC0) == 64) == (64 <= o1 && o1 < 128)) by (bit_vector);
    o[0] == 100 && (o1 & 0xC0) == 64
}

/// `fe80::/10`.
fn is_unicast_link_local(v6: &Ipv6Addr) -> (b: bool)
    ensures
        b == (0xfe80 <= v6.segments@[0] <= 0xfebf),
{
    let s0 = v6.segments[0];
    let r = s0 & 0xffc0 == 0xfe80;
    assert(r == (0xfe80 <= s0 <= 0xfebf)) by (bit_vector)
        requires
            r == (s0 & 0xffc0 == 0xfe80),
    ;
    r
}

/// `fc00::/7`.
fn is_unique_local(v6: &Ipv6Addr) -> (b: bool)
    ensures
        b == (0xfc00 <= v6.segments@[0] <= 0xfdff),
{
    let s0 = v6.segments[0];
    let r = s0 & 0xfe00 == 0xfc00;
    assert(r == (0xfc00 <= s0 <= 0xfdff)) by (bit_vector)
        requires
            r == (s0 & 0xfe00 == 0xfc00),
    ;
    r
}

pub fn classify(ip: IpAddr) -> (k: Kind)
    ensures
        k == spec_classify(ip),
{
    match normalise(ip) {
        IpAddr::V4(v4) => {
            let o = v4.octets;
            let o1 = o[1];
            let private = o[0] == 10 || (o[0] == 172 && (o1 & 0xf0) == 16) || (o[0] == 192 && o1
                == 168);
            assert(((o1 & 0xf0) == 16) == (16 <= o1 && o1 < 32)) by (bit_vector);
            if o[0] == 127 {
                Kind::Loopback
            } else if o[0] == 169 && o[1] == 254 {
                Kind::LinkLocal
            } else if in_cgnat(&v4) {
                Kind::Cgnat
            } else if private {
                Kind::Private
            } else {
                Kind::Public
            }
        },
        IpAddr::V6(v6) => {
            let g = v6.segments;
            if g[0] == 0 && g[1] == 0 && g[2] == 0 && g[3] == 0 && g[4] == 0 && g[5] == 0 && g[6] == 0
                && g[7] == 1 {
                Kind::Loopback
            } else if is_unicast_link_local(&v6) {
                Kind::LinkLocal
            } else if is_unique_local(&v6) {
                Kind::Private
            } else {
                Kind::Public
            }
        },
    }
}

/* --- whom to attribute a run to --------------------------------------------- */

/// Some block in `trusted` holds `ip`.
pub open spec fn trusted_by(trusted: Seq<Cidr>, ip: IpAddr) -> bool {
    exists|k: int| 0 <= k < trusted.len() && (#[trigger] trusted[k]).holds(ip)
}

/// Walks `hops` from the right, starting from `candidate`: each entry that
/// reads as an address replaces the candidate, and the walk stops at the
/// first one that no trusted block holds, or at the first that does not read
/// as an address at all.
pub open spec fn walk_hops(hops: Seq<Seq<char>>, candidate: IpAddr, trusted: Seq<Cidr>) -> IpAddr
    decreases hops.len(),
{
    if hops.len() == 0 {
        candidate
    } else {
        match spec_ip(trim(hops.last())) {
            None => candidate,
            Some(ip) => {
                let ip = spec_normalise(ip);
                if !trusted_by(trusted, ip) {
                    ip
                } else {
                    walk_hops(hops.drop_last(), ip, trusted)
                }
            },
        }
    }
}

/// The address `effective_client` attributes a request to.
pub open spec fn spec_effective_client(
    peer: IpAddr,
    forwarded_for: Option<Seq<char>>,
    trusted: Seq<Cidr>,
) -> IpAddr {
    if trusted.len() == 0 || !trusted_by(trusted, peer) {
        spec_normalise(peer)
    } else {
        match forwarded_for {
            None => spec_normalise(peer),
            Some(h) => walk_hops(split(h, ','), spec_normalise(peer), trusted),
        }
    }
}

/// Whether any block in `trusted` holds `ip`.
pub fn any_holds(trusted: &[Cidr], ip: IpAddr) -> (b: bool)
    ensures
        b == trusted_by(trusted@, ip),
{
    let mut k: usize = 0;
    while k < trusted.len()
        invariant
            k <= trusted@.len(),
            forall|j: int| 0 <= j < k ==> !(#[trigger] trusted@[j]).holds(ip),
        decreases trusted.len() - k,
    {
        if trusted[k].contains(ip) {
            return true;
        }
        k = k + 1;
    }
    false
}

/// The address to attribute a run to.
///
/// `forwarded_for` is the raw `X-Forwarded-For` header, if present. It is
/// consulted *only* when the peer is one of the configured trusted proxies;
/// otherwise it is ignored entirely, however plausible it looks.
pub fn effective_client(peer: IpAddr, forwarded_for: Option<&str>, trusted: &[Cidr]) -> (r: IpAddr)
    ensures
        r == spec_effective_client(
            peer,
            match forwarded_for {
                Some(h) => Some(h@),
                None => None,
            },
            trusted@,
        ),
{
    if trusted.len() == 0 || !any_holds(trusted, peer) {
        return normalise(peer);
    }
    let header = match forwarded_for {
        Some(h) => h,
        None => {
            return normalise(peer);
        },
    };
    // Right to left: each hop appends, so the rightmost entries are the ones
    // our own trusted proxies added. Walk back through those and stop at the
    // first address no trusted proxy vouched for — anything further left was
    // written by the client and is not evidence of anything.
    let hv = chars_of(header);
    let entries = split_chars(hv.as_slice(), ',');
    let ghost hops = split(header@, ',');
    assert(views(entries@) == hops);
    let mut candidate = normalise(peer);
    let mut i: usize = entries.len();
    assert(hops.take(i as int) =~= hops);
    while i > 0
        invariant
            i <= entries@.len(),
            hops == views(entries@),
            hops == split(header@, ','),
            forwarded_for == Some(header),
            trusted@.len() > 0,
            trusted_by(trusted@, peer),
            walk_hops(hops, spec_normalise(peer), trusted@) == walk_hops(
                hops.take(i as int),
                candidate,
                trusted@,
            ),
        decreases i,
    {
        let ghost pre = hops.take(i as int);
        assert(pre.last() == entries@[i - 1]@);
        assert(pre.drop_last() =~= hops.take(i - 1));
        let e = &entries[i - 1];
        let (a, b) = trim_bounds(e.as_slice(), 0, e.len());
        assert(e@.subrange(0, e@.len() as int) =~= e@);
        let t = slice_range(e.as_slice(), a, b);
        match parse_ip(t.as_slice()) {
            None => {
                return candidate;
            },
            Some(ip) => {
                let ip = normalise(ip);
                candidate = ip;
                if !any_holds(trusted, ip) {
                    return candidate;
                }
            },
        }
        i = i - 1;
    }
    candidate
}

/// A proxy's header is believed only when the peer is one of the trusted
/// proxies: for any other peer the answer is the peer itself, whatever the
/// header says.
pub proof fn lemma_untrusted_peer_decides(
    peer: IpAddr,
    forwarded_for: Option<Seq<char>>,
    trusted: Seq<Cidr>,
)
    requires
        !trusted_by(trusted, peer),
    ensures
        spec_effective_client(peer, forwarded_for, trusted) == spec_normalise(peer),
{
}

/// With no trusted proxies configured, the header is never read.
pub proof fn lemma_no_trusted_proxies(peer: IpAddr, forwarded_for: Option<Seq<char>>)
    ensures
        spec_effective_client(peer, forwarded_for, Seq::empty()) == spec_normalise(peer),
{
}

/// Walking the hops lands either on the starting candidate or on an address
/// written in one of them.
pub proof fn lemma_walk_hops_source(hops: Seq<Seq<char>>, candidate: IpAddr, trusted: Seq<Cidr>)
    ensures
        walk_hops(hops, candidate, trusted) == candidate || exists|k: int|
            0 <= k < hops.len() && #[trigger] spec_ip(trim(hops[k])) is Some && walk_hops(
                hops,
                candidate,
                trusted,
            ) == spec_normalise(spec_ip(trim(hops[k])).unwrap()),
    decreases hops.len(),
{
    if hops.len() > 0 {
        let k = hops.len() - 1;
        match spec_ip(trim(hops.last())) {
            None => {},
            Some(ip) => {
                let n = spec_normalise(ip);
                if !trusted_by(trusted, n) {
                    assert(spec_ip(trim(hops[k])) is Some);
                } else {
                    lemma_walk_hops_source(hops.drop_last(), n, trusted);
                    let r = walk_hops(hops, candidate, trusted);
                    if r == n {
                        assert(spec_ip(trim(hops[k])) is Some);
                    } else {
                        let j = choose|j: int|
                            0 <= j < hops.drop_last().len() && #[trigger] spec_ip(
                                trim(hops.drop_last()[j]),
                            ) is Some && r == spec_normalise(
                                spec_ip(trim(hops.drop_last()[j])).unwrap(),
                            );
                        assert(hops.drop_last()[j] == hops[j]);
                    }
                }
            },
        }
    }
}

/// The address a request is attributed to is the peer's, or one written in
/// the forwarding header — never anything else.
pub proof fn lemma_effective_client_source(peer: IpAddr, header: Seq<char>, trusted: Seq<Cidr>)
    ensures
        ({
            let r = spec_effective_client(peer, Some(header), trusted);
            let hops = split(header, ',');
            r == spec_normalise(peer) || exists|k: int|
                0 <= k < hops.len() && #[trigger] spec_ip(trim(hops[k])) is Some && r
                    == spec_normalise(spec_ip(trim(hops[k])).unwrap())
        }),
{
    lemma_walk_hops_source(split(header, ','), spec_normalise(peer), trusted);
}

/* --- reverse names and resolvers ------------------------------------------- */

/// `lo.hi.` for each octet, last octet first, in lower-case hex.
pub open spec fn nibbles_reversed(o: Seq<u8>) -> Seq<char>
    decreases o.len(),
{
    if o.len() == 0 {
        Seq::empty()
    } else {
        hex_lower((o.last() % 16) as nat) + seq!['.'] + hex_lower((o.last() / 16) as nat) + seq![
            '.',
        ] + nibbles_reversed(o.drop_last())
    }
}

/// The `in-addr.arpa` / `ip6.arpa` name whose PTR record names `ip`.
pub open spec fn spec_reverse_name(ip: IpAddr) -> Seq<char> {
    match spec_normalise(ip) {
        IpAddr::V4(a) => {
            let o = a.octets@;
            dec(o[3] as nat) + seq!['.'] + dec(o[2] as nat) + seq!['.'] + dec(o[1] as nat) + seq![
                '.',
            ] + dec(o[0] as nat) + ".in-addr.arpa"@
        },
        IpAddr::V6(a) => nibbles_reversed(v6_octets(a.segments@)) + "ip6.arpa"@,
    }
}

/// The `in-addr.arpa` / `ip6.arpa` name whose PTR record names this address.
pub fn reverse_name(ip: IpAddr) -> (s: String)
    ensures
        s@ == spec_reverse_name(ip),
{
    let mut out: Vec<char> = Vec::new();
    match normalise(ip) {
        IpAddr::V4(v4) => {
            let o = v4.octets;
            push_dec(&mut out, o[3] as u64);
            out.push('.');
            push_dec(&mut out, o[2] as u64);
            out.push('.');
            push_dec(&mut out, o[1] as u64);
            out.push('.');
            push_dec(&mut out, o[0] as u64);
            extend_str(&mut out, ".in-addr.arpa");
            assert(out@ =~= spec_reverse_name(ip));
        },
        IpAddr::V6(v6) => {
            let o = v6.octets();
            let mut i: usize = 16;
            assert(o@.take(16) =~= o@);
            while i > 0
                invariant
                    i <= 16,
                    o@.len() == 16,
                    out@ + nibbles_reversed(o@.take(i as int)) == nibbles_reversed(o@),
                decreases i,
            {
                let ghost before = out@;
                let b = o[i - 1];
                push_hex_lower(&mut out, (b % 16) as u64);
                out.push('.');
                push_hex_lower(&mut out, (b / 16) as u64);
                out.push('.');
                let ghost pre = o@.take(i as int);
                assert(pre.last() == b);
                assert(pre.drop_last() =~= o@.take(i - 1));
                assert(out@ + nibbles_reversed(o@.take(i - 1)) =~= before + nibbles_reversed(pre));
                i = i - 1;
            }
            assert(o@.take(0) =~= Seq::<u8>::empty());
            assert(out@ =~= nibbles_reversed(o@));
            extend_str(&mut out, "ip6.arpa");
        },
    }
    to_string(out.as_slice())
}

/// The address a resolv.conf line names, if it is a `nameserver` line: the
/// text before any `#`, trimmed, must start with `nameserver`, and what
/// follows, trimmed, must read as an address. A carriage return at the end
/// of a line is whitespace, so lines ended by `\r\n` read the same.
pub open spec fn nameserver_of(line: Seq<char>) -> Option<IpAddr> {
    let t = trim(split(line, '#')[0]);
    if t.len() >= 10 && t.take(10) == "nameserver"@ {
        spec_ip(trim(t.skip(10)))
    } else {
        None
    }
}

pub open spec fn first_nameserver(lines: Seq<Seq<char>>) -> Option<IpAddr>
    decreases lines.len(),
{
    if lines.len() == 0 {
        None
    } else {
        match nameserver_of(lines[0]) {
            Some(ip) => Some(ip),
            None => first_nameserver(lines.drop_first()),
        }
    }
}

/// The first `nameserver` in a resolv.conf, on port 53.
pub open spec fn spec_resolver_from_resolv_conf(contents: Seq<char>) -> Option<SocketAddr> {
    match first_nameserver(split(contents, '\n')) {
        Some(ip) => Some(SocketAddr { ip, port: 53, scope_id: 0 }),
        None => None,
    }
}

fn nameserver_line(line: &[char]) -> (r: Option<IpAddr>)
    ensures
        r == nameserver_of(line@),
{
    let parts = split_chars(line, '#');
    assert(views(parts@) == split(line@, '#'));
    proof {
        crate::text::lemma_split_nonempty(line@, '#');
    }
    let first = &parts[0];
    assert(first@ == split(line@, '#')[0]);
    let (a, b) = trim_bounds(first.as_slice(), 0, first.len());
    assert(first@.subrange(0, first@.len() as int) =~= first@);
    let t = slice_range(first.as_slice(), a, b);
    if t.len() < 10 {
        return None;
    }
    let head = slice_range(t.as_slice(), 0, 10);
    assert(head@ =~= t@.take(10));
    if !chars_eq_str(head.as_slice(), "nameserver") {
        return None;
    }
    let (c, d) = trim_bounds(t.as_slice(), 10, t.len());
    assert(t@.subrange(10, t@.len() as int) =~= t@.skip(10));
    let rest = slice_range(t.as_slice(), c, d);
    parse_ip(rest.as_slice())
}

/// The first `nameserver` in `/etc/resolv.conf`'s `contents`.
pub fn resolver_from_resolv_conf(contents: &str) -> (r: Option<SocketAddr>)
    ensures
        r == spec_resolver_from_resolv_conf(contents@),
{
    let v = chars_of(contents);
    let lines = split_chars(v.as_slice(), '\n');
    let ghost ls = split(contents@, '\n');
    assert(views(lines@) == ls);
    let mut i: usize = 0;
    assert(ls.skip(0) =~= ls);
    while i < lines.len()
        invariant
            i <= lines@.len(),
            ls == views(lines@),
            ls == split(contents@, '\n'),
            first_nameserver(ls) == first_nameserver(ls.skip(i as int)),
        decreases lines.len() - i,
    {
        assert(ls.skip(i as int)[0] == lines@[i as int]@);
        assert(ls.skip(i as int).drop_first() =~= ls.skip(i + 1));
        match nameserver_line(lines[i].as_slice()) {
            Some(ip) => {
                return Some(SocketAddr { ip, port: 53, scope_id: 0 });
            },
            None => {},
        }
        i = i + 1;
    }
    assert(ls.skip(i as int) =~= Seq::<Seq<char>>::empty());
    None
}

/* --- query ids ---------------------------------------------------------------- */

/// The next query id from a running counter and a seed taken from the clock:
/// the counter advances by the seed made odd, and the id is the counter as
/// it stood plus the seed, both wrapping. Not cryptographic randomness, and
/// not meant to be: the reply is also checked against the question asked.
pub fn next_id(counter: u16, seed: u16) -> (r: (u16, u16))
    ensures
        r.0 == ((counter as nat + (seed | 1u16) as nat) % 65536) as u16,
        r.1 == ((counter as nat + seed as nat) % 65536) as u16,
{
    (counter.wrapping_add(seed | 1), counter.wrapping_add(seed))
}

/* --- the DNS wire format ----------------------------------------------------- */

/// Index of the first `b` in `s`, or -1.
pub open spec fn find_byte(s: Seq<u8>, b: u8) -> int
    decreases s.len(),
{
    if s.len() == 0 {
        -1
    } else if s[0] == b {
        0
    } else {
        let r = find_byte(s.drop_first(), b);
        if r < 0 {
            -1
        } else {
            r + 1
        }
    }
}

pub proof fn lemma_find_byte(s: Seq<u8>, b: u8)
    ensures
        -1 <= find_byte(s, b) < s.len(),
        find_byte(s, b) >= 0 ==> s[find_byte(s, b)] == b,
    decreases s.len(),
{
    if s.len() > 0 {
        lemma_find_byte(s.drop_first(), b);
    }
}

proof fn lemma_find_byte_at(s: Seq<u8>, b: u8, i: int)
    requires
        0 <= i <= s.len(),
        i < s.len() ==> s[i] == b,
        forall|k: int| 0 <= k < i ==> s[k] != b,
    ensures
        find_byte(s, b) == (if i < s.len() {
            i
        } else {
            -1
        }),
    decreases s.len(),
{
    if s.len() > 0 && i != 0 {
        assert forall|k: int| 0 <= k < i - 1 implies s.drop_first()[k] != b by {
            assert(s.drop_first()[k] == s[k + 1]);
        }
        lemma_find_byte_at(s.drop_first(), b, i - 1);
    }
}

/// The pieces of `s` between occurrences of `b`.
pub open spec fn split_bytes(s: Seq<u8>, b: u8) -> Seq<Seq<u8>>
    decreases s.len(),
{
    let i = find_byte(s, b);
    if i < 0 {
        seq![s]
    } else {
        proof {
            lemma_find_byte(s, b);
        }
        seq![s.take(i)] + split_bytes(s.skip(i + 1), b)
    }
}

/// Length-prefixed labels, each cut at the protocol's 63-byte cap.
pub open spec fn encode_labels(labels: Seq<Seq<u8>>) -> Seq<u8>
    decreases labels.len(),
{
    if labels.len() == 0 {
        Seq::empty()
    } else {
        let l = labels[0];
        let n: int = if l.len() < 63 {
            l.len() as int
        } else {
            63
        };
        seq![n as u8] + l.take(n) + encode_labels(labels.drop_first())
    }
}

/// A recursion-desired query with one question, `name` (as UTF-8) of type
/// PTR and class IN.
pub open spec fn spec_encode_query(id: u16, name: Seq<u8>) -> Seq<u8> {
    seq![(id / 256) as u8, (id % 256) as u8, 1u8, 0u8, 0u8, 1u8, 0u8, 0u8, 0u8, 0u8, 0u8, 0u8]
        + encode_labels(split_bytes(name, 46)) + seq![0u8, 0u8, 12u8, 0u8, 1u8]
}

/// Appends `v[from..to]`.
fn extend_bytes(out: &mut Vec<u8>, v: &[u8], from: usize, to: usize)
    requires
        from <= to <= v@.len(),
    ensures
        final(out)@ == old(out)@ + v@.subrange(from as int, to as int),
{
    let ghost o0 = out@;
    let mut i: usize = from;
    while i < to
        invariant
            from <= i <= to <= v@.len(),
            out@ == o0 + v@.subrange(from as int, i as int),
        decreases to - i,
    {
        out.push(v[i]);
        assert(out@ =~= o0 + v@.subrange(from as int, i + 1));
        i = i + 1;
    }
}

/// Encodes a PTR query for `name`.
pub fn encode_query(id: u16, name: &str) -> (q: Vec<u8>)
    ensures
        q@ == spec_encode_query(id, name.spec_bytes()),
{
    let bytes = name.as_bytes();
    let ghost nb = bytes@;
    let mut out: Vec<u8> = Vec::new();
    out.push((id / 256) as u8);
    out.push((id % 256) as u8);
    out.push(1);
    out.push(0);  // standard query, recursion desired
    out.push(0);
    out.push(1);  // one question
    out.push(0);
    out.push(0);
    out.push(0);
    out.push(0);
    out.push(0);
    out.push(0);  // no answer/authority/additional
    let ghost header = out@;
    let mut start: usize = 0;
    assert(nb.skip(0) =~= nb);
    // Labels are capped at 63 bytes by the protocol; ours are generated,
    // never user input, so a longer one is a bug rather than an attack.
    loop
        invariant_except_break
            start <= nb.len(),
            nb == bytes@,
            header + encode_labels(split_bytes(nb, 46)) == out@ + encode_labels(
                split_bytes(nb.skip(start as int), 46),
            ),
        ensures
            header + encode_labels(split_bytes(nb, 46)) == out@,
        decreases nb.len() - start,
    {
        let ghost rest = nb.skip(start as int);
        let mut end: usize = start;
        while end < bytes.len() && bytes[end] != 46
            invariant
                start <= end <= nb.len(),
                nb == bytes@,
                forall|k: int| start <= k < end ==> nb[k] != 46,
            decreases nb.len() - end,
        {
            end = end + 1;
        }
        proof {
            assert forall|k: int| 0 <= k < end - start implies rest[k] != 46 by {
                assert(rest[k] == nb[k + start]);
            }
            lemma_find_byte_at(rest, 46, end - start);
        }
        let len = end - start;
        let n: usize = if len < 63 {
            len
        } else {
            63
        };
        let ghost before = out@;
        out.push(n as u8);
        extend_bytes(&mut out, bytes, start, start + n);
        assert(rest.take(end - start) =~= nb.subrange(start as int, end as int));
        assert(nb.subrange(start as int, end as int).take(n as int) =~= nb.subrange(
            start as int,
            start + n,
        ));
        if end == bytes.len() {
            assert(split_bytes(rest, 46) =~= seq![rest]);
            assert(rest =~= nb.subrange(start as int, end as int));
            assert(seq![rest][0] == rest);
            assert(seq![rest].drop_first() =~= Seq::<Seq<u8>>::empty());
            assert(encode_labels(seq![rest]) =~= seq![n as u8] + rest.take(n as int)
                + encode_labels(Seq::<Seq<u8>>::empty()));
            assert(out@ =~= before + encode_labels(split_bytes(rest, 46)));
            break;
        }
        let ghost pieces = split_bytes(rest, 46);
        assert(pieces =~= seq![rest.take(end - start)] + split_bytes(rest.skip(end - start + 1), 46));
        assert(rest.skip(end - start + 1) =~= nb.skip(end + 1));
        assert(pieces[0] == rest.take(end - start));
        assert(pieces.drop_first() =~= split_bytes(nb.skip(end + 1), 46));
        assert(out@ + encode_labels(split_bytes(nb.skip(end + 1), 46)) =~= before + encode_labels(
            pieces,
        ));
        start = end + 1;
    }
    let ghost mid = out@;
    out.push(0);
    out.push(0);
    out.push(12);  // PTR
    out.push(0);
    out.push(1);  // IN
    assert(out@ =~= spec_encode_query(id, name.spec_bytes()));
    out
}

/// Reads a domain name starting at `pos`, following compression pointers.
///
/// The state is the labels read so far, how many pointers have been followed,
/// where the stream resumes after the first pointer, and the running length
/// of the name. A name longer than 255 bytes, more than 16 pointers, a pointer
/// past the end, a reserved label type or a read past the end all fail.
/// On success: the labels, and the offset just past the name in the stream —
/// past the first pointer, if there was one.
pub open spec fn name_from(
    msg: Seq<u8>,
    pos: int,
    jumps: nat,
    resume: Option<int>,
    total: nat,
    labels: Seq<Seq<u8>>,
) -> Option<(Seq<Seq<u8>>, int)>
    decreases 17 - jumps, msg.len() - pos,
{
    if jumps > 16 || pos < 0 || pos >= msg.len() {
        None
    } else {
        let len = msg[pos];
        if len >= 0xC0 {
            if pos + 1 >= msg.len() {
                None
            } else {
                let target = (len - 0xC0) * 256 + msg[pos + 1];
                let resume2 = match resume {
                    Some(r) => Some(r),
                    None => Some(pos + 2),
                };
                if jumps + 1 > 16 || target >= msg.len() {
                    None
                } else {
                    name_from(msg, target, jumps + 1, resume2, total, labels)
                }
            }
        } else if len >= 0x40 {
            None
        } else if len == 0 {
            Some(
                (
                    labels,
                    match resume {
                        Some(r) => r,
                        None => pos + 1,
                    },
                ),
            )
        } else {
            let from = pos + 1;
            let to = from + len;
            if to > msg.len() || total + len + 1 > 255 {
                None
            } else {
                name_from(msg, to, jumps, resume, (total + len + 1) as nat, labels.push(msg.subrange(from, to)))
            }
        }
    }
}

pub open spec fn all_utf8(labels: Seq<Seq<u8>>) -> bool {
    forall|k: int| 0 <= k < labels.len() ==> valid_utf8(#[trigger] labels[k])
}

pub open spec fn decoded(labels: Seq<Seq<u8>>) -> Seq<Seq<char>> {
    labels.map_values(|l: Seq<u8>| decode_utf8(l))
}

/// The name at `start`, dot-joined, and where the stream continues; `None`
/// when the name is malformed or a label is not UTF-8.
pub open spec fn spec_read_name(msg: Seq<u8>, start: int) -> Option<(Seq<char>, int)> {
    match name_from(msg, start, 0, None, 0, Seq::empty()) {
        None => None,
        Some((labels, next)) => if all_utf8(labels) {
            Some((join(decoded(labels), "."@), next))
        } else {
            None
        },
    }
}

/// `String::from_utf8` on a copy of the bytes. Trusted, as its
/// documentation says, to succeed exactly when the bytes are well-formed
/// UTF-8, and then to hold the characters they encode.
#[verifier::external_body]
fn utf8_string(b: &[u8]) -> (r: Option<String>)
    ensures
        r is Some <==> valid_utf8(b@),
        r matches Some(s) ==> s@ == decode_utf8(b@),
{
    String::from_utf8(b.to_vec()).ok()
}

pub open spec fn byte_views(v: Seq<Vec<u8>>) -> Seq<Seq<u8>> {
    v.map_values(|x: Vec<u8>| x@)
}

/// Reads a possibly-compressed domain name, returning it and the offset just
/// past it in the *stream* (not past the pointer target).
///
/// Every step is bounds-checked and pointer following is capped, because a
/// malicious or broken response must not be able to hang the server. A pointer
/// that refers to itself is the classic way to do that.
fn read_name(msg: &[u8], start: usize) -> (r: Option<(Vec<char>, usize)>)
    ensures
        match spec_read_name(msg@, start as int) {
            Some((name, next)) => r is Some && r.unwrap().0@ == name && r.unwrap().1 == next,
            None => r is None,
        },
{
    let mut labels: Vec<Vec<u8>> = Vec::new();
    let mut pos: usize = start;
    let mut jumps: usize = 0;
    let mut resume: Option<usize> = None;
    let mut total: usize = 0;
    let ghost goal = name_from(msg@, start as int, 0, None, 0, Seq::empty());
    assert(byte_views(labels@) =~= Seq::<Seq<u8>>::empty());
    loop
        invariant_except_break
            jumps <= 16,
            total <= 255,
            resume matches Some(r) ==> r <= msg@.len() + 1,
            goal == name_from(
                msg@,
                pos as int,
                jumps as nat,
                match resume {
                    Some(r) => Some(r as int),
                    None => None,
                },
                total as nat,
                byte_views(labels@),
            ),
            goal == name_from(msg@, start as int, 0, None, 0, Seq::empty()),
        ensures
            goal == Some(
                (
                    byte_views(labels@),
                    match resume {
                        Some(r) => r as int,
                        None => pos as int,
                    },
                ),
            ),
        decreases 17 - jumps, msg@.len() - pos,
    {
        if pos >= msg.len() {
            return None;
        }
        let len = msg[pos];
        if len & 0xC0 == 0xC0 {
            assert(len >= 0xC0) by (bit_vector)
                requires
                    len & 0xC0 == 0xC0,
            ;
            if pos + 1 >= msg.len() {
                return None;
            }
            let low = msg[pos + 1] as usize;
            let target = (((len & 0x3F) as usize) << 8) | low;
            assert(target == (len - 0xC0) * 256 + low) by (bit_vector)
                requires
                    len >= 0xC0,
                    low < 256,
                    target == (((len & 0x3F) as usize) << 8) | low,
            ;
            if resume.is_none() {
                resume = Some(pos + 2);
            }
            jumps = jumps + 1;
            if jumps > 16 || target >= msg.len() {
                return None;
            }
            pos = target;
            continue;
        }
        assert((len & 0xC0 != 0) == (len >= 0x40) && len < 0xC0) by (bit_vector)
            requires
                len & 0xC0 != 0xC0,
        ;
        if len & 0xC0 != 0 {
            return None;  // reserved label type
        }
        if len == 0 {
            pos = pos + 1;
            break;
        }
        let from = pos + 1;
        let to = match from.checked_add(len as usize) {
            Some(t) => t,
            None => {
                return None;
            },
        };
        if to > msg.len() {
            return None;
        }
        total = total + len as usize + 1;
        if total > 255 {
            return None;
        }
        let mut label: Vec<u8> = Vec::new();
        extend_bytes(&mut label, msg, from, to);
        assert(label@ =~= msg@.subrange(from as int, to as int));
        let ghost before = labels@;
        labels.push(label);
        assert(byte_views(labels@) =~= byte_views(before).push(msg@.subrange(from as int, to as int)));
        pos = to;
    }
    let next = match resume {
        Some(r) => r,
        None => pos,
    };
    // Decode and join.
    let mut out: Vec<char> = Vec::new();
    let mut k: usize = 0;
    let ghost ls = byte_views(labels@);
    assert(goal == Some((ls, next as int)));
    while k < labels.len()
        invariant
            k <= labels@.len(),
            ls == byte_views(labels@),
            goal == name_from(msg@, start as int, 0, None, 0, Seq::empty()),
            goal == Some((ls, next as int)),
            forall|j: int| 0 <= j < k ==> valid_utf8(#[trigger] ls[j]),
            out@ == join(decoded(ls.take(k as int)), "."@),
        decreases labels.len() - k,
    {
        let ghost pre = out@;
        match utf8_string(labels[k].as_slice()) {
            None => {
                assert(ls[k as int] == labels@[k as int]@);
                return None;
            },
            Some(text) => {
                if k > 0 {
                    out.push('.');
                }
                let tv = chars_of(text.as_str());
                extend_chars(&mut out, tv.as_slice());
                assert(ls[k as int] == labels@[k as int]@);
                let ghost d = decoded(ls.take(k + 1));
                assert(d.drop_last() =~= decoded(ls.take(k as int)));
                assert(d.last() == decode_utf8(ls[k as int]));
                if k == 0 {
                    assert(d =~= seq![decode_utf8(ls[0])]);
                }
                assert(out@ =~= join(d, "."@)) by {
                    reveal_strlit(".");
                }
            },
        }
        k = k + 1;
    }
    assert(ls.take(k as int) =~= ls);
    Some((out, next))
}

/// Skips a name without keeping it, for the parts we do not need.
fn skip_name(msg: &[u8], start: usize) -> (r: Option<usize>)
    ensures
        match spec_read_name(msg@, start as int) {
            Some((_, next)) => r is Some && r.unwrap() == next,
            None => r is None,
        },
{
    match read_name(msg, start) {
        Some((_, next)) => Some(next),
        None => None,
    }
}

/// A character a hostname may hold: ASCII letters and digits, `.`, `-`, `_`.
pub open spec fn host_char(c: char) -> bool {
    ('a' <= c && c <= 'z') || ('A' <= c && c <= 'Z') || ('0' <= c && c <= '9') || c == '.' || c
        == '-' || c == '_'
}

pub open spec fn all_host_chars(t: Seq<char>) -> bool {
    forall|k: int| 0 <= k < t.len() ==> host_char(#[trigger] t[k])
}

/// The hostname kept from `name`: trailing dots dropped, then trimmed; it
/// must be non-empty, at most 253 characters, and made of `host_char`s only;
/// it is kept lower-cased.
pub open spec fn spec_acceptable_hostname(name: Seq<char>) -> Option<Seq<char>> {
    let t = trim(trim_end_char(name, '.'));
    if t.len() == 0 || t.len() > 253 || !all_host_chars(t) {
        None
    } else {
        Some(lower_seq(t))
    }
}

fn is_host_char(c: char) -> (b: bool)
    ensures
        b == host_char(c),
{
    ('a' <= c && c <= 'z') || ('A' <= c && c <= 'Z') || ('0' <= c && c <= '9') || c == '.' || c
        == '-' || c == '_'
}

fn acceptable_hostname_chars(name: &[char]) -> (r: Option<Vec<char>>)
    ensures
        match spec_acceptable_hostname(name@) {
            Some(h) => r is Some && r.unwrap()@ == h,
            None => r is None,
        },
{
    let stripped = trim_end_char_vec(name, '.');
    let trimmed = trimmed(stripped.as_slice());
    // Characters, not bytes: a name of more than 253 characters is refused
    // below either way, and one with a non-ASCII character fails the
    // character check whatever its byte length.
    if trimmed.len() == 0 || trimmed.len() > 253 {
        return None;
    }
    let mut k: usize = 0;
    while k < trimmed.len()
        invariant
            k <= trimmed@.len(),
            trimmed@ == trim(trim_end_char(name@, '.')),
            forall|j: int| 0 <= j < k ==> host_char(#[trigger] trimmed@[j]),
        decreases trimmed.len() - k,
    {
        if !is_host_char(trimmed[k]) {
            assert(!all_host_chars(trimmed@)) by {
                assert(trimmed@[k as int] == trimmed[k as int]);
            }
            return None;
        }
        k = k + 1;
    }
    Some(to_lower(trimmed.as_slice()))
}

/// A hostname we are willing to store and display.
///
/// A PTR record can contain any bytes at all. Restricting to the characters a
/// hostname may actually hold means nothing surprising reaches the database or
/// the page, regardless of what answered.
pub fn acceptable_hostname(name: &str) -> (r: Option<String>)
    ensures
        match spec_acceptable_hostname(name@) {
            Some(h) => r is Some && r.unwrap()@ == h,
            None => r is None,
        },
{
    let v = chars_of(name);
    match acceptable_hostname_chars(v.as_slice()) {
        Some(h) => Some(to_string(h.as_slice())),
        None => None,
    }
}

/// A character a stored hostname may hold: a lower-case ASCII letter, a
/// digit, a dot, a hyphen or an underscore.
pub open spec fn stored_host_char(c: char) -> bool {
    ('a' <= c && c <= 'z') || ('0' <= c && c <= '9') || c == '.' || c == '-' || c == '_'
}

/// A PTR answer is kept only as 1 to 253 characters of lower-case letters,
/// digits, dots, hyphens and underscores; and a name already of that form,
/// not ending in a dot, is kept exactly as it is.
pub proof fn lemma_kept_hostnames(name: Seq<char>)
    ensures
        spec_acceptable_hostname(name) matches Some(h) ==> 1 <= h.len() <= 253 && forall|k: int|
            0 <= k < h.len() ==> stored_host_char(#[trigger] h[k]),
        (1 <= name.len() <= 253 && name.last() != '.' && forall|k: int|
            0 <= k < name.len() ==> stored_host_char(#[trigger] name[k])) ==> spec_acceptable_hostname(name)
            == Some(name),
{
    let t = trim(trim_end_char(name, '.'));
    if spec_acceptable_hostname(name) is Some {
        let h = lower_seq(t);
        assert forall|k: int| 0 <= k < h.len() implies stored_host_char(#[trigger] h[k]) by {
            let c = t[k];
            assert(host_char(c));
            if 'A' <= c && c <= 'Z' {
                assert(h[k] == ((c as u32) + 32) as char);
                assert(97 <= (c as u32) + 32 <= 122);
            }
        }
    }
    if 1 <= name.len() <= 253 && name.last() != '.' && forall|k: int|
        0 <= k < name.len() ==> stored_host_char(#[trigger] name[k]) {
        assert(trim_end_char(name, '.') == name);
        assert(forall|k: int| 0 <= k < name.len() ==> !is_ws(#[trigger] name[k])) by {
            assert forall|k: int| 0 <= k < name.len() implies !is_ws(#[trigger] name[k]) by {
                assert(stored_host_char(name[k]));
            }
        }
        lemma_trim_no_ws(name);
        assert(all_host_chars(name)) by {
            assert forall|k: int| 0 <= k < name.len() implies host_char(#[trigger] name[k]) by {
                assert(stored_host_char(name[k]));
            }
        }
        assert(lower_seq(name) =~= name) by {
            assert forall|k: int| 0 <= k < name.len() implies lower_seq(name)[k] == name[k] by {
                assert(stored_host_char(name[k]));
            }
        }
    }
}

/// For a name with no whitespace in it, an accepted hostname is accepted
/// again unchanged: what is stored passes the check it was stored under.
pub proof fn lemma_acceptable_hostname_is_stable(name: Seq<char>)
    requires
        spec_acceptable_hostname(name) is Some,
        forall|k: int| 0 <= k < name.len() ==> !is_ws(#[trigger] name[k]),
    ensures
        spec_acceptable_hostname(spec_acceptable_hostname(name).unwrap()) == spec_acceptable_hostname(
            name,
        ),
{
    let u = trim_end_char(name, '.');
    lemma_trim_end_char_prefix(name, '.');
    assert(forall|k: int| 0 <= k < u.len() ==> !is_ws(#[trigger] u[k])) by {
        assert forall|k: int| 0 <= k < u.len() implies !is_ws(#[trigger] u[k]) by {
            assert(u[k] == name[k]);
        }
    }
    lemma_trim_no_ws(u);
    let t = trim(u);
    assert(t == u);
    let h = lower_seq(t);
    lemma_trim_end_char_last(name, '.');
    assert(all_host_chars(t));
    assert(forall|k: int| 0 <= k < h.len() ==> host_char(#[trigger] h[k]) && lower(h[k]) == h[k]
        && h[k] == lower(t[k])) by {
        assert forall|k: int| 0 <= k < h.len() implies host_char(#[trigger] h[k]) && lower(h[k])
            == h[k] && h[k] == lower(t[k]) by {
            assert(host_char(t[k]));
        }
    }
    assert(h.last() != '.');
    assert(trim_end_char(h, '.') == h);
    assert(forall|k: int| 0 <= k < h.len() ==> !is_ws(#[trigger] h[k])) by {
        assert forall|k: int| 0 <= k < h.len() implies !is_ws(#[trigger] h[k]) by {
            assert(host_char(h[k]));
        }
    }
    lemma_trim_no_ws(h);
    assert(lower_seq(h) =~= h);
}

proof fn lemma_trim_end_char_last(s: Seq<char>, c: char)
    ensures
        trim_end_char(s, c).len() > 0 ==> trim_end_char(s, c).last() != c,
    decreases s.len(),
{
    if s.len() > 0 && s.last() == c {
        lemma_trim_end_char_last(s.drop_last(), c);
    }
}

proof fn lemma_trim_end_char_prefix(s: Seq<char>, c: char)
    ensures
        trim_end_char(s, c) == s.take(trim_end_char(s, c).len() as int),
        trim_end_char(s, c).len() <= s.len(),
    decreases s.len(),
{
    if s.len() > 0 && s.last() == c {
        lemma_trim_end_char_prefix(s.drop_last(), c);
        assert(s.drop_last().take(trim_end_char(s, c).len() as int) =~= s.take(
            trim_end_char(s, c).len() as int,
        ));
    } else {
        assert(s.take(s.len() as int) =~= s);
    }
}

/// Text with no whitespace in it is its own trim.
proof fn lemma_trim_no_ws(s: Seq<char>)
    requires
        forall|k: int| 0 <= k < s.len() ==> !is_ws(#[trigger] s[k]),
    ensures
        trim(s) == s,
{
    if s.len() > 0 {
        assert(!is_ws(s[0]));
        assert(!is_ws(s[s.len() - 1]));
    }
}

/// Big-endian 16-bit value at `i`.
pub open spec fn be16(msg: Seq<u8>, i: int) -> nat {
    (msg[i] as nat) * 256 + (msg[i + 1] as nat)
}

/// The answers from `pos` on, `remaining` of them: the first PTR record's
/// name, if it is an acceptable hostname.
pub open spec fn ptr_in_answers(msg: Seq<u8>, pos: int, remaining: nat) -> Option<Seq<char>>
    decreases remaining,
{
    if remaining == 0 {
        None
    } else {
        match spec_read_name(msg, pos) {
            None => None,
            Some((_, p)) => if p < 0 || p + 9 >= msg.len() {
                None
            } else {
                let rtype = be16(msg, p);
                let rdlen = be16(msg, p + 8);
                let rdata = p + 10;
                if rdata + rdlen > msg.len() {
                    None
                } else if rtype == 12 {
                    match spec_read_name(msg, rdata) {
                        None => None,
                        Some((n, _)) => spec_acceptable_hostname(n),
                    }
                } else {
                    ptr_in_answers(msg, rdata + rdlen, (remaining - 1) as nat)
                }
            },
        }
    }
}

/// What `parse_ptr_response` accepts: a response (QR set) with no error code,
/// carrying our id, one question that is the name we asked about (ignoring
/// ASCII case and a trailing dot), and at least one answer; the result is the
/// first PTR answer's name, if it is an acceptable hostname.
pub open spec fn spec_parse_ptr_response(msg: Seq<u8>, expect_id: u16, expect_name: Seq<char>) -> Option<
    Seq<char>,
> {
    if msg.len() < 12 {
        None
    } else {
        let flags = be16(msg, 2);
        if be16(msg, 0) != expect_id || flags < 0x8000 || flags % 16 != 0 {
            None
        } else if be16(msg, 4) != 1 || be16(msg, 6) == 0 {
            None
        } else {
            match spec_read_name(msg, 12) {
                None => None,
                Some((asked, pos)) => if lower_seq(asked) != lower_seq(
                    trim_end_char(expect_name, '.'),
                ) {
                    None
                } else {
                    ptr_in_answers(msg, pos + 4, be16(msg, 6))
                },
            }
        }
    }
}

/// An answer is taken only from a successful response to the question that
/// was asked: our id, no error code, and the asked-about name (ignoring case
/// and a trailing dot) in the question. This, with the id, is what an
/// off-path forgery would have to guess.
pub proof fn lemma_answer_matches_question(msg: Seq<u8>, expect_id: u16, expect_name: Seq<char>)
    requires
        spec_parse_ptr_response(msg, expect_id, expect_name) is Some,
    ensures
        msg.len() >= 12,
        be16(msg, 0) == expect_id,
        be16(msg, 2) >= 0x8000 && be16(msg, 2) % 16 == 0,
        spec_read_name(msg, 12) matches Some((asked, _)) && lower_seq(asked) == lower_seq(
            trim_end_char(expect_name, '.'),
        ),
{
}

/// Every label of a name, as its dot-separated byte runs, holds 1 to 63
/// bytes: what the protocol can carry.
pub open spec fn labels_fit(name: Seq<u8>) -> bool {
    forall|k: int|
        0 <= k < split_bytes(name, 46).len() ==> 1 <= (#[trigger] split_bytes(name, 46)[k]).len() <= 63
}

proof fn lemma_split_bytes_shape(s: Seq<u8>)
    ensures
        split_bytes(s, 46).len() >= 1,
        find_byte(s, 46) < 0 ==> split_bytes(s, 46) == seq![s],
        find_byte(s, 46) >= 0 ==> split_bytes(s, 46)[0] == s.take(find_byte(s, 46))
            && split_bytes(s, 46).drop_first() == split_bytes(s.skip(find_byte(s, 46) + 1), 46),
{
    lemma_find_byte(s, 46);
    let i = find_byte(s, 46);
    if i >= 0 {
        assert((seq![s.take(i)] + split_bytes(s.skip(i + 1), 46)).drop_first() =~= split_bytes(s.skip(i + 1), 46));
    }
}

/// With every label at most 63 bytes, the encoded labels are one byte
/// longer than the name: a length byte per label stands in for each dot,
/// and one more for the first label.
proof fn lemma_encoded_labels_len(s: Seq<u8>)
    requires
        forall|k: int| 0 <= k < split_bytes(s, 46).len() ==> (#[trigger] split_bytes(s, 46)[k]).len() <= 63,
    ensures
        encode_labels(split_bytes(s, 46)).len() == s.len() + 1,
    decreases s.len(),
{
    lemma_find_byte(s, 46);
    lemma_split_bytes_shape(s);
    let i = find_byte(s, 46);
    let parts = split_bytes(s, 46);
    assert(parts[0].len() <= 63);
    let n = parts[0].len() as int;
    assert(parts[0].take(n) =~= parts[0]);
    assert(encode_labels(parts) == seq![n as u8] + parts[0].take(n) + encode_labels(parts.drop_first()));
    if i < 0 {
        assert(parts.drop_first() =~= Seq::<Seq<u8>>::empty());
        assert(encode_labels(parts.drop_first()) =~= Seq::<u8>::empty());
    } else {
        let rest = s.skip(i + 1);
        assert forall|k: int| 0 <= k < split_bytes(rest, 46).len() implies (#[trigger] split_bytes(rest, 46)[k]).len() <= 63 by {
            assert(split_bytes(rest, 46)[k] == parts.drop_first()[k]);
            assert(parts.drop_first()[k] == parts[k + 1]);
        }
        lemma_encoded_labels_len(rest);
        assert(parts[0].take(parts[0].len() as int) =~= parts[0]);
    }
}

/// A query's length is the name's plus 18: 12 bytes of header, a length
/// byte per label standing in for the dots, the root's zero byte, and 4
/// bytes of type and class.
pub proof fn lemma_query_len(id: u16, name: Seq<u8>)
    requires
        forall|k: int| 0 <= k < split_bytes(name, 46).len() ==> (#[trigger] split_bytes(name, 46)[k]).len() <= 63,
    ensures
        spec_encode_query(id, name).len() == name.len() + 18,
{
    lemma_encoded_labels_len(name);
}

proof fn lemma_read_encoded_labels(
    msg: Seq<u8>,
    pos: int,
    ls: Seq<Seq<u8>>,
    total: nat,
    acc: Seq<Seq<u8>>,
)
    requires
        0 <= pos,
        pos + encode_labels(ls).len() + 1 <= msg.len(),
        msg.subrange(pos, pos + encode_labels(ls).len() + 1) == encode_labels(ls) + seq![0u8],
        forall|k: int| 0 <= k < ls.len() ==> 1 <= (#[trigger] ls[k]).len() <= 63,
        total + encode_labels(ls).len() <= 255,
    ensures
        name_from(msg, pos, 0, None, total, acc) == Some((acc + ls, pos + encode_labels(ls).len() + 1)),
    decreases ls.len(),
{
    let e = encode_labels(ls);
    if ls.len() == 0 {
        assert(e =~= Seq::<u8>::empty());
        assert(msg[pos] == msg.subrange(pos, pos + 1)[0]);
        assert(acc + ls =~= acc);
    } else {
        let l = ls[0];
        let n = l.len() as int;
        assert(l.take(n) =~= l);
        let tail = ls.drop_first();
        let et = encode_labels(tail);
        assert(e == seq![n as u8] + l + et);
        let w = msg.subrange(pos, pos + e.len() + 1);
        assert(msg[pos] == w[0]);
        assert(w[0] == n as u8);
        assert(msg.subrange(pos + 1, pos + 1 + n) =~= l) by {
            assert forall|k: int| 0 <= k < n implies msg.subrange(pos + 1, pos + 1 + n)[k] == l[k] by {
                assert(msg.subrange(pos + 1, pos + 1 + n)[k] == msg[pos + 1 + k]);
                assert(msg[pos + 1 + k] == w[1 + k]);
            }
        }
        assert(msg.subrange(pos + 1 + n, pos + 1 + n + et.len() + 1) =~= et + seq![0u8]) by {
            assert forall|k: int| 0 <= k < et.len() + 1 implies msg.subrange(pos + 1 + n, pos + 1 + n + et.len() + 1)[k] == (et + seq![0u8])[k] by {
                assert(msg[pos + 1 + n + k] == w[1 + n + k]);
            }
        }
        assert forall|k: int| 0 <= k < tail.len() implies 1 <= (#[trigger] tail[k]).len() <= 63 by {
            assert(tail[k] == ls[k + 1]);
        }
        lemma_read_encoded_labels(msg, pos + 1 + n, tail, (total + n + 1) as nat, acc.push(l));
        assert(acc.push(l) + tail =~= acc + ls);
    }
}

/// Reading back the name of a query gives the labels it was written from and
/// the offset just past them, when every label holds 1 to 63 bytes and the
/// name is at most 254 bytes long.
pub proof fn lemma_query_name_reads_back(id: u16, name: Seq<u8>)
    requires
        labels_fit(name),
        name.len() <= 254,
    ensures
        name_from(spec_encode_query(id, name), 12, 0, None, 0, Seq::empty()) == Some(
            (split_bytes(name, 46), 12 + name.len() as int + 2),
        ),
{
    let ls = split_bytes(name, 46);
    lemma_encoded_labels_len(name);
    let e = encode_labels(ls);
    let q = spec_encode_query(id, name);
    let hdr = seq![(id / 256) as u8, (id % 256) as u8, 1u8, 0u8, 0u8, 1u8, 0u8, 0u8, 0u8, 0u8, 0u8, 0u8];
    assert(q == hdr + e + seq![0u8, 0u8, 12u8, 0u8, 1u8]);
    assert(q.subrange(12, 12 + e.len() as int + 1) =~= e + seq![0u8]) by {
        assert forall|k: int| 0 <= k < e.len() + 1 implies q.subrange(12, 12 + e.len() as int + 1)[k] == (e + seq![0u8])[k] by {
            assert(q[12 + k] == (e + seq![0u8, 0u8, 12u8, 0u8, 1u8])[k]);
        }
    }
    lemma_read_encoded_labels(q, 12, ls, 0, Seq::empty());
    assert(Seq::<Seq<u8>>::empty() + ls =~= ls);
}

/// Cutting well-formed UTF-8 at its dots leaves well-formed labels, and
/// their characters joined with dots are the text again: a dot is a
/// one-byte character, and no longer character's encoding holds its byte.
proof fn lemma_split_utf8(b: Seq<u8>)
    requires
        valid_utf8(b),
    ensures
        all_utf8(split_bytes(b, 46)),
        join(decoded(split_bytes(b, 46)), "."@) == decode_utf8(b),
    decreases b.len(),
{
    lemma_find_byte(b, 46);
    lemma_split_bytes_shape(b);
    let i = find_byte(b, 46);
    let parts = split_bytes(b, 46);
    if i < 0 {
        assert(decoded(parts) =~= seq![decode_utf8(b)]);
    } else {
        is_char_boundary_iff_not_is_continuation_byte(b, i);
        valid_utf8_split(b, i);
        decode_utf8_split(b, i);
        let head = b.subrange(0, i);
        let c = b.subrange(i, b.len() as int);
        let rest = b.skip(i + 1);
        assert(head =~= b.take(i));
        assert(c[0] == 46u8);
        assert(c.subrange(1, c.len() as int) =~= rest);
        assert(46u8 & 0x7Fu8 == 46u8) by (bit_vector);
        assert(valid_utf8(rest));
        assert(decode_utf8(c) == seq!['.'] + decode_utf8(rest));
        lemma_split_utf8(rest);
        assert(parts =~= seq![head] + split_bytes(rest, 46));
        assert forall|k: int| 0 <= k < parts.len() implies valid_utf8(#[trigger] parts[k]) by {
            if k > 0 {
                assert(parts[k] == split_bytes(rest, 46)[k - 1]);
            }
        }
        assert(decoded(parts) =~= seq![decode_utf8(head)] + decoded(split_bytes(rest, 46)));
        lemma_join_cons(decode_utf8(head), decoded(split_bytes(rest, 46)), "."@);
        reveal_strlit(".");
        assert(decode_utf8(b) =~= decode_utf8(head) + "."@ + join(decoded(split_bytes(rest, 46)), "."@));
    }
}

/// A query's name reads back as the text it was written from, with the
/// stream continuing just past it, when every label holds 1 to 63 bytes and
/// the name is at most 254 bytes.
pub proof fn lemma_query_round_trip(id: u16, name: Seq<char>)
    requires
        labels_fit(encode_utf8(name)),
        encode_utf8(name).len() <= 254,
    ensures
        spec_read_name(spec_encode_query(id, encode_utf8(name)), 12) == Some(
            (name, 12 + encode_utf8(name).len() as int + 2),
        ),
{
    let b = encode_utf8(name);
    lemma_query_name_reads_back(id, b);
    encode_utf8_valid_utf8(name);
    encode_utf8_decode_utf8(name);
    lemma_split_utf8(b);
}

/// The wire size of labels read so far: each label and its length byte.
pub open spec fn label_sizes(ls: Seq<Seq<u8>>) -> int
    decreases ls.len(),
{
    if ls.len() == 0 {
        0
    } else {
        label_sizes(ls.drop_last()) + ls.last().len() + 1
    }
}

proof fn lemma_name_from_bounds(
    msg: Seq<u8>,
    pos: int,
    jumps: nat,
    resume: Option<int>,
    total: nat,
    labels: Seq<Seq<u8>>,
)
    requires
        resume matches Some(r) ==> r <= msg.len(),
        total == label_sizes(labels),
        total <= 255,
    ensures
        name_from(msg, pos, jumps, resume, total, labels) matches Some((ls, next)) ==> next
            <= msg.len() && label_sizes(ls) <= 255,
    decreases 17 - jumps, msg.len() - pos,
{
    if jumps > 16 || pos < 0 || pos >= msg.len() {
    } else {
        let len = msg[pos];
        if len >= 0xC0 {
            if pos + 1 >= msg.len() {
            } else {
                let target = (len - 0xC0) * 256 + msg[pos + 1];
                let resume2 = match resume {
                    Some(r) => Some(r),
                    None => Some(pos + 2),
                };
                if jumps + 1 > 16 || target >= msg.len() {
                } else {
                    lemma_name_from_bounds(msg, target, jumps + 1, resume2, total, labels);
                }
            }
        } else if len >= 0x40 {
        } else if len == 0 {
        } else {
            let from = pos + 1;
            let to = from + len;
            if to > msg.len() || total + len + 1 > 255 {
            } else {
                let l = msg.subrange(from, to);
                assert(labels.push(l).drop_last() =~= labels);
                lemma_name_from_bounds(msg, to, jumps, resume, (total + len + 1) as nat, labels.push(l));
            }
        }
    }
}

proof fn lemma_decode_len(b: Seq<u8>)
    requires
        valid_utf8(b),
    ensures
        decode_utf8(b).len() <= b.len(),
    decreases b.len(),
{
    if b.len() > 0 {
        let k = vstd::utf8::length_of_first_scalar(b);
        assert(1 <= k <= b.len());
        let rest = vstd::utf8::pop_first_scalar(b);
        assert(rest.len() == b.len() - k);
        lemma_decode_len(rest);
    }
}

proof fn lemma_join_len(parts: Seq<Seq<char>>, labels: Seq<Seq<u8>>)
    requires
        parts.len() == labels.len(),
        labels.len() >= 1,
        forall|k: int| 0 <= k < parts.len() ==> (#[trigger] parts[k]).len() <= labels[k].len(),
    ensures
        join(parts, "."@).len() <= label_sizes(labels) - 1,
    decreases parts.len(),
{
    reveal_strlit(".");
    assert(labels.last() == labels[labels.len() - 1]);
    if parts.len() == 1 {
        assert(labels.drop_last() =~= Seq::<Seq<u8>>::empty());
        assert(label_sizes(labels.drop_last()) == 0);
        assert(join(parts, "."@) == parts[0]);
    } else {
        assert forall|k: int| 0 <= k < parts.drop_last().len() implies (
        #[trigger] parts.drop_last()[k]).len() <= labels.drop_last()[k].len() by {
            assert(parts.drop_last()[k] == parts[k]);
            assert(labels.drop_last()[k] == labels[k]);
        }
        lemma_join_len(parts.drop_last(), labels.drop_last());
        assert(parts.last() == parts[parts.len() - 1]);
        assert(join(parts, "."@) == join(parts.drop_last(), "."@) + "."@ + parts.last());
    }
}

/// A name read from a message never claims more than the message holds: the
/// stream continues at most at its end, and the name is at most 254
/// characters, whatever the bytes and the starting offset.
pub proof fn lemma_read_name_bounds(msg: Seq<u8>, start: int)
    ensures
        spec_read_name(msg, start) matches Some((name, next)) ==> next <= msg.len() && name.len()
            <= 254,
{
    lemma_name_from_bounds(msg, start, 0, None, 0, Seq::empty());
    match name_from(msg, start, 0, None, 0, Seq::empty()) {
        Some((ls, next)) => {
            if all_utf8(ls) && ls.len() > 0 {
                let parts = decoded(ls);
                assert forall|k: int| 0 <= k < parts.len() implies (#[trigger] parts[k]).len()
                    <= ls[k].len() by {
                    assert(valid_utf8(ls[k]));
                    lemma_decode_len(ls[k]);
                }
                lemma_join_len(parts, ls);
            } else if ls.len() == 0 {
                assert(decoded(ls) =~= Seq::<Seq<char>>::empty());
            }
        },
        None => {},
    }
}

/// Where a name's labels lead from `pos` without following a pointer: the
/// first zero byte or pointer (or malformed length) reached, label after
/// label.
pub open spec fn label_walk(msg: Seq<u8>, pos: int) -> int
    decreases msg.len() - pos,
{
    if pos < 0 || pos >= msg.len() || msg[pos] == 0 || msg[pos] >= 0x40 || pos + 1 + msg[pos]
        > msg.len() {
        pos
    } else {
        label_walk(msg, pos + 1 + msg[pos])
    }
}

proof fn lemma_resume_sticks(msg: Seq<u8>, pos: int, jumps: nat, r: int, total: nat, labels: Seq<Seq<u8>>)
    ensures
        name_from(msg, pos, jumps, Some(r), total, labels) matches Some((_, next)) ==> next == r,
    decreases 17 - jumps, msg.len() - pos,
{
    if jumps > 16 || pos < 0 || pos >= msg.len() {
    } else {
        let len = msg[pos];
        if len >= 0xC0 {
            if pos + 1 < msg.len() {
                let target = (len - 0xC0) * 256 + msg[pos + 1];
                if !(jumps + 1 > 16 || target >= msg.len()) {
                    lemma_resume_sticks(msg, target, jumps + 1, r, total, labels);
                }
            }
        } else if len < 0x40 && len != 0 {
            let to = pos + 1 + len;
            if !(to > msg.len() || total + len + 1 > 255) {
                lemma_resume_sticks(msg, to, jumps, r, (total + len + 1) as nat, labels.push(msg.subrange(pos + 1, to)));
            }
        }
    }
}

proof fn lemma_next_after_walk(msg: Seq<u8>, pos: int, jumps: nat, total: nat, labels: Seq<Seq<u8>>)
    ensures
        name_from(msg, pos, jumps, None, total, labels) matches Some((_, next)) ==> {
            let e = label_walk(msg, pos);
            &&& 0 <= e < msg.len()
            &&& (msg[e] == 0 && next == e + 1) || (msg[e] >= 0xC0 && next == e + 2)
        },
    decreases msg.len() - pos,
{
    if jumps > 16 || pos < 0 || pos >= msg.len() {
    } else {
        let len = msg[pos];
        if len >= 0xC0 {
            if pos + 1 < msg.len() {
                let target = (len - 0xC0) * 256 + msg[pos + 1];
                if !(jumps + 1 > 16 || target >= msg.len()) {
                    lemma_resume_sticks(msg, target, jumps + 1, pos + 2, total, labels);
                }
            }
        } else if len < 0x40 && len != 0 {
            let to = pos + 1 + len;
            if !(to > msg.len() || total + len + 1 > 255) {
                lemma_next_after_walk(msg, to, jumps, (total + len + 1) as nat, labels.push(msg.subrange(pos + 1, to)));
            }
        }
    }
}

/// Where reading a name leaves the stream, and how long the name is in
/// bytes: the stream continues just past the first pointer followed, or
/// past the terminating zero byte when no pointer was; and the labels with
/// the dots between them take at most 254 bytes.
pub proof fn lemma_read_name_position(msg: Seq<u8>, start: int)
    ensures
        name_from(msg, start, 0, None, 0, Seq::empty()) matches Some((labels, next)) ==> {
            let e = label_walk(msg, start);
            &&& 0 <= e < msg.len()
            &&& (msg[e] == 0 && next == e + 1) || (msg[e] >= 0xC0 && next == e + 2)
            &&& label_sizes(labels) <= 255
        },
        spec_read_name(msg, start) matches Some((_, next)) ==> {
            let e = label_walk(msg, start);
            (msg[e] == 0 && next == e + 1) || (msg[e] >= 0xC0 && next == e + 2)
        },
{
    lemma_next_after_walk(msg, start, 0, 0, Seq::empty());
    lemma_name_from_bounds(msg, start, 0, None, 0, Seq::empty());
}

proof fn lemma_self_pointer_never_ends(msg: Seq<u8>, p: int, jumps: nat, resume: Option<int>, total: nat, labels: Seq<Seq<u8>>)
    requires
        0 <= p,
        p + 1 < msg.len(),
        msg[p] >= 0xC0,
        (msg[p] - 0xC0) * 256 + msg[p + 1] == p,
    ensures
        name_from(msg, p, jumps, resume, total, labels) is None,
    decreases 17 - jumps,
{
    if jumps <= 16 && jumps + 1 <= 16 {
        let resume2 = match resume {
            Some(r) => Some(r),
            None => Some(p + 2),
        };
        lemma_self_pointer_never_ends(msg, p, jumps + 1, resume2, total, labels);
    }
}

/// Pointers are followed at most 16 times: a pointer to itself, which would
/// be followed for ever, reads as no name at all.
pub proof fn lemma_pointer_loop_reads_as_nothing(msg: Seq<u8>, p: int)
    requires
        0 <= p,
        p + 1 < msg.len(),
        msg[p] >= 0xC0,
        (msg[p] - 0xC0) * 256 + msg[p + 1] == p,
    ensures
        spec_read_name(msg, p) is None,
{
    lemma_self_pointer_never_ends(msg, p, 0, None, 0, Seq::empty());
}

/// How an IPv4 address is classified, by its octets: 127/8 is loopback,
/// 169.254/16 link-local, 100.64/10 the Tailscale (CGNAT) range, the
/// RFC 1918 blocks 10/8, 172.16/12 and 192.168/16 LAN, and every other
/// address public.
pub proof fn lemma_ipv4_kinds(a: Ipv4Addr)
    ensures
        ({
            let o = a.octets@;
            let k = spec_classify(IpAddr::V4(a));
            &&& o[0] == 127 ==> k == Kind::Loopback
            &&& o[0] == 169 && o[1] == 254 ==> k == Kind::LinkLocal
            &&& o[0] == 100 && 64 <= o[1] <= 127 ==> k == Kind::Cgnat
            &&& o[0] == 10 ==> k == Kind::Private
            &&& o[0] == 172 && 16 <= o[1] <= 31 ==> k == Kind::Private
            &&& o[0] == 192 && o[1] == 168 ==> k == Kind::Private
            &&& !(o[0] == 127 || (o[0] == 169 && o[1] == 254) || (o[0] == 100 && 64 <= o[1] <= 127)
                || o[0] == 10 || (o[0] == 172 && 16 <= o[1] <= 31) || (o[0] == 192 && o[1] == 168))
                ==> k == Kind::Public
        }),
{
}

/// How an IPv6 address that does not wrap an IPv4 one is classified: `::1`
/// is loopback, fe80::/10 link-local, fc00::/7 (unique local) LAN, and
/// every other address public.
pub proof fn lemma_ipv6_kinds(a: Ipv6Addr)
    requires
        !(a.segments[0] == 0 && a.segments[1] == 0 && a.segments[2] == 0 && a.segments[3] == 0
            && a.segments[4] == 0 && a.segments[5] == 0xffff),
    ensures
        ({
            let g = a.segments@;
            let k = spec_classify(IpAddr::V6(a));
            &&& (g[0] == 0 && g[1] == 0 && g[2] == 0 && g[3] == 0 && g[4] == 0 && g[5] == 0 && g[6] == 0 && g[7] == 1) ==> k == Kind::Loopback
            &&& 0xfe80 <= g[0] <= 0xfebf ==> k == Kind::LinkLocal
            &&& 0xfc00 <= g[0] <= 0xfdff ==> k == Kind::Private
            &&& !((g[0] == 0 && g[1] == 0 && g[2] == 0 && g[3] == 0 && g[4] == 0 && g[5] == 0 && g[6] == 0 && g[7] == 1)
                || 0xfe80 <= g[0] <= 0xfebf || 0xfc00 <= g[0] <= 0xfdff) ==> k == Kind::Public
        }),
{
}

/// An IPv6 address that wraps an IPv4 one (`::ffff:a.b.c.d`) is treated as
/// that IPv4 address: it is classified, and reverse-named, as a.b.c.d.
pub proof fn lemma_v4_mapped_is_its_v4(a: Ipv6Addr)
    requires
        a.segments[0] == 0 && a.segments[1] == 0 && a.segments[2] == 0 && a.segments[3] == 0
            && a.segments[4] == 0 && a.segments[5] == 0xffff,
    ensures
        ({
            let v4 = IpAddr::V4(
                Ipv4Addr {
                    octets: [
                        (a.segments[6] / 256) as u8,
                        (a.segments[6] % 256) as u8,
                        (a.segments[7] / 256) as u8,
                        (a.segments[7] % 256) as u8,
                    ],
                },
            );
            &&& spec_classify(IpAddr::V6(a)) == spec_classify(v4)
            &&& spec_reverse_name(IpAddr::V6(a)) == spec_reverse_name(v4)
        }),
{
}

/// Nibble `i` of an IPv6 address, counted from the most significant end:
/// bits 4i to 4i+3 of the 128.
pub open spec fn v6_nibble(seg: Seq<u16>, i: int) -> nat {
    let s = seg[i / 4] as nat;
    if i % 4 == 0 {
        s / 4096
    } else if i % 4 == 1 {
        (s / 256) % 16
    } else if i % 4 == 2 {
        (s / 16) % 16
    } else {
        s % 16
    }
}

proof fn lemma_nibbles_reversed_at(o: Seq<u8>, j: int)
    requires
        0 <= j < o.len(),
    ensures
        nibbles_reversed(o).len() == 4 * o.len(),
        nibbles_reversed(o)[4 * j] == hex_lower_char((o[o.len() - 1 - j] % 16) as nat),
        nibbles_reversed(o)[4 * j + 1] == '.',
        nibbles_reversed(o)[4 * j + 2] == hex_lower_char((o[o.len() - 1 - j] / 16) as nat),
        nibbles_reversed(o)[4 * j + 3] == '.',
    decreases o.len(),
{
    lemma_nibbles_reversed_len(o.drop_last());
    let lo = (o.last() % 16) as nat;
    let hi = (o.last() / 16) as nat;
    assert(hex_lower(lo) == seq![hex_lower_char(lo)]);
    assert(hex_lower(hi) == seq![hex_lower_char(hi)]);
    if j > 0 {
        lemma_nibbles_reversed_at(o.drop_last(), j - 1);
        assert(o.drop_last()[o.len() - 1 - j] == o[o.len() - 1 - j]);
    }
}

proof fn lemma_nibbles_reversed_len(o: Seq<u8>)
    ensures
        nibbles_reversed(o).len() == 4 * o.len(),
    decreases o.len(),
{
    if o.len() > 0 {
        lemma_nibbles_reversed_len(o.drop_last());
        let lo = (o.last() % 16) as nat;
        let hi = (o.last() / 16) as nat;
        assert(hex_lower(lo) == seq![hex_lower_char(lo)]);
        assert(hex_lower(hi) == seq![hex_lower_char(hi)]);
    }
}

/// The `ip6.arpa` name of an IPv6 address lists its 32 nibbles least
/// significant first, each one hex digit followed by a dot, then
/// `ip6.arpa` (RFC 3596).
pub proof fn lemma_ip6_arpa_nibble_order(a: Ipv6Addr)
    requires
        !(a.segments[0] == 0 && a.segments[1] == 0 && a.segments[2] == 0 && a.segments[3] == 0
            && a.segments[4] == 0 && a.segments[5] == 0xffff),
    ensures
        ({
            let n = spec_reverse_name(IpAddr::V6(a));
            &&& n.len() == 64 + 8
            &&& forall|k: int|
                0 <= k < 32 ==> n[2 * k] == hex_lower_char(#[trigger] v6_nibble(a.segments@, 31 - k))
                    && n[2 * k + 1] == '.'
            &&& n.skip(64) == "ip6.arpa"@
        }),
{
    reveal_strlit("ip6.arpa");
    let g = a.segments@;
    let o = v6_octets(g);
    let n = spec_reverse_name(IpAddr::V6(a));
    lemma_nibbles_reversed_len(o);
    assert(n == nibbles_reversed(o) + "ip6.arpa"@);
    assert forall|k: int|
        0 <= k < 32 implies n[2 * k] == hex_lower_char(#[trigger] v6_nibble(g, 31 - k)) && n[2 * k + 1] == '.' by {
        let j = k / 2;
        lemma_nibbles_reversed_at(o, j);
        let i = 31 - k;
        let m = 15 - j;
        let s = g[i / 4] as nat;
        assert(o[m] == if m % 2 == 0 { (g[m / 2] / 256) as u8 } else { (g[m / 2] % 256) as u8 });
        assert(m / 2 == i / 4);
        if m % 2 == 0 {
            assert(s / 256 < 256) by (nonlinear_arith)
                requires s < 65536;
            assert(o[m] as nat == s / 256);
        } else {
            assert(o[m] as nat == s % 256);
        }
        let b = o[m] as nat;
        if k % 2 == 0 {
            assert(2 * k == 4 * j);
            if m % 2 == 0 {
                assert(i % 4 == 1);
                assert(b % 16 == (s / 256) % 16);
            } else {
                assert(i % 4 == 3);
                assert(b % 16 == s % 16) by (nonlinear_arith)
                    requires b == s % 256, s < 65536;
            }
        } else {
            assert(2 * k == 4 * j + 2);
            if m % 2 == 0 {
                assert(i % 4 == 0);
                assert(b / 16 == s / 4096) by (nonlinear_arith)
                    requires b == s / 256, s < 65536;
            } else {
                assert(i % 4 == 2);
                assert(b / 16 == (s / 16) % 16) by (nonlinear_arith)
                    requires b == s % 256, s < 65536;
            }
        }
    }
    assert(n.skip(64) =~= "ip6.arpa"@);
}

/// The `in-addr.arpa` name of an IPv4 address lists its four octets in
/// decimal, last first (RFC 1035).
pub proof fn lemma_in_addr_arpa_octet_order(a: Ipv4Addr)
    ensures
        spec_reverse_name(IpAddr::V4(a)) == dec(a.octets[3] as nat) + "."@ + dec(a.octets[2] as nat) + "."@
            + dec(a.octets[1] as nat) + "."@ + dec(a.octets[0] as nat) + ".in-addr.arpa"@,
{
    reveal_strlit(".");
    assert(spec_reverse_name(IpAddr::V4(a)) =~= dec(a.octets[3] as nat) + "."@ + dec(a.octets[2] as nat) + "."@
            + dec(a.octets[1] as nat) + "."@ + dec(a.octets[0] as nat) + ".in-addr.arpa"@);
}

/// Pulls the first PTR name out of a response, or `None` if there is not one
/// we can trust.
pub fn parse_ptr_response(msg: &[u8], expect_id: u16, expect_name: &str) -> (r: Option<String>)
    ensures
        match spec_parse_ptr_response(msg@, expect_id, expect_name@) {
            Some(h) => r is Some && r.unwrap()@ == h,
            None => r is None,
        },
{
    if msg.len() < 12 {
        return None;
    }
    let id = (msg[0] as u16) * 256 + (msg[1] as u16);
    let flags = (msg[2] as u16) * 256 + (msg[3] as u16);
    assert((flags & 0x8000 == 0) == (flags < 0x8000)) by (bit_vector);
    assert((flags & 0x000F != 0) == (flags % 16 != 0)) by (bit_vector);
    if id != expect_id || flags & 0x8000 == 0 || flags & 0x000F != 0 {
        return None;
    }
    let questions = (msg[4] as u16) * 256 + (msg[5] as u16);
    let answers = (msg[6] as u16) * 256 + (msg[7] as u16);
    if questions != 1 || answers == 0 {
        return None;
    }
    // The question must be the one we asked. Combined with the id, this is
    // what makes an off-path forgery need to guess both.
    let (asked, qend) = match read_name(msg, 12) {
        Some(x) => x,
        None => {
            return None;
        },
    };
    let ev = chars_of(expect_name);
    let expected = trim_end_char_vec(ev.as_slice(), '.');
    let al = to_lower(asked.as_slice());
    let el = to_lower(expected.as_slice());
    if !chars_eq(al.as_slice(), el.as_slice()) {
        return None;
    }
    let mut pos: usize = match qend.checked_add(4) {
        Some(p) => p,
        None => {
            return None;
        },
    };  // qtype + qclass
    let mut remaining: u16 = answers;
    let ghost goal = ptr_in_answers(msg@, qend + 4, answers as nat);
    assert(spec_parse_ptr_response(msg@, expect_id, expect_name@) == goal);
    while remaining > 0
        invariant
            spec_parse_ptr_response(msg@, expect_id, expect_name@) == goal,
            goal == ptr_in_answers(msg@, pos as int, remaining as nat),
            goal == ptr_in_answers(msg@, qend + 4, answers as nat),
        decreases remaining,
    {
        let p = match skip_name(msg, pos) {
            Some(p) => p,
            None => {
                return None;
            },
        };
        if p >= msg.len() || msg.len() - p <= 9 {
            return None;
        }
        let rtype = (msg[p] as u16) * 256 + (msg[p + 1] as u16);
        let rdlen = (msg[p + 8] as usize) * 256 + (msg[p + 9] as usize);
        let rdata = p + 10;
        if rdata > msg.len() || rdlen > msg.len() - rdata {
            return None;
        }
        if rtype == 12 {
            return match read_name(msg, rdata) {
                Some((name, _)) => match acceptable_hostname_chars(name.as_slice()) {
                    Some(h) => Some(to_string(h.as_slice())),
                    None => None,
                },
                None => None,
            };
        }
        pos = rdata + rdlen;
        remaining = remaining - 1;
    }
    None
}

} // verus!
