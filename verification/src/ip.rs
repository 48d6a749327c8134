//! IP addresses and socket addresses, with the text forms that the standard
//! library's `FromStr` implementations accept.
//!
//! The grammars are stated over the colon- or dot-separated fields of the
//! text, which is how the address notations themselves are defined.

use vstd::prelude::*;

use crate::text::{
    all_digits, chars_of, digits_value, hex_of, hex_value, is_digit_char, is_hex, is_hex_char,
    find_char, find_char_from, parse_uint_range, slice_range, dec, push_dec, hex_lower,
    push_hex_lower, extend_str, split, split_chars, views,
};

verus! {

broadcast use vstd::array::group_array_axioms;

/// An IPv4 address, most significant octet first.
#[derive(Clone, Copy, Debug, PartialEq, Eq)]
pub struct Ipv4Addr {
    pub octets: [u8; 4],
}

/// An IPv6 address as its eight 16-bit segments, most significant first.
#[derive(Clone, Copy, Debug, PartialEq, Eq)]
pub struct Ipv6Addr {
    pub segments: [u16; 8],
}

#[derive(Clone, Copy, Debug, PartialEq, Eq)]
pub enum IpAddr {
    V4(Ipv4Addr),
    V6(Ipv6Addr),
}

/// An address and port; `scope_id` is the IPv6 zone and 0 for IPv4.
#[derive(Clone, Copy, Debug, PartialEq, Eq)]
pub struct SocketAddr {
    pub ip: IpAddr,
    pub port: u16,
    pub scope_id: u32,
}

/* --- models ---------------------------------------------------------------- */

/// The sixteen octets of an IPv6 address given by its segments.
pub open spec fn v6_octets(seg: Seq<u16>) -> Seq<u8> {
    Seq::new(16, |i: int| if i % 2 == 0 { (seg[i / 2] / 256) as u8 } else { (seg[i / 2] % 256) as u8 })
}

/// The octets of an address, four or sixteen of them.
pub open spec fn ip_octets(ip: IpAddr) -> Seq<u8> {
    match ip {
        IpAddr::V4(a) => a.octets@,
        IpAddr::V6(a) => v6_octets(a.segments@),
    }
}

pub open spec fn is_v4(ip: IpAddr) -> bool {
    ip is V4
}

/// `::ffff:a.b.c.d`, unwrapped to `a.b.c.d`.
pub open spec fn spec_to_ipv4_mapped(seg: Seq<u16>) -> Option<Seq<u8>> {
    if seg[0] == 0 && seg[1] == 0 && seg[2] == 0 && seg[3] == 0 && seg[4] == 0 && seg[5]
        == 0xffff {
        Some(seq![(seg[6] / 256) as u8, (seg[6] % 256) as u8, (seg[7] / 256) as u8, (seg[7] % 256) as u8])
    } else {
        None
    }
}

/// What `normalise` gives: a v4-mapped IPv6 address becomes the IPv4 address
/// it wraps; every other address is unchanged.
pub open spec fn spec_normalise(ip: IpAddr) -> IpAddr {
    match ip {
        IpAddr::V6(a) => match spec_to_ipv4_mapped(a.segments@) {
            Some(o) => IpAddr::V4(Ipv4Addr { octets: [o[0], o[1], o[2], o[3]] }),
            None => ip,
        },
        IpAddr::V4(_) => ip,
    }
}

impl Ipv6Addr {
    /// The address as sixteen octets.
    pub fn octets(&self) -> (o: [u8; 16])
        ensures
            o@ == v6_octets(self.segments@),
    {
        let s = self.segments;
        let o: [u8; 16] = [
            (s[0] / 256) as u8,
            (s[0] % 256) as u8,
            (s[1] / 256) as u8,
            (s[1] % 256) as u8,
            (s[2] / 256) as u8,
            (s[2] % 256) as u8,
            (s[3] / 256) as u8,
            (s[3] % 256) as u8,
            (s[4] / 256) as u8,
            (s[4] % 256) as u8,
            (s[5] / 256) as u8,
            (s[5] % 256) as u8,
            (s[6] / 256) as u8,
            (s[6] % 256) as u8,
            (s[7] / 256) as u8,
            (s[7] % 256) as u8,
        ];
        assert(o@ =~= v6_octets(self.segments@));
        o
    }

    /// `Ipv6Addr::to_ipv4_mapped`.
    pub fn to_ipv4_mapped(&self) -> (r: Option<Ipv4Addr>)
        ensures
            match spec_to_ipv4_mapped(self.segments@) {
                Some(o) => r is Some && r.unwrap().octets@ == o,
                None => r is None,
            },
    {
        let s = self.segments;
        if s[0] == 0 && s[1] == 0 && s[2] == 0 && s[3] == 0 && s[4] == 0 && s[5] == 0xffff {
            let o: [u8; 4] = [(s[6] / 256) as u8, (s[6] % 256) as u8, (s[7] / 256) as u8, (s[7]
                % 256) as u8];
            assert(o@ =~= spec_to_ipv4_mapped(self.segments@).unwrap());
            Some(Ipv4Addr { octets: o })
        } else {
            None
        }
    }
}

impl IpAddr {
    pub fn is_ipv4(&self) -> (b: bool)
        ensures
            b == is_v4(*self),
    {
        match self {
            IpAddr::V4(_) => true,
            IpAddr::V6(_) => false,
        }
    }

    /// The address as octets: four for IPv4, sixteen for IPv6.
    pub fn octet_vec(&self) -> (v: Vec<u8>)
        ensures
            v@ == ip_octets(*self),
    {
        match self {
            IpAddr::V4(a) => {
                let o = a.octets;
                let v = vec![o[0], o[1], o[2], o[3]];
                assert(v@ =~= o@);
                v
            },
            IpAddr::V6(a) => {
                let o = a.octets();
                let mut v: Vec<u8> = Vec::new();
                let mut i: usize = 0;
                while i < 16
                    invariant
                        i <= 16,
                        o@.len() == 16,
                        v@ == o@.subrange(0, i as int),
                    decreases 16 - i,
                {
                    v.push(o[i]);
                    assert(v@ =~= o@.subrange(0, i + 1));
                    i = i + 1;
                }
                assert(v@ =~= o@);
                v
            },
        }
    }
}

/// Unwraps `::ffff:a.b.c.d` so a v4 client behind a v6 socket is matched by v4
/// rules — otherwise every private-range check silently misses.
pub fn normalise(ip: IpAddr) -> (r: IpAddr)
    ensures
        r == spec_normalise(ip),
{
    match ip {
        IpAddr::V6(v6) => match v6.to_ipv4_mapped() {
            Some(v4) => {
                let ghost o = spec_to_ipv4_mapped(v6.segments@).unwrap();
                assert(v4.octets@ =~= [o[0], o[1], o[2], o[3]]@);
                assert(v4.octets == [o[0], o[1], o[2], o[3]]);
                IpAddr::V4(v4)
            },
            None => IpAddr::V6(v6),
        },
        v4 => v4,
    }
}

/* --- IPv4 text ------------------------------------------------------------- */

/// One field of a dotted quad: one to three decimal digits, no leading zero,
/// at most 255.
pub open spec fn octet_field_ok(t: Seq<char>) -> bool {
    &&& 1 <= t.len() <= 3
    &&& all_digits(t)
    &&& (t.len() == 1 || t[0] != '0')
    &&& digits_value(t) <= 255
}

/// The octets `Ipv4Addr::from_str` reads from `s`: exactly four dot-separated
/// fields, each a canonical decimal octet.
pub open spec fn spec_ipv4(s: Seq<char>) -> Option<Seq<u8>> {
    let f = split(s, '.');
    if f.len() == 4 && (forall|k: int| 0 <= k < 4 ==> octet_field_ok(#[trigger] f[k])) {
        Some(Seq::new(4, |k: int| digits_value(f[k]) as u8))
    } else {
        None
    }
}

/// Reads one decimal octet field.
fn parse_octet(t: &[char]) -> (r: Option<u8>)
    ensures
        match r {
            Some(n) => octet_field_ok(t@) && n == digits_value(t@),
            None => !octet_field_ok(t@),
        },
{
    let n = t.len();
    if n < 1 || n > 3 {
        return None;
    }
    if !is_digit_char(t[0]) {
        return None;
    }
    if n > 1 && t[0] == '0' {
        return None;
    }
    let r = parse_uint_range(t, 0, n, 255);
    assert(t@.subrange(0, n as int) =~= t@);
    match r {
        Some(v) => Some(v as u8),
        None => None,
    }
}

/// `Ipv4Addr::from_str`.
pub fn parse_ipv4(v: &[char]) -> (r: Option<Ipv4Addr>)
    ensures
        match spec_ipv4(v@) {
            Some(o) => r is Some && r.unwrap().octets@ == o,
            None => r is None,
        },
{
    let f = split_chars(v, '.');
    let ghost fs = split(v@, '.');
    assert(views(f@) == fs);
    if f.len() != 4 {
        return None;
    }
    assert(fs[0] == f[0]@ && fs[1] == f[1]@ && fs[2] == f[2]@ && fs[3] == f[3]@);
    let a = match parse_octet(f[0].as_slice()) {
        Some(x) => x,
        None => return None,
    };
    let b = match parse_octet(f[1].as_slice()) {
        Some(x) => x,
        None => return None,
    };
    let c = match parse_octet(f[2].as_slice()) {
        Some(x) => x,
        None => return None,
    };
    let d = match parse_octet(f[3].as_slice()) {
        Some(x) => x,
        None => return None,
    };
    let o: [u8; 4] = [a, b, c, d];
    assert(forall|k: int| 0 <= k < 4 ==> octet_field_ok(#[trigger] fs[k])) by {
        assert forall|k: int| 0 <= k < 4 implies octet_field_ok(#[trigger] fs[k]) by {
            if k == 0 {
            } else if k == 1 {
            } else if k == 2 {
            } else {
            }
        }
    }
    assert(o@ =~= spec_ipv4(v@).unwrap());
    Some(Ipv4Addr { octets: o })
}

/* --- IPv6 text ------------------------------------------------------------- */

pub open spec fn all_hex(t: Seq<char>) -> bool {
    forall|k: int| 0 <= k < t.len() ==> is_hex(#[trigger] t[k])
}

/// The value of a run of hexadecimal digits, most significant first.
pub open spec fn hex_digits_value(t: Seq<char>) -> nat
    decreases t.len(),
{
    if t.len() == 0 {
        0
    } else {
        hex_digits_value(t.drop_last()) * 16 + hex_value(t.last())
    }
}

/// One group of an IPv6 address: one to four hexadecimal digits, either case.
pub open spec fn hex_group_ok(t: Seq<char>) -> bool {
    1 <= t.len() <= 4 && all_hex(t)
}

pub open spec fn all_hex_groups(f: Seq<Seq<char>>) -> bool {
    forall|k: int| 0 <= k < f.len() ==> hex_group_ok(#[trigger] f[k])
}

pub open spec fn group_values(f: Seq<Seq<char>>) -> Seq<u16> {
    Seq::new(f.len(), |k: int| hex_digits_value(f[k]) as u16)
}

/// The 16-bit segments written by a run of non-empty fields: each a hex group,
/// except that the last may be a dotted IPv4 address standing for two.
pub open spec fn v6_pieces(f: Seq<Seq<char>>) -> Option<Seq<u16>> {
    if f.len() > 0 && spec_ipv4(f.last()) is Some {
        let o = spec_ipv4(f.last()).unwrap();
        if all_hex_groups(f.drop_last()) {
            Some(
                group_values(f.drop_last()) + seq![
                    (o[0] * 256 + o[1]) as u16,
                    (o[2] * 256 + o[3]) as u16,
                ],
            )
        } else {
            None
        }
    } else if all_hex_groups(f) {
        Some(group_values(f))
    } else {
        None
    }
}

/// Index of the first empty field, or -1.
pub open spec fn first_empty(f: Seq<Seq<char>>) -> int
    decreases f.len(),
{
    if f.len() == 0 {
        -1
    } else if f[0].len() == 0 {
        0
    } else {
        let r = first_empty(f.drop_first());
        if r < 0 {
            -1
        } else {
            r + 1
        }
    }
}

pub open spec fn zeros(n: nat) -> Seq<u16> {
    Seq::new(n, |i: int| 0u16)
}

/// The segments `Ipv6Addr::from_str` reads from `s`.
///
/// Split on `:`, the text is either eight segments' worth of non-empty fields
/// (the last may be a dotted IPv4 address), or it holds one `::`, which stands
/// for at least one zero segment: the fields before it are hex groups, the ones
/// after it may end in a dotted IPv4 address, and together they give at most
/// seven segments.
pub open spec fn spec_ipv6(s: Seq<char>) -> Option<Seq<u16>> {
    let f = split(s, ':');
    let k = first_empty(f);
    if k < 0 {
        match v6_pieces(f) {
            Some(p) => if p.len() == 8 {
                Some(p)
            } else {
                None
            },
            None => None,
        }
    } else if k == 0 && !(f.len() >= 2 && f[1].len() == 0) {
        None
    } else {
        let head = f.take(k);
        let rest = if k == 0 {
            f.skip(2)
        } else {
            f.skip(k + 1)
        };
        let tail = if rest =~= seq![Seq::<char>::empty()] {
            Seq::<Seq<char>>::empty()
        } else {
            rest
        };
        if rest.len() == 0 || first_empty(tail) >= 0 || !all_hex_groups(head) {
            None
        } else {
            match v6_pieces(tail) {
                Some(t) => if head.len() + t.len() <= 7 {
                    Some(group_values(head) + zeros((8 - head.len() - t.len()) as nat) + t)
                } else {
                    None
                },
                None => None,
            }
        }
    }
}

/// What `IpAddr::from_str` reads: an IPv4 address if the text is one, else IPv6.
pub open spec fn spec_ip(s: Seq<char>) -> Option<IpAddr> {
    match spec_ipv4(s) {
        Some(o) => Some(IpAddr::V4(Ipv4Addr { octets: [o[0], o[1], o[2], o[3]] })),
        None => match spec_ipv6(s) {
            Some(g) => Some(
                IpAddr::V6(Ipv6Addr { segments: [g[0], g[1], g[2], g[3], g[4], g[5], g[6], g[7]] }),
            ),
            None => None,
        },
    }
}

/// Reads one hex group.
fn parse_group(t: &[char]) -> (r: Option<u16>)
    ensures
        match r {
            Some(n) => hex_group_ok(t@) && n == hex_digits_value(t@),
            None => !hex_group_ok(t@),
        },
{
    let n = t.len();
    if n < 1 || n > 4 {
        return None;
    }
    let mut acc: u32 = 0;
    let mut i: usize = 0;
    while i < n
        invariant
            n == t@.len(),
            1 <= n <= 4,
            i <= n,
            acc == hex_digits_value(t@.take(i as int)),
            all_hex(t@.take(i as int)),
            i == 0 ==> acc < 1,
            i <= 1 ==> acc < 16,
            i <= 2 ==> acc < 256,
            i <= 3 ==> acc < 4096,
            acc < 65536,
        decreases n - i,
    {
        if !is_hex_char(t[i]) {
            assert(!all_hex(t@)) by {
                assert(t@[i as int] == t[i as int]);
            }
            return None;
        }
        let d = hex_of(t[i]);
        assert(t@.take(i + 1).drop_last() =~= t@.take(i as int));
        acc = acc * 16 + d;
        i = i + 1;
    }
    assert(t@.take(n as int) =~= t@);
    Some(acc as u16)
}

/// The hex groups `f[from..to]`, if every one of them is one.
fn parse_groups(f: &Vec<Vec<char>>, from: usize, to: usize) -> (r: Option<Vec<u16>>)
    requires
        from <= to <= f@.len(),
    ensures
        match r {
            Some(g) => all_hex_groups(views(f@).subrange(from as int, to as int)) && g@
                == group_values(views(f@).subrange(from as int, to as int)),
            None => !all_hex_groups(views(f@).subrange(from as int, to as int)),
        },
{
    let ghost fs = views(f@).subrange(from as int, to as int);
    let mut g: Vec<u16> = Vec::new();
    let mut i: usize = from;
    while i < to
        invariant
            from <= i <= to <= f@.len(),
            fs == views(f@).subrange(from as int, to as int),
            all_hex_groups(fs.take(i - from)),
            g@ == group_values(fs.take(i - from)),
        decreases to - i,
    {
        assert(fs[i - from] == f@[i as int]@);
        match parse_group(f[i].as_slice()) {
            Some(x) => {
                g.push(x);
                assert(g@ =~= group_values(fs.take(i - from + 1)));
                assert(all_hex_groups(fs.take(i - from + 1)));
            },
            None => {
                return None;
            },
        }
        i = i + 1;
    }
    assert(fs.take(i - from) =~= fs);
    Some(g)
}

/// The segments written by the non-empty fields `f[from..to]` (see `v6_pieces`).
fn parse_pieces(f: &Vec<Vec<char>>, from: usize, to: usize) -> (r: Option<Vec<u16>>)
    requires
        from <= to <= f@.len(),
    ensures
        match v6_pieces(views(f@).subrange(from as int, to as int)) {
            Some(p) => r is Some && r.unwrap()@ == p,
            None => r is None,
        },
{
    let ghost fs = views(f@).subrange(from as int, to as int);
    if from < to {
        assert(fs.last() == f@[to - 1]@);
        match parse_ipv4(f[to - 1].as_slice()) {
            Some(v4) => {
                assert(fs.drop_last() =~= views(f@).subrange(from as int, to - 1));
                match parse_groups(f, from, to - 1) {
                    Some(g) => {
                        let mut g = g;
                        let o = v4.octets;
                        g.push((o[0] as u16) * 256 + (o[1] as u16));
                        g.push((o[2] as u16) * 256 + (o[3] as u16));
                        assert(g@ =~= v6_pieces(fs).unwrap());
                        return Some(g);
                    },
                    None => {
                        return None;
                    },
                }
            },
            None => {},
        }
    }
    parse_groups(f, from, to)
}

pub proof fn lemma_first_empty(f: Seq<Seq<char>>)
    ensures
        -1 <= first_empty(f) < f.len(),
        first_empty(f) >= 0 ==> f[first_empty(f)].len() == 0,
        forall|k: int|
            0 <= k < f.len() && (first_empty(f) < 0 || k < first_empty(f)) ==> #[trigger] f[k].len()
                > 0,
    decreases f.len(),
{
    if f.len() > 0 {
        lemma_first_empty(f.drop_first());
        assert forall|k: int|
            0 <= k < f.len() && (first_empty(f) < 0 || k < first_empty(f)) implies #[trigger] f[k].len()
            > 0 by {
            if k > 0 {
                assert(f[k] == f.drop_first()[k - 1]);
            }
        }
    }
}

proof fn lemma_first_empty_is(f: Seq<Seq<char>>, i: int)
    requires
        -1 <= i <= f.len(),
        i >= 0 ==> i < f.len() && f[i].len() == 0,
        forall|k: int| 0 <= k < f.len() && (i < 0 || k < i) ==> #[trigger] f[k].len() > 0,
    ensures
        first_empty(f) == i,
    decreases f.len(),
{
    if f.len() > 0 && i != 0 {
        assert forall|k: int|
            0 <= k < f.len() - 1 && (i - 1 < 0 || k < i - 1) implies #[trigger] f.drop_first()[k].len()
            > 0 by {
            assert(f.drop_first()[k] == f[k + 1]);
        }
        if i < 0 {
            lemma_first_empty_is(f.drop_first(), -1);
        } else {
            lemma_first_empty_is(f.drop_first(), i - 1);
        }
    }
}

/// Index of the first empty field of `f[from..]`, if any.
fn find_empty(f: &Vec<Vec<char>>, from: usize) -> (r: Option<usize>)
    requires
        from <= f@.len(),
    ensures
        match r {
            Some(i) => from <= i < f@.len() && first_empty(views(f@).skip(from as int)) == i - from,
            None => first_empty(views(f@).skip(from as int)) == -1,
        },
{
    let ghost fs = views(f@).skip(from as int);
    let mut i: usize = from;
    while i < f.len()
        invariant
            from <= i <= f@.len(),
            fs == views(f@).skip(from as int),
            forall|k: int| from <= k < i ==> #[trigger] f@[k]@.len() > 0,
        decreases f.len() - i,
    {
        if f[i].len() == 0 {
            proof {
                assert forall|k: int|
                    0 <= k < fs.len() && (i - from < 0 || k < i - from) implies #[trigger] fs[k].len()
                    > 0 by {
                    assert(fs[k] == f@[k + from]@);
                }
                lemma_first_empty_is(fs, i - from);
            }
            return Some(i);
        }
        i = i + 1;
    }
    proof {
        assert forall|k: int| 0 <= k < fs.len() && (-1 < 0 || k < -1) implies #[trigger] fs[k].len()
            > 0 by {
            assert(fs[k] == f@[k + from]@);
        }
        lemma_first_empty_is(fs, -1);
    }
    None
}

fn to_segments(p: &Vec<u16>) -> (a: [u16; 8])
    requires
        p@.len() == 8,
    ensures
        a@ == p@,
{
    let a: [u16; 8] = [p[0], p[1], p[2], p[3], p[4], p[5], p[6], p[7]];
    assert(a@ =~= p@);
    a
}

/// `Ipv6Addr::from_str`.
#[verifier::rlimit(40)]
pub fn parse_ipv6(v: &[char]) -> (r: Option<Ipv6Addr>)
    ensures
        match spec_ipv6(v@) {
            Some(g) => r is Some && r.unwrap().segments@ == g,
            None => r is None,
        },
{
    let f = split_chars(v, ':');
    let ghost fs = split(v@, ':');
    assert(views(f@) == fs);
    assert(views(f@).skip(0) =~= fs);
    let n = f.len();
    assert(views(f@).subrange(0, n as int) =~= fs);
    match find_empty(&f, 0) {
        None => {
            match parse_pieces(&f, 0, n) {
                Some(p) => {
                    if p.len() == 8 {
                        Some(Ipv6Addr { segments: to_segments(&p) })
                    } else {
                        None
                    }
                },
                None => None,
            }
        },
        Some(k) => {
            if k == 0 && !(n >= 2 && f[1].len() == 0) {
                proof {
                    if n >= 2 {
                        assert(fs[1] == f@[1]@);
                    }
                }
                return None;
            }
            proof {
                if n >= 2 {
                    assert(fs[1] == f@[1]@);
                }
            }
            let rest_from = if k == 0 {
                2
            } else {
                k + 1
            };
            if rest_from >= n {
                return None;
            }
            let ghost head = fs.take(k as int);
            let ghost rest = fs.skip(rest_from as int);
            assert(rest.len() > 0);
            // The rest is a single empty field exactly when the text ends in `::`.
            let tail_from = if rest_from + 1 == n && f[rest_from].len() == 0 {
                n
            } else {
                rest_from
            };
            let ghost tail = fs.skip(tail_from as int);
            assert(rest[0] == f@[rest_from as int]@);
            proof {
                if rest_from + 1 == n && f@[rest_from as int]@.len() == 0 {
                    assert(rest[0] =~= Seq::<char>::empty());
                    assert(rest =~= seq![Seq::<char>::empty()]);
                    assert(tail =~= Seq::<Seq<char>>::empty());
                } else {
                    assert(!(rest =~= seq![Seq::<char>::empty()]));
                    assert(tail == rest);
                }
            }
            match find_empty(&f, tail_from) {
                Some(_) => {
                    return None;
                },
                None => {},
            }
            assert(views(f@).subrange(0, k as int) =~= head);
            let h = match parse_groups(&f, 0, k) {
                Some(h) => h,
                None => {
                    return None;
                },
            };
            assert(views(f@).subrange(tail_from as int, n as int) =~= tail);
            let t = match parse_pieces(&f, tail_from, n) {
                Some(t) => t,
                None => {
                    return None;
                },
            };
            if h.len() + t.len() > 7 {
                return None;
            }
            let mut p = h;
            let zero_count = 8 - p.len() - t.len();
            let ghost p0 = p@;
            let mut z: usize = 0;
            while z < zero_count
                invariant
                    z <= zero_count,
                    p@ == p0 + zeros(z as nat),
                decreases zero_count - z,
            {
                p.push(0);
                assert(p@ =~= p0 + zeros((z + 1) as nat));
                z = z + 1;
            }
            let ghost p1 = p@;
            let mut j: usize = 0;
            while j < t.len()
                invariant
                    j <= t@.len(),
                    p@ == p1 + t@.subrange(0, j as int),
                decreases t.len() - j,
            {
                p.push(t[j]);
                assert(p@ =~= p1 + t@.subrange(0, j + 1));
                j = j + 1;
            }
            assert(t@.subrange(0, t@.len() as int) =~= t@);
            assert(p@ =~= spec_ipv6(v@).unwrap());
            Some(Ipv6Addr { segments: to_segments(&p) })
        },
    }
}

/// `IpAddr::from_str`.
pub fn parse_ip(v: &[char]) -> (r: Option<IpAddr>)
    ensures
        r == spec_ip(v@),
{
    match parse_ipv4(v) {
        Some(a) => {
            let ghost o = spec_ipv4(v@).unwrap();
            assert(a.octets@ =~= [o[0], o[1], o[2], o[3]]@);
            assert(a.octets == [o[0], o[1], o[2], o[3]]);
            Some(IpAddr::V4(a))
        },
        None => match parse_ipv6(v) {
            Some(a) => {
                let ghost g = spec_ipv6(v@).unwrap();
                assert(a.segments@ =~= [g[0], g[1], g[2], g[3], g[4], g[5], g[6], g[7]]@);
                assert(a.segments == [g[0], g[1], g[2], g[3], g[4], g[5], g[6], g[7]]);
                Some(IpAddr::V6(a))
            },
            None => None,
        },
    }
}

impl IpAddr {
    /// `s.parse::<IpAddr>()`.
    pub fn parse(s: &str) -> (r: Option<IpAddr>)
        ensures
            r == spec_ip(s@),
    {
        let v = chars_of(s);
        parse_ip(v.as_slice())
    }
}

/* --- socket addresses ------------------------------------------------------ */

/// A decimal number of at least one digit no larger than `max`, leading zeros
/// allowed and no sign: how a port or a scope id is written.
pub open spec fn spec_unsigned_digits(t: Seq<char>, max: nat) -> Option<nat> {
    if t.len() > 0 && all_digits(t) && digits_value(t) <= max {
        Some(digits_value(t))
    } else {
        None
    }
}

pub open spec fn mk_v4(o: Seq<u8>) -> IpAddr {
    IpAddr::V4(Ipv4Addr { octets: [o[0], o[1], o[2], o[3]] })
}

pub open spec fn mk_v6(g: Seq<u16>) -> IpAddr {
    IpAddr::V6(Ipv6Addr { segments: [g[0], g[1], g[2], g[3], g[4], g[5], g[6], g[7]] })
}

/// `a.b.c.d:port`.
pub open spec fn spec_socket_v4(s: Seq<char>) -> Option<SocketAddr> {
    let i = find_char(s, ':');
    if i < 0 {
        None
    } else {
        match (spec_ipv4(s.take(i)), spec_unsigned_digits(s.skip(i + 1), 65535)) {
            (Some(o), Some(p)) => Some(SocketAddr { ip: mk_v4(o), port: p as u16, scope_id: 0 }),
            _ => None,
        }
    }
}

/// `[segments]:port` or `[segments%scope]:port`.
pub open spec fn spec_socket_v6(s: Seq<char>) -> Option<SocketAddr> {
    let j = find_char(s, ']');
    if s.len() == 0 || s[0] != '[' || j < 0 {
        None
    } else {
        let inside = s.subrange(1, j);
        let after = s.skip(j + 1);
        let pct = find_char(inside, '%');
        let addr = if pct < 0 {
            inside
        } else {
            inside.take(pct)
        };
        let scope = if pct < 0 {
            Some(0nat)
        } else {
            spec_unsigned_digits(inside.skip(pct + 1), 0xffff_ffff)
        };
        if after.len() == 0 || after[0] != ':' {
            None
        } else {
            match (spec_ipv6(addr), scope, spec_unsigned_digits(after.skip(1), 65535)) {
                (Some(g), Some(sc), Some(p)) => Some(
                    SocketAddr { ip: mk_v6(g), port: p as u16, scope_id: sc as u32 },
                ),
                _ => None,
            }
        }
    }
}

/// What `SocketAddr::from_str` reads: the IPv4 form if the text is one, else
/// the bracketed IPv6 form.
pub open spec fn spec_socket(s: Seq<char>) -> Option<SocketAddr> {
    match spec_socket_v4(s) {
        Some(a) => Some(a),
        None => spec_socket_v6(s),
    }
}

/// Reads `v[from..to]` as an unsigned decimal with no sign.
fn parse_unsigned_digits(v: &[char], from: usize, to: usize, max: u64) -> (r: Option<u64>)
    requires
        from <= to <= v@.len(),
    ensures
        match spec_unsigned_digits(v@.subrange(from as int, to as int), max as nat) {
            Some(n) => r == Some(n as u64),
            None => r is None,
        },
{
    if from == to {
        return None;
    }
    if !is_digit_char(v[from]) {
        assert(!all_digits(v@.subrange(from as int, to as int))) by {
            assert(v@.subrange(from as int, to as int)[0] == v@[from as int]);
        }
        return None;
    }
    assert(v@.subrange(from as int, to as int)[0] == v@[from as int]);
    parse_uint_range(v, from, to, max)
}

fn ipv4_at(v: &[char], from: usize, to: usize) -> (r: Option<Ipv4Addr>)
    requires
        from <= to <= v@.len(),
    ensures
        match spec_ipv4(v@.subrange(from as int, to as int)) {
            Some(o) => r is Some && r.unwrap().octets@ == o,
            None => r is None,
        },
{
    let t = slice_range(v, from, to);
    parse_ipv4(t.as_slice())
}

fn ipv6_at(v: &[char], from: usize, to: usize) -> (r: Option<Ipv6Addr>)
    requires
        from <= to <= v@.len(),
    ensures
        match spec_ipv6(v@.subrange(from as int, to as int)) {
            Some(g) => r is Some && r.unwrap().segments@ == g,
            None => r is None,
        },
{
    let t = slice_range(v, from, to);
    parse_ipv6(t.as_slice())
}

fn parse_socket_v4(v: &[char]) -> (r: Option<SocketAddr>)
    ensures
        r == spec_socket_v4(v@),
{
    let i = match find_char_from(v, ':', 0) {
        Some(i) => i,
        None => {
            assert(v@.skip(0) =~= v@);
            return None;
        },
    };
    assert(v@.skip(0) =~= v@);
    assert(i < v.len());
    assert(v@.take(i as int) =~= v@.subrange(0, i as int));
    assert(v@.skip(i + 1) =~= v@.subrange(i + 1, v@.len() as int));
    let a = ipv4_at(v, 0, i);
    let p = parse_unsigned_digits(v, i + 1, v.len(), 65535);
    match (a, p) {
        (Some(a), Some(p)) => {
            let ghost o = spec_ipv4(v@.take(i as int)).unwrap();
            assert(a.octets@ =~= [o[0], o[1], o[2], o[3]]@);
            assert(a.octets == [o[0], o[1], o[2], o[3]]);
            Some(SocketAddr { ip: IpAddr::V4(a), port: p as u16, scope_id: 0 })
        },
        _ => None,
    }
}

fn parse_socket_v6(v: &[char]) -> (r: Option<SocketAddr>)
    ensures
        r == spec_socket_v6(v@),
{
    assert(v@.skip(0) =~= v@);
    let j = match find_char_from(v, ']', 0) {
        Some(j) => j,
        None => {
            return None;
        },
    };
    if v.len() == 0 || v[0] != '[' {
        return None;
    }
    proof {
        crate::text::lemma_find_char(v@, ']');
    }
    let ghost inside = v@.subrange(1, j as int);
    let ghost after = v@.skip(j + 1);
    // Where the address ends: at a `%` inside the brackets, or at the bracket.
    let (addr_end, scope) = match find_char_from(v, '%', 1) {
        Some(p) if p < j => {
            proof {
                crate::text::lemma_find_char(v@.skip(1), '%');
                assert forall|k: int| 0 <= k < p - 1 implies inside[k] != '%' by {
                    assert(inside[k] == v@.skip(1)[k]);
                }
                crate::text::lemma_find_char_at(inside, '%', p - 1);
                assert(inside.skip(p - 1 + 1) =~= v@.subrange(p + 1, j as int));
            }
            (p, parse_unsigned_digits(v, p + 1, j, 0xffff_ffff))
        },
        _ => {
            proof {
                crate::text::lemma_find_char(v@.skip(1), '%');
                assert forall|k: int| 0 <= k < inside.len() implies inside[k] != '%' by {
                    assert(inside[k] == v@.skip(1)[k]);
                }
                crate::text::lemma_find_char_none(inside, '%');
            }
            (j, Some(0u64))
        },
    };
    assert(v@.subrange(1, addr_end as int) =~= (if find_char(inside, '%') < 0 {
        inside
    } else {
        inside.take(find_char(inside, '%'))
    }));
    if j + 1 >= v.len() || v[j + 1] != ':' {
        return None;
    }
    assert(after[0] == v@[j + 1]);
    assert(after.skip(1) =~= v@.subrange(j + 2, v@.len() as int));
    let a = ipv6_at(v, 1, addr_end);
    let p = parse_unsigned_digits(v, j + 2, v.len(), 65535);
    match (a, scope, p) {
        (Some(a), Some(sc), Some(p)) => {
            let ghost g = spec_ipv6(v@.subrange(1, addr_end as int)).unwrap();
            assert(a.segments@ =~= [g[0], g[1], g[2], g[3], g[4], g[5], g[6], g[7]]@);
            assert(a.segments == [g[0], g[1], g[2], g[3], g[4], g[5], g[6], g[7]]);
            Some(SocketAddr { ip: IpAddr::V6(a), port: p as u16, scope_id: sc as u32 })
        },
        _ => None,
    }
}

impl SocketAddr {
    /// `s.parse::<SocketAddr>()`.
    pub fn parse(s: &str) -> (r: Option<SocketAddr>)
        ensures
            r == spec_socket(s@),
    {
        let v = chars_of(s);
        match parse_socket_v4(v.as_slice()) {
            Some(a) => Some(a),
            None => parse_socket_v6(v.as_slice()),
        }
    }
}

/* --- text forms ------------------------------------------------------------ */

/// `a.b.c.d`, as `Ipv4Addr`'s `Display` writes it.
pub open spec fn ipv4_text(o: Seq<u8>) -> Seq<char> {
    dec(o[0] as nat) + seq!['.'] + dec(o[1] as nat) + seq!['.'] + dec(o[2] as nat) + seq!['.']
        + dec(o[3] as nat)
}

/// Segments in lower-case hex without leading zeros, colon-separated.
pub open spec fn hex_join(g: Seq<u16>) -> Seq<char>
    decreases g.len(),
{
    if g.len() == 0 {
        Seq::empty()
    } else if g.len() == 1 {
        hex_lower(g[0] as nat)
    } else {
        hex_join(g.drop_last()) + seq![':'] + hex_lower(g.last() as nat)
    }
}

/// How many zero segments start at `i`.
pub open spec fn zero_run(g: Seq<u16>, i: int) -> nat
    decreases g.len() - i,
{
    if 0 <= i < g.len() && g[i] == 0 {
        1 + zero_run(g, i + 1)
    } else {
        0
    }
}

/// The longest run of zero segments at or after `i`.
pub open spec fn max_run(g: Seq<u16>, i: int) -> nat
    decreases g.len() - i,
{
    if i < 0 || i >= g.len() {
        0
    } else {
        let here = zero_run(g, i);
        let later = max_run(g, i + 1);
        if here >= later {
            here
        } else {
            later
        }
    }
}

/// The first index at or after `i` where a run of `len` zero segments starts.
pub open spec fn first_run(g: Seq<u16>, len: nat, i: int) -> int
    decreases g.len() - i,
{
    if i < 0 || i >= g.len() {
        g.len() as int
    } else if zero_run(g, i) == len {
        i
    } else {
        first_run(g, len, i + 1)
    }
}

/// What `Ipv6Addr`'s `Display` writes: a v4-mapped address as
/// `::ffff:a.b.c.d`; otherwise the segments in hex, with the leftmost longest
/// run of two or more zero segments written as `::`.
pub open spec fn ipv6_text(g: Seq<u16>) -> Seq<char> {
    match spec_to_ipv4_mapped(g) {
        Some(o) => "::ffff:"@ + ipv4_text(o),
        None => {
            let len = max_run(g, 0);
            let start = first_run(g, len, 0);
            if len > 1 {
                hex_join(g.take(start)) + "::"@ + hex_join(g.skip(start + len))
            } else {
                hex_join(g)
            }
        },
    }
}

/// What `IpAddr`'s `Display` writes.
pub open spec fn ip_text(ip: IpAddr) -> Seq<char> {
    match ip {
        IpAddr::V4(a) => ipv4_text(a.octets@),
        IpAddr::V6(a) => ipv6_text(a.segments@),
    }
}

fn push_ipv4_text(out: &mut Vec<char>, o: &[u8; 4])
    ensures
        final(out)@ == old(out)@ + ipv4_text(o@),
{
    push_dec(out, o[0] as u64);
    out.push('.');
    push_dec(out, o[1] as u64);
    out.push('.');
    push_dec(out, o[2] as u64);
    out.push('.');
    push_dec(out, o[3] as u64);
    assert(out@ =~= old(out)@ + ipv4_text(o@));
}

/// Appends `hex_join(g[from..to])`.
fn push_hex_join(out: &mut Vec<char>, g: &[u16; 8], from: usize, to: usize)
    requires
        from <= to <= 8,
    ensures
        final(out)@ == old(out)@ + hex_join(g@.subrange(from as int, to as int)),
{
    let ghost o0 = out@;
    let mut i: usize = from;
    assert(g@.subrange(from as int, from as int) =~= Seq::<u16>::empty());
    while i < to
        invariant
            from <= i <= to <= 8,
            g@.len() == 8,
            out@ == o0 + hex_join(g@.subrange(from as int, i as int)),
        decreases to - i,
    {
        let ghost before = out@;
        if i > from {
            out.push(':');
        }
        push_hex_lower(out, g[i] as u64);
        let ghost sub = g@.subrange(from as int, i + 1);
        assert(sub.drop_last() =~= g@.subrange(from as int, i as int));
        if i == from {
            assert(sub =~= seq![g@[i as int]]);
        }
        assert(out@ =~= o0 + hex_join(sub));
        i = i + 1;
    }
}

proof fn lemma_run_bounds(g: Seq<u16>, i: int)
    requires
        0 <= i <= g.len(),
    ensures
        i + zero_run(g, i) <= g.len(),
        forall|k: int| i <= k < i + zero_run(g, i) ==> g[k] == 0,
    decreases g.len() - i,
{
    if i < g.len() {
        lemma_run_bounds(g, i + 1);
    }
}

proof fn lemma_first_run(g: Seq<u16>, len: nat, i: int)
    requires
        0 <= i,
    ensures
        first_run(g, len, i) <= g.len(),
        first_run(g, len, i) >= 0,
        first_run(g, len, i) < g.len() ==> zero_run(g, first_run(g, len, i)) == len,
    decreases g.len() - i,
{
    if i < g.len() && zero_run(g, i) != len {
        lemma_first_run(g, len, i + 1);
    }
}

proof fn lemma_max_run_attained(g: Seq<u16>, i: int)
    requires
        0 <= i,
        max_run(g, i) > 0,
    ensures
        first_run(g, max_run(g, i), i) < g.len(),
    decreases g.len() - i,
{
    if i < g.len() && zero_run(g, i) < max_run(g, i + 1) {
        lemma_max_run_attained(g, i + 1);
    }
}

impl Ipv6Addr {
    /// The text `Display` writes for this address.
    pub fn text(&self) -> (t: Vec<char>)
        ensures
            t@ == ipv6_text(self.segments@),
    {
        let mut out: Vec<char> = Vec::new();
        if let Some(v4) = self.to_ipv4_mapped() {
            extend_str(&mut out, "::ffff:");
            push_ipv4_text(&mut out, &v4.octets);
            return out;
        }
        let g = self.segments;
        let ghost gs = g@;
        // Zero runs, computed from the right.
        let mut runs: Vec<usize> = vec![0, 0, 0, 0, 0, 0, 0, 0, 0];
        let mut i: usize = 8;
        while i > 0
            invariant
                i <= 8,
                gs == g@,
                gs.len() == 8,
                runs@.len() == 9,
                runs@[8] == 0,
                forall|k: int| i <= k <= 8 ==> #[trigger] runs@[k] == zero_run(gs, k),
                forall|k: int| i <= k <= 8 ==> runs@[k] + k <= 8,
            decreases i,
        {
            i = i - 1;
            proof {
                lemma_run_bounds(gs, i + 1);
            }
            assert(runs@[i + 1] == zero_run(gs, i + 1));
            assert(g[i as int] == gs[i as int]);
            if g[i] == 0 {
                let r = runs[i + 1] + 1;
                runs.set(i, r);
            } else {
                runs.set(i, 0);
            }
            assert(runs@[i as int] == zero_run(gs, i as int));
        }
        assert(runs@[8] == zero_run(gs, 8));
        // The longest, and the leftmost of those, scanning from the right.
        let mut best: usize = 0;
        let mut start: usize = 8;
        let mut j: usize = 8;
        while j > 0
            invariant
                j <= 8,
                gs.len() == 8,
                runs@.len() == 9,
                forall|k: int| 0 <= k <= 8 ==> #[trigger] runs@[k] == zero_run(gs, k),
                best == max_run(gs, j as int),
                start == first_run(gs, best as nat, j as int),
            decreases j,
        {
            j = j - 1;
            let r = runs[j];
            if r >= best {
                best = r;
                start = j;
            }
            assert(best == max_run(gs, j as int));
            assert(start == first_run(gs, best as nat, j as int)) by {
                if r < best {
                    assert(zero_run(gs, j as int) != best);
                }
            }
        }
        proof {
            lemma_first_run(gs, best as nat, 0);
            lemma_run_bounds(gs, start as int);
            if best > 0 {
                lemma_max_run_attained(gs, 0);
            }
        }
        if best > 1 {
            assert(start < 8);
            assert(start + best <= 8);
            push_hex_join(&mut out, &g, 0, start);
            extend_str(&mut out, "::");
            push_hex_join(&mut out, &g, start + best, 8);
            assert(gs.subrange(0, start as int) =~= gs.take(start as int));
            assert(gs.subrange(start + best, 8) =~= gs.skip(start + best));
        } else {
            push_hex_join(&mut out, &g, 0, 8);
            assert(gs.subrange(0, 8) =~= gs);
        }
        out
    }
}

impl IpAddr {
    /// The text `Display` writes for this address.
    pub fn text(&self) -> (t: Vec<char>)
        ensures
            t@ == ip_text(*self),
    {
        match self {
            IpAddr::V4(a) => {
                let mut out: Vec<char> = Vec::new();
                push_ipv4_text(&mut out, &a.octets);
                out
            },
            IpAddr::V6(a) => a.text(),
        }
    }

    /// `ip.to_string()`.
    pub fn to_string(&self) -> (s: String)
        ensures
            s@ == ip_text(*self),
    {
        let t = self.text();
        crate::text::to_string(t.as_slice())
    }
}

} // verus!
