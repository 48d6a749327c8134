//! RFC 3339 timestamps, as stored with every run.

use vstd::prelude::*;

verus! {

/// The instant an RFC 3339 timestamp names, in nanoseconds since the Unix
/// epoch, or `None` when the text is not RFC 3339.
pub uninterp spec fn rfc3339_unix_nanos(s: Seq<char>) -> Option<i128>;

/// `time::OffsetDateTime::parse` with the `Rfc3339` format, read back as
/// `unix_timestamp_nanos`. Trusted to be a function of the text alone; what
/// it computes is named by `rfc3339_unix_nanos` and not stated further.
#[verifier::external_body]
fn parse_rfc3339_nanos(s: &str) -> (r: Option<i128>)
    ensures
        r == rfc3339_unix_nanos(s@),
{
    match time::OffsetDateTime::parse(s, &time::format_description::well_known::Rfc3339) {
        Ok(t) => Some(t.unix_timestamp_nanos()),
        Err(_) => None,
    }
}

/// Whole seconds, rounded towards negative infinity.
pub open spec fn floor_seconds(nanos: int) -> int {
    nanos / 1_000_000_000
}

/// The timestamp's Unix time in nanoseconds.
pub fn unix_nanos(s: &str) -> (r: Option<i128>)
    ensures
        r == rfc3339_unix_nanos(s@),
{
    parse_rfc3339_nanos(s)
}

/// The timestamp's Unix time in whole seconds, or `None` if it will not parse.
pub fn unix_seconds(s: &str) -> (r: Option<i128>)
    ensures
        r == match rfc3339_unix_nanos(s@) {
            Some(n) => Some(floor_seconds(n as int) as i128),
            None => None,
        },
{
    match parse_rfc3339_nanos(s) {
        Some(n) => Some(seconds_of(n)),
        None => None,
    }
}

/// Floor division of nanoseconds into seconds.
pub fn seconds_of(n: i128) -> (r: i128)
    ensures
        r == floor_seconds(n as int),
{
    if n >= 0 {
        let q: i128 = n / 1_000_000_000;
        q
    } else {
        let m: i128 = -(n + 1);
        let q: i128 = m / 1_000_000_000;
        assert(-q - 1 == (n as int) / 1_000_000_000) by (nonlinear_arith)
            requires
                m == -(n + 1),
                m >= 0,
                q == m / 1_000_000_000,
        ;
        -q - 1
    }
}

/// The RFC 3339 text of an instant given in nanoseconds since the Unix
/// epoch, in UTC, or `None` when it cannot be written.
pub uninterp spec fn unix_nanos_rfc3339(n: int) -> Option<Seq<char>>;

/// `time::OffsetDateTime::from_unix_timestamp_nanos`, written with `format`
/// and the `Rfc3339` description. Trusted to be a function of the instant
/// alone; what it writes is named by `unix_nanos_rfc3339` and not stated
/// further.
#[verifier::external_body]
fn format_rfc3339_nanos(n: i128) -> (r: Option<String>)
    ensures
        match r {
            Some(s) => unix_nanos_rfc3339(n as int) == Some(s@),
            None => unix_nanos_rfc3339(n as int) is None,
        },
{
    match time::OffsetDateTime::from_unix_timestamp_nanos(n) {
        Ok(t) => t.format(&time::format_description::well_known::Rfc3339).ok(),
        Err(_) => None,
    }
}

/// An instant in nanoseconds as RFC 3339 text, in UTC.
pub fn rfc3339_of_nanos(n: i128) -> (r: Option<String>)
    ensures
        match r {
            Some(s) => unix_nanos_rfc3339(n as int) == Some(s@),
            None => unix_nanos_rfc3339(n as int) is None,
        },
{
    format_rfc3339_nanos(n)
}

} // verus!
