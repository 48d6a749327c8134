//! Stored results: the rules the run history follows, whatever database
//! holds it.

use vstd::prelude::*;
use vstd::utf8::encode_utf8;
use crate::text::{chars_of, dec, extend_str, push_dec, to_string, trim, trimmed};
use crate::timestamp::{rfc3339_of_nanos, unix_nanos_rfc3339};

verus! {

broadcast use vstd::string::group_string_axioms;

/// Submissions larger than this are refused outright.
pub const MAX_SUMMARY_BYTES: usize = 524288;

/// A sample blob larger than this is dropped and the run kept without it.
pub const MAX_POINTS_BYTES: usize = 262144;

/// The smallest and largest number of runs one history request returns.
pub const MIN_LIMIT: u32 = 1;
pub const MAX_LIMIT: u32 = 1000;

/// The name a snapshot lands under, inside the configured directory.
pub fn snapshot_file() -> (s: String)
    ensures
        s@ == "history-backup.db"@,
{
    "history-backup.db".to_owned()
}

/// Where a snapshot is written before it is moved into place.
pub fn snapshot_temp_file() -> (s: String)
    ensures
        s@ == "history-backup.db.tmp"@,
{
    "history-backup.db.tmp".to_owned()
}

/// `Some("")` is how a remembered miss is stored; it is not a name. Nor is
/// any other value that is only whitespace.
pub fn non_empty(value: Option<String>) -> (r: Option<String>)
    ensures
        match value {
            Some(s) => if trim(s@).len() > 0 {
                r == Some(s)
            } else {
                r is None
            },
            None => r is None,
        },
{
    match value {
        Some(s) => {
            let t = trimmed(chars_of(s.as_str()).as_slice());
            if t.len() > 0 {
                Some(s)
            } else {
                None
            }
        },
        None => None,
    }
}

/// How many runs a history request may return: the asked-for number, kept
/// within 1 and 1000.
pub fn clamp_limit(limit: u32) -> (r: u32)
    ensures
        r == if limit < MIN_LIMIT {
            MIN_LIMIT
        } else if limit > MAX_LIMIT {
            MAX_LIMIT
        } else {
            limit
        },
{
    if limit < MIN_LIMIT {
        MIN_LIMIT
    } else if limit > MAX_LIMIT {
        MAX_LIMIT
    } else {
        limit
    }
}

/// Which of the headline figures a submitted summary carries.
#[derive(Clone, Copy, Debug)]
pub struct Measured {
    pub download: bool,
    pub upload: bool,
    pub latency: bool,
    pub jitter: bool,
}

impl Measured {
    /// A run with none of the headline figures is a bug or a probe, not a
    /// measurement, and is refused rather than stored.
    pub fn is_empty(&self) -> (b: bool)
        ensures
            b == (!self.download && !self.upload && !self.latency && !self.jitter),
    {
        !self.download && !self.upload && !self.latency && !self.jitter
    }
}

/// The sample blob as stored: kept when it serialised and fits, else `{}` —
/// the measurement succeeded, and losing it over the size of its detail
/// would not be an improvement.
pub fn points_to_store(serialised: Option<String>) -> (r: String)
    ensures
        r@ == match serialised {
            Some(j) => if encode_utf8(j@).len() <= MAX_POINTS_BYTES {
                j@
            } else {
                "{}"@
            },
            None => "{}"@,
        },
{
    match serialised {
        Some(j) => {
            if j.as_str().as_bytes().len() <= MAX_POINTS_BYTES {
                j
            } else {
                "{}".to_owned()
            }
        },
        None => "{}".to_owned(),
    }
}

/// The message for a submission over the size limit.
pub fn too_large_message(bytes: usize, limit: usize) -> (m: String)
    ensures
        m@ == "result payload is "@ + dec(bytes as nat) + " bytes, limit is "@ + dec(
            limit as nat,
        ),
{
    let mut out: Vec<char> = Vec::new();
    extend_str(&mut out, "result payload is ");
    push_dec(&mut out, bytes as u64);
    extend_str(&mut out, " bytes, limit is ");
    push_dec(&mut out, limit as u64);
    to_string(out.as_slice())
}

/// The message for a submission with nothing in it.
pub fn nothing_measured_message() -> (m: String)
    ensures
        m@ == "the result contains no measurements at all — refusing to store an empty run"@,
{
    "the result contains no measurements at all — refusing to store an empty run".to_owned()
}

/// What a prune actually removed, measured rather than assumed.
#[derive(Clone, Copy, Debug, Default, PartialEq, Eq)]
pub struct Pruned {
    pub runs_deleted: usize,
    pub samples_cleared: usize,
    /// How much smaller the database got, measured before and after.
    pub bytes_reclaimed: u64,
}

impl Pruned {
    /// Whether the pass did anything worth reporting.
    pub fn changed_anything(&self) -> (b: bool)
        ensures
            b == (self.runs_deleted > 0 || self.samples_cleared > 0 || self.bytes_reclaimed > 0),
    {
        self.runs_deleted > 0 || self.samples_cleared > 0 || self.bytes_reclaimed > 0
    }
}

/// How much smaller a database got: never negative, since a database that
/// grew in the meantime reclaimed nothing.
pub fn reclaimed(before: u64, after: u64) -> (r: u64)
    ensures
        r == if before > after {
            before - after
        } else {
            0
        },
{
    before.saturating_sub(after)
}

/// The size of a database from its page count and page size, a negative
/// reading counting as zero.
pub fn file_bytes(pages: i64, page_size: i64) -> (r: u64)
    ensures
        r == (if pages > 0 { pages as int } else { 0 }) * (if page_size > 0 {
            page_size as int
        } else {
            0
        }) || (r == u64::MAX && (if pages > 0 { pages as int } else { 0 }) * (if page_size
            > 0 {
            page_size as int
        } else {
            0
        }) > u64::MAX),
{
    let p: u64 = if pages > 0 {
        pages as u64
    } else {
        0
    };
    let s: u64 = if page_size > 0 {
        page_size as u64
    } else {
        0
    };
    match p.checked_mul(s) {
        Some(v) => v,
        None => u64::MAX,
    }
}

/// Distinct clients seen, most recently active first.
#[derive(Clone, Debug)]
pub struct ClientSummary {
    pub client_ip: String,
    /// A name someone chose.
    pub client_name: Option<String>,
    /// A name from reverse DNS.
    pub hostname: Option<String>,
    pub runs: i64,
    pub last_seen: String,
}

/// Whether the maintenance pass runs at all: when either retention window
/// is set or a snapshot directory is configured.
pub fn maintenance_wanted(runs_days: u32, samples_days: u32, snapshots: bool) -> (b: bool)
    ensures
        b == (runs_days > 0 || samples_days > 0 || snapshots),
{
    runs_days > 0 || samples_days > 0 || snapshots
}

/// How many days back a retention window reaches, or `None` when it keeps
/// everything.
pub fn retention_window(days: u32) -> (r: Option<u32>)
    ensures
        days == 0 ==> r is None,
        days > 0 ==> r == Some(days),
{
    if days == 0 {
        None
    } else {
        Some(days)
    }
}

/// Nanoseconds in a day.
pub open spec fn day_nanos() -> int {
    86_400_000_000_000
}

/// The earliest instant the `time` crate represents, -9999-01-01T00:00:00Z,
/// in nanoseconds since the Unix epoch. Going back past it panics there.
pub open spec fn earliest_nanos() -> int {
    -377_705_116_800_000_000_000
}

/// Whether a retention window of `days` reaches back no further than the
/// earliest instant there is, counted from `now_nanos`.
pub fn window_reachable(now_nanos: i128, days: u32) -> (b: bool)
    ensures
        b == (now_nanos - days * day_nanos() >= earliest_nanos()),
{
    let back: i128 = days as i128 * 86_400_000_000_000;
    assert(back == days * day_nanos()) by (nonlinear_arith)
        requires
            back == days as i128 * 86_400_000_000_000,
    ;
    now_nanos >= -377_705_116_800_000_000_000 + back
}

/// The instant `days` days before `now_nanos`, as RFC 3339 text: where a
/// retention window ends. `None` for a window of zero, which keeps
/// everything, or when the instant cannot be written.
pub fn cutoff(now_nanos: i128, days: u32) -> (r: Option<String>)
    requires
        now_nanos - days * day_nanos() >= earliest_nanos(),
    ensures
        days == 0 ==> r is None,
        days > 0 ==> match r {
            Some(s) => unix_nanos_rfc3339(now_nanos - days * day_nanos()) == Some(s@),
            None => unix_nanos_rfc3339(now_nanos - days * day_nanos()) is None,
        },
{
    match retention_window(days) {
        None => None,
        Some(d) => {
            let back: i128 = d as i128 * 86_400_000_000_000;
            assert(back == days * day_nanos()) by (nonlinear_arith)
                requires
                    back == d as i128 * 86_400_000_000_000,
                    d == days,
            ;
            rfc3339_of_nanos(now_nanos - back)
        },
    }
}

} // verus!
