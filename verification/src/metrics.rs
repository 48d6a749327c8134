//! `/metrics`, in Prometheus text exposition format.
//!
//! What it exports is the most recent run per client, not the history. Units
//! follow the Prometheus convention: seconds rather than milliseconds and a
//! ratio rather than a percentage.
//!
//! A figure that a run did not measure is omitted rather than exported as
//! zero: zero packet loss and no packet-loss stage are different claims. The
//! figures reach this module already written in exposition form; deciding
//! which runs carry which figure, and writing each row, happens here.

use vstd::prelude::*;
use crate::text::{
    chars_of, chars_eq_str, dec, dec_int, extend_chars, extend_str, key_names,
    lemma_names_in_order_distinct, names_in_order, push_dec, to_string, push_dec_i128,
    contains_sub, occurs_at,
};
use crate::timestamp::{floor_seconds, rfc3339_unix_nanos, unix_seconds};

verus! {

broadcast use vstd::string::group_string_axioms;

/* --- label values ---------------------------------------------------------- */

/// What a character becomes inside a quoted label value.
pub open spec fn escape_char(c: char) -> Seq<char> {
    if c == '\\' {
        seq!['\\', '\\']
    } else if c == '"' {
        seq!['\\', '"']
    } else if c == '\n' {
        seq!['\\', 'n']
    } else {
        seq![c]
    }
}

/// A label value with backslash, double quote and newline escaped, and
/// nothing else touched.
pub open spec fn escape_seq(s: Seq<char>) -> Seq<char>
    decreases s.len(),
{
    if s.len() == 0 {
        Seq::empty()
    } else {
        escape_seq(s.drop_last()) + escape_char(s.last())
    }
}

/// Escapes a label value: backslash, double quote and newline, per the
/// exposition format.
pub fn escape(value: &str) -> (r: String)
    ensures
        r@ == escape_seq(value@),
{
    let v = chars_of(value);
    let mut out: Vec<char> = Vec::new();
    let mut i: usize = 0;
    while i < v.len()
        invariant
            i <= v@.len(),
            v@ == value@,
            out@ == escape_seq(v@.take(i as int)),
        decreases v.len() - i,
    {
        assert(v@.take(i + 1).drop_last() =~= v@.take(i as int));
        let c = v[i];
        if c == '\\' {
            out.push('\\');
            out.push('\\');
        } else if c == '"' {
            out.push('\\');
            out.push('"');
        } else if c == '\n' {
            out.push('\\');
            out.push('n');
        } else {
            out.push(c);
        }
        assert(out@ =~= escape_seq(v@.take(i + 1)));
        i = i + 1;
    }
    assert(v@.take(v@.len() as int) =~= v@);
    to_string(out.as_slice())
}

/* --- the runs -------------------------------------------------------------- */

/// The most recent run of one client, with each figure already written as
/// the exposition value, or `None` when the run has no finite value for it.
#[derive(Clone, Debug)]
pub struct MetricRun {
    pub client_ip: String,
    /// A name someone chose.
    pub client_name: Option<String>,
    /// A name from reverse DNS.
    pub hostname: Option<String>,
    pub profile: String,
    /// RFC 3339.
    pub recorded_at: String,
    /// Bits per second.
    pub download: Option<String>,
    pub upload: Option<String>,
    /// Seconds.
    pub latency: Option<String>,
    pub down_loaded_latency: Option<String>,
    pub up_loaded_latency: Option<String>,
    pub jitter: Option<String>,
    /// 0 to 1.
    pub packet_loss: Option<String>,
    /// `(loaded - idle) / idle` in each direction.
    pub bufferbloat_down: Option<String>,
    pub bufferbloat_up: Option<String>,
    /// Each AIM experience and the classification it got, each experience
    /// once and in name order (`scores_in_order`, kept by `insert_named`).
    pub scores: Vec<(String, String)>,
}

impl MetricRun {
    /// Each experience scored once, in name order: what a map keyed by
    /// experience holds.
    pub open spec fn scores_in_order(self) -> bool {
        names_in_order(key_names(self.scores@))
    }
}

/// The per-run figures exported as a family of their own.
#[derive(Clone, Copy, Debug, PartialEq, Eq, Structural)]
pub enum Figure {
    Download,
    Upload,
    Latency,
    DownLoadedLatency,
    UpLoadedLatency,
    Jitter,
    PacketLoss,
    Timestamp,
}

pub open spec fn opt_view(o: Option<String>) -> Option<Seq<char>> {
    match o {
        Some(s) => Some(s@),
        None => None,
    }
}

/// A run's value for a figure. The timestamp is the run's Unix time in whole
/// seconds, absent when its `recorded_at` does not parse.
pub open spec fn figure_value(run: MetricRun, f: Figure) -> Option<Seq<char>> {
    match f {
        Figure::Download => opt_view(run.download),
        Figure::Upload => opt_view(run.upload),
        Figure::Latency => opt_view(run.latency),
        Figure::DownLoadedLatency => opt_view(run.down_loaded_latency),
        Figure::UpLoadedLatency => opt_view(run.up_loaded_latency),
        Figure::Jitter => opt_view(run.jitter),
        Figure::PacketLoss => opt_view(run.packet_loss),
        Figure::Timestamp => match rfc3339_unix_nanos(run.recorded_at@) {
            Some(n) => Some(dec_int(floor_seconds(n as int))),
            None => None,
        },
    }
}

fn opt_chars(o: &Option<String>) -> (r: Option<Vec<char>>)
    ensures
        match r {
            Some(v) => opt_view(*o) == Some(v@),
            None => opt_view(*o) is None,
        },
{
    match o {
        Some(s) => Some(chars_of(s.as_str())),
        None => None,
    }
}

fn value_of(run: &MetricRun, f: Figure) -> (r: Option<Vec<char>>)
    ensures
        match r {
            Some(v) => figure_value(*run, f) == Some(v@),
            None => figure_value(*run, f) is None,
        },
{
    match f {
        Figure::Download => opt_chars(&run.download),
        Figure::Upload => opt_chars(&run.upload),
        Figure::Latency => opt_chars(&run.latency),
        Figure::DownLoadedLatency => opt_chars(&run.down_loaded_latency),
        Figure::UpLoadedLatency => opt_chars(&run.up_loaded_latency),
        Figure::Jitter => opt_chars(&run.jitter),
        Figure::PacketLoss => opt_chars(&run.packet_loss),
        Figure::Timestamp => match unix_seconds(run.recorded_at.as_str()) {
            Some(secs) => {
                let mut v: Vec<char> = Vec::new();
                push_dec_i128(&mut v, secs);
                assert(v@ =~= dec_int(secs as int));
                Some(v)
            },
            None => None,
        },
    }
}

/// The name shown beside the address: a chosen name, else a resolved one,
/// else nothing.
pub open spec fn display_name(run: MetricRun) -> Seq<char> {
    match run.client_name {
        Some(n) => n@,
        None => match run.hostname {
            Some(h) => h@,
            None => Seq::empty(),
        },
    }
}

/// A run's identity as labels. The address is always present and always the
/// same string, so a series survives a client being renamed; the friendly
/// name rides alongside it rather than replacing it.
pub open spec fn labels_of(run: MetricRun) -> Seq<char> {
    "client=\""@ + escape_seq(run.client_ip@) + "\",name=\""@ + escape_seq(display_name(run))
        + "\",profile=\""@ + escape_seq(run.profile@) + "\""@
}

fn labels(run: &MetricRun) -> (r: Vec<char>)
    ensures
        r@ == labels_of(*run),
{
    let name: &str = match &run.client_name {
        Some(n) => n.as_str(),
        None => match &run.hostname {
            Some(h) => h.as_str(),
            None => "",
        },
    };
    proof {
        reveal_strlit("");
    }
    let mut out: Vec<char> = Vec::new();
    extend_str(&mut out, "client=\"");
    extend_str(&mut out, escape(run.client_ip.as_str()).as_str());
    extend_str(&mut out, "\",name=\"");
    extend_str(&mut out, escape(name).as_str());
    extend_str(&mut out, "\",profile=\"");
    extend_str(&mut out, escape(run.profile.as_str()).as_str());
    extend_str(&mut out, "\"");
    assert(out@ =~= labels_of(*run));
    out
}

/* --- families -------------------------------------------------------------- */

/// The `# HELP` and `# TYPE` lines of a gauge.
pub open spec fn header(name: Seq<char>, help: Seq<char>) -> Seq<char> {
    "# HELP "@ + name + " "@ + help + "\n"@ + "# TYPE "@ + name + " gauge\n"@
}

/// One line per run that has the figure.
pub open spec fn family_rows(name: Seq<char>, runs: Seq<MetricRun>, f: Figure) -> Seq<char>
    decreases runs.len(),
{
    if runs.len() == 0 {
        Seq::empty()
    } else {
        family_rows(name, runs.drop_last(), f) + match figure_value(runs.last(), f) {
            Some(v) => name + "{"@ + labels_of(runs.last()) + "} "@ + v + "\n"@,
            None => Seq::empty(),
        }
    }
}

/// A family: the header, then the rows, or nothing at all when no run has
/// the figure.
pub open spec fn family_text(name: Seq<char>, help: Seq<char>, runs: Seq<MetricRun>, f: Figure) -> Seq<char> {
    if family_rows(name, runs, f).len() > 0 {
        header(name, help) + family_rows(name, runs, f)
    } else {
        Seq::empty()
    }
}

fn family(out: &mut Vec<char>, name: &str, help: &str, runs: &[MetricRun], f: Figure)
    ensures
        final(out)@ == old(out)@ + family_text(name@, help@, runs@, f),
{
    let ghost start = out@;
    let mut rows: Vec<char> = Vec::new();
    let mut i: usize = 0;
    while i < runs.len()
        invariant
            i <= runs@.len(),
            rows@ == family_rows(name@, runs@.take(i as int), f),
        decreases runs.len() - i,
    {
        assert(runs@.take(i + 1).drop_last() =~= runs@.take(i as int));
        match value_of(&runs[i], f) {
            Some(v) => {
                let l = labels(&runs[i]);
                extend_str(&mut rows, name);
                rows.push('{');
                extend_chars(&mut rows, l.as_slice());
                rows.push('}');
                rows.push(' ');
                extend_chars(&mut rows, v.as_slice());
                rows.push('\n');
                proof {
                    reveal_strlit("{");
                    reveal_strlit("} ");
                    reveal_strlit("\n");
                }
                assert(runs@.take(i + 1).last() == runs@[i as int]);
                assert(rows@ =~= family_rows(name@, runs@.take(i + 1), f));
            },
            None => {
                assert(runs@.take(i + 1).last() == runs@[i as int]);
                assert(rows@ =~= family_rows(name@, runs@.take(i + 1), f));
            },
        }
        i = i + 1;
    }
    assert(runs@.take(runs@.len() as int) =~= runs@);
    if rows.len() > 0 {
        extend_str(out, "# HELP ");
        extend_str(out, name);
        out.push(' ');
        extend_str(out, help);
        out.push('\n');
        extend_str(out, "# TYPE ");
        extend_str(out, name);
        extend_str(out, " gauge\n");
        extend_chars(out, rows.as_slice());
        proof {
            reveal_strlit(" ");
            reveal_strlit("\n");
        }
        assert(out@ =~= start + family_text(name@, help@, runs@, f));
    } else {
        assert(out@ =~= start + family_text(name@, help@, runs@, f));
    }
}

/* --- bufferbloat ------------------------------------------------------------ */

/// One direction's bufferbloat line, when the run has a factor for it.
pub open spec fn bloat_row(run: MetricRun, direction: Seq<char>, v: Option<Seq<char>>) -> Seq<char> {
    match v {
        Some(x) => "speedtest_bufferbloat_factor{"@ + labels_of(run) + ",direction=\""@ + direction
            + "\"} "@ + x + "\n"@,
        None => Seq::empty(),
    }
}

/// Down then up, for each run in turn.
pub open spec fn bloat_rows(runs: Seq<MetricRun>) -> Seq<char>
    decreases runs.len(),
{
    if runs.len() == 0 {
        Seq::empty()
    } else {
        bloat_rows(runs.drop_last()) + bloat_row(
            runs.last(),
            "down"@,
            opt_view(runs.last().bufferbloat_down),
        ) + bloat_row(runs.last(), "up"@, opt_view(runs.last().bufferbloat_up))
    }
}

pub open spec fn bloat_header() -> Seq<char> {
    "# HELP speedtest_bufferbloat_factor Fractional increase in round trip while saturating the link, most recent run: (loaded - idle) / idle.\n"@
        + "# TYPE speedtest_bufferbloat_factor gauge\n"@
}

/// One family with a `direction` label, so that the name has a single header.
pub open spec fn bloat_text(runs: Seq<MetricRun>) -> Seq<char> {
    if bloat_rows(runs).len() > 0 {
        bloat_header() + bloat_rows(runs)
    } else {
        Seq::empty()
    }
}

fn push_bloat_row(rows: &mut Vec<char>, l: &Vec<char>, direction: &str, v: &Option<String>)
    ensures
        final(rows)@ == old(rows)@ + match opt_view(*v) {
            Some(x) => "speedtest_bufferbloat_factor{"@ + l@ + ",direction=\""@ + direction@
                + "\"} "@ + x + "\n"@,
            None => Seq::<char>::empty(),
        },
{
    match v {
        Some(x) => {
            extend_str(rows, "speedtest_bufferbloat_factor{");
            extend_chars(rows, l.as_slice());
            extend_str(rows, ",direction=\"");
            extend_str(rows, direction);
            extend_str(rows, "\"} ");
            extend_str(rows, x.as_str());
            extend_str(rows, "\n");
        },
        None => {
            assert(rows@ =~= old(rows)@ + Seq::<char>::empty());
        },
    }
}

fn bufferbloat(out: &mut Vec<char>, runs: &[MetricRun])
    ensures
        final(out)@ == old(out)@ + bloat_text(runs@),
{
    let ghost start = out@;
    let mut rows: Vec<char> = Vec::new();
    let mut i: usize = 0;
    while i < runs.len()
        invariant
            i <= runs@.len(),
            rows@ == bloat_rows(runs@.take(i as int)),
        decreases runs.len() - i,
    {
        assert(runs@.take(i + 1).drop_last() =~= runs@.take(i as int));
        assert(runs@.take(i + 1).last() == runs@[i as int]);
        let l = labels(&runs[i]);
        push_bloat_row(&mut rows, &l, "down", &runs[i].bufferbloat_down);
        push_bloat_row(&mut rows, &l, "up", &runs[i].bufferbloat_up);
        assert(rows@ =~= bloat_rows(runs@.take(i + 1)));
        i = i + 1;
    }
    assert(runs@.take(runs@.len() as int) =~= runs@);
    if rows.len() > 0 {
        extend_str(
            out,
            "# HELP speedtest_bufferbloat_factor Fractional increase in round trip while saturating the link, most recent run: (loaded - idle) / idle.\n",
        );
        extend_str(out, "# TYPE speedtest_bufferbloat_factor gauge\n");
        extend_chars(out, rows.as_slice());
    }
    assert(out@ =~= start + bloat_text(runs@));
}

/* --- quality scores ---------------------------------------------------------- */

/// AIM's worst-to-best ordering as an ordinal: `bad` is 0 and `great` is 4.
/// Any other name is one the engine never produces and gets no number.
pub open spec fn class_index(name: Seq<char>) -> Option<nat> {
    if name == "bad"@ {
        Some(0)
    } else if name == "poor"@ {
        Some(1)
    } else if name == "average"@ {
        Some(2)
    } else if name == "good"@ {
        Some(3)
    } else if name == "great"@ {
        Some(4)
    } else {
        None
    }
}

pub fn classification_index(name: &str) -> (r: Option<u8>)
    ensures
        match class_index(name@) {
            Some(i) => r == Some(i as u8),
            None => r is None,
        },
{
    let v = chars_of(name);
    if chars_eq_str(v.as_slice(), "bad") {
        Some(0)
    } else if chars_eq_str(v.as_slice(), "poor") {
        Some(1)
    } else if chars_eq_str(v.as_slice(), "average") {
        Some(2)
    } else if chars_eq_str(v.as_slice(), "good") {
        Some(3)
    } else if chars_eq_str(v.as_slice(), "great") {
        Some(4)
    } else {
        None
    }
}

/// One line per experience of `run` whose classification has an ordinal.
pub open spec fn score_rows(run: MetricRun, scores: Seq<(String, String)>) -> Seq<char>
    decreases scores.len(),
{
    if scores.len() == 0 {
        Seq::empty()
    } else {
        score_rows(run, scores.drop_last()) + match class_index(scores.last().1@) {
            Some(i) => "speedtest_quality_score{"@ + labels_of(run) + ",service=\""@ + escape_seq(
                scores.last().0@,
            ) + "\"} "@ + dec(i) + "\n"@,
            None => Seq::empty(),
        }
    }
}

pub open spec fn quality_rows(runs: Seq<MetricRun>) -> Seq<char>
    decreases runs.len(),
{
    if runs.len() == 0 {
        Seq::empty()
    } else {
        quality_rows(runs.drop_last()) + score_rows(runs.last(), runs.last().scores@)
    }
}

pub open spec fn quality_header() -> Seq<char> {
    "# HELP speedtest_quality_score AIM quality classification of the most recent run, 0 (bad) to 4 (great).\n"@
        + "# TYPE speedtest_quality_score gauge\n"@
}

pub open spec fn quality_text(runs: Seq<MetricRun>) -> Seq<char> {
    if quality_rows(runs).len() > 0 {
        quality_header() + quality_rows(runs)
    } else {
        Seq::empty()
    }
}

fn push_score_rows(rows: &mut Vec<char>, run: &MetricRun)
    ensures
        final(rows)@ == old(rows)@ + score_rows(*run, run.scores@),
{
    let ghost start = rows@;
    let l = labels(run);
    let mut k: usize = 0;
    while k < run.scores.len()
        invariant
            k <= run.scores@.len(),
            l@ == labels_of(*run),
            rows@ == start + score_rows(*run, run.scores@.take(k as int)),
        decreases run.scores.len() - k,
    {
        let ghost before = rows@;
        assert(run.scores@.take(k + 1).drop_last() =~= run.scores@.take(k as int));
        assert(run.scores@.take(k + 1).last() == run.scores@[k as int]);
        match classification_index(run.scores[k].1.as_str()) {
            Some(idx) => {
                extend_str(rows, "speedtest_quality_score{");
                extend_chars(rows, l.as_slice());
                extend_str(rows, ",service=\"");
                extend_str(rows, escape(run.scores[k].0.as_str()).as_str());
                extend_str(rows, "\"} ");
                push_dec(rows, idx as u64);
                extend_str(rows, "\n");
                assert(rows@ =~= start + score_rows(*run, run.scores@.take(k + 1)));
            },
            None => {
                assert(rows@ =~= start + score_rows(*run, run.scores@.take(k + 1)));
            },
        }
        k = k + 1;
    }
    assert(run.scores@.take(run.scores@.len() as int) =~= run.scores@);
}

fn quality_score(out: &mut Vec<char>, runs: &[MetricRun])
    ensures
        final(out)@ == old(out)@ + quality_text(runs@),
{
    let ghost start = out@;
    let mut rows: Vec<char> = Vec::new();
    let mut i: usize = 0;
    while i < runs.len()
        invariant
            i <= runs@.len(),
            rows@ == quality_rows(runs@.take(i as int)),
        decreases runs.len() - i,
    {
        assert(runs@.take(i + 1).drop_last() =~= runs@.take(i as int));
        assert(runs@.take(i + 1).last() == runs@[i as int]);
        push_score_rows(&mut rows, &runs[i]);
        assert(rows@ =~= quality_rows(runs@.take(i + 1)));
        i = i + 1;
    }
    assert(runs@.take(runs@.len() as int) =~= runs@);
    if rows.len() > 0 {
        extend_str(
            out,
            "# HELP speedtest_quality_score AIM quality classification of the most recent run, 0 (bad) to 4 (great).\n",
        );
        extend_str(out, "# TYPE speedtest_quality_score gauge\n");
        extend_chars(out, rows.as_slice());
    }
    assert(out@ =~= start + quality_text(runs@));
}

/* --- the body ------------------------------------------------------------------ */

/// The build-information gauge, always present.
pub open spec fn build_info(version: Seq<char>, git_sha: Seq<char>) -> Seq<char> {
    "# HELP speedtest_build_info Build information for this deployment.\n"@
        + "# TYPE speedtest_build_info gauge\n"@ + "speedtest_build_info{version=\""@
        + escape_seq(version) + "\",git_sha=\""@ + escape_seq(git_sha) + "\"} 1\n"@
}

/// The stored-run count: a gauge, since pruning makes it go down.
pub open spec fn runs_total(total: int) -> Seq<char> {
    "# HELP speedtest_history_runs_total Runs currently stored.\n"@
        + "# TYPE speedtest_history_runs_total gauge\n"@ + "speedtest_history_runs_total "@
        + dec_int(total) + "\n"@
}

/// The whole exposition body.
pub open spec fn spec_render(version: Seq<char>, git_sha: Seq<char>, total: int, runs: Seq<MetricRun>) -> Seq<char> {
    build_info(version, git_sha) + runs_total(total) + family_text(
        "speedtest_download_bits_per_second"@,
        "Download throughput of the most recent run."@,
        runs,
        Figure::Download,
    ) + family_text(
        "speedtest_upload_bits_per_second"@,
        "Upload throughput of the most recent run."@,
        runs,
        Figure::Upload,
    ) + family_text(
        "speedtest_latency_seconds"@,
        "Idle round trip of the most recent run."@,
        runs,
        Figure::Latency,
    ) + family_text(
        "speedtest_loaded_latency_download_seconds"@,
        "Round trip while saturating download, most recent run."@,
        runs,
        Figure::DownLoadedLatency,
    ) + family_text(
        "speedtest_loaded_latency_upload_seconds"@,
        "Round trip while saturating upload, most recent run."@,
        runs,
        Figure::UpLoadedLatency,
    ) + family_text(
        "speedtest_jitter_seconds"@,
        "Variation in round trip, most recent run."@,
        runs,
        Figure::Jitter,
    ) + family_text(
        "speedtest_packet_loss_ratio"@,
        "Packet loss of the most recent run, 0 to 1."@,
        runs,
        Figure::PacketLoss,
    ) + family_text(
        "speedtest_run_timestamp_seconds"@,
        "When the most recent run was recorded, Unix time."@,
        runs,
        Figure::Timestamp,
    ) + bloat_text(runs) + quality_text(runs)
}

/// The whole exposition body: build information, the stored-run count, then
/// one family per figure, bufferbloat and quality scores.
pub fn render(version: &str, git_sha: &str, total_runs: i64, latest: &[MetricRun]) -> (r: String)
    requires
        forall|k: int| 0 <= k < latest@.len() ==> (#[trigger] latest@[k]).scores_in_order(),
    ensures
        r@ == spec_render(version@, git_sha@, total_runs as int, latest@),
{
    let mut out: Vec<char> = Vec::new();
    extend_str(&mut out, "# HELP speedtest_build_info Build information for this deployment.\n");
    extend_str(&mut out, "# TYPE speedtest_build_info gauge\n");
    extend_str(&mut out, "speedtest_build_info{version=\"");
    extend_str(&mut out, escape(version).as_str());
    extend_str(&mut out, "\",git_sha=\"");
    extend_str(&mut out, escape(git_sha).as_str());
    extend_str(&mut out, "\"} 1\n");
    extend_str(&mut out, "# HELP speedtest_history_runs_total Runs currently stored.\n");
    extend_str(&mut out, "# TYPE speedtest_history_runs_total gauge\n");
    extend_str(&mut out, "speedtest_history_runs_total ");
    crate::text::push_dec_i64(&mut out, total_runs);
    extend_str(&mut out, "\n");
    let ghost head = out@;
    assert(head =~= build_info(version@, git_sha@) + runs_total(total_runs as int));
    family(
        &mut out,
        "speedtest_download_bits_per_second",
        "Download throughput of the most recent run.",
        latest,
        Figure::Download,
    );
    family(
        &mut out,
        "speedtest_upload_bits_per_second",
        "Upload throughput of the most recent run.",
        latest,
        Figure::Upload,
    );
    family(
        &mut out,
        "speedtest_latency_seconds",
        "Idle round trip of the most recent run.",
        latest,
        Figure::Latency,
    );
    family(
        &mut out,
        "speedtest_loaded_latency_download_seconds",
        "Round trip while saturating download, most recent run.",
        latest,
        Figure::DownLoadedLatency,
    );
    family(
        &mut out,
        "speedtest_loaded_latency_upload_seconds",
        "Round trip while saturating upload, most recent run.",
        latest,
        Figure::UpLoadedLatency,
    );
    family(
        &mut out,
        "speedtest_jitter_seconds",
        "Variation in round trip, most recent run.",
        latest,
        Figure::Jitter,
    );
    family(
        &mut out,
        "speedtest_packet_loss_ratio",
        "Packet loss of the most recent run, 0 to 1.",
        latest,
        Figure::PacketLoss,
    );
    family(
        &mut out,
        "speedtest_run_timestamp_seconds",
        "When the most recent run was recorded, Unix time.",
        latest,
        Figure::Timestamp,
    );
    bufferbloat(&mut out, latest);
    quality_score(&mut out, latest);
    assert(out@ =~= spec_render(version@, git_sha@, total_runs as int, latest@));
    to_string(out.as_slice())
}

/* --- laws ------------------------------------------------------------------------ */

/// How an exposition parser reads a quoted label value, starting just after
/// the opening quote: `\` takes the next character literally (`\n` being a
/// newline), and an unescaped `"` ends the value. The value and what follows
/// the closing quote, or `None` if the text ends first.
pub open spec fn read_label_value(t: Seq<char>) -> Option<(Seq<char>, Seq<char>)>
    decreases t.len(),
{
    if t.len() == 0 {
        None
    } else if t[0] == '"' {
        Some((Seq::empty(), t.drop_first()))
    } else if t[0] == '\\' {
        if t.len() < 2 {
            None
        } else {
            let c = if t[1] == 'n' {
                '\n'
            } else {
                t[1]
            };
            match read_label_value(t.skip(2)) {
                Some((v, r)) => Some((seq![c] + v, r)),
                None => None,
            }
        }
    } else {
        match read_label_value(t.drop_first()) {
            Some((v, r)) => Some((seq![t[0]] + v, r)),
            None => None,
        }
    }
}

/// Escaping distributes over concatenation.
pub proof fn lemma_escape_concat(a: Seq<char>, b: Seq<char>)
    ensures
        escape_seq(a + b) == escape_seq(a) + escape_seq(b),
    decreases b.len(),
{
    if b.len() == 0 {
        assert(a + b =~= a);
        assert(escape_seq(b) =~= Seq::<char>::empty());
        assert(escape_seq(a) + escape_seq(b) =~= escape_seq(a));
    } else {
        lemma_escape_concat(a, b.drop_last());
        assert((a + b).drop_last() =~= a + b.drop_last());
        assert((a + b).last() == b.last());
        assert(escape_seq(a) + escape_seq(b) =~= escape_seq(a) + escape_seq(b.drop_last())
            + escape_char(b.last()));
    }
}

/// A label value cannot be forged: whatever a client calls itself, the
/// escaped value reads back as exactly that name, and the quote written after
/// it is the one that closes it, so nothing of the name can become a label of
/// its own.
pub proof fn lemma_label_value_reads_back(s: Seq<char>, rest: Seq<char>)
    ensures
        read_label_value(escape_seq(s) + seq!['"'] + rest) == Some((s, rest)),
    decreases s.len(),
{
    if s.len() == 0 {
        assert(escape_seq(s) =~= Seq::<char>::empty());
        let t = escape_seq(s) + seq!['"'] + rest;
        assert(t =~= seq!['"'] + rest);
        assert(t.drop_first() =~= rest);
    } else {
        let c = s[0];
        let tail = s.drop_first();
        assert(s =~= seq![c] + tail);
        lemma_escape_concat(seq![c], tail);
        assert(escape_seq(seq![c]) =~= escape_char(c)) by {
            assert(seq![c].drop_last() =~= Seq::<char>::empty());
            assert(seq![c].last() == c);
            assert(escape_seq(Seq::<char>::empty()) =~= Seq::<char>::empty());
            assert(escape_seq(seq![c]) == escape_seq(seq![c].drop_last()) + escape_char(
                seq![c].last(),
            ));
        }
        lemma_label_value_reads_back(tail, rest);
        let after = escape_seq(tail) + seq!['"'] + rest;
        let t = escape_seq(s) + seq!['"'] + rest;
        assert(t =~= escape_char(c) + after);
        if c == '\\' || c == '"' || c == '\n' {
            assert(t.skip(2) =~= after);
        } else {
            assert(t.drop_first() =~= after);
        }
        assert(seq![c] + tail =~= s);
    }
}

/// The address is the `client` label and a friendly name only rides
/// alongside it: the series' `client` label reads back as the run's address,
/// whatever the client is called, so renaming a client never starts a new
/// series.
pub proof fn lemma_client_label_is_the_address(run: MetricRun)
    ensures
        labels_of(run).take(8) == "client=\""@,
        read_label_value(labels_of(run).skip(8)) == Some(
            (
                run.client_ip@,
                ",name=\""@ + escape_seq(display_name(run)) + "\",profile=\""@ + escape_seq(
                    run.profile@,
                ) + "\""@,
            ),
        ),
{
    reveal_strlit("client=\"");
    let rest = ",name=\""@ + escape_seq(display_name(run)) + "\",profile=\""@ + escape_seq(
        run.profile@,
    ) + "\""@;
    reveal_strlit("\",name=\"");
    let head = "client=\""@;
    assert(head.len() == 8);
    assert("\",name=\""@ =~= seq!['"'] + ",name=\""@) by {
        reveal_strlit(",name=\"");
    }
    assert(labels_of(run) =~= head + (escape_seq(run.client_ip@) + seq!['"'] + rest));
    assert(labels_of(run).take(8) =~= head);
    assert(labels_of(run).skip(8) =~= escape_seq(run.client_ip@) + seq!['"'] + rest);
    lemma_label_value_reads_back(run.client_ip@, rest);
}

/// A run's sample line in a family.
pub open spec fn sample_line(name: Seq<char>, run: MetricRun, v: Seq<char>) -> Seq<char> {
    name + "{"@ + labels_of(run) + "} "@ + v + "\n"@
}

/// The sample lines of a family: one for each run that has the figure, in
/// the order of the runs.
pub open spec fn sample_lines(name: Seq<char>, runs: Seq<MetricRun>, f: Figure) -> Seq<Seq<char>> {
    runs.filter_map(
        |r: MetricRun|
            match figure_value(r, f) {
                Some(v) => Some(sample_line(name, r, v)),
                None => None,
            },
    )
}

/// Lines written one after the other.
pub open spec fn concat_lines(lines: Seq<Seq<char>>) -> Seq<char>
    decreases lines.len(),
{
    if lines.len() == 0 {
        Seq::empty()
    } else {
        concat_lines(lines.drop_last()) + lines.last()
    }
}

/// Each family is its `# HELP`/`# TYPE` header written once, followed by
/// one sample line per run that has the figure, in run order; the header is
/// there exactly when some run has the figure.
pub proof fn lemma_family_lines(name: Seq<char>, help: Seq<char>, runs: Seq<MetricRun>, f: Figure)
    ensures
        family_rows(name, runs, f) == concat_lines(sample_lines(name, runs, f)),
        (sample_lines(name, runs, f).len() > 0) == (exists|k: int|
            0 <= k < runs.len() && (#[trigger] figure_value(runs[k], f)) is Some),
        family_text(name, help, runs, f) == if sample_lines(name, runs, f).len() > 0 {
            header(name, help) + concat_lines(sample_lines(name, runs, f))
        } else {
            Seq::<char>::empty()
        },
    decreases runs.len(),
{
    reveal_strlit("{");
    let g = |r: MetricRun|
        match figure_value(r, f) {
            Some(v) => Some(sample_line(name, r, v)),
            None => None,
        };
    if runs.len() == 0 {
        assert(sample_lines(name, runs, f) =~= Seq::<Seq<char>>::empty());
    } else {
        let rest = runs.drop_last();
        lemma_family_lines(name, help, rest, f);
        assert(sample_lines(name, runs, f) == rest.filter_map(g) + match g(runs.last()) {
            Some(l) => seq![l],
            None => Seq::<Seq<char>>::empty(),
        });
        assert forall|k: int| 0 <= k < rest.len() implies #[trigger] rest[k] == runs[k] by {}
        match figure_value(runs.last(), f) {
            Some(v) => {
                let line = sample_line(name, runs.last(), v);
                let lines = sample_lines(name, runs, f);
                assert(lines =~= sample_lines(name, rest, f).push(line));
                assert(lines.drop_last() =~= sample_lines(name, rest, f));
                assert(line.len() > 0);
                assert(figure_value(runs[runs.len() - 1], f) is Some);
            },
            None => {
                assert(sample_lines(name, runs, f) =~= sample_lines(name, rest, f));
                assert(family_rows(name, runs, f) =~= family_rows(name, rest, f));
                if exists|k: int| 0 <= k < runs.len() && (#[trigger] figure_value(runs[k], f)) is Some {
                    let k = choose|k: int| 0 <= k < runs.len() && (#[trigger] figure_value(runs[k], f)) is Some;
                    assert(k < rest.len());
                    assert(figure_value(rest[k], f) is Some);
                }
            },
        }
    }
    lemma_sample_lines_nonempty(name, runs, f);
    lemma_concat_lines_nonempty(sample_lines(name, runs, f));
}

proof fn lemma_sample_lines_nonempty(name: Seq<char>, runs: Seq<MetricRun>, f: Figure)
    ensures
        forall|k: int| 0 <= k < sample_lines(name, runs, f).len() ==> (#[trigger] sample_lines(name, runs, f)[k]).len() > 0,
    decreases runs.len(),
{
    reveal_strlit("{");
    if runs.len() > 0 {
        let rest = runs.drop_last();
        lemma_sample_lines_nonempty(name, rest, f);
        match figure_value(runs.last(), f) {
            Some(v) => {
                assert(sample_lines(name, runs, f) =~= sample_lines(name, rest, f).push(sample_line(name, runs.last(), v)));
            },
            None => {
                assert(sample_lines(name, runs, f) =~= sample_lines(name, rest, f));
            },
        }
    }
}

proof fn lemma_concat_lines_nonempty(lines: Seq<Seq<char>>)
    requires
        forall|k: int| 0 <= k < lines.len() ==> (#[trigger] lines[k]).len() > 0,
    ensures
        (concat_lines(lines).len() > 0) == (lines.len() > 0),
    decreases lines.len(),
{
    if lines.len() > 0 {
        assert(lines.last() == lines[lines.len() - 1]);
    }
}

/// A run whose scores are in order scores each experience once, so the
/// quality-score family never carries two series for one run and one
/// experience.
pub proof fn lemma_each_experience_scored_once(run: MetricRun, i: int, j: int)
    requires
        run.scores_in_order(),
        0 <= i < run.scores@.len(),
        0 <= j < run.scores@.len(),
        i != j,
    ensures
        run.scores@[i].0@ != run.scores@[j].0@,
{
    assert(key_names(run.scores@)[i] == run.scores@[i].0@);
    assert(key_names(run.scores@)[j] == run.scores@[j].0@);
    lemma_names_in_order_distinct(key_names(run.scores@), i, j);
}

/// A run's line in a family, when the run has the figure.
pub open spec fn line_of(name: Seq<char>, run: MetricRun, f: Figure) -> Option<Seq<char>> {
    match figure_value(run, f) {
        Some(v) => Some(sample_line(name, run, v)),
        None => None,
    }
}

/// Run by run: a family holds a run's sample line exactly when that run has
/// the figure, and every line it holds is some run's. With
/// `lemma_family_lines`, the family's header is written once, exactly when
/// some run has the figure.
pub proof fn lemma_line_exactly_when_measured(name: Seq<char>, runs: Seq<MetricRun>, f: Figure)
    ensures
        forall|k: int|
            0 <= k < runs.len() && (#[trigger] line_of(name, runs[k], f)) is Some ==> sample_lines(
                name,
                runs,
                f,
            ).contains(line_of(name, runs[k], f)->0),
        forall|i: int|
            0 <= i < sample_lines(name, runs, f).len() ==> exists|k: int|
                0 <= k < runs.len() && #[trigger] line_of(name, runs[k], f) == Some(
                    #[trigger] sample_lines(name, runs, f)[i],
                ),
    decreases runs.len(),
{
    if runs.len() > 0 {
        let rest = runs.drop_last();
        lemma_line_exactly_when_measured(name, rest, f);
        let last = runs.last();
        let lines = sample_lines(name, runs, f);
        let before = sample_lines(name, rest, f);
        match line_of(name, last, f) {
            Some(l) => {
                assert(lines =~= before.push(l));
            },
            None => {
                assert(lines =~= before);
            },
        }
        assert forall|k: int|
            0 <= k < runs.len() && (#[trigger] line_of(name, runs[k], f)) is Some implies lines.contains(
                line_of(name, runs[k], f)->0,
            ) by {
            if k < rest.len() {
                assert(rest[k] == runs[k]);
                let j = choose|j: int| 0 <= j < before.len() && before[j] == line_of(name, rest[k], f)->0;
                assert(lines[j] == before[j]);
            } else {
                assert(runs[k] == last);
                assert(lines[lines.len() - 1] == line_of(name, last, f)->0);
            }
        }
        assert forall|i: int| 0 <= i < lines.len() implies exists|k: int|
            0 <= k < runs.len() && #[trigger] line_of(name, runs[k], f) == Some(#[trigger] lines[i]) by {
            if i < before.len() {
                assert(lines[i] == before[i]);
                let k = choose|k: int| 0 <= k < rest.len() && #[trigger] line_of(name, rest[k], f) == Some(before[i]);
                assert(rest[k] == runs[k]);
            } else {
                assert(line_of(name, runs[runs.len() - 1], f) == Some(lines[i]));
            }
        }
    }
}

/// The pieces of the body in order: the head, the eight figure families,
/// bufferbloat and quality.
pub open spec fn render_part(version: Seq<char>, git_sha: Seq<char>, total: int, runs: Seq<MetricRun>, i: int) -> Seq<char> {
    if i == 0 {
        build_info(version, git_sha) + runs_total(total)
    } else if i == 1 {
        family_text("speedtest_download_bits_per_second"@, "Download throughput of the most recent run."@, runs, Figure::Download)
    } else if i == 2 {
        family_text("speedtest_upload_bits_per_second"@, "Upload throughput of the most recent run."@, runs, Figure::Upload)
    } else if i == 3 {
        family_text("speedtest_latency_seconds"@, "Idle round trip of the most recent run."@, runs, Figure::Latency)
    } else if i == 4 {
        family_text("speedtest_loaded_latency_download_seconds"@, "Round trip while saturating download, most recent run."@, runs, Figure::DownLoadedLatency)
    } else if i == 5 {
        family_text("speedtest_loaded_latency_upload_seconds"@, "Round trip while saturating upload, most recent run."@, runs, Figure::UpLoadedLatency)
    } else if i == 6 {
        family_text("speedtest_jitter_seconds"@, "Variation in round trip, most recent run."@, runs, Figure::Jitter)
    } else if i == 7 {
        family_text("speedtest_packet_loss_ratio"@, "Packet loss of the most recent run, 0 to 1."@, runs, Figure::PacketLoss)
    } else if i == 8 {
        family_text("speedtest_run_timestamp_seconds"@, "When the most recent run was recorded, Unix time."@, runs, Figure::Timestamp)
    } else if i == 9 {
        bloat_text(runs)
    } else {
        quality_text(runs)
    }
}

proof fn lemma_render_contains_part(version: Seq<char>, git_sha: Seq<char>, total: int, runs: Seq<MetricRun>, i: int, t: Seq<char>)
    requires
        0 <= i <= 10,
        contains_sub(render_part(version, git_sha, total, runs, i), t),
    ensures
        contains_sub(spec_render(version, git_sha, total, runs), t),
{
    let p0 = render_part(version, git_sha, total, runs, 0);
    let q1 = render_part(version, git_sha, total, runs, 1);
    let p1 = p0 + q1;
    let q2 = render_part(version, git_sha, total, runs, 2);
    let p2 = p1 + q2;
    let q3 = render_part(version, git_sha, total, runs, 3);
    let p3 = p2 + q3;
    let q4 = render_part(version, git_sha, total, runs, 4);
    let p4 = p3 + q4;
    let q5 = render_part(version, git_sha, total, runs, 5);
    let p5 = p4 + q5;
    let q6 = render_part(version, git_sha, total, runs, 6);
    let p6 = p5 + q6;
    let q7 = render_part(version, git_sha, total, runs, 7);
    let p7 = p6 + q7;
    let q8 = render_part(version, git_sha, total, runs, 8);
    let p8 = p7 + q8;
    let q9 = render_part(version, git_sha, total, runs, 9);
    let p9 = p8 + q9;
    let q10 = render_part(version, git_sha, total, runs, 10);
    let p10 = p9 + q10;
    assert(p10 == spec_render(version, git_sha, total, runs));
    if i < 1 && contains_sub(p0, t) {
        lemma_contains_embed(Seq::empty(), p0, q1, t);
        assert(Seq::<char>::empty() + p0 + q1 =~= p1);
    }
    if i == 1 {
        lemma_contains_embed(p0, q1, Seq::empty(), t);
        assert(p0 + q1 + Seq::<char>::empty() =~= p1);
    }
    if i < 2 && contains_sub(p1, t) {
        lemma_contains_embed(Seq::empty(), p1, q2, t);
        assert(Seq::<char>::empty() + p1 + q2 =~= p2);
    }
    if i == 2 {
        lemma_contains_embed(p1, q2, Seq::empty(), t);
        assert(p1 + q2 + Seq::<char>::empty() =~= p2);
    }
    if i < 3 && contains_sub(p2, t) {
        lemma_contains_embed(Seq::empty(), p2, q3, t);
        assert(Seq::<char>::empty() + p2 + q3 =~= p3);
    }
    if i == 3 {
        lemma_contains_embed(p2, q3, Seq::empty(), t);
        assert(p2 + q3 + Seq::<char>::empty() =~= p3);
    }
    if i < 4 && contains_sub(p3, t) {
        lemma_contains_embed(Seq::empty(), p3, q4, t);
        assert(Seq::<char>::empty() + p3 + q4 =~= p4);
    }
    if i == 4 {
        lemma_contains_embed(p3, q4, Seq::empty(), t);
        assert(p3 + q4 + Seq::<char>::empty() =~= p4);
    }
    if i < 5 && contains_sub(p4, t) {
        lemma_contains_embed(Seq::empty(), p4, q5, t);
        assert(Seq::<char>::empty() + p4 + q5 =~= p5);
    }
    if i == 5 {
        lemma_contains_embed(p4, q5, Seq::empty(), t);
        assert(p4 + q5 + Seq::<char>::empty() =~= p5);
    }
    if i < 6 && contains_sub(p5, t) {
        lemma_contains_embed(Seq::empty(), p5, q6, t);
        assert(Seq::<char>::empty() + p5 + q6 =~= p6);
    }
    if i == 6 {
        lemma_contains_embed(p5, q6, Seq::empty(), t);
        assert(p5 + q6 + Seq::<char>::empty() =~= p6);
    }
    if i < 7 && contains_sub(p6, t) {
        lemma_contains_embed(Seq::empty(), p6, q7, t);
        assert(Seq::<char>::empty() + p6 + q7 =~= p7);
    }
    if i == 7 {
        lemma_contains_embed(p6, q7, Seq::empty(), t);
        assert(p6 + q7 + Seq::<char>::empty() =~= p7);
    }
    if i < 8 && contains_sub(p7, t) {
        lemma_contains_embed(Seq::empty(), p7, q8, t);
        assert(Seq::<char>::empty() + p7 + q8 =~= p8);
    }
    if i == 8 {
        lemma_contains_embed(p7, q8, Seq::empty(), t);
        assert(p7 + q8 + Seq::<char>::empty() =~= p8);
    }
    if i < 9 && contains_sub(p8, t) {
        lemma_contains_embed(Seq::empty(), p8, q9, t);
        assert(Seq::<char>::empty() + p8 + q9 =~= p9);
    }
    if i == 9 {
        lemma_contains_embed(p8, q9, Seq::empty(), t);
        assert(p8 + q9 + Seq::<char>::empty() =~= p9);
    }
    if i < 10 && contains_sub(p9, t) {
        lemma_contains_embed(Seq::empty(), p9, q10, t);
        assert(Seq::<char>::empty() + p9 + q10 =~= p10);
    }
    if i == 10 {
        lemma_contains_embed(p9, q10, Seq::empty(), t);
        assert(p9 + q10 + Seq::<char>::empty() =~= p10);
    }
}

proof fn lemma_contains_embed(a: Seq<char>, s: Seq<char>, b: Seq<char>, t: Seq<char>)
    requires
        contains_sub(s, t),
    ensures
        contains_sub(a + s + b, t),
{
    let i = choose|i: int| #[trigger] occurs_at(s, t, i);
    assert((a + s + b).subrange(a.len() + i, a.len() + i + t.len()) =~= s.subrange(i, i + t.len()));
    assert(occurs_at(a + s + b, t, a.len() + i));
}

proof fn lemma_concat_lines_contains(lines: Seq<Seq<char>>, j: int)
    requires
        0 <= j < lines.len(),
    ensures
        contains_sub(concat_lines(lines), lines[j]),
    decreases lines.len(),
{
    let last = lines.len() - 1;
    if j == last {
        let c = concat_lines(lines.drop_last());
        assert(concat_lines(lines) == c + lines.last());
        assert(concat_lines(lines).subrange(c.len() as int, c.len() + lines[j].len() as int) =~= lines[j]);
        assert(occurs_at(concat_lines(lines), lines[j], c.len() as int));
    } else {
        lemma_concat_lines_contains(lines.drop_last(), j);
        assert(lines.drop_last()[j] == lines[j]);
        lemma_contains_embed(Seq::empty(), concat_lines(lines.drop_last()), lines.last(), lines[j]);
        assert(Seq::<char>::empty() + concat_lines(lines.drop_last()) + lines.last() =~= concat_lines(lines));
    }
}

proof fn lemma_family_shows_line(name: Seq<char>, help: Seq<char>, runs: Seq<MetricRun>, f: Figure, k: int)
    requires
        0 <= k < runs.len(),
        figure_value(runs[k], f) is Some,
    ensures
        contains_sub(family_text(name, help, runs, f), sample_line(name, runs[k], figure_value(runs[k], f)->0)),
{
    lemma_line_exactly_when_measured(name, runs, f);
    lemma_family_lines(name, help, runs, f);
    let lines = sample_lines(name, runs, f);
    let line = sample_line(name, runs[k], figure_value(runs[k], f)->0);
    assert(line_of(name, runs[k], f) is Some);
    assert(lines.contains(line));
    let j = choose|j: int| 0 <= j < lines.len() && lines[j] == line;
    lemma_concat_lines_contains(lines, j);
    lemma_contains_embed(header(name, help), concat_lines(lines), Seq::empty(), line);
    assert(header(name, help) + concat_lines(lines) + Seq::<char>::empty() =~= header(name, help) + concat_lines(lines));
}

proof fn lemma_bloat_rows_contain(runs: Seq<MetricRun>, k: int)
    requires
        0 <= k < runs.len(),
    ensures
        runs[k].bufferbloat_down is Some ==> contains_sub(bloat_rows(runs), bloat_row(runs[k], "down"@, opt_view(runs[k].bufferbloat_down))),
        runs[k].bufferbloat_up is Some ==> contains_sub(bloat_rows(runs), bloat_row(runs[k], "up"@, opt_view(runs[k].bufferbloat_up))),
    decreases runs.len(),
{
    let rest = runs.drop_last();
    let r = runs.last();
    let dn = bloat_row(r, "down"@, opt_view(r.bufferbloat_down));
    let up = bloat_row(r, "up"@, opt_view(r.bufferbloat_up));
    assert(bloat_rows(runs) == bloat_rows(rest) + dn + up);
    if k < runs.len() - 1 {
        lemma_bloat_rows_contain(rest, k);
        assert(rest[k] == runs[k]);
        if runs[k].bufferbloat_down is Some {
            lemma_contains_embed(Seq::empty(), bloat_rows(rest), dn + up, bloat_row(runs[k], "down"@, opt_view(runs[k].bufferbloat_down)));
            assert(Seq::<char>::empty() + bloat_rows(rest) + (dn + up) =~= bloat_rows(runs));
        }
        if runs[k].bufferbloat_up is Some {
            lemma_contains_embed(Seq::empty(), bloat_rows(rest), dn + up, bloat_row(runs[k], "up"@, opt_view(runs[k].bufferbloat_up)));
            assert(Seq::<char>::empty() + bloat_rows(rest) + (dn + up) =~= bloat_rows(runs));
        }
    } else {
        assert(runs[k] == r);
        if r.bufferbloat_down is Some {
            assert(bloat_rows(runs).subrange(bloat_rows(rest).len() as int, bloat_rows(rest).len() + dn.len() as int) =~= dn);
            assert(occurs_at(bloat_rows(runs), dn, bloat_rows(rest).len() as int));
        }
        if r.bufferbloat_up is Some {
            assert(bloat_rows(runs).subrange(bloat_rows(rest).len() + dn.len() as int, bloat_rows(rest).len() + dn.len() + up.len() as int) =~= up);
            assert(occurs_at(bloat_rows(runs), up, bloat_rows(rest).len() + dn.len() as int));
        }
    }
}

proof fn lemma_bloat_shows_line(runs: Seq<MetricRun>, k: int)
    requires
        0 <= k < runs.len(),
    ensures
        runs[k].bufferbloat_down is Some ==> contains_sub(bloat_text(runs), bloat_row(runs[k], "down"@, opt_view(runs[k].bufferbloat_down))),
        runs[k].bufferbloat_up is Some ==> contains_sub(bloat_text(runs), bloat_row(runs[k], "up"@, opt_view(runs[k].bufferbloat_up))),
{
    lemma_bloat_rows_contain(runs, k);
    if runs[k].bufferbloat_down is Some || runs[k].bufferbloat_up is Some {
        let t = if runs[k].bufferbloat_down is Some {
            bloat_row(runs[k], "down"@, opt_view(runs[k].bufferbloat_down))
        } else {
            bloat_row(runs[k], "up"@, opt_view(runs[k].bufferbloat_up))
        };
        let i = choose|i: int| #[trigger] occurs_at(bloat_rows(runs), t, i);
        reveal_strlit("speedtest_bufferbloat_factor{");
        assert(t.len() > 0);
        assert(bloat_rows(runs).len() > 0);
        if runs[k].bufferbloat_down is Some {
            lemma_contains_embed(bloat_header(), bloat_rows(runs), Seq::empty(), bloat_row(runs[k], "down"@, opt_view(runs[k].bufferbloat_down)));
        }
        if runs[k].bufferbloat_up is Some {
            lemma_contains_embed(bloat_header(), bloat_rows(runs), Seq::empty(), bloat_row(runs[k], "up"@, opt_view(runs[k].bufferbloat_up)));
        }
        assert(bloat_header() + bloat_rows(runs) + Seq::<char>::empty() =~= bloat_text(runs));
    }
}

/// Each family of the body carries its own figure: a run's download is
/// written under `speedtest_download_bits_per_second`, its upload under
/// `speedtest_upload_bits_per_second`, its idle and loaded latencies, jitter
/// and packet loss under theirs, its recorded time (whole seconds) under
/// `speedtest_run_timestamp_seconds`, and its bufferbloat factors under
/// `speedtest_bufferbloat_factor` with the direction they belong to.
#[verifier::spinoff_prover]
#[verifier::rlimit(100)]
pub proof fn lemma_each_family_carries_its_own_figure(
    version: Seq<char>,
    git_sha: Seq<char>,
    total: int,
    runs: Seq<MetricRun>,
    k: int,
)
    requires
        0 <= k < runs.len(),
    ensures
        runs[k].download matches Some(v) ==> contains_sub(
            spec_render(version, git_sha, total, runs),
            "speedtest_download_bits_per_second"@ + "{"@ + labels_of(runs[k]) + "} "@ + v@ + "\n"@,
        ),
        runs[k].upload matches Some(v) ==> contains_sub(
            spec_render(version, git_sha, total, runs),
            "speedtest_upload_bits_per_second"@ + "{"@ + labels_of(runs[k]) + "} "@ + v@ + "\n"@,
        ),
        runs[k].latency matches Some(v) ==> contains_sub(
            spec_render(version, git_sha, total, runs),
            "speedtest_latency_seconds"@ + "{"@ + labels_of(runs[k]) + "} "@ + v@ + "\n"@,
        ),
        runs[k].down_loaded_latency matches Some(v) ==> contains_sub(
            spec_render(version, git_sha, total, runs),
            "speedtest_loaded_latency_download_seconds"@ + "{"@ + labels_of(runs[k]) + "} "@ + v@ + "\n"@,
        ),
        runs[k].up_loaded_latency matches Some(v) ==> contains_sub(
            spec_render(version, git_sha, total, runs),
            "speedtest_loaded_latency_upload_seconds"@ + "{"@ + labels_of(runs[k]) + "} "@ + v@ + "\n"@,
        ),
        runs[k].jitter matches Some(v) ==> contains_sub(
            spec_render(version, git_sha, total, runs),
            "speedtest_jitter_seconds"@ + "{"@ + labels_of(runs[k]) + "} "@ + v@ + "\n"@,
        ),
        runs[k].packet_loss matches Some(v) ==> contains_sub(
            spec_render(version, git_sha, total, runs),
            "speedtest_packet_loss_ratio"@ + "{"@ + labels_of(runs[k]) + "} "@ + v@ + "\n"@,
        ),
        rfc3339_unix_nanos(runs[k].recorded_at@) matches Some(t) ==> contains_sub(
            spec_render(version, git_sha, total, runs),
            "speedtest_run_timestamp_seconds"@ + "{"@ + labels_of(runs[k]) + "} "@ + dec_int((t as int) / 1_000_000_000) + "\n"@,
        ),
        runs[k].bufferbloat_down matches Some(v) ==> contains_sub(
            spec_render(version, git_sha, total, runs),
            "speedtest_bufferbloat_factor{"@ + labels_of(runs[k]) + ",direction=\""@ + "down"@ + "\"} "@ + v@ + "\n"@,
        ),
        runs[k].bufferbloat_up matches Some(v) ==> contains_sub(
            spec_render(version, git_sha, total, runs),
            "speedtest_bufferbloat_factor{"@ + labels_of(runs[k]) + ",direction=\""@ + "up"@ + "\"} "@ + v@ + "\n"@,
        ),
{
    if figure_value(runs[k], Figure::Download) is Some {
        lemma_family_shows_line("speedtest_download_bits_per_second"@, "Download throughput of the most recent run."@, runs, Figure::Download, k);
        lemma_render_contains_part(version, git_sha, total, runs, 1, sample_line("speedtest_download_bits_per_second"@, runs[k], figure_value(runs[k], Figure::Download)->0));
    }
    if figure_value(runs[k], Figure::Upload) is Some {
        lemma_family_shows_line("speedtest_upload_bits_per_second"@, "Upload throughput of the most recent run."@, runs, Figure::Upload, k);
        lemma_render_contains_part(version, git_sha, total, runs, 2, sample_line("speedtest_upload_bits_per_second"@, runs[k], figure_value(runs[k], Figure::Upload)->0));
    }
    if figure_value(runs[k], Figure::Latency) is Some {
        lemma_family_shows_line("speedtest_latency_seconds"@, "Idle round trip of the most recent run."@, runs, Figure::Latency, k);
        lemma_render_contains_part(version, git_sha, total, runs, 3, sample_line("speedtest_latency_seconds"@, runs[k], figure_value(runs[k], Figure::Latency)->0));
    }
    if figure_value(runs[k], Figure::DownLoadedLatency) is Some {
        lemma_family_shows_line("speedtest_loaded_latency_download_seconds"@, "Round trip while saturating download, most recent run."@, runs, Figure::DownLoadedLatency, k);
        lemma_render_contains_part(version, git_sha, total, runs, 4, sample_line("speedtest_loaded_latency_download_seconds"@, runs[k], figure_value(runs[k], Figure::DownLoadedLatency)->0));
    }
    if figure_value(runs[k], Figure::UpLoadedLatency) is Some {
        lemma_family_shows_line("speedtest_loaded_latency_upload_seconds"@, "Round trip while saturating upload, most recent run."@, runs, Figure::UpLoadedLatency, k);
        lemma_render_contains_part(version, git_sha, total, runs, 5, sample_line("speedtest_loaded_latency_upload_seconds"@, runs[k], figure_value(runs[k], Figure::UpLoadedLatency)->0));
    }
    if figure_value(runs[k], Figure::Jitter) is Some {
        lemma_family_shows_line("speedtest_jitter_seconds"@, "Variation in round trip, most recent run."@, runs, Figure::Jitter, k);
        lemma_render_contains_part(version, git_sha, total, runs, 6, sample_line("speedtest_jitter_seconds"@, runs[k], figure_value(runs[k], Figure::Jitter)->0));
    }
    if figure_value(runs[k], Figure::PacketLoss) is Some {
        lemma_family_shows_line("speedtest_packet_loss_ratio"@, "Packet loss of the most recent run, 0 to 1."@, runs, Figure::PacketLoss, k);
        lemma_render_contains_part(version, git_sha, total, runs, 7, sample_line("speedtest_packet_loss_ratio"@, runs[k], figure_value(runs[k], Figure::PacketLoss)->0));
    }
    if figure_value(runs[k], Figure::Timestamp) is Some {
        lemma_family_shows_line("speedtest_run_timestamp_seconds"@, "When the most recent run was recorded, Unix time."@, runs, Figure::Timestamp, k);
        lemma_render_contains_part(version, git_sha, total, runs, 8, sample_line("speedtest_run_timestamp_seconds"@, runs[k], figure_value(runs[k], Figure::Timestamp)->0));
    }
    lemma_bloat_shows_line(runs, k);
    if runs[k].bufferbloat_down is Some {
        lemma_render_contains_part(version, git_sha, total, runs, 9, bloat_row(runs[k], "down"@, opt_view(runs[k].bufferbloat_down)));
    }
    if runs[k].bufferbloat_up is Some {
        lemma_render_contains_part(version, git_sha, total, runs, 9, bloat_row(runs[k], "up"@, opt_view(runs[k].bufferbloat_up)));
    }
}

/// The quality line of one scored experience.
pub open spec fn score_line(run: MetricRun, service: Seq<char>, ordinal: nat) -> Seq<char> {
    "speedtest_quality_score{"@ + labels_of(run) + ",service=\""@ + escape_seq(service) + "\"} "@
        + dec(ordinal) + "\n"@
}

proof fn lemma_score_rows_contain(run: MetricRun, scores: Seq<(String, String)>, j: int, ordinal: nat)
    requires
        0 <= j < scores.len(),
        class_index(scores[j].1@) == Some(ordinal),
    ensures
        contains_sub(score_rows(run, scores), score_line(run, scores[j].0@, ordinal)),
    decreases scores.len(),
{
    let rest = scores.drop_last();
    let t = score_line(run, scores[j].0@, ordinal);
    let last_row = match class_index(scores.last().1@) {
        Some(i) => score_line(run, scores.last().0@, i),
        None => Seq::<char>::empty(),
    };
    assert(score_rows(run, scores) =~= score_rows(run, rest) + last_row);
    if j < scores.len() - 1 {
        lemma_score_rows_contain(run, rest, j, ordinal);
        assert(rest[j] == scores[j]);
        lemma_contains_embed(Seq::empty(), score_rows(run, rest), last_row, t);
        assert(Seq::<char>::empty() + score_rows(run, rest) + last_row =~= score_rows(run, scores));
    } else {
        assert(scores.last() == scores[j]);
        assert(last_row == t);
        let c = score_rows(run, rest);
        assert(score_rows(run, scores).subrange(c.len() as int, c.len() + t.len() as int) =~= t);
        assert(occurs_at(score_rows(run, scores), t, c.len() as int));
    }
}

proof fn lemma_quality_rows_contain(runs: Seq<MetricRun>, k: int, j: int, ordinal: nat)
    requires
        0 <= k < runs.len(),
        0 <= j < runs[k].scores@.len(),
        class_index(runs[k].scores@[j].1@) == Some(ordinal),
    ensures
        contains_sub(quality_rows(runs), score_line(runs[k], runs[k].scores@[j].0@, ordinal)),
    decreases runs.len(),
{
    let rest = runs.drop_last();
    let t = score_line(runs[k], runs[k].scores@[j].0@, ordinal);
    let last = score_rows(runs.last(), runs.last().scores@);
    assert(quality_rows(runs) == quality_rows(rest) + last);
    if k < runs.len() - 1 {
        assert(rest[k] == runs[k]);
        lemma_quality_rows_contain(rest, k, j, ordinal);
        lemma_contains_embed(Seq::empty(), quality_rows(rest), last, t);
        assert(Seq::<char>::empty() + quality_rows(rest) + last =~= quality_rows(runs));
    } else {
        assert(runs.last() == runs[k]);
        lemma_score_rows_contain(runs[k], runs[k].scores@, j, ordinal);
        lemma_contains_embed(quality_rows(rest), last, Seq::empty(), t);
        assert(quality_rows(rest) + last + Seq::<char>::empty() =~= quality_rows(runs));
    }
}

/// Each experience a run scored is exported with the ordinal of its own
/// classification: `bad` 0, `poor` 1, `average` 2, `good` 3, `great` 4,
/// under `speedtest_quality_score` with the run's labels and the
/// experience's name; a classification outside those five has no ordinal.
pub proof fn lemma_quality_score_ordinals(
    version: Seq<char>,
    git_sha: Seq<char>,
    total: int,
    runs: Seq<MetricRun>,
    k: int,
    j: int,
)
    requires
        0 <= k < runs.len(),
        0 <= j < runs[k].scores@.len(),
    ensures
        ({
            let c = runs[k].scores@[j].1@;
            let ordinal: Option<nat> = if c == "bad"@ {
                Some(0nat)
            } else if c == "poor"@ {
                Some(1nat)
            } else if c == "average"@ {
                Some(2nat)
            } else if c == "good"@ {
                Some(3nat)
            } else if c == "great"@ {
                Some(4nat)
            } else {
                None
            };
            &&& class_index(c) == ordinal
            &&& ordinal matches Some(i) ==> contains_sub(
                spec_render(version, git_sha, total, runs),
                score_line(runs[k], runs[k].scores@[j].0@, i),
            )
        }),
{
    let c = runs[k].scores@[j].1@;
    match class_index(c) {
        Some(i) => {
            lemma_quality_rows_contain(runs, k, j, i);
            let t = score_line(runs[k], runs[k].scores@[j].0@, i);
            lemma_contains_embed(quality_header(), quality_rows(runs), Seq::empty(), t);
            assert(quality_header() + quality_rows(runs) + Seq::<char>::empty() =~= quality_text(runs)) by {
                let w = choose|w: int| #[trigger] occurs_at(quality_rows(runs), t, w);
                reveal_strlit("speedtest_quality_score{");
                assert(t.len() > 0);
            }
            lemma_render_contains_part(version, git_sha, total, runs, 10, t);
        },
        None => {},
    }
}

/// The body opens with the build information, the version and commit as
/// label values, then the number of stored runs.
#[verifier::spinoff_prover]
#[verifier::rlimit(100)]
pub proof fn lemma_body_opens_with_build_and_count(version: Seq<char>, git_sha: Seq<char>, total: int, runs: Seq<MetricRun>)
    ensures
        spec_render(version, git_sha, total, runs).take(
            (build_info(version, git_sha) + runs_total(total)).len() as int,
        ) == "# HELP speedtest_build_info Build information for this deployment.\n"@
            + "# TYPE speedtest_build_info gauge\n"@ + "speedtest_build_info{version=\""@ + escape_seq(version)
            + "\",git_sha=\""@ + escape_seq(git_sha) + "\"} 1\n"@
            + "# HELP speedtest_history_runs_total Runs currently stored.\n"@
            + "# TYPE speedtest_history_runs_total gauge\n"@ + "speedtest_history_runs_total "@ + dec_int(total)
            + "\n"@,
{
    let head = build_info(version, git_sha) + runs_total(total);
    let n = head.len() as int;
    let p0 = head;
    let p1 = p0 + family_text("speedtest_download_bits_per_second"@, "Download throughput of the most recent run."@, runs, Figure::Download);
    lemma_take_prefix(p0, family_text("speedtest_download_bits_per_second"@, "Download throughput of the most recent run."@, runs, Figure::Download), n);
    let p2 = p1 + family_text("speedtest_upload_bits_per_second"@, "Upload throughput of the most recent run."@, runs, Figure::Upload);
    lemma_take_prefix(p1, family_text("speedtest_upload_bits_per_second"@, "Upload throughput of the most recent run."@, runs, Figure::Upload), n);
    let p3 = p2 + family_text("speedtest_latency_seconds"@, "Idle round trip of the most recent run."@, runs, Figure::Latency);
    lemma_take_prefix(p2, family_text("speedtest_latency_seconds"@, "Idle round trip of the most recent run."@, runs, Figure::Latency), n);
    let p4 = p3 + family_text("speedtest_loaded_latency_download_seconds"@, "Round trip while saturating download, most recent run."@, runs, Figure::DownLoadedLatency);
    lemma_take_prefix(p3, family_text("speedtest_loaded_latency_download_seconds"@, "Round trip while saturating download, most recent run."@, runs, Figure::DownLoadedLatency), n);
    let p5 = p4 + family_text("speedtest_loaded_latency_upload_seconds"@, "Round trip while saturating upload, most recent run."@, runs, Figure::UpLoadedLatency);
    lemma_take_prefix(p4, family_text("speedtest_loaded_latency_upload_seconds"@, "Round trip while saturating upload, most recent run."@, runs, Figure::UpLoadedLatency), n);
    let p6 = p5 + family_text("speedtest_jitter_seconds"@, "Variation in round trip, most recent run."@, runs, Figure::Jitter);
    lemma_take_prefix(p5, family_text("speedtest_jitter_seconds"@, "Variation in round trip, most recent run."@, runs, Figure::Jitter), n);
    let p7 = p6 + family_text("speedtest_packet_loss_ratio"@, "Packet loss of the most recent run, 0 to 1."@, runs, Figure::PacketLoss);
    lemma_take_prefix(p6, family_text("speedtest_packet_loss_ratio"@, "Packet loss of the most recent run, 0 to 1."@, runs, Figure::PacketLoss), n);
    let p8 = p7 + family_text("speedtest_run_timestamp_seconds"@, "When the most recent run was recorded, Unix time."@, runs, Figure::Timestamp);
    lemma_take_prefix(p7, family_text("speedtest_run_timestamp_seconds"@, "When the most recent run was recorded, Unix time."@, runs, Figure::Timestamp), n);
    let p9 = p8 + bloat_text(runs);
    lemma_take_prefix(p8, bloat_text(runs), n);
    let p10 = p9 + quality_text(runs);
    lemma_take_prefix(p9, quality_text(runs), n);
    assert(p10 == spec_render(version, git_sha, total, runs));
    assert(head.take(n) =~= head);
}

proof fn lemma_take_prefix(a: Seq<char>, b: Seq<char>, n: int)
    requires
        0 <= n <= a.len(),
    ensures
        (a + b).take(n) == a.take(n),
{
    assert((a + b).take(n) =~= a.take(n));
}

/// A series is labelled with the run's address as `client`, the name it is
/// known by as `name` (the typed name when there is one, else the resolved
/// hostname, else nothing), and its profile, each escaped.
pub proof fn lemma_labels_name_the_run(run: MetricRun)
    ensures
        labels_of(run) == "client=\""@ + escape_seq(run.client_ip@) + "\",name=\""@ + escape_seq(
            match run.client_name {
                Some(n) => n@,
                None => match run.hostname {
                    Some(h) => h@,
                    None => Seq::<char>::empty(),
                },
            },
        ) + "\",profile=\""@ + escape_seq(run.profile@) + "\""@,
{
}

/// A figure no run measured leaves no trace in the body: no header, no line,
/// and in particular no zero.
pub proof fn lemma_unmeasured_figure_is_absent(name: Seq<char>, help: Seq<char>, runs: Seq<MetricRun>, f: Figure)
    requires
        forall|k: int| 0 <= k < runs.len() ==> figure_value(#[trigger] runs[k], f) is None,
    ensures
        family_text(name, help, runs, f) == Seq::<char>::empty(),
{
    lemma_no_rows(name, runs, f);
}

proof fn lemma_no_rows(name: Seq<char>, runs: Seq<MetricRun>, f: Figure)
    requires
        forall|k: int| 0 <= k < runs.len() ==> figure_value(#[trigger] runs[k], f) is None,
    ensures
        family_rows(name, runs, f) == Seq::<char>::empty(),
    decreases runs.len(),
{
    if runs.len() > 0 {
        assert forall|k: int| 0 <= k < runs.drop_last().len() implies figure_value(
            #[trigger] runs.drop_last()[k],
            f,
        ) is None by {
            assert(runs.drop_last()[k] == runs[k]);
        }
        lemma_no_rows(name, runs.drop_last(), f);
        assert(figure_value(runs[runs.len() - 1], f) is None);
        assert(family_rows(name, runs, f) =~= Seq::<char>::empty());
    }
}

} // verus!
