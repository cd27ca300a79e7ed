//! Telemetry storage decisions shared by the JSONL and Parquet stores:
//! which spans and metrics a query returns, which hourly partitions a time
//! range covers, how a write splits into partitions, which partitions have
//! outlived the retention window, and the names of partition files.
//!
//! File and Parquet I/O are the caller's; the calendar formatting of a
//! partition key is chrono's.

use vstd::prelude::*;

use crate::data_product_monitor::{parse_rfc3339_instant, spec_rfc3339_instant};
use crate::otel::{text_less, text_lt};
use crate::text::{decimal, decimal_string, str_eq, trim_end_str, trim_end_str_len};

verus! {

broadcast use vstd::string::group_string_axioms;

// ---------------------------------------------------------------------------
// Instants
// ---------------------------------------------------------------------------

/// `a <= b` for instants (Unix seconds, nanoseconds within the second).
pub open spec fn instant_le(a: (i64, u32), b: (i64, u32)) -> bool {
    a.0 < b.0 || (a.0 == b.0 && a.1 <= b.1)
}

fn instant_le_exec(a: (i64, u32), b: (i64, u32)) -> (r: bool)
    ensures
        r == instant_le(a, b),
{
    a.0 < b.0 || (a.0 == b.0 && a.1 <= b.1)
}

/// The instant an RFC 3339 text gives, or `now` when it does not parse.
pub fn instant_or_now(text: &str, now: (i64, u32)) -> (r: (i64, u32))
    ensures
        r == match spec_rfc3339_instant(text@) {
            Some(t) => t,
            None => now,
        },
{
    match parse_rfc3339_instant(text) {
        Some(t) => t,
        None => now,
    }
}

// ---------------------------------------------------------------------------
// Query filters
// ---------------------------------------------------------------------------

/// Optional constraints of a telemetry query.
#[derive(Debug)]
pub struct TelemetryFilter {
    pub service_name: Option<String>,
    pub operation_name: Option<String>,
    pub metric_name: Option<String>,
    pub min_duration_ms: Option<u64>,
}

/// A filter's constraints as texts.
pub struct FilterModel {
    pub service_name: Option<Seq<char>>,
    pub operation_name: Option<Seq<char>>,
    pub metric_name: Option<Seq<char>>,
    pub min_duration_ms: Option<u64>,
}

/// The text of an optional string.
pub open spec fn opt_view(s: Option<String>) -> Option<Seq<char>> {
    match s {
        Some(x) => Some(x@),
        None => None,
    }
}

impl View for TelemetryFilter {
    type V = FilterModel;

    open spec fn view(&self) -> FilterModel {
        FilterModel {
            service_name: opt_view(self.service_name),
            operation_name: opt_view(self.operation_name),
            metric_name: opt_view(self.metric_name),
            min_duration_ms: self.min_duration_ms,
        }
    }
}

impl TelemetryFilter {
    /// No constraints.
    pub fn unconstrained() -> (f: TelemetryFilter)
        ensures
            f@.service_name is None,
            f@.operation_name is None,
            f@.metric_name is None,
            f@.min_duration_ms is None,
    {
        TelemetryFilter { service_name: None, operation_name: None, metric_name: None, min_duration_ms: None }
    }
}

/// The fields of a span a query looks at.
#[derive(Debug)]
pub struct SpanFacts {
    pub service_name: String,
    pub operation_name: String,
    pub start: (i64, u32),
    pub duration_ms: u64,
}

/// The fields of a metric record a query looks at.
#[derive(Debug)]
pub struct MetricFacts {
    pub name: String,
    pub service_name: String,
    pub timestamp: (i64, u32),
}

/// Does `value` meet an optional equality constraint?
pub open spec fn meets(c: Option<Seq<char>>, value: Seq<char>) -> bool {
    match c {
        Some(x) => value == x,
        None => true,
    }
}

/// Is a span returned by a query over `[from, to]` with filter `f`? It
/// starts within the range, and matches the service, operation and
/// minimum duration the filter names.
pub open spec fn span_selected(s: SpanFacts, from: (i64, u32), to: (i64, u32), f: FilterModel) -> bool {
    &&& instant_le(from, s.start)
    &&& instant_le(s.start, to)
    &&& meets(f.service_name, s.service_name@)
    &&& meets(f.operation_name, s.operation_name@)
    &&& match f.min_duration_ms {
        Some(d) => s.duration_ms >= d,
        None => true,
    }
}

/// Is a metric record returned by a query over `[from, to]` with filter
/// `f`? Its timestamp is within the range, and it matches the service and
/// metric name the filter names.
pub open spec fn metric_selected(m: MetricFacts, from: (i64, u32), to: (i64, u32), f: FilterModel) -> bool {
    &&& instant_le(from, m.timestamp)
    &&& instant_le(m.timestamp, to)
    &&& meets(f.service_name, m.service_name@)
    &&& meets(f.metric_name, m.name@)
}

fn meets_exec(c: &Option<String>, value: &str) -> (r: bool)
    ensures
        r == meets(opt_view(*c), value@),
{
    match c {
        Some(x) => str_eq(value, x.as_str()),
        None => true,
    }
}

/// Does a span pass the query?
pub fn span_matches(s: &SpanFacts, from: (i64, u32), to: (i64, u32), f: &TelemetryFilter) -> (r: bool)
    ensures
        r == span_selected(*s, from, to, f@),
{
    if !instant_le_exec(from, s.start) || !instant_le_exec(s.start, to) {
        return false;
    }
    if !meets_exec(&f.service_name, s.service_name.as_str()) {
        return false;
    }
    if !meets_exec(&f.operation_name, s.operation_name.as_str()) {
        return false;
    }
    match f.min_duration_ms {
        Some(d) => s.duration_ms >= d,
        None => true,
    }
}

/// Does a metric record pass the query?
pub fn metric_matches(m: &MetricFacts, from: (i64, u32), to: (i64, u32), f: &TelemetryFilter) -> (r: bool)
    ensures
        r == metric_selected(*m, from, to, f@),
{
    if !instant_le_exec(from, m.timestamp) || !instant_le_exec(m.timestamp, to) {
        return false;
    }
    if !meets_exec(&f.service_name, m.service_name.as_str()) {
        return false;
    }
    meets_exec(&f.metric_name, m.name.as_str())
}

/// The positions, in order, of the elements of a sequence that satisfy a
/// predicate.
pub open spec fn selected_positions<T>(s: Seq<T>, p: spec_fn(T) -> bool) -> Seq<usize>
    decreases s.len(),
{
    if s.len() == 0 {
        Seq::empty()
    } else {
        let rest = selected_positions(s.drop_last(), p);
        if p(s.last()) {
            rest.push((s.len() - 1) as usize)
        } else {
            rest
        }
    }
}

/// The positions of the spans a query over `[from, to]` with filter `f`
/// returns.
pub open spec fn span_query(spans: Seq<SpanFacts>, from: (i64, u32), to: (i64, u32), f: FilterModel) -> Seq<usize> {
    selected_positions(spans, |s: SpanFacts| span_selected(s, from, to, f))
}

/// The positions of the metric records a query over `[from, to]` with
/// filter `f` returns.
pub open spec fn metric_query(metrics: Seq<MetricFacts>, from: (i64, u32), to: (i64, u32), f: FilterModel) -> Seq<usize> {
    selected_positions(metrics, |m: MetricFacts| metric_selected(m, from, to, f))
}

/// The positions `selected_positions` gives are exactly those of the
/// elements that satisfy the predicate, in increasing order.
proof fn lemma_selected_positions<T>(s: Seq<T>, p: spec_fn(T) -> bool)
    requires
        s.len() <= usize::MAX,
    ensures
        forall|x: usize| #[trigger] selected_positions(s, p).contains(x) <==> (x < s.len() && p(s[x as int])),
        forall|a: int, b: int|
            0 <= a < b < selected_positions(s, p).len() ==> #[trigger] selected_positions(s, p)[a] < #[trigger] selected_positions(s, p)[b],
    decreases s.len(),
{
    if s.len() > 0 {
        let d = s.drop_last();
        lemma_selected_positions(d, p);
        let r = selected_positions(d, p);
        let big = selected_positions(s, p);
        let last = (s.len() - 1) as usize;
        if p(s.last()) {
            assert(big == r.push(last));
            assert forall|x: usize| #[trigger] big.contains(x) <==> (x < s.len() && p(s[x as int])) by {
                if big.contains(x) {
                    let k = choose|k: int| 0 <= k < big.len() && big[k] == x;
                    if k < r.len() {
                        assert(r[k] == x);
                        assert(r.contains(x));
                        assert(d[x as int] == s[x as int]);
                    }
                }
                if x < s.len() && p(s[x as int]) {
                    if x == last {
                        assert(big[r.len() as int] == x);
                    } else {
                        assert(d[x as int] == s[x as int]);
                        assert(r.contains(x));
                        let k = choose|k: int| 0 <= k < r.len() && r[k] == x;
                        assert(big[k] == x);
                    }
                }
            }
            assert forall|a: int, b: int| 0 <= a < b < big.len() implies #[trigger] big[a] < #[trigger] big[b] by {
                if b == r.len() {
                    assert(r[a] == big[a]);
                    assert(r.contains(r[a]));
                } else {
                    assert(r[a] == big[a] && r[b] == big[b]);
                }
            }
        } else {
            assert(big == r);
            assert forall|x: usize| #[trigger] big.contains(x) <==> (x < s.len() && p(s[x as int])) by {
                if x < d.len() {
                    assert(d[x as int] == s[x as int]);
                }
            }
        }
    }
}

/// A span is returned by a query exactly when it starts within the range
/// and meets every constraint the filter gives: its service, its
/// operation and its minimum duration.
pub proof fn law_span_selection(s: SpanFacts, from: (i64, u32), to: (i64, u32), f: FilterModel)
    ensures
        span_selected(s, from, to, f) <==> {
            &&& instant_le(from, s.start)
            &&& instant_le(s.start, to)
            &&& f.service_name is Some ==> s.service_name@ == f.service_name->0
            &&& f.operation_name is Some ==> s.operation_name@ == f.operation_name->0
            &&& f.min_duration_ms is Some ==> s.duration_ms >= f.min_duration_ms->0
        },
{
}

/// A metric record is returned by a query exactly when its timestamp is
/// within the range and it meets every constraint the filter gives: its
/// service and its metric name.
pub proof fn law_metric_selection(m: MetricFacts, from: (i64, u32), to: (i64, u32), f: FilterModel)
    ensures
        metric_selected(m, from, to, f) <==> {
            &&& instant_le(from, m.timestamp)
            &&& instant_le(m.timestamp, to)
            &&& f.service_name is Some ==> m.service_name@ == f.service_name->0
            &&& f.metric_name is Some ==> m.name@ == f.metric_name->0
        },
{
}

/// A span query returns, in increasing order, the position of every span
/// that starts within the range and meets each constraint of the filter,
/// and no other.
pub proof fn law_query_spans_selects_exactly(spans: Seq<SpanFacts>, from: (i64, u32), to: (i64, u32), f: FilterModel)
    requires
        spans.len() <= usize::MAX,
    ensures
        forall|k: usize|
            #[trigger] span_query(spans, from, to, f).contains(k) <==> {
                &&& k < spans.len()
                &&& instant_le(from, spans[k as int].start)
                &&& instant_le(spans[k as int].start, to)
                &&& f.service_name is Some ==> spans[k as int].service_name@ == f.service_name->0
                &&& f.operation_name is Some ==> spans[k as int].operation_name@ == f.operation_name->0
                &&& f.min_duration_ms is Some ==> spans[k as int].duration_ms >= f.min_duration_ms->0
            },
        forall|a: int, b: int|
            0 <= a < b < span_query(spans, from, to, f).len() ==> #[trigger] span_query(spans, from, to, f)[a] < #[trigger] span_query(spans, from, to, f)[b],
{
    lemma_selected_positions(spans, |s: SpanFacts| span_selected(s, from, to, f));
}

/// A metric query returns, in increasing order, the position of every
/// record within the range that meets each constraint of the filter, and
/// no other.
pub proof fn law_query_metrics_selects_exactly(metrics: Seq<MetricFacts>, from: (i64, u32), to: (i64, u32), f: FilterModel)
    requires
        metrics.len() <= usize::MAX,
    ensures
        forall|k: usize|
            #[trigger] metric_query(metrics, from, to, f).contains(k) <==> {
                &&& k < metrics.len()
                &&& instant_le(from, metrics[k as int].timestamp)
                &&& instant_le(metrics[k as int].timestamp, to)
                &&& f.service_name is Some ==> metrics[k as int].service_name@ == f.service_name->0
                &&& f.metric_name is Some ==> metrics[k as int].name@ == f.metric_name->0
            },
        forall|a: int, b: int|
            0 <= a < b < metric_query(metrics, from, to, f).len() ==> #[trigger] metric_query(metrics, from, to, f)[a] < #[trigger] metric_query(metrics, from, to, f)[b],
{
    lemma_selected_positions(metrics, |m: MetricFacts| metric_selected(m, from, to, f));
}

/// The spans a query returns, by position, in the order they were read.
pub fn query_spans(spans: &Vec<SpanFacts>, from: (i64, u32), to: (i64, u32), f: &TelemetryFilter) -> (r: Vec<usize>)
    ensures
        r@ == span_query(spans@, from, to, f@),
{
    let ghost p = |s: SpanFacts| span_selected(s, from, to, f@);
    let mut r: Vec<usize> = Vec::new();
    let mut i: usize = 0;
    while i < spans.len()
        invariant
            i <= spans@.len(),
            p == (|s: SpanFacts| span_selected(s, from, to, f@)),
            r@ == selected_positions(spans@.take(i as int), p),
        decreases spans@.len() - i,
    {
        assert(spans@.take(i + 1).drop_last() =~= spans@.take(i as int));
        assert(spans@.take(i + 1).last() == spans@[i as int]);
        if span_matches(&spans[i], from, to, f) {
            r.push(i);
        }
        i = i + 1;
    }
    assert(spans@.take(spans@.len() as int) =~= spans@);
    r
}

/// The metric records a query returns, by position, in the order they were
/// read.
pub fn query_metrics(metrics: &Vec<MetricFacts>, from: (i64, u32), to: (i64, u32), f: &TelemetryFilter) -> (r: Vec<usize>)
    ensures
        r@ == metric_query(metrics@, from, to, f@),
{
    let ghost p = |m: MetricFacts| metric_selected(m, from, to, f@);
    let mut r: Vec<usize> = Vec::new();
    let mut i: usize = 0;
    while i < metrics.len()
        invariant
            i <= metrics@.len(),
            p == (|m: MetricFacts| metric_selected(m, from, to, f@)),
            r@ == selected_positions(metrics@.take(i as int), p),
        decreases metrics@.len() - i,
    {
        assert(metrics@.take(i + 1).drop_last() =~= metrics@.take(i as int));
        assert(metrics@.take(i + 1).last() == metrics@[i as int]);
        if metric_matches(&metrics[i], from, to, f) {
            r.push(i);
        }
        i = i + 1;
    }
    assert(metrics@.take(metrics@.len() as int) =~= metrics@);
    r
}

// ---------------------------------------------------------------------------
// Hourly partitions
// ---------------------------------------------------------------------------

/// The text chrono's `format` gives for the UTC instant, if the instant is
/// one chrono can represent.
pub uninterp spec fn spec_format_utc(secs: i64, nanos: u32, fmt: Seq<char>) -> Option<Seq<char>>;

/// The proleptic Gregorian (year, month, day) of the day `z` days after
/// 1970-01-01.
pub open spec fn civil_from_days(z: int) -> (int, int, int) {
    let z2 = z + 719468;
    let era = z2 / 146097;
    let doe = z2 - era * 146097;
    let yoe = (doe - doe / 1460 + doe / 36524 - doe / 146096) / 365;
    let doy = doe - (365 * yoe + yoe / 4 - yoe / 100);
    let mp = (5 * doy + 2) / 153;
    let d = doy - (153 * mp + 2) / 5 + 1;
    let m = if mp < 10 { mp + 3 } else { mp - 9 };
    (yoe + era * 400 + if m <= 2 { 1int } else { 0int }, m, d)
}

/// The hourly partition text of a UTC instant in years 1970 to 9999:
/// `YYYY-MM-DD{sep}HH`, zero-padded.
pub open spec fn hour_partition_text(secs: int, sep: char) -> Seq<char> {
    let (y, m, d) = civil_from_days(secs / 86400);
    zero_padded(y as nat, 4) + seq!['-'] + zero_padded(m as nat, 2) + seq!['-'] + zero_padded(d as nat, 2) + seq![sep]
        + zero_padded(((secs % 86400) / 3600) as nat, 2)
}

/// The instants from 1970 to the end of year 9999, with a nanosecond part
/// under one second.
pub open spec fn plain_instant(secs: i64, nanos: u32) -> bool {
    0 <= secs < 253402300800 && nanos < 1000000000
}

/// Calls `chrono::DateTime::<Utc>::from_timestamp` and then `format` with
/// `fmt`. Claimed: the text is the fixed function `spec_format_utc` of the
/// instant and the format (`None` when chrono cannot represent the
/// instant); for instants from 1970 to the end of year 9999 it is the
/// zero-padded `YYYY-MM-DD-HH` (or `YYYY-MM-DDTHH`) of the civil date and
/// hour. Only the two partition formats are admitted: chrono's formatting
/// panics on a format string it cannot read.
#[verifier::external_body]
fn format_utc(secs: i64, nanos: u32, fmt: &str) -> (r: Option<String>)
    requires
        fmt@ == "%Y-%m-%d-%H"@ || fmt@ == "%Y-%m-%dT%H"@,
    ensures
        opt_view(r) == spec_format_utc(secs, nanos, fmt@),
        plain_instant(secs, nanos) ==> opt_view(r) == Some(
            hour_partition_text(secs as int, if fmt@ == "%Y-%m-%d-%H"@ { '-' } else { 'T' }),
        ),
{
    chrono::DateTime::<chrono::Utc>::from_timestamp(secs, nanos).map(|t| t.format(fmt).to_string())
}

/// The JSONL partition key (`%Y-%m-%d-%H`) of an instant.
pub fn jsonl_partition_key(t: (i64, u32)) -> (r: Option<String>)
    ensures
        opt_view(r) == spec_format_utc(t.0, t.1, "%Y-%m-%d-%H"@),
        plain_instant(t.0, t.1) ==> opt_view(r) == Some(hour_partition_text(t.0 as int, '-')),
{
    format_utc(t.0, t.1, "%Y-%m-%d-%H")
}

/// The Parquet partition key (`%Y-%m-%dT%H`) of an instant.
pub fn parquet_partition_key(t: (i64, u32)) -> (r: Option<String>)
    ensures
        opt_view(r) == spec_format_utc(t.0, t.1, "%Y-%m-%dT%H"@),
        plain_instant(t.0, t.1) ==> opt_view(r) == Some(hour_partition_text(t.0 as int, 'T')),
{
    let r = format_utc(t.0, t.1, "%Y-%m-%dT%H");
    proof {
        reveal_strlit("%Y-%m-%d-%H");
        reveal_strlit("%Y-%m-%dT%H");
        assert("%Y-%m-%dT%H"@[8] != "%Y-%m-%d-%H"@[8]);
    }
    r
}

/// The start, in Unix seconds, of the hour that holds `secs`.
pub open spec fn hour_floor(secs: int) -> int {
    secs - (secs % 3600)
}

/// The hour starts from the hour of `from` through the last one not after
/// `to`: the hourly partitions a JSONL read over `[from, to]` opens.
pub open spec fn hour_starts(first: int, to_secs: int) -> Seq<int>
    decreases if first > to_secs { 0 } else { to_secs - first + 1 },
{
    if first > to_secs {
        Seq::empty()
    } else {
        seq![first] + hour_starts(first + 3600, to_secs)
    }
}

/// The starts of the hours, in order, that a read over `[from, to]`
/// covers: from the hour holding `from` while the hour start is not after
/// `to`.
pub fn hours_in_range(from: (i64, u32), to: (i64, u32)) -> (r: Vec<i64>)
    requires
        from.0 >= i64::MIN + 3600,
        to.0 <= i64::MAX - 3600,
    ensures
        r@.map_values(|h: i64| h as int) == hour_starts(hour_floor(from.0 as int), to.0 as int),
{
    let rem: i64 = from.0 % 3600;
    let first: i64 = if rem < 0 { from.0 - (rem + 3600) } else { from.0 - rem };
    assert(first as int == hour_floor(from.0 as int)) by {
        assert(from.0 as int % 3600 == if rem < 0 { rem + 3600 } else { rem as int });
    }
    let mut cur: i64 = first;
    let mut r: Vec<i64> = Vec::new();
    while cur <= to.0
        invariant
            to.0 <= i64::MAX - 3600,
            r@.map_values(|h: i64| h as int) + hour_starts(cur as int, to.0 as int) == hour_starts(
                first as int,
                to.0 as int,
            ),
        decreases if cur > to.0 { 0 } else { to.0 - cur + 1 },
    {
        let ghost before = r@.map_values(|h: i64| h as int);
        r.push(cur);
        assert(r@.map_values(|h: i64| h as int) =~= before.push(cur as int));
        assert(hour_starts(cur as int, to.0 as int) == seq![cur as int] + hour_starts(cur + 3600, to.0 as int));
        assert(before.push(cur as int) + hour_starts(cur + 3600, to.0 as int) =~= before + (seq![cur as int]
            + hour_starts(cur + 3600, to.0 as int)));
        cur = cur + 3600;
    }
    assert(hour_starts(cur as int, to.0 as int) =~= Seq::<int>::empty());
    assert(r@.map_values(|h: i64| h as int) + Seq::<int>::empty() =~= r@.map_values(|h: i64| h as int));
    r
}

/// Is a JSONL file (`{partition}.jsonl`) past retention? Its name without
/// any trailing `.jsonl` sorts before the cutoff partition.
pub open spec fn jsonl_file_expired(file_name: Seq<char>, cutoff: Seq<char>) -> bool {
    text_lt(trim_end_str(file_name, ".jsonl"@), cutoff)
}

/// Whether a JSONL partition file has outlived the retention window.
pub fn is_expired_jsonl_file(file_name: &str, cutoff: &str) -> (r: bool)
    ensures
        r == jsonl_file_expired(file_name@, cutoff@),
{
    let v = crate::text::chars_of(file_name);
    let suffix = crate::text::chars_of(".jsonl");
    let n = trim_end_str_len(v.as_slice(), suffix.as_slice());
    let head = crate::text::sub_chars(v.as_slice(), 0, n);
    let h = crate::text::string_of(head.as_slice());
    text_less(h.as_str(), cutoff)
}

/// Whether a Parquet partition directory has outlived the retention window:
/// its name sorts before the cutoff partition.
pub fn is_expired_partition(dir_name: &str, cutoff: &str) -> (r: bool)
    ensures
        r == text_lt(dir_name@, cutoff@),
{
    text_less(dir_name, cutoff)
}

/// Whether a Parquet partition directory lies in the partitions of a query:
/// `from_partition <= name <= to_partition` in text order.
pub fn partition_in_range(dir_name: &str, from_partition: &str, to_partition: &str) -> (r: bool)
    ensures
        r == (!text_lt(dir_name@, from_partition@) && !text_lt(to_partition@, dir_name@)),
{
    !text_less(dir_name, from_partition) && !text_less(to_partition, dir_name)
}

/// The digits of `n`, left-padded with zeros to at least `w` characters.
pub open spec fn zero_padded(n: nat, w: nat) -> Seq<char> {
    let d = decimal(n);
    if d.len() >= w {
        d
    } else {
        Seq::new((w - d.len()) as nat, |i: int| '0') + d
    }
}

/// The name of the `n`th part file of a partition: `part-{n:04}.parquet`.
pub fn part_file_name(n: u64) -> (r: String)
    ensures
        r@ == "part-"@ + zero_padded(n as nat, 4) + ".parquet"@,
{
    let digits = decimal_string(n);
    let dv = crate::text::chars_of(digits.as_str());
    let mut r = String::from_str("part-");
    let mut pad: usize = 0;
    let missing: usize = if dv.len() >= 4 { 0 } else { 4 - dv.len() };
    while pad < missing
        invariant
            pad <= missing,
            missing == if dv@.len() >= 4 { 0 } else { 4 - dv@.len() },
            r@ == "part-"@ + Seq::new(pad as nat, |i: int| '0'),
        decreases missing - pad,
    {
        crate::text::push_char(&mut r, '0');
        assert(Seq::new(pad as nat, |i: int| '0').push('0') =~= Seq::new((pad + 1) as nat, |i: int| '0'));
        assert(("part-"@ + Seq::new(pad as nat, |i: int| '0')).push('0') =~= "part-"@ + Seq::new(
            (pad + 1) as nat,
            |i: int| '0',
        ));
        pad = pad + 1;
    }
    r.append(digits.as_str());
    r.append(".parquet");
    proof {
        if dv@.len() >= 4 {
            assert(Seq::new(0nat, |i: int| '0') =~= Seq::<char>::empty());
            assert("part-"@ + Seq::<char>::empty() =~= "part-"@);
        }
    }
    r
}

// ---------------------------------------------------------------------------
// Grouping a write by partition
// ---------------------------------------------------------------------------

/// The records of one partition of a write: the partition key and the
/// positions of its records.
#[derive(Debug)]
pub struct PartitionGroup {
    pub key: String,
    pub members: Vec<usize>,
}

/// A partition group as texts.
pub open spec fn group_view(g: PartitionGroup) -> (Seq<char>, Seq<usize>) {
    (g.key@, g.members@)
}

/// The texts of the groups.
pub open spec fn group_views(gs: Seq<PartitionGroup>) -> Seq<(Seq<char>, Seq<usize>)> {
    gs.map_values(|g: PartitionGroup| group_view(g))
}

/// The texts of the partition keys.
pub open spec fn text_views(v: Seq<String>) -> Seq<Seq<char>> {
    v.map_values(|x: String| x@)
}

/// A group lists, in increasing order and at least once, exactly the
/// positions whose key is the group's.
pub open spec fn members_ok(keys: Seq<Seq<char>>, g: (Seq<char>, Seq<usize>)) -> bool {
    &&& g.1.len() > 0
    &&& forall|a: int, b: int| 0 <= a < b < g.1.len() ==> #[trigger] g.1[a] < #[trigger] g.1[b]
    &&& forall|m: int| 0 <= m < g.1.len() ==> (#[trigger] g.1[m]) < keys.len()
    &&& forall|i: int|
        #![trigger g.1.contains(i as usize)]
        0 <= i < keys.len() ==> (g.1.contains(i as usize) <==> keys[i] == g.0)
}

/// The groups of a write: one per partition key (keys pairwise distinct),
/// each exact, every position in one of them, and the groups in the order
/// in which their partitions first occur.
pub open spec fn partitioned(keys: Seq<Seq<char>>, gs: Seq<(Seq<char>, Seq<usize>)>) -> bool {
    &&& forall|k: int| 0 <= k < gs.len() ==> members_ok(keys, #[trigger] gs[k])
    &&& forall|a: int, b: int| 0 <= a < b < gs.len() ==> #[trigger] gs[a].0 != #[trigger] gs[b].0
    &&& forall|a: int, b: int| 0 <= a < b < gs.len() ==> #[trigger] gs[a].1[0] < #[trigger] gs[b].1[0]
    &&& forall|i: int| 0 <= i < keys.len() ==> has_partition(gs, #[trigger] keys[i])
}

/// Some group has the key.
pub open spec fn has_partition(gs: Seq<(Seq<char>, Seq<usize>)>, key: Seq<char>) -> bool {
    exists|k: int| 0 <= k < gs.len() && (#[trigger] gs[k]).0 == key
}

proof fn lemma_members_other(keys: Seq<Seq<char>>, g: (Seq<char>, Seq<usize>), key: Seq<char>)
    requires
        members_ok(keys, g),
        g.0 != key,
        keys.len() < usize::MAX,
    ensures
        members_ok(keys.push(key), g),
{
    let k2 = keys.push(key);
    assert forall|i: int| #![trigger g.1.contains(i as usize)] 0 <= i < k2.len() implies (g.1.contains(i as usize)
        <==> k2[i] == g.0) by {
        if i == keys.len() {
            assert(k2[i] == key);
            if g.1.contains(i as usize) {
                let m = choose|m: int| 0 <= m < g.1.len() && g.1[m] == i as usize;
                assert(g.1[m] < keys.len());
                assert(false);
            }
        } else {
            assert(k2[i] == keys[i]);
        }
    }
}

proof fn lemma_members_same(keys: Seq<Seq<char>>, g: (Seq<char>, Seq<usize>))
    requires
        members_ok(keys, g),
        keys.len() < usize::MAX,
    ensures
        members_ok(keys.push(g.0), (g.0, g.1.push(keys.len() as usize))),
{
    let k2 = keys.push(g.0);
    let m2 = g.1.push(keys.len() as usize);
    assert forall|a: int, b: int| 0 <= a < b < m2.len() implies #[trigger] m2[a] < #[trigger] m2[b] by {
        if b == g.1.len() {
            assert(g.1[a] < keys.len());
        } else {
            assert(g.1[a] < g.1[b]);
        }
    }
    assert forall|m: int| 0 <= m < m2.len() implies (#[trigger] m2[m]) < k2.len() by {
        if m < g.1.len() {
            assert(g.1[m] < keys.len());
        }
    }
    assert forall|i: int| #![trigger m2.contains(i as usize)] 0 <= i < k2.len() implies (m2.contains(i as usize)
        <==> k2[i] == g.0) by {
        if i == keys.len() {
            assert(m2[g.1.len() as int] == i as usize);
        } else {
            assert(k2[i] == keys[i]);
            if m2.contains(i as usize) {
                let m = choose|m: int| 0 <= m < m2.len() && m2[m] == i as usize;
                if m < g.1.len() {
                    assert(g.1.contains(i as usize));
                }
            }
            if g.1.contains(i as usize) {
                let m = choose|m: int| 0 <= m < g.1.len() && g.1[m] == i as usize;
                assert(m2[m] == i as usize);
            }
        }
    }
}

proof fn lemma_members_new(keys: Seq<Seq<char>>, key: Seq<char>)
    requires
        forall|i: int| 0 <= i < keys.len() ==> keys[i] != key,
        keys.len() < usize::MAX,
    ensures
        members_ok(keys.push(key), (key, seq![keys.len() as usize])),
{
    let k2 = keys.push(key);
    let m2 = seq![keys.len() as usize];
    assert forall|i: int| #![trigger m2.contains(i as usize)] 0 <= i < k2.len() implies (m2.contains(i as usize)
        <==> k2[i] == key) by {
        if i == keys.len() {
            assert(m2[0] == i as usize);
        } else {
            assert(k2[i] == keys[i]);
            if m2.contains(i as usize) {
                let m = choose|m: int| 0 <= m < m2.len() && m2[m] == i as usize;
                assert(m == 0);
            }
        }
    }
}

fn find_partition(gs: &Vec<PartitionGroup>, key: &str) -> (r: Option<usize>)
    ensures
        match r {
            Some(k) => k < gs@.len() && gs@[k as int].key@ == key@,
            None => forall|k: int| 0 <= k < gs@.len() ==> gs@[k].key@ != key@,
        },
{
    let mut k: usize = 0;
    while k < gs.len()
        invariant
            k <= gs@.len(),
            forall|j: int| 0 <= j < k ==> gs@[j].key@ != key@,
        decreases gs@.len() - k,
    {
        if str_eq(gs[k].key.as_str(), key) {
            return Some(k);
        }
        k = k + 1;
    }
    None
}

/// Group the records of a write by their partition keys: one group per
/// key, in the order in which the keys first occur, each with the
/// positions of its records in increasing order.
pub fn group_by_partition(keys: &Vec<String>) -> (r: Vec<PartitionGroup>)
    ensures
        partitioned(text_views(keys@), group_views(r@)),
{
    let ghost kv = text_views(keys@);
    let mut gs: Vec<PartitionGroup> = Vec::new();
    let mut i: usize = 0;
    assert(kv.take(0) =~= Seq::<Seq<char>>::empty());
    assert(group_views(gs@) =~= Seq::<(Seq<char>, Seq<usize>)>::empty());
    while i < keys.len()
        invariant
            i <= keys@.len(),
            kv == text_views(keys@),
            kv.len() == keys@.len(),
            partitioned(kv.take(i as int), group_views(gs@)),
            forall|k: int| 0 <= k < gs@.len() ==> (#[trigger] gs@[k]).members@.len() > 0 ==> gs@[k].members@[0] < i,
        decreases keys@.len() - i,
    {
        let ghost old_g = group_views(gs@);
        let ghost kt = kv.take(i as int);
        let ghost key = kv[i as int];
        assert(kv.take(i + 1) =~= kt.push(key));
        assert(keys@[i as int]@ == key);
        let found = find_partition(&gs, keys[i].as_str());
        match found {
            Some(k) => {
                proof {
                    assert(old_g[k as int].0 == key);
                    lemma_members_same(kt, old_g[k as int]);
                    assert forall|j: int| 0 <= j < old_g.len() && j != k implies members_ok(
                        kt.push(key),
                        #[trigger] old_g[j],
                    ) by {
                        assert(old_g[j].0 != old_g[k as int].0);
                        lemma_members_other(kt, old_g[j], key);
                    }
                }
                let mut g = gs.remove(k);
                g.members.push(i);
                gs.insert(k, g);
                proof {
                    let ng = old_g.update(k as int, (old_g[k as int].0, old_g[k as int].1.push(i)));
                    assert(group_views(gs@) =~= ng);
                    assert(ng[k as int].1[0] == old_g[k as int].1[0]);
                    assert forall|j: int| 0 <= j < ng.len() implies members_ok(kt.push(key), #[trigger] ng[j]) by {
                        if j != k {
                            assert(ng[j] == old_g[j]);
                        }
                    }
                    assert forall|a: int, b: int| 0 <= a < b < ng.len() implies #[trigger] ng[a].1[0]
                        < #[trigger] ng[b].1[0] by {
                        assert(ng[a].1[0] == old_g[a].1[0]);
                        assert(ng[b].1[0] == old_g[b].1[0]);
                    }
                    assert forall|a: int, b: int| 0 <= a < b < ng.len() implies #[trigger] ng[a].0
                        != #[trigger] ng[b].0 by {
                        assert(ng[a].0 == old_g[a].0);
                        assert(ng[b].0 == old_g[b].0);
                    }
                    assert forall|x: int| 0 <= x < kt.push(key).len() implies has_partition(
                        ng,
                        #[trigger] kt.push(key)[x],
                    ) by {
                        if x < kt.len() {
                            let j = choose|j: int| 0 <= j < old_g.len() && (#[trigger] old_g[j]).0 == kt[x];
                            assert(ng[j].0 == old_g[j].0);
                        } else {
                            assert(ng[k as int].0 == key);
                        }
                    }
                }
            },
            None => {
                proof {
                    assert forall|x: int| 0 <= x < kt.len() implies kt[x] != key by {
                        let j = choose|j: int| 0 <= j < old_g.len() && (#[trigger] old_g[j]).0 == kt[x];
                        assert(old_g[j].0 == gs@[j].key@);
                    }
                    lemma_members_new(kt, key);
                    assert forall|j: int| 0 <= j < old_g.len() implies members_ok(kt.push(key), #[trigger] old_g[j]) by {
                        assert(old_g[j].0 == gs@[j].key@);
                        lemma_members_other(kt, old_g[j], key);
                    }
                }
                let mut members: Vec<usize> = Vec::new();
                members.push(i);
                gs.push(PartitionGroup { key: String::from_str(keys[i].as_str()), members });
                proof {
                    let ng = old_g.push((key, seq![i]));
                    assert(group_views(gs@) =~= ng);
                    assert forall|j: int| 0 <= j < ng.len() implies members_ok(kt.push(key), #[trigger] ng[j]) by {
                        if j < old_g.len() {
                            assert(ng[j] == old_g[j]);
                        }
                    }
                    assert forall|a: int, b: int| 0 <= a < b < ng.len() implies #[trigger] ng[a].1[0]
                        < #[trigger] ng[b].1[0] by {
                        assert(ng[a] == old_g[a]);
                        if b < old_g.len() {
                            assert(ng[b] == old_g[b]);
                        } else {
                            assert(gs@[a].members@[0] < i);
                        }
                    }
                    assert forall|a: int, b: int| 0 <= a < b < ng.len() implies #[trigger] ng[a].0
                        != #[trigger] ng[b].0 by {
                        assert(ng[a] == old_g[a]);
                        if b < old_g.len() {
                            assert(ng[b] == old_g[b]);
                        } else {
                            assert(old_g[a].0 == gs@[a].key@);
                        }
                    }
                    assert forall|x: int| 0 <= x < kt.push(key).len() implies has_partition(
                        ng,
                        #[trigger] kt.push(key)[x],
                    ) by {
                        if x < kt.len() {
                            let j = choose|j: int| 0 <= j < old_g.len() && (#[trigger] old_g[j]).0 == kt[x];
                            assert(ng[j] == old_g[j]);
                        } else {
                            assert(ng[old_g.len() as int].0 == key);
                        }
                    }
                }
            },
        }
        i = i + 1;
    }
    assert(kv.take(keys@.len() as int) =~= kv);
    gs
}

/// With no constraints, a query returns exactly the spans that start within
/// its range.
pub proof fn law_unconstrained_query_is_range(s: SpanFacts, from: (i64, u32), to: (i64, u32), f: FilterModel)
    requires
        f.service_name is None,
        f.operation_name is None,
        f.metric_name is None,
        f.min_duration_ms is None,
    ensures
        span_selected(s, from, to, f) == (instant_le(from, s.start) && instant_le(s.start, to)),
{
}

} // verus!
