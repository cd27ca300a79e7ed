//! OpenTelemetry intake: grouping metric records by name for the
//! aggregation window, reading spans out of OTLP `resourceSpans`, and the
//! counters the aggregator reports every interval.
//!
//! Averaging floating-point values and the JSON decoding itself are done
//! by the caller; the grouping, field selection and time arithmetic are
//! here.

use vstd::prelude::*;

use crate::text::{chars_of, parse_u64, str_eq};

verus! {

broadcast use vstd::string::group_string_axioms;

// ---------------------------------------------------------------------------
// Text order
// ---------------------------------------------------------------------------

/// `a < b` in the order of `String::cmp`: lexicographic by code point
/// (the order of their UTF-8 bytes).
pub open spec fn text_lt(a: Seq<char>, b: Seq<char>) -> bool
    decreases a.len(),
{
    if a.len() == 0 {
        b.len() > 0
    } else if b.len() == 0 {
        false
    } else if a[0] != b[0] {
        a[0] < b[0]
    } else {
        text_lt(a.drop_first(), b.drop_first())
    }
}

proof fn lemma_text_lt_irreflexive(a: Seq<char>)
    ensures
        !text_lt(a, a),
    decreases a.len(),
{
    if a.len() > 0 {
        lemma_text_lt_irreflexive(a.drop_first());
    }
}

proof fn lemma_text_lt_asymmetric(a: Seq<char>, b: Seq<char>)
    requires
        text_lt(a, b),
    ensures
        !text_lt(b, a),
    decreases a.len(),
{
    if a.len() > 0 && b.len() > 0 && a[0] == b[0] {
        lemma_text_lt_asymmetric(a.drop_first(), b.drop_first());
    }
}

proof fn lemma_text_lt_transitive(a: Seq<char>, b: Seq<char>, c: Seq<char>)
    requires
        text_lt(a, b),
        text_lt(b, c),
    ensures
        text_lt(a, c),
    decreases a.len(),
{
    if a.len() > 0 && b.len() > 0 && c.len() > 0 && a[0] == b[0] && b[0] == c[0] {
        lemma_text_lt_transitive(a.drop_first(), b.drop_first(), c.drop_first());
    }
}

proof fn lemma_text_lt_total(a: Seq<char>, b: Seq<char>)
    requires
        a != b,
    ensures
        text_lt(a, b) || text_lt(b, a),
    decreases a.len(),
{
    if a.len() > 0 && b.len() > 0 && a[0] == b[0] {
        if a.drop_first() == b.drop_first() {
            assert(a =~= seq![a[0]] + a.drop_first());
            assert(b =~= seq![b[0]] + b.drop_first());
        }
        lemma_text_lt_total(a.drop_first(), b.drop_first());
    } else if a.len() == 0 && b.len() == 0 {
        assert(a =~= b);
    }
}

/// `String::cmp(a, b) == Less`.
pub fn text_less(a: &str, b: &str) -> (r: bool)
    ensures
        r == text_lt(a@, b@),
{
    let av = chars_of(a);
    let bv = chars_of(b);
    let mut i: usize = 0;
    assert(a@.skip(0) =~= a@);
    assert(b@.skip(0) =~= b@);
    while i < av.len() && i < bv.len() && av[i] == bv[i]
        invariant
            i <= av@.len(),
            i <= bv@.len(),
            av@ == a@,
            bv@ == b@,
            text_lt(a@, b@) == text_lt(a@.skip(i as int), b@.skip(i as int)),
        decreases av@.len() - i,
    {
        assert(a@.skip(i as int).drop_first() =~= a@.skip(i + 1));
        assert(b@.skip(i as int).drop_first() =~= b@.skip(i + 1));
        i = i + 1;
    }
    if i == av.len() {
        i < bv.len()
    } else if i == bv.len() {
        false
    } else {
        av[i] < bv[i]
    }
}

// ---------------------------------------------------------------------------
// Metric groups
// ---------------------------------------------------------------------------

/// The records of one metric name in an aggregation window.
#[derive(Debug)]
pub struct MetricGroup {
    /// The metric name.
    pub name: String,
    /// The unit of the name's first record.
    pub unit: String,
    /// The positions of the name's records, in increasing order.
    pub members: Vec<usize>,
}

/// A group as (name, unit, members).
pub type GroupView = (Seq<char>, Seq<char>, Seq<usize>);

impl View for MetricGroup {
    type V = GroupView;

    open spec fn view(&self) -> GroupView {
        (self.name@, self.unit@, self.members@)
    }
}

/// The views of a sequence of groups.
pub open spec fn group_views(v: Seq<MetricGroup>) -> Seq<GroupView> {
    v.map_values(|g: MetricGroup| g@)
}

/// (name, unit) of each record.
pub open spec fn record_views(r: Seq<(String, String)>) -> Seq<(Seq<char>, Seq<char>)> {
    r.map_values(|x: (String, String)| (x.0@, x.1@))
}

/// A group of records `recs`: non-empty members in increasing order that
/// are exactly the positions of records with the group's name, and the
/// unit of the first of them.
pub open spec fn group_ok(recs: Seq<(Seq<char>, Seq<char>)>, g: GroupView) -> bool {
    &&& g.2.len() > 0
    &&& forall|a: int, b: int| 0 <= a < b < g.2.len() ==> #[trigger] g.2[a] < #[trigger] g.2[b]
    &&& forall|m: int| 0 <= m < g.2.len() ==> (#[trigger] g.2[m]) < recs.len()
    &&& forall|i: int|
        #![trigger g.2.contains(i as usize)]
        0 <= i < recs.len() ==> (g.2.contains(i as usize) <==> recs[i].0 == g.0)
    &&& g.1 == recs[g.2[0] as int].1
}

/// Group names in strictly increasing order.
pub open spec fn names_sorted(gs: Seq<GroupView>) -> bool {
    forall|a: int, b: int| 0 <= a < b < gs.len() ==> text_lt(#[trigger] gs[a].0, #[trigger] gs[b].0)
}

/// Some group has the name.
pub open spec fn has_group(gs: Seq<GroupView>, name: Seq<char>) -> bool {
    exists|k: int| 0 <= k < gs.len() && (#[trigger] gs[k]).0 == name
}

/// Every record's name has a group.
pub open spec fn names_covered(recs: Seq<(Seq<char>, Seq<char>)>, gs: Seq<GroupView>) -> bool {
    forall|i: int| 0 <= i < recs.len() ==> has_group(gs, (#[trigger] recs[i]).0)
}

/// The groups of records `recs`: one per name, in increasing name order;
/// each lists exactly the positions of its name's records, in increasing
/// order, and carries the unit of the first of them.
pub open spec fn groups_of(recs: Seq<(Seq<char>, Seq<char>)>, gs: Seq<GroupView>) -> bool {
    &&& names_sorted(gs)
    &&& forall|k: int| 0 <= k < gs.len() ==> group_ok(recs, #[trigger] gs[k])
    &&& names_covered(recs, gs)
}

proof fn lemma_group_other(recs: Seq<(Seq<char>, Seq<char>)>, g: GroupView, rec: (Seq<char>, Seq<char>))
    requires
        group_ok(recs, g),
        g.0 != rec.0,
        recs.len() < usize::MAX,
    ensures
        group_ok(recs.push(rec), g),
{
    let r2 = recs.push(rec);
    let n = recs.len();
    assert forall|i: int| #![trigger g.2.contains(i as usize)] 0 <= i < r2.len() implies (g.2.contains(i as usize) <==> r2[i].0 == g.0) by {
        if i < n {
            assert(r2[i] == recs[i]);
        } else if g.2.contains(i as usize) {
            let m = choose|m: int| 0 <= m < g.2.len() && g.2[m] == i as usize;
            assert(g.2[m] < n);
        }
    }
    assert(g.2[0] < n);
    assert(r2[g.2[0] as int] == recs[g.2[0] as int]);
}

proof fn lemma_group_same(recs: Seq<(Seq<char>, Seq<char>)>, g: GroupView, rec: (Seq<char>, Seq<char>))
    requires
        group_ok(recs, g),
        g.0 == rec.0,
        recs.len() < usize::MAX,
    ensures
        group_ok(recs.push(rec), (g.0, g.1, g.2.push(recs.len() as usize))),
{
    let r2 = recs.push(rec);
    let n = recs.len();
    let ms = g.2;
    let ms2 = ms.push(n as usize);
    assert forall|a: int, b: int| 0 <= a < b < ms2.len() implies #[trigger] ms2[a] < #[trigger] ms2[b] by {
        if b < ms.len() {
            assert(ms[a] < ms[b]);
        } else {
            assert(ms[a] < n);
        }
    }
    assert forall|m: int| 0 <= m < ms2.len() implies (#[trigger] ms2[m]) < r2.len() by {
        if m < ms.len() {
            assert(ms[m] < n);
        }
    }
    assert forall|i: int| #![trigger ms2.contains(i as usize)] 0 <= i < r2.len() implies (ms2.contains(i as usize) <==> r2[i].0 == g.0) by {
        if i < n {
            assert(r2[i] == recs[i]);
            if ms2.contains(i as usize) {
                let m = choose|m: int| 0 <= m < ms2.len() && ms2[m] == i as usize;
                if m == ms.len() {
                    assert(false);
                }
                assert(ms[m] == i as usize);
                assert(ms.contains(i as usize));
            }
            if recs[i].0 == g.0 {
                assert(ms.contains(i as usize));
                let m = choose|m: int| 0 <= m < ms.len() && ms[m] == i as usize;
                assert(ms2[m] == i as usize);
            }
        } else {
            assert(ms2[ms.len() as int] == n as usize);
        }
    }
    assert(ms2[0] == ms[0]);
    assert(ms[0] < n);
    assert(r2[ms[0] as int] == recs[ms[0] as int]);
}

proof fn lemma_group_new(recs: Seq<(Seq<char>, Seq<char>)>, rec: (Seq<char>, Seq<char>))
    requires
        forall|i: int| 0 <= i < recs.len() ==> (#[trigger] recs[i]).0 != rec.0,
        recs.len() < usize::MAX,
    ensures
        group_ok(recs.push(rec), (rec.0, rec.1, seq![recs.len() as usize])),
{
    let r2 = recs.push(rec);
    let n = recs.len();
    let ms = seq![n as usize];
    assert forall|i: int| #![trigger ms.contains(i as usize)] 0 <= i < r2.len() implies (ms.contains(i as usize) <==> r2[i].0 == rec.0) by {
        if i < n {
            assert(r2[i] == recs[i]);
            if ms.contains(i as usize) {
                assert(ms[0] == n as usize);
            }
        } else {
            assert(ms[0] == n as usize);
        }
    }
}

proof fn lemma_names_distinct(gs: Seq<GroupView>, a: int, b: int)
    requires
        names_sorted(gs),
        0 <= a < gs.len(),
        0 <= b < gs.len(),
        a != b,
    ensures
        gs[a].0 != gs[b].0,
{
    if a < b {
        assert(text_lt(gs[a].0, gs[b].0));
        lemma_text_lt_irreflexive(gs[a].0);
    } else {
        assert(text_lt(gs[b].0, gs[a].0));
        lemma_text_lt_irreflexive(gs[b].0);
    }
}

/// Adding record `rec` (at position `recs.len()`) to the existing group `k`.
proof fn lemma_add_to_group(recs: Seq<(Seq<char>, Seq<char>)>, gs: Seq<GroupView>, k: int, rec: (Seq<char>, Seq<char>))
    requires
        groups_of(recs, gs),
        0 <= k < gs.len(),
        gs[k].0 == rec.0,
        recs.len() < usize::MAX,
    ensures
        groups_of(recs.push(rec), gs.update(k, (gs[k].0, gs[k].1, gs[k].2.push(recs.len() as usize)))),
{
    let r2 = recs.push(rec);
    let g2 = gs.update(k, (gs[k].0, gs[k].1, gs[k].2.push(recs.len() as usize)));
    assert forall|a: int, b: int| 0 <= a < b < g2.len() implies text_lt(#[trigger] g2[a].0, #[trigger] g2[b].0) by {
        assert(text_lt(gs[a].0, gs[b].0));
    }
    assert forall|j: int| 0 <= j < g2.len() implies group_ok(r2, #[trigger] g2[j]) by {
        assert(group_ok(recs, gs[j]));
        if j == k {
            lemma_group_same(recs, gs[k], rec);
        } else {
            lemma_names_distinct(gs, j, k);
            lemma_group_other(recs, gs[j], rec);
        }
    }
    assert forall|i: int| 0 <= i < r2.len() implies has_group(g2, (#[trigger] r2[i]).0) by {
        if i < recs.len() {
            assert(r2[i] == recs[i]);
            assert(has_group(gs, recs[i].0));
            let j = choose|j: int| 0 <= j < gs.len() && (#[trigger] gs[j]).0 == recs[i].0;
            assert(g2[j].0 == gs[j].0);
        } else {
            assert(g2[k].0 == r2[i].0);
        }
    }
    assert(names_sorted(g2));
    assert(names_covered(r2, g2));
}

proof fn lemma_insert_sorted(gs: Seq<GroupView>, p: int, ng: GroupView)
    requires
        names_sorted(gs),
        0 <= p <= gs.len(),
        forall|j: int| 0 <= j < p ==> text_lt((#[trigger] gs[j]).0, ng.0),
        p < gs.len() ==> text_lt(ng.0, gs[p].0),
    ensures
        names_sorted(gs.insert(p, ng)),
{
    let g2 = gs.insert(p, ng);
    assert forall|a: int, b: int| 0 <= a < b < g2.len() implies text_lt(#[trigger] g2[a].0, #[trigger] g2[b].0) by {
        if a < p && b < p {
            assert(g2[a] == gs[a] && g2[b] == gs[b]);
            assert(text_lt(gs[a].0, gs[b].0));
        } else if a < p && b == p {
            assert(g2[a] == gs[a] && g2[b] == ng);
        } else if a < p && b > p {
            assert(g2[a] == gs[a] && g2[b] == gs[b - 1]);
            assert(text_lt(gs[a].0, ng.0));
            assert(text_lt(ng.0, gs[p].0));
            if b - 1 > p {
                assert(text_lt(gs[p].0, gs[b - 1].0));
                lemma_text_lt_transitive(ng.0, gs[p].0, gs[b - 1].0);
            }
            lemma_text_lt_transitive(gs[a].0, ng.0, gs[b - 1].0);
        } else if a == p {
            assert(g2[a] == ng && g2[b] == gs[b - 1]);
            assert(text_lt(ng.0, gs[p].0));
            if b - 1 > p {
                assert(text_lt(gs[p].0, gs[b - 1].0));
                lemma_text_lt_transitive(ng.0, gs[p].0, gs[b - 1].0);
            }
        } else {
            assert(g2[a] == gs[a - 1] && g2[b] == gs[b - 1]);
            assert(text_lt(gs[a - 1].0, gs[b - 1].0));
        }
    }
}

/// Adding record `rec` (at position `recs.len()`), whose name no group has,
/// as a new group at `p`, between the names below and above it.
proof fn lemma_add_new_group(recs: Seq<(Seq<char>, Seq<char>)>, gs: Seq<GroupView>, p: int, rec: (Seq<char>, Seq<char>))
    requires
        groups_of(recs, gs),
        0 <= p <= gs.len(),
        forall|j: int| 0 <= j < gs.len() ==> (#[trigger] gs[j]).0 != rec.0,
        forall|j: int| 0 <= j < p ==> text_lt((#[trigger] gs[j]).0, rec.0),
        p < gs.len() ==> text_lt(rec.0, gs[p].0),
        recs.len() < usize::MAX,
    ensures
        groups_of(recs.push(rec), gs.insert(p, (rec.0, rec.1, seq![recs.len() as usize]))),
{
    let n = recs.len();
    let r2 = recs.push(rec);
    let ng: GroupView = (rec.0, rec.1, seq![n as usize]);
    let g2 = gs.insert(p, ng);
    lemma_insert_sorted(gs, p, ng);
    assert forall|i: int| 0 <= i < recs.len() implies (#[trigger] recs[i]).0 != rec.0 by {
        assert(has_group(gs, recs[i].0));
            let q = choose|q: int| 0 <= q < gs.len() && (#[trigger] gs[q]).0 == recs[i].0;
    }
    assert forall|j: int| 0 <= j < g2.len() implies group_ok(r2, #[trigger] g2[j]) by {
        if j == p {
            lemma_group_new(recs, rec);
        } else {
            let q = if j < p { j } else { j - 1 };
            assert(g2[j] == gs[q]);
            assert(group_ok(recs, gs[q]));
            lemma_group_other(recs, gs[q], rec);
        }
    }
    assert forall|i: int| 0 <= i < r2.len() implies has_group(g2, (#[trigger] r2[i]).0) by {
        if i < n {
            assert(r2[i] == recs[i]);
            assert(has_group(gs, recs[i].0));
            let q = choose|q: int| 0 <= q < gs.len() && (#[trigger] gs[q]).0 == recs[i].0;
            if q < p {
                assert(g2[q] == gs[q]);
            } else {
                assert(g2[q + 1] == gs[q]);
            }
        } else {
            assert(g2[p].0 == r2[i].0);
        }
    }
    assert(names_sorted(g2));
    assert(names_covered(r2, g2));
}

fn find_group(gs: &Vec<MetricGroup>, name: &str) -> (r: Option<usize>)
    ensures
        match r {
            Some(k) => k < gs@.len() && gs@[k as int].name@ == name@,
            None => forall|j: int| 0 <= j < gs@.len() ==> gs@[j].name@ != name@,
        },
{
    let mut k: usize = 0;
    while k < gs.len()
        invariant
            k <= gs@.len(),
            forall|j: int| 0 <= j < k ==> gs@[j].name@ != name@,
        decreases gs@.len() - k,
    {
        if str_eq(gs[k].name.as_str(), name) {
            return Some(k);
        }
        k = k + 1;
    }
    None
}

fn add_record(gs: &mut Vec<MetricGroup>, records: &Vec<(String, String)>, i: usize)
    requires
        i < records@.len(),
        groups_of(record_views(records@).take(i as int), group_views(old(gs)@)),
    ensures
        groups_of(record_views(records@).take(i + 1), group_views(final(gs)@)),
{
    let ghost rv = record_views(records@);
    let ghost old_g = group_views(gs@);
    let ghost rt = rv.take(i as int);
    let n = records.len();
    assert(rt.len() == i && i < n);
    assert(rv.take(i + 1) =~= rt.push(rv[i as int]));
    let name = records[i].0.as_str();
    let found = find_group(gs, name);
    if let Some(k) = found {
        assert(old_g[k as int].0 == rv[i as int].0);
        proof {
            lemma_add_to_group(rt, old_g, k as int, rv[i as int]);
        }
        let mut g = gs.remove(k);
        g.members.push(i);
        gs.insert(k, g);
        assert(group_views(gs@) =~= old_g.update(k as int, (old_g[k as int].0, old_g[k as int].1, old_g[k as int].2.push(i))));
    } else {
        let mut p: usize = 0;
        while p < gs.len() && !text_less(name, gs[p].name.as_str())
            invariant
                p <= gs@.len(),
                old_g == group_views(gs@),
                forall|j: int| 0 <= j < gs@.len() ==> gs@[j].name@ != name@,
                forall|j: int| 0 <= j < p ==> text_lt((#[trigger] old_g[j]).0, name@),
            decreases gs@.len() - p,
        {
            proof {
                assert(old_g[p as int].0 != name@);
                lemma_text_lt_total(name@, old_g[p as int].0);
            }
            p = p + 1;
        }
        proof {
            assert forall|j: int| 0 <= j < old_g.len() implies (#[trigger] old_g[j]).0 != rv[i as int].0 by {
                assert(gs@[j].name@ != name@);
            }
            lemma_add_new_group(rt, old_g, p as int, rv[i as int]);
        }
        let mut members: Vec<usize> = Vec::new();
        members.push(i);
        let g = MetricGroup {
            name: String::from_str(name),
            unit: String::from_str(records[i].1.as_str()),
            members,
        };
        gs.insert(p, g);
        assert(group_views(gs@) =~= old_g.insert(p as int, (rv[i as int].0, rv[i as int].1, seq![i])));
    }
}

/// Group the (name, unit) of metric records by name for averaging: one
/// group per name, in increasing name order, each with the positions of
/// its records and the unit of the first.
pub fn group_metrics(records: &Vec<(String, String)>) -> (gs: Vec<MetricGroup>)
    ensures
        groups_of(record_views(records@), group_views(gs@)),
{
    let ghost rv = record_views(records@);
    let mut gs: Vec<MetricGroup> = Vec::new();
    let mut i: usize = 0;
    assert(groups_of(rv.take(0), group_views(gs@)));
    while i < records.len()
        invariant
            i <= records@.len(),
            rv == record_views(records@),
            groups_of(rv.take(i as int), group_views(gs@)),
        decreases records@.len() - i,
    {
        add_record(&mut gs, records, i);
        i = i + 1;
    }
    assert(rv.take(records@.len() as int) =~= rv);
    gs
}

// ---------------------------------------------------------------------------
// OTLP resourceSpans
// ---------------------------------------------------------------------------

/// A timestamp field of an OTLP span as found in the JSON.
#[derive(Debug)]
pub enum OtlpTime {
    /// The field is missing.
    Absent,
    /// A JSON string.
    Text(String),
    /// A JSON number that is a `u64`.
    Number(u64),
    /// Any other JSON value.
    Other,
}

/// The nanoseconds an OTLP timestamp field gives: a string that parses as
/// `u64`, or a `u64` number; 0 otherwise.
pub open spec fn otlp_time_ns(t: OtlpTime) -> u64 {
    match t {
        OtlpTime::Text(s) => match parse_u64(s@) {
            Some(n) => n,
            None => 0,
        },
        OtlpTime::Number(n) => n,
        _ => 0,
    }
}

/// An OTLP attribute: its `key` and its `value.stringValue`, where they are
/// strings.
#[derive(Debug)]
pub struct OtlpAttribute {
    pub key: Option<String>,
    pub string_value: Option<String>,
}

/// An attribute as (key, string value).
pub type AttrView = (Option<Seq<char>>, Option<Seq<char>>);

/// The views of attributes.
pub open spec fn attr_views(v: Seq<OtlpAttribute>) -> Seq<AttrView> {
    v.map_values(
        |a: OtlpAttribute|
            (
                match a.key {
                    Some(k) => Some(k@),
                    None => None,
                },
                match a.string_value {
                    Some(x) => Some(x@),
                    None => None,
                },
            ),
    )
}

/// An OTLP span as found in the JSON (`traceId`, `spanId`,
/// `parentSpanId`, `name` where they are strings).
#[derive(Debug)]
pub struct OtlpSpanInput {
    pub trace_id: Option<String>,
    pub span_id: Option<String>,
    pub parent_span_id: Option<String>,
    pub name: Option<String>,
    pub start: OtlpTime,
    pub end: OtlpTime,
    pub attributes: Vec<OtlpAttribute>,
}

/// One `resourceSpans` entry: the resource attributes and the spans of each
/// of its `scopeSpans`.
#[derive(Debug)]
pub struct OtlpResourceSpans {
    pub resource_attributes: Vec<OtlpAttribute>,
    pub scope_spans: Vec<Vec<OtlpSpanInput>>,
}

/// A span read from OTLP.
#[derive(Debug)]
pub struct OtlpSpan {
    pub trace_id: String,
    pub span_id: String,
    pub parent_span_id: Option<String>,
    pub operation_name: String,
    pub service_name: String,
    /// Start, Unix nanoseconds.
    pub start_ns: u64,
    /// End, Unix nanoseconds.
    pub end_ns: u64,
    pub duration_ms: u64,
    pub status: String,
    /// Attribute names and values, each name once.
    pub attributes: Vec<(String, String)>,
}

/// The value of the first attribute named `key` that has a string value.
pub open spec fn first_string_attr(attrs: Seq<AttrView>, key: Seq<char>) -> Option<Seq<char>>
    decreases attrs.len(),
{
    if attrs.len() == 0 {
        None
    } else if attrs[0].0 == Some(key) && attrs[0].1 is Some {
        attrs[0].1
    } else {
        first_string_attr(attrs.drop_first(), key)
    }
}

/// The pairs set, in order, by the attributes that have both a key and a
/// string value.
pub open spec fn attr_pairs(attrs: Seq<AttrView>) -> Seq<(Seq<char>, Seq<char>)>
    decreases attrs.len(),
{
    if attrs.len() == 0 {
        Seq::empty()
    } else {
        let rest = attr_pairs(attrs.drop_last());
        match attrs.last() {
            (Some(k), Some(v)) => rest.push((k, v)),
            _ => rest,
        }
    }
}

/// The map that setting `pairs` in order builds (a later value for a name
/// replaces an earlier one).
pub open spec fn assoc(pairs: Seq<(Seq<char>, Seq<char>)>) -> Map<Seq<char>, Seq<char>>
    decreases pairs.len(),
{
    if pairs.len() == 0 {
        Map::empty()
    } else {
        assoc(pairs.drop_last()).insert(pairs.last().0, pairs.last().1)
    }
}

/// The names of (name, value) pairs.
pub open spec fn pair_names(v: Seq<(String, String)>) -> Seq<Seq<char>> {
    v.map_values(|x: (String, String)| x.0@)
}

/// The position of `k` among the names of `v`.
pub open spec fn pair_index(v: Seq<(String, String)>, k: Seq<char>) -> int {
    choose|i: int| 0 <= i < v.len() && (#[trigger] v[i]).0@ == k
}

/// The map of (name, value) pairs with distinct names.
pub open spec fn pairs_map(v: Seq<(String, String)>) -> Map<Seq<char>, Seq<char>> {
    Map::new(|k: Seq<char>| pair_names(v).contains(k), |k: Seq<char>| v[pair_index(v, k)].1@)
}

proof fn lemma_pairs_map_at(v: Seq<(String, String)>, j: int)
    requires
        pair_names(v).no_duplicates(),
        0 <= j < v.len(),
    ensures
        pairs_map(v).contains_key(v[j].0@),
        pairs_map(v)[v[j].0@] == v[j].1@,
{
    let k = v[j].0@;
    assert(pair_names(v)[j] == k);
    assert(v[j].0@ == k);
    let i = pair_index(v, k);
    assert(0 <= i < v.len() && v[i].0@ == k);
    if i != j {
        assert(pair_names(v)[i] == k);
        assert(false);
    }
}

fn find_pair(v: &Vec<(String, String)>, key: &str) -> (r: Option<usize>)
    ensures
        match r {
            Some(k) => k < v@.len() && v@[k as int].0@ == key@,
            None => forall|j: int| 0 <= j < v@.len() ==> v@[j].0@ != key@,
        },
{
    let mut k: usize = 0;
    while k < v.len()
        invariant
            k <= v@.len(),
            forall|j: int| 0 <= j < k ==> v@[j].0@ != key@,
        decreases v@.len() - k,
    {
        if str_eq(v[k].0.as_str(), key) {
            return Some(k);
        }
        k = k + 1;
    }
    None
}

/// Set `key` to `value` in a pair list with distinct names.
fn set_pair(v: &mut Vec<(String, String)>, key: &str, value: &str)
    requires
        pair_names(old(v)@).no_duplicates(),
    ensures
        pair_names(final(v)@).no_duplicates(),
        pairs_map(final(v)@) == pairs_map(old(v)@).insert(key@, value@),
{
    let ghost old_v = v@;
    let pos = find_pair(v, key);
    let k: usize = match pos {
        Some(k) => k,
        None => v.len(),
    };
    if pos.is_some() {
        v.set(k, (String::from_str(key), String::from_str(value)));
        proof {
            assert(pair_names(v@) =~= pair_names(old_v));
        }
    } else {
        v.push((String::from_str(key), String::from_str(value)));
        proof {
            assert(pair_names(v@) =~= pair_names(old_v).push(key@));
            assert forall|a: int, b: int| 0 <= a < b < pair_names(v@).len() implies pair_names(v@)[a] != pair_names(v@)[b] by {
                assert(pair_names(old_v)[a] == pair_names(v@)[a]);
                if b < old_v.len() {
                    assert(pair_names(old_v)[b] == pair_names(v@)[b]);
                }
            }
        }
    }
    proof {
        let nv = v@;
        lemma_pairs_map_at(nv, k as int);
        assert forall|x: Seq<char>| #[trigger] pairs_map(nv).contains_key(x) == pairs_map(old_v).insert(key@, value@).contains_key(x) by {
            if pairs_map(nv).contains_key(x) {
                let j = choose|j: int| 0 <= j < pair_names(nv).len() && pair_names(nv)[j] == x;
                if j != k {
                    assert(nv[j] == old_v[j]);
                    assert(pair_names(old_v)[j] == x);
                }
            }
            if pairs_map(old_v).contains_key(x) {
                let j = choose|j: int| 0 <= j < pair_names(old_v).len() && pair_names(old_v)[j] == x;
                if j != k {
                    assert(nv[j] == old_v[j]);
                }
                assert(pair_names(nv)[j] == x || j == k);
            }
        }
        assert forall|x: Seq<char>| #[trigger] pairs_map(nv).contains_key(x) implies pairs_map(nv)[x] == pairs_map(old_v).insert(key@, value@)[x] by {
            if x != key@ {
                let j = choose|j: int| 0 <= j < pair_names(nv).len() && pair_names(nv)[j] == x;
                assert(j != k);
                assert(nv[j] == old_v[j]);
                lemma_pairs_map_at(nv, j);
                lemma_pairs_map_at(old_v, j);
            }
        }
        assert(pairs_map(nv) =~= pairs_map(old_v).insert(key@, value@));
    }
}

fn first_string_attr_exec(attrs: &Vec<OtlpAttribute>, key: &str) -> (r: Option<String>)
    ensures
        match r {
            Some(x) => first_string_attr(attr_views(attrs@), key@) == Some(x@),
            None => first_string_attr(attr_views(attrs@), key@) is None,
        },
{
    let ghost av = attr_views(attrs@);
    let mut i: usize = 0;
    assert(av.skip(0) =~= av);
    while i < attrs.len()
        invariant
            i <= attrs@.len(),
            av == attr_views(attrs@),
            first_string_attr(av, key@) == first_string_attr(av.skip(i as int), key@),
        decreases attrs@.len() - i,
    {
        assert(av.skip(i as int)[0] == av[i as int]);
        assert(av.skip(i as int).drop_first() =~= av.skip(i + 1));
        match (&attrs[i].key, &attrs[i].string_value) {
            (Some(k), Some(v)) => {
                if str_eq(k.as_str(), key) {
                    return Some(String::from_str(v.as_str()));
                }
            },
            _ => {},
        }
        i = i + 1;
    }
    None
}

fn time_ns(t: &OtlpTime) -> (r: u64)
    ensures
        r == otlp_time_ns(*t),
{
    match t {
        OtlpTime::Text(s) => match crate::text::parse_u64_str(s.as_str()) {
            Some(n) => n,
            None => 0,
        },
        OtlpTime::Number(n) => *n,
        _ => 0,
    }
}

/// The text of an optional string, empty when absent.
pub open spec fn text_or_empty(s: Option<String>) -> Seq<char> {
    match s {
        Some(x) => x@,
        None => Seq::empty(),
    }
}

fn string_or_empty(s: &Option<String>) -> (r: String)
    ensures
        r@ == text_or_empty(*s),
{
    match s {
        Some(x) => String::from_str(x.as_str()),
        None => String::new(),
    }
}

/// What a span read from OTLP holds, given the service name and platform
/// version of its resource.
pub open spec fn span_from_input(sp: OtlpSpanInput, service: Seq<char>, version: Option<Seq<char>>, out: OtlpSpan) -> bool {
    let start = otlp_time_ns(sp.start);
    let end = otlp_time_ns(sp.end);
    let pairs = attr_pairs(attr_views(sp.attributes@));
    let all = match version {
        Some(v) => pairs.push(("picloud.platform_version"@, v)),
        None => pairs,
    };
    &&& out.trace_id@ == text_or_empty(sp.trace_id)
    &&& out.span_id@ == text_or_empty(sp.span_id)
    &&& match (out.parent_span_id, sp.parent_span_id) {
        (Some(a), Some(b)) => a@ == b@,
        (None, None) => true,
        _ => false,
    }
    &&& out.operation_name@ == text_or_empty(sp.name)
    &&& out.service_name@ == service
    &&& out.start_ns == start
    &&& out.end_ns == end
    &&& out.duration_ms == (if end >= start { end - start } else { 0 }) / 1_000_000
    &&& out.status@ == "OK"@
    &&& pair_names(out.attributes@).no_duplicates()
    &&& pairs_map(out.attributes@) == assoc(all)
}

fn read_span(sp: &OtlpSpanInput, service: &str, version: &Option<String>) -> (out: OtlpSpan)
    ensures
        span_from_input(*sp, service@, match version {
            Some(v) => Some(v@),
            None => None,
        }, out),
{
    let start = time_ns(&sp.start);
    let end = time_ns(&sp.end);
    let duration_ms = end.saturating_sub(start) / 1_000_000;
    let ghost av = attr_views(sp.attributes@);
    let mut attrs: Vec<(String, String)> = Vec::new();
    assert(pairs_map(attrs@) =~= Map::<Seq<char>, Seq<char>>::empty());
    let mut i: usize = 0;
    while i < sp.attributes.len()
        invariant
            i <= sp.attributes@.len(),
            av == attr_views(sp.attributes@),
            pair_names(attrs@).no_duplicates(),
            pairs_map(attrs@) == assoc(attr_pairs(av.take(i as int))),
        decreases sp.attributes@.len() - i,
    {
        assert(av.take(i + 1).drop_last() =~= av.take(i as int));
        assert(av.take(i + 1).last() == av[i as int]);
        match (&sp.attributes[i].key, &sp.attributes[i].string_value) {
            (Some(k), Some(v)) => {
                assert(av[i as int] == (Some(k@), Some(v@)));
                let ghost prev = attr_pairs(av.take(i as int));
                assert(attr_pairs(av.take(i + 1)) == prev.push((k@, v@)));
                assert(prev.push((k@, v@)).drop_last() =~= prev);
                assert(assoc(prev.push((k@, v@))) == assoc(prev).insert(k@, v@));
                set_pair(&mut attrs, k.as_str(), v.as_str());
            },
            _ => {
                assert(attr_pairs(av.take(i + 1)) == attr_pairs(av.take(i as int)));
            },
        }
        i = i + 1;
    }
    assert(av.take(sp.attributes@.len() as int) =~= av);
    let ghost pairs = attr_pairs(av);
    match version {
        Some(v) => {
            assert(pairs.push(("picloud.platform_version"@, v@)).drop_last() =~= pairs);
            set_pair(&mut attrs, "picloud.platform_version", v.as_str());
        },
        None => {},
    }
    let parent = match &sp.parent_span_id {
        Some(p) => Some(String::from_str(p.as_str())),
        None => None,
    };
    OtlpSpan {
        trace_id: string_or_empty(&sp.trace_id),
        span_id: string_or_empty(&sp.span_id),
        parent_span_id: parent,
        operation_name: string_or_empty(&sp.name),
        service_name: String::from_str(service),
        start_ns: start,
        end_ns: end,
        duration_ms,
        status: String::from_str("OK"),
        attributes: attrs,
    }
}

/// The service name of a resource: its first `service.name` attribute with
/// a string value, else `unknown`.
pub open spec fn resource_service(attrs: Seq<AttrView>) -> Seq<char> {
    match first_string_attr(attrs, "service.name"@) {
        Some(s) => s,
        None => "unknown"@,
    }
}

/// The number of spans of a resource, over its scopes.
pub open spec fn scope_span_count(scopes: Seq<Vec<OtlpSpanInput>>) -> nat
    decreases scopes.len(),
{
    if scopes.len() == 0 {
        0
    } else {
        scope_span_count(scopes.drop_last()) + scopes.last()@.len()
    }
}

/// The spans of one `resourceSpans` entry, scope by scope, in order; each
/// carries the resource's service name and, among its attributes, the
/// resource's `picloud.platform_version` when there is one.
pub fn spans_of_resource(rs: &OtlpResourceSpans) -> (out: Vec<OtlpSpan>)
    ensures
        out@.len() == scope_span_count(rs.scope_spans@),
        forall|s: int, j: int|
            #![trigger rs.scope_spans@[s]@[j]]
            0 <= s < rs.scope_spans@.len() && 0 <= j < rs.scope_spans@[s]@.len() ==> span_from_input(
                rs.scope_spans@[s]@[j],
                resource_service(attr_views(rs.resource_attributes@)),
                first_string_attr(attr_views(rs.resource_attributes@), "picloud.platform_version"@),
                out@[scope_span_count(rs.scope_spans@.take(s)) + j],
            ),
{
    let service = match first_string_attr_exec(&rs.resource_attributes, "service.name") {
        Some(s) => s,
        None => String::from_str("unknown"),
    };
    let version = first_string_attr_exec(&rs.resource_attributes, "picloud.platform_version");
    let ghost sv = resource_service(attr_views(rs.resource_attributes@));
    let ghost vv = first_string_attr(attr_views(rs.resource_attributes@), "picloud.platform_version"@);
    assert(service@ == sv);
    let mut out: Vec<OtlpSpan> = Vec::new();
    let mut s: usize = 0;
    assert(rs.scope_spans@.take(0) =~= Seq::<Vec<OtlpSpanInput>>::empty());
    while s < rs.scope_spans.len()
        invariant
            s <= rs.scope_spans@.len(),
            service@ == sv,
            vv == match version {
                Some(v) => Some(v@),
                None => None,
            },
            sv == resource_service(attr_views(rs.resource_attributes@)),
            vv == first_string_attr(attr_views(rs.resource_attributes@), "picloud.platform_version"@),
            out@.len() == scope_span_count(rs.scope_spans@.take(s as int)),
            forall|a: int, j: int|
                #![trigger rs.scope_spans@[a]@[j]]
                0 <= a < s && 0 <= j < rs.scope_spans@[a]@.len() ==> span_from_input(
                    rs.scope_spans@[a]@[j],
                    sv,
                    vv,
                    out@[scope_span_count(rs.scope_spans@.take(a)) + j],
                ),
        decreases rs.scope_spans@.len() - s,
    {
        let scope = &rs.scope_spans[s];
        let base = out.len();
        assert(rs.scope_spans@.take(s + 1).drop_last() =~= rs.scope_spans@.take(s as int));
        assert(rs.scope_spans@.take(s + 1).last() == *scope);
        let mut j: usize = 0;
        while j < scope.len()
            invariant
                j <= scope@.len(),
                scope == rs.scope_spans@[s as int],
                service@ == sv,
                vv == match version {
                    Some(v) => Some(v@),
                    None => None,
                },
                base == scope_span_count(rs.scope_spans@.take(s as int)),
                out@.len() == base + j,
                forall|a: int, k: int|
                    #![trigger rs.scope_spans@[a]@[k]]
                    0 <= a < s && 0 <= k < rs.scope_spans@[a]@.len() ==> span_from_input(
                        rs.scope_spans@[a]@[k],
                        sv,
                        vv,
                        out@[scope_span_count(rs.scope_spans@.take(a)) + k],
                    ),
                forall|k: int| 0 <= k < j ==> span_from_input(#[trigger] scope@[k], sv, vv, out@[base + k]),
                s < rs.scope_spans@.len(),
            decreases scope@.len() - j,
        {
            let sp = read_span(&scope[j], service.as_str(), &version);
            let ghost before = out@;
            out.push(sp);
            assert forall|a: int, k: int|
                #![trigger rs.scope_spans@[a]@[k]]
                0 <= a < s && 0 <= k < rs.scope_spans@[a]@.len() implies span_from_input(
                    rs.scope_spans@[a]@[k],
                    sv,
                    vv,
                    out@[scope_span_count(rs.scope_spans@.take(a)) + k],
                ) by {
                lemma_scope_count_prefix(rs.scope_spans@, a, s as int);
                assert(out@[scope_span_count(rs.scope_spans@.take(a)) + k] == before[scope_span_count(rs.scope_spans@.take(a)) + k]);
            }
            assert forall|k: int| 0 <= k < j + 1 implies span_from_input(#[trigger] scope@[k], sv, vv, out@[base + k]) by {
                if k < j {
                    assert(out@[base + k] == before[base + k]);
                }
            }
            j = j + 1;
        }
        assert forall|a: int, k: int|
            #![trigger rs.scope_spans@[a]@[k]]
            0 <= a < s + 1 && 0 <= k < rs.scope_spans@[a]@.len() implies span_from_input(
                rs.scope_spans@[a]@[k],
                sv,
                vv,
                out@[scope_span_count(rs.scope_spans@.take(a)) + k],
            ) by {
            if a == s {
                assert(scope@[k] == rs.scope_spans@[a]@[k]);
            }
        }
        s = s + 1;
    }
    assert(rs.scope_spans@.take(rs.scope_spans@.len() as int) =~= rs.scope_spans@);
    out
}

proof fn lemma_scope_count_prefix(scopes: Seq<Vec<OtlpSpanInput>>, a: int, s: int)
    requires
        0 <= a < s <= scopes.len(),
    ensures
        scope_span_count(scopes.take(a)) + scopes[a]@.len() <= scope_span_count(scopes.take(s)),
    decreases s - a,
{
    assert(scopes.take(a + 1).drop_last() =~= scopes.take(a));
    if a + 1 < s {
        lemma_scope_count_prefix(scopes, a + 1, s);
        assert(scopes.take(a + 2).drop_last() =~= scopes.take(a + 1));
    }
}

// ---------------------------------------------------------------------------
// Aggregation counters
// ---------------------------------------------------------------------------

/// The kind of a datum on the telemetry stream.
#[derive(Debug, Clone, Copy, PartialEq, Eq)]
pub enum OtelKind {
    Span,
    Metric,
    Log,
}

/// Counts of data received since the last aggregation (wrapping, as
/// atomic counters do).
#[derive(Debug, Clone, Copy, PartialEq, Eq)]
pub struct OtelCounters {
    pub spans: u64,
    pub metrics: u64,
    pub logs: u64,
}

/// `x + 1`, wrapping at `u64::MAX`.
pub open spec fn wrap_inc(x: u64) -> u64 {
    if x == u64::MAX {
        0
    } else {
        (x + 1) as u64
    }
}

impl OtelCounters {
    /// All zero.
    pub fn new() -> (c: OtelCounters)
        ensures
            c.spans == 0 && c.metrics == 0 && c.logs == 0,
    {
        OtelCounters { spans: 0, metrics: 0, logs: 0 }
    }

    /// Count one datum of `kind`.
    pub fn record(&mut self, kind: OtelKind)
        ensures
            final(self).spans == if kind == OtelKind::Span { wrap_inc(old(self).spans) } else { old(self).spans },
            final(self).metrics == if kind == OtelKind::Metric { wrap_inc(old(self).metrics) } else { old(self).metrics },
            final(self).logs == if kind == OtelKind::Log { wrap_inc(old(self).logs) } else { old(self).logs },
    {
        match kind {
            OtelKind::Span => {
                self.spans = if self.spans == u64::MAX { 0 } else { self.spans + 1 };
            },
            OtelKind::Metric => {
                self.metrics = if self.metrics == u64::MAX { 0 } else { self.metrics + 1 };
            },
            OtelKind::Log => {
                self.logs = if self.logs == u64::MAX { 0 } else { self.logs + 1 };
            },
        }
    }

    /// The counts of the window that ends now; counting starts again at zero.
    pub fn take(&mut self) -> (c: OtelCounters)
        ensures
            c == *old(self),
            final(self).spans == 0 && final(self).metrics == 0 && final(self).logs == 0,
    {
        let c = *self;
        self.spans = 0;
        self.metrics = 0;
        self.logs = 0;
        c
    }

    /// Is a telemetry summary due for this window? Only when something was
    /// received.
    pub fn summary_due(&self) -> (r: bool)
        ensures
            r == (self.spans != 0 || self.metrics != 0 || self.logs != 0),
    {
        self.spans != 0 || self.metrics != 0 || self.logs != 0
    }
}

// ---------------------------------------------------------------------------
// Aggregation windows
// ---------------------------------------------------------------------------

/// A datum arriving on the telemetry stream; a metric record comes with
/// its name and unit (its value stays with the caller, at the same
/// position among the window's metric records).
#[derive(Debug)]
pub enum OtelArrival {
    Span,
    Metric { name: String, unit: String },
    Log,
}

/// An arrival as texts.
pub enum ArrivalModel {
    Span,
    Metric(Seq<char>, Seq<char>),
    Log,
}

impl View for OtelArrival {
    type V = ArrivalModel;

    open spec fn view(&self) -> ArrivalModel {
        match self {
            OtelArrival::Span => ArrivalModel::Span,
            OtelArrival::Metric { name, unit } => ArrivalModel::Metric(name@, unit@),
            OtelArrival::Log => ArrivalModel::Log,
        }
    }
}

/// What an aggregation window holds: the counts since the last tick and
/// the (name, unit) of each metric record received since then, in order.
pub struct WindowModel {
    pub spans: u64,
    pub metrics: u64,
    pub logs: u64,
    pub buffer: Seq<(Seq<char>, Seq<char>)>,
}

/// The window after one more arrival.
pub open spec fn receive_spec(w: WindowModel, a: ArrivalModel) -> WindowModel {
    match a {
        ArrivalModel::Span => WindowModel { spans: wrap_inc(w.spans), ..w },
        ArrivalModel::Metric(name, unit) => WindowModel {
            metrics: wrap_inc(w.metrics),
            buffer: w.buffer.push((name, unit)),
            ..w
        },
        ArrivalModel::Log => WindowModel { logs: wrap_inc(w.logs), ..w },
    }
}

/// An empty window.
pub open spec fn empty_window() -> WindowModel {
    WindowModel { spans: 0, metrics: 0, logs: 0, buffer: Seq::empty() }
}

/// The window after the arrivals `ds`, from an empty one.
pub open spec fn window_of(ds: Seq<ArrivalModel>) -> WindowModel
    decreases ds.len(),
{
    if ds.len() == 0 {
        empty_window()
    } else {
        receive_spec(window_of(ds.drop_last()), ds.last())
    }
}

/// How many spans, metric records and logs `ds` holds.
pub open spec fn arrival_counts(ds: Seq<ArrivalModel>) -> (nat, nat, nat)
    decreases ds.len(),
{
    if ds.len() == 0 {
        (0, 0, 0)
    } else {
        let c = arrival_counts(ds.drop_last());
        match ds.last() {
            ArrivalModel::Span => ((c.0 + 1) as nat, c.1, c.2),
            ArrivalModel::Metric(_, _) => (c.0, (c.1 + 1) as nat, c.2),
            ArrivalModel::Log => (c.0, c.1, (c.2 + 1) as nat),
        }
    }
}

/// The (name, unit) of each metric record of `ds`, in order.
pub open spec fn metric_keys(ds: Seq<ArrivalModel>) -> Seq<(Seq<char>, Seq<char>)>
    decreases ds.len(),
{
    if ds.len() == 0 {
        Seq::empty()
    } else {
        let k = metric_keys(ds.drop_last());
        match ds.last() {
            ArrivalModel::Metric(name, unit) => k.push((name, unit)),
            _ => k,
        }
    }
}

/// What a tick emits: the metric groups to average (a MetricRecorded event)
/// when metric records arrived, and the counts (a TelemetryAggregated
/// event) when anything arrived.
#[derive(Debug)]
pub struct AggregationTick {
    pub metric_groups: Option<Vec<MetricGroup>>,
    pub summary: Option<OtelCounters>,
}

/// The state of one aggregation window.
pub struct OtelWindow {
    counters: OtelCounters,
    buffer: Vec<(String, String)>,
}

impl OtelWindow {
    /// The window's counts and metric keys.
    pub closed spec fn model(&self) -> WindowModel {
        WindowModel {
            spans: self.counters.spans,
            metrics: self.counters.metrics,
            logs: self.counters.logs,
            buffer: record_views(self.buffer@),
        }
    }

    /// A window with nothing received.
    pub fn new() -> (w: OtelWindow)
        ensures
            w.model() == empty_window(),
    {
        let w = OtelWindow { counters: OtelCounters::new(), buffer: Vec::new() };
        assert(w.model().buffer =~= Seq::<(Seq<char>, Seq<char>)>::empty());
        w
    }

    /// Take in one datum.
    pub fn receive(&mut self, a: OtelArrival)
        ensures
            final(self).model() == receive_spec(old(self).model(), a@),
    {
        match a {
            OtelArrival::Span => self.counters.record(OtelKind::Span),
            OtelArrival::Metric { name, unit } => {
                self.counters.record(OtelKind::Metric);
                let ghost before = self.buffer@;
                self.buffer.push((name, unit));
                assert(record_views(self.buffer@) =~= record_views(before).push((name@, unit@)));
            },
            OtelArrival::Log => self.counters.record(OtelKind::Log),
        }
    }

    /// Close the window: the metric records' groups when some arrived, the
    /// counts when anything arrived; the next window starts empty.
    pub fn tick(&mut self) -> (r: AggregationTick)
        ensures
            final(self).model() == empty_window(),
            match r.metric_groups {
                Some(gs) => old(self).model().buffer.len() > 0 && groups_of(old(self).model().buffer, group_views(gs@)),
                None => old(self).model().buffer.len() == 0,
            },
            r.summary == if old(self).model().spans != 0 || old(self).model().metrics != 0 || old(self).model().logs != 0 {
                Some(OtelCounters {
                    spans: old(self).model().spans,
                    metrics: old(self).model().metrics,
                    logs: old(self).model().logs,
                })
            } else {
                None::<OtelCounters>
            },
    {
        let mut buffer: Vec<(String, String)> = Vec::new();
        std::mem::swap(&mut buffer, &mut self.buffer);
        let metric_groups = if buffer.len() > 0 {
            Some(group_metrics(&buffer))
        } else {
            None
        };
        let due = self.counters.summary_due();
        let counts = self.counters.take();
        assert(record_views(self.buffer@) =~= Seq::<(Seq<char>, Seq<char>)>::empty());
        AggregationTick { metric_groups, summary: if due { Some(counts) } else { None } }
    }
}

proof fn lemma_window_counts(ds: Seq<ArrivalModel>)
    requires
        ds.len() <= u64::MAX,
    ensures
        window_of(ds).spans == arrival_counts(ds).0,
        window_of(ds).metrics == arrival_counts(ds).1,
        window_of(ds).logs == arrival_counts(ds).2,
        window_of(ds).buffer == metric_keys(ds),
        arrival_counts(ds).0 + arrival_counts(ds).1 + arrival_counts(ds).2 == ds.len(),
        metric_keys(ds).len() == arrival_counts(ds).1,
    decreases ds.len(),
{
    if ds.len() > 0 {
        lemma_window_counts(ds.drop_last());
    }
}

/// Each tick reports exactly what arrived since the previous one (below
/// `u64::MAX` arrivals): a window that received `ds` from empty holds the
/// numbers of spans, metric records and logs of `ds` and the keys of its
/// metric records in order; metric groups are due exactly when a metric
/// record arrived, and a summary exactly when anything arrived.
pub proof fn law_window_reports_arrivals(ds: Seq<ArrivalModel>)
    requires
        ds.len() <= u64::MAX,
    ensures
        window_of(ds).spans == arrival_counts(ds).0,
        window_of(ds).metrics == arrival_counts(ds).1,
        window_of(ds).logs == arrival_counts(ds).2,
        window_of(ds).buffer == metric_keys(ds),
        (window_of(ds).buffer.len() > 0) == (arrival_counts(ds).1 > 0),
        (window_of(ds).spans != 0 || window_of(ds).metrics != 0 || window_of(ds).logs != 0) == (ds.len() > 0),
{
    lemma_window_counts(ds);
}

} // verus!
