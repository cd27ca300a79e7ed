//! Data product freshness SLOs: how old a data product is, how its
//! `maxAge` declaration reads, and which products enter or leave breach.

use vstd::prelude::*;

use crate::text::{all_digits, digits_value, chars_of, is_digit, is_digit_char, parse_u64, parse_u64_chars, starts_with, starts_with_chars, str_eq, string_of, trim, trim_chars};

verus! {

broadcast use vstd::string::group_string_axioms;

// ---------------------------------------------------------------------------
// Timestamps
// ---------------------------------------------------------------------------

/// The instant an RFC 3339 timestamp denotes, as (Unix seconds, nanoseconds
/// within the second), when chrono accepts the text.
pub uninterp spec fn spec_rfc3339_instant(s: Seq<char>) -> Option<(i64, u32)>;

/// Calls `chrono::DateTime::parse_from_rfc3339`. Claimed: the result is the
/// fixed function `spec_rfc3339_instant` of the text (a parse of the same
/// text always gives the same instant). RFC 3339 itself is not restated.
#[verifier::external_body]
pub(crate) fn parse_rfc3339_instant(s: &str) -> (r: Option<(i64, u32)>)
    ensures
        r == spec_rfc3339_instant(s@),
{
    match chrono::DateTime::parse_from_rfc3339(s) {
        Ok(dt) => Some((dt.timestamp(), dt.timestamp_subsec_nanos())),
        Err(_) => None,
    }
}

/// The instant of a `lastRefreshed` timestamp, when it is RFC 3339.
pub fn refreshed_at(text: &str) -> (r: Option<(i64, u32)>)
    ensures
        r == spec_rfc3339_instant(text@),
{
    parse_rfc3339_instant(text)
}

/// Nanoseconds since the epoch of an instant.
pub open spec fn instant_nanos(t: (i64, u32)) -> int {
    t.0 * 1_000_000_000 + t.1
}

/// The age in whole seconds of something last refreshed at `last`, seen at
/// `now`; zero when `last` is not before `now`.
pub open spec fn age_seconds_spec(now: (i64, u32), last: (i64, u32)) -> nat {
    let d = instant_nanos(now) - instant_nanos(last);
    if d > 0 {
        (d / 1_000_000_000) as nat
    } else {
        0
    }
}

/// The whole seconds from `last` to `now`, never negative (the duration's
/// whole seconds clamped at zero), and at most `u64::MAX`.
pub fn age_seconds(now: (i64, u32), last: (i64, u32)) -> (r: u64)
    ensures
        r as nat == if age_seconds_spec(now, last) <= u64::MAX {
            age_seconds_spec(now, last)
        } else {
            u64::MAX as nat
        },
{
    let a: i128 = now.0 as i128 * 1_000_000_000 + now.1 as i128;
    let b: i128 = last.0 as i128 * 1_000_000_000 + last.1 as i128;
    let d: i128 = a - b;
    if d > 0 {
        let q: i128 = d / 1_000_000_000;
        if q <= u64::MAX as i128 {
            q as u64
        } else {
            u64::MAX
        }
    } else {
        0
    }
}

// ---------------------------------------------------------------------------
// maxAge declarations
// ---------------------------------------------------------------------------

/// How a `maxAge` declaration reads before any arithmetic.
#[derive(Debug, Clone, PartialEq, Eq)]
pub enum MaxAgeForm {
    /// Not an ISO duration: plain seconds, if the text is a `u64`.
    RawSeconds(Option<u64>),
    /// An ISO duration `PT...`: its (number text, unit) components in order;
    /// the unit is one of `H`, `M`, `S` in either case.
    Components(Vec<(String, char)>),
    /// An ISO duration with a character that is neither a digit, `.`, nor a
    /// unit letter.
    Invalid,
}

/// A character of a duration number.
pub open spec fn is_number_char(c: char) -> bool {
    is_digit(c) || c == '.'
}

/// A unit letter of an ISO duration.
pub open spec fn is_unit_char(c: char) -> bool {
    c == 'H' || c == 'h' || c == 'M' || c == 'm' || c == 'S' || c == 's'
}

/// Scanning an ISO duration body: the components closed so far and the
/// pending number text; `None` once an unknown character was seen.
pub open spec fn scan_duration(body: Seq<char>) -> Option<(Seq<(Seq<char>, char)>, Seq<char>)>
    decreases body.len(),
{
    if body.len() == 0 {
        Some((Seq::empty(), Seq::empty()))
    } else {
        match scan_duration(body.drop_last()) {
            None => None,
            Some((comps, buf)) => {
                let c = body.last();
                if is_number_char(c) {
                    Some((comps, buf.push(c)))
                } else if is_unit_char(c) {
                    Some((comps.push((buf, c)), Seq::empty()))
                } else {
                    None
                }
            },
        }
    }
}

/// Once the scan of a prefix met an unknown character, the scan of the
/// whole body fails too.
proof fn lemma_scan_none_extends(body: Seq<char>, k: int)
    requires
        0 <= k <= body.len(),
        scan_duration(body.take(k)) is None,
    ensures
        scan_duration(body) is None,
    decreases body.len() - k,
{
    if k == body.len() {
        assert(body.take(k) =~= body);
    } else {
        assert(body.take(k + 1).drop_last() =~= body.take(k));
        lemma_scan_none_extends(body, k + 1);
    }
}

/// Does the ISO duration prefix `PT` or `pt` start `s`?
pub open spec fn has_pt_prefix(s: Seq<char>) -> bool {
    starts_with(s, "PT"@) || starts_with(s, "pt"@)
}

/// A number text of a duration component, with its unit.
pub open spec fn comp_views(v: Seq<(String, char)>) -> Seq<(Seq<char>, char)> {
    v.map_values(|x: (String, char)| (x.0@, x.1))
}

/// Read a `maxAge` declaration: the text is trimmed; without a `PT`/`pt`
/// prefix it is plain seconds; with one, the rest is split into
/// (number, unit) components (a trailing number without unit is dropped).
pub fn max_age_form(max_age: &str) -> (r: MaxAgeForm)
    ensures
        ({
            let s = trim(max_age@);
            if !has_pt_prefix(s) {
                r == MaxAgeForm::RawSeconds(parse_u64(s))
            } else {
                match scan_duration(s.skip(2)) {
                    None => r == MaxAgeForm::Invalid,
                    Some((comps, _)) => r matches MaxAgeForm::Components(v) && comp_views(v@) == comps,
                }
            }
        }),
{
    let raw = chars_of(max_age);
    let s = trim_chars(raw.as_slice());
    let pt = chars_of("PT");
    let pt2 = chars_of("pt");
    if !starts_with_chars(s.as_slice(), pt.as_slice()) && !starts_with_chars(s.as_slice(), pt2.as_slice()) {
        return MaxAgeForm::RawSeconds(parse_u64_chars(s.as_slice()));
    }
    proof {
        reveal_strlit("PT");
        reveal_strlit("pt");
    }
    let ghost body = s@.skip(2);
    let mut comps: Vec<(String, char)> = Vec::new();
    let mut buf: Vec<char> = Vec::new();
    let mut i: usize = 2;
    assert(body.take(0) =~= Seq::<char>::empty());
    while i < s.len()
        invariant
            2 <= i <= s@.len(),
            body == s@.skip(2),
            s@ == trim(max_age@),
            has_pt_prefix(s@),
            scan_duration(body.take(i - 2)) == Some((comp_views(comps@), buf@)),
        decreases s@.len() - i,
    {
        let c = s[i];
        assert(body.take(i + 1 - 2).drop_last() =~= body.take(i - 2));
        assert(body.take(i + 1 - 2).last() == c);
        if is_digit_char(c) || c == '.' {
            buf.push(c);
        } else if c == 'H' || c == 'h' || c == 'M' || c == 'm' || c == 'S' || c == 's' {
            let t = string_of(buf.as_slice());
            let ghost before = comps@;
            comps.push((t, c));
            assert(comp_views(comps@) =~= comp_views(before).push((buf@, c)));
            buf = Vec::new();
        } else {
            proof {
                assert(!is_number_char(c) && !is_unit_char(c));
                assert(scan_duration(body.take(i + 1 - 2)) is None);
                lemma_scan_none_extends(body, i + 1 - 2);
            }
            return MaxAgeForm::Invalid;
        }
        i = i + 1;
    }
    assert(body.take(s@.len() - 2) =~= body);
    MaxAgeForm::Components(comps)
}

/// A component whose number is one to twelve decimal digits: scaling it to
/// seconds is exact in integers (every value involved stays below 2^53).
pub open spec fn whole_component(c: (Seq<char>, char)) -> bool {
    1 <= c.0.len() <= 12 && all_digits(c.0)
}

/// The seconds a whole component stands for: hours, minutes or seconds.
pub open spec fn component_seconds(c: (Seq<char>, char)) -> nat {
    let n = digits_value(c.0);
    if c.1 == 'H' || c.1 == 'h' {
        n * 3600
    } else if c.1 == 'M' || c.1 == 'm' {
        n * 60
    } else {
        n
    }
}

/// The seconds of all components.
pub open spec fn total_seconds(cs: Seq<(Seq<char>, char)>) -> nat
    decreases cs.len(),
{
    if cs.len() == 0 {
        0
    } else {
        total_seconds(cs.drop_last()) + component_seconds(cs.last())
    }
}

/// Ten to the power `k`, for `k` up to twelve.
spec fn ten_to(k: int) -> int {
    if k <= 0 { 1 } else if k == 1 { 10 } else if k == 2 { 100 } else if k == 3 { 1_000 } else if k == 4 { 10_000 }
    else if k == 5 { 100_000 } else if k == 6 { 1_000_000 } else if k == 7 { 10_000_000 } else if k == 8 { 100_000_000 }
    else if k == 9 { 1_000_000_000 } else if k == 10 { 10_000_000_000 } else if k == 11 { 100_000_000_000 }
    else { 1_000_000_000_000 }
}

/// The value of a number text of one to twelve digits.
fn whole_number(v: &[char]) -> (r: Option<u64>)
    ensures
        match r {
            Some(n) => whole_component((v@, 'S')) && n == digits_value(v@) && n < 1_000_000_000_000u64,
            None => !whole_component((v@, 'S')),
        },
{
    if v.len() == 0 || v.len() > 12 {
        return None;
    }
    let mut n: u64 = 0;
    let mut p: u64 = 1;
    let mut k: usize = 0;
    assert(v@.take(0) =~= Seq::<char>::empty());
    while k < v.len()
        invariant
            k <= v@.len() <= 12,
            all_digits(v@.take(k as int)),
            n == digits_value(v@.take(k as int)),
            n < p,
            p == ten_to(k as int),
        decreases v@.len() - k,
    {
        if !is_digit_char(v[k]) {
            assert(!all_digits(v@)) by {
                assert(!is_digit(v@[k as int]));
            }
            return None;
        }
        let d: u64 = (v[k] as u32 - '0' as u32) as u64;
        assert(v@.take(k + 1).drop_last() =~= v@.take(k as int));
        assert(n * 10 + d < p * 10) by (nonlinear_arith)
            requires
                n < p,
                d <= 9,
        ;
        n = n * 10 + d;
        p = p * 10;
        k = k + 1;
    }
    assert(v@.take(v@.len() as int) =~= v@);
    Some(n)
}

/// The seconds a `maxAge` declaration allows, where integer arithmetic
/// gives them exactly: plain seconds; `None` for an ISO duration with an
/// unknown character; for an ISO duration whose components are all whole
/// numbers of at most twelve digits, their total in seconds when it is
/// positive. `None` outside `Some` means the declaration has a fractional,
/// empty or longer number, or a total beyond `u64`, and needs
/// floating-point scaling.
pub fn whole_max_age_seconds(max_age: &str) -> (r: Option<Option<u64>>)
    ensures
        ({
            let s = trim(max_age@);
            if !has_pt_prefix(s) {
                r == Some(parse_u64(s))
            } else {
                match scan_duration(s.skip(2)) {
                    None => r == Some(None::<u64>),
                    Some((comps, _)) => if (forall|i: int| 0 <= i < comps.len() ==> whole_component(#[trigger] comps[i]))
                        && total_seconds(comps) <= u64::MAX {
                        r == Some(if total_seconds(comps) > 0 { Some(total_seconds(comps) as u64) } else { None })
                    } else {
                        r is None
                    },
                }
            }
        }),
{
    match max_age_form(max_age) {
        MaxAgeForm::RawSeconds(x) => Some(x),
        MaxAgeForm::Invalid => Some(None),
        MaxAgeForm::Components(comps) => {
            let ghost cs = comp_views(comps@);
            let mut total: u64 = 0;
            let mut i: usize = 0;
            assert(cs.take(0) =~= Seq::<(Seq<char>, char)>::empty());
            while i < comps.len()
                invariant
                    i <= comps@.len() == cs.len(),
                    cs == comp_views(comps@),
                    has_pt_prefix(trim(max_age@)),
                    scan_duration(trim(max_age@).skip(2)) matches Some((c2, _)) && c2 == cs,
                    forall|j: int| 0 <= j < i ==> whole_component(#[trigger] cs[j]),
                    total == total_seconds(cs.take(i as int)),
                decreases comps@.len() - i,
            {
                let num = chars_of(comps[i].0.as_str());
                let unit = comps[i].1;
                assert(cs[i as int] == (num@, unit));
                assert(cs.take(i + 1).drop_last() =~= cs.take(i as int));
                match whole_number(num.as_slice()) {
                    None => {
                        return None;
                    },
                    Some(n) => {
                        let secs: u64 = if unit == 'H' || unit == 'h' {
                            n * 3600
                        } else if unit == 'M' || unit == 'm' {
                            n * 60
                        } else {
                            n
                        };
                        assert(secs == component_seconds(cs[i as int]));
                        match total.checked_add(secs) {
                            None => {
                                proof {
                                    lemma_total_grows(cs, i as int + 1);
                                }
                                return None;
                            },
                            Some(t) => {
                                total = t;
                            },
                        }
                    },
                }
                i = i + 1;
            }
            assert(cs.take(cs.len() as int) =~= cs);
            if total > 0 {
                Some(Some(total))
            } else {
                Some(None)
            }
        },
    }
}

/// The total of all components is at least that of a prefix.
proof fn lemma_total_grows(cs: Seq<(Seq<char>, char)>, k: int)
    requires
        0 <= k <= cs.len(),
    ensures
        total_seconds(cs.take(k)) <= total_seconds(cs),
    decreases cs.len() - k,
{
    if k == cs.len() {
        assert(cs.take(k) =~= cs);
    } else {
        lemma_total_grows(cs, k + 1);
        assert(cs.take(k + 1).drop_last() =~= cs.take(k));
    }
}

// ---------------------------------------------------------------------------
// Breach tracking
// ---------------------------------------------------------------------------

/// A change of a data product's SLO state.
#[derive(Debug, Clone, PartialEq, Eq)]
pub enum SloAction {
    /// Newly in breach, with its age in seconds.
    Breach { data_product_iri: String, actual_age_seconds: u64 },
    /// Out of breach again; refreshed at the given instant (Unix seconds
    /// and nanoseconds).
    Restore { data_product_iri: String, refreshed_secs: i64, refreshed_nanos: u32 },
}

/// The set of data products in breach.
pub struct SloTracker {
    breached: Vec<String>,
}

/// The texts held by `v`.
pub open spec fn text_set(v: Seq<String>) -> Set<Seq<char>> {
    Set::new(|x: Seq<char>| exists|i: int| 0 <= i < v.len() && #[trigger] v[i]@ == x)
}

/// The products in breach after observing `dp`, too old or not.
pub open spec fn slo_next(breached: Set<Seq<char>>, dp: Seq<char>, too_old: bool) -> Set<Seq<char>> {
    if too_old {
        breached.insert(dp)
    } else {
        breached.remove(dp)
    }
}

/// Whether observing `dp` reports a change: a breach when it becomes too
/// old, a restore when it is fresh again after a breach.
pub open spec fn slo_reports(breached: Set<Seq<char>>, dp: Seq<char>, too_old: bool) -> bool {
    too_old != breached.contains(dp)
}

impl SloTracker {
    /// The data products in breach.
    pub closed spec fn breached(&self) -> Set<Seq<char>> {
        text_set(self.breached@)
    }

    /// A tracker with nothing in breach.
    pub fn new() -> (t: SloTracker)
        ensures
            t.breached() == Set::<Seq<char>>::empty(),
    {
        let t = SloTracker { breached: Vec::new() };
        assert(t.breached() =~= Set::<Seq<char>>::empty());
        t
    }

    fn position(&self, dp: &str) -> (r: Option<usize>)
        ensures
            match r {
                Some(k) => k < self.breached@.len() && self.breached@[k as int]@ == dp@,
                None => !self.breached().contains(dp@),
            },
    {
        let mut k: usize = 0;
        while k < self.breached.len()
            invariant
                k <= self.breached@.len(),
                forall|j: int| 0 <= j < k ==> self.breached@[j]@ != dp@,
            decreases self.breached@.len() - k,
        {
            if str_eq(self.breached[k].as_str(), dp) {
                return Some(k);
            }
            k = k + 1;
        }
        None
    }

    /// Record the freshness of one data product: a breach is reported when
    /// its age exceeds the maximum and it was not in breach; a restore when
    /// it is within the maximum again after a breach; nothing otherwise.
    pub fn observe(&mut self, dp: &str, age_seconds: u64, max_age_seconds: u64, refreshed_at: (i64, u32)) -> (r: Option<
        SloAction,
    >)
        ensures
            final(self).breached() == slo_next(old(self).breached(), dp@, age_seconds > max_age_seconds),
            r is Some <==> slo_reports(old(self).breached(), dp@, age_seconds > max_age_seconds),
            r matches Some(SloAction::Breach { data_product_iri, actual_age_seconds }) ==> {
                &&& age_seconds > max_age_seconds
                &&& data_product_iri@ == dp@
                &&& actual_age_seconds == age_seconds
            },
            r matches Some(SloAction::Restore { data_product_iri, refreshed_secs, refreshed_nanos }) ==> {
                &&& age_seconds <= max_age_seconds
                &&& data_product_iri@ == dp@
                &&& (refreshed_secs, refreshed_nanos) == refreshed_at
            },
    {
        let ghost b0 = self.breached@;
        let pos = self.position(dp);
        if age_seconds > max_age_seconds {
            match pos {
                Some(_) => {
                    assert(self.breached().contains(dp@));
                    assert(self.breached().insert(dp@) =~= self.breached());
                    None
                },
                None => {
                    self.breached.push(String::from_str(dp));
                    proof {
                        assert forall|x: Seq<char>| #[trigger] text_set(self.breached@).contains(x) == text_set(b0).insert(dp@).contains(x) by {
                            if text_set(b0).contains(x) {
                                let i = choose|i: int| 0 <= i < b0.len() && #[trigger] b0[i]@ == x;
                                assert(self.breached@[i]@ == x);
                            }
                            if x == dp@ {
                                assert(self.breached@[b0.len() as int]@ == x);
                            }
                            if text_set(self.breached@).contains(x) && x != dp@ {
                                let i = choose|i: int| 0 <= i < self.breached@.len() && #[trigger] self.breached@[i]@ == x;
                                assert(b0[i]@ == x);
                            }
                        }
                        assert(text_set(self.breached@) =~= text_set(b0).insert(dp@));
                    }
                    Some(SloAction::Breach { data_product_iri: String::from_str(dp), actual_age_seconds: age_seconds })
                },
            }
        } else {
            match pos {
                Some(_) => {
                    let mut kept: Vec<String> = Vec::new();
                    let mut i: usize = 0;
                    while i < self.breached.len()
                        invariant
                            i <= self.breached@.len(),
                            b0 == self.breached@,
                            forall|x: Seq<char>| #[trigger] text_set(kept@).contains(x) == (x != dp@ && exists|j: int| 0 <= j < i && #[trigger] b0[j]@ == x),
                        decreases self.breached@.len() - i,
                    {
                        let ghost before = kept@;
                        if !str_eq(self.breached[i].as_str(), dp) {
                            kept.push(String::from_str(self.breached[i].as_str()));
                            proof {
                                assert forall|x: Seq<char>| #[trigger] text_set(kept@).contains(x) == (x != dp@ && exists|j: int| 0 <= j < i + 1 && #[trigger] b0[j]@ == x) by {
                                    if text_set(kept@).contains(x) {
                                        let m = choose|m: int| 0 <= m < kept@.len() && #[trigger] kept@[m]@ == x;
                                        if m < before.len() {
                                            assert(before[m]@ == x);
                                            assert(text_set(before).contains(x));
                                        } else {
                                            assert(b0[i as int]@ == x);
                                        }
                                    }
                                    if x != dp@ && exists|j: int| 0 <= j < i + 1 && #[trigger] b0[j]@ == x {
                                        let j = choose|j: int| 0 <= j < i + 1 && #[trigger] b0[j]@ == x;
                                        if j < i {
                                            assert(text_set(before).contains(x));
                                            let m = choose|m: int| 0 <= m < before.len() && #[trigger] before[m]@ == x;
                                            assert(kept@[m]@ == x);
                                        } else {
                                            assert(kept@[before.len() as int]@ == x);
                                        }
                                    }
                                }
                            }
                        } else {
                            proof {
                                assert forall|x: Seq<char>| #[trigger] text_set(kept@).contains(x) == (x != dp@ && exists|j: int| 0 <= j < i + 1 && #[trigger] b0[j]@ == x) by {
                                    if x != dp@ && exists|j: int| 0 <= j < i + 1 && #[trigger] b0[j]@ == x {
                                        let j = choose|j: int| 0 <= j < i + 1 && #[trigger] b0[j]@ == x;
                                        assert(j < i);
                                    }
                                }
                            }
                        }
                        i = i + 1;
                    }
                    self.breached = kept;
                    proof {
                        assert forall|x: Seq<char>| #[trigger] text_set(self.breached@).contains(x) == text_set(b0).remove(dp@).contains(x) by {
                            if x != dp@ && text_set(b0).contains(x) {
                                let j = choose|j: int| 0 <= j < b0.len() && #[trigger] b0[j]@ == x;
                            }
                        }
                        assert(text_set(self.breached@) =~= text_set(b0).remove(dp@));
                    }
                    Some(SloAction::Restore { data_product_iri: String::from_str(dp), refreshed_secs: refreshed_at.0, refreshed_nanos: refreshed_at.1 })
                },
                None => {
                    assert(self.breached().remove(dp@) =~= self.breached());
                    None
                },
            }
        }
    }
}

/// One row of the freshness query: the data product, its `lastRefreshed`
/// text, and the seconds its `maxAge` allows (`None` when the row has no
/// `maxAge` or it does not read as a positive duration).
#[derive(Debug)]
pub struct FreshnessRow {
    pub data_product: Option<String>,
    pub last_refreshed: Option<String>,
    pub max_age_seconds: Option<u64>,
}

/// A row as texts and numbers.
pub type FreshnessRowView = (Option<Seq<char>>, Option<Seq<char>>, Option<u64>);

/// The text of an optional string.
pub open spec fn opt_text(o: Option<String>) -> Option<Seq<char>> {
    match o {
        Some(s) => Some(s@),
        None => None,
    }
}

/// The views of the rows.
pub open spec fn freshness_row_views(rows: Seq<FreshnessRow>) -> Seq<FreshnessRowView> {
    rows.map_values(|r: FreshnessRow| (opt_text(r.data_product), opt_text(r.last_refreshed), r.max_age_seconds))
}

/// The age a product is judged by: whole seconds since its refresh, at
/// most `u64::MAX`.
pub open spec fn capped_age(now: (i64, u32), last: (i64, u32)) -> nat {
    if age_seconds_spec(now, last) <= u64::MAX {
        age_seconds_spec(now, last)
    } else {
        u64::MAX as nat
    }
}

/// What a row says at `now`: the product, its age, its maximum age and its
/// refresh instant; `None` when a part is missing or `lastRefreshed` is not
/// RFC 3339 (the row is skipped).
pub open spec fn row_reading(row: FreshnessRowView, now: (i64, u32)) -> Option<(Seq<char>, nat, u64, (i64, u32))> {
    match (row.0, row.1, row.2) {
        (Some(dp), Some(last), Some(max)) => match spec_rfc3339_instant(last) {
            Some(t) => Some((dp, capped_age(now, t), max, t)),
            None => None,
        },
        _ => None,
    }
}

/// The products in breach after checking `rows` in order from `st`.
pub open spec fn freshness_after(st: Set<Seq<char>>, rows: Seq<FreshnessRowView>, now: (i64, u32)) -> Set<Seq<char>>
    decreases rows.len(),
{
    if rows.len() == 0 {
        st
    } else {
        let before = freshness_after(st, rows.drop_last(), now);
        match row_reading(rows.last(), now) {
            None => before,
            Some((dp, age, max, _)) => slo_next(before, dp, age > max),
        }
    }
}

/// A change of SLO state as texts and numbers.
pub enum SloActionView {
    Breach(Seq<char>, nat),
    Restore(Seq<char>, (i64, u32)),
}

/// The view of an action.
pub open spec fn slo_action_view(a: SloAction) -> SloActionView {
    match a {
        SloAction::Breach { data_product_iri, actual_age_seconds } => SloActionView::Breach(
            data_product_iri@,
            actual_age_seconds as nat,
        ),
        SloAction::Restore { data_product_iri, refreshed_secs, refreshed_nanos } => SloActionView::Restore(
            data_product_iri@,
            (refreshed_secs, refreshed_nanos),
        ),
    }
}

/// The views of actions.
pub open spec fn slo_action_views(v: Seq<SloAction>) -> Seq<SloActionView> {
    v.map_values(|a: SloAction| slo_action_view(a))
}

/// The changes that checking `rows` in order from `st` reports: a breach
/// when a product becomes too old, a restore when it is fresh again.
pub open spec fn freshness_actions(st: Set<Seq<char>>, rows: Seq<FreshnessRowView>, now: (i64, u32)) -> Seq<SloActionView>
    decreases rows.len(),
{
    if rows.len() == 0 {
        Seq::empty()
    } else {
        let before = freshness_after(st, rows.drop_last(), now);
        let acts = freshness_actions(st, rows.drop_last(), now);
        match row_reading(rows.last(), now) {
            None => acts,
            Some((dp, age, max, last)) => if slo_reports(before, dp, age > max) {
                acts.push(
                    if age > max {
                        SloActionView::Breach(dp, age)
                    } else {
                        SloActionView::Restore(dp, last)
                    },
                )
            } else {
                acts
            },
        }
    }
}

impl SloTracker {
    /// Check every row at `now`, in order: rows with a missing part or an
    /// unreadable `lastRefreshed` are skipped; each other product is
    /// observed with its age. Returns the breaches and restores caused.
    pub fn check_freshness(&mut self, rows: &Vec<FreshnessRow>, now: (i64, u32)) -> (r: Vec<SloAction>)
        ensures
            final(self).breached() == freshness_after(old(self).breached(), freshness_row_views(rows@), now),
            slo_action_views(r@) == freshness_actions(old(self).breached(), freshness_row_views(rows@), now),
    {
        let ghost st0 = self.breached();
        let ghost rv = freshness_row_views(rows@);
        let mut out: Vec<SloAction> = Vec::new();
        let mut i: usize = 0;
        assert(rv.take(0) =~= Seq::<FreshnessRowView>::empty());
        while i < rows.len()
            invariant
                i <= rows@.len() == rv.len(),
                rv == freshness_row_views(rows@),
                self.breached() == freshness_after(st0, rv.take(i as int), now),
                slo_action_views(out@) == freshness_actions(st0, rv.take(i as int), now),
            decreases rows@.len() - i,
        {
            let row = &rows[i];
            let ghost before = out@;
            assert(rv.take(i + 1).drop_last() =~= rv.take(i as int));
            assert(rv.take(i + 1).last() == rv[i as int]);
            match (&row.data_product, &row.last_refreshed, row.max_age_seconds) {
                (Some(dp), Some(last), Some(max)) => {
                    match refreshed_at(last.as_str()) {
                        Some(t) => {
                            let age = age_seconds(now, t);
                            match self.observe(dp.as_str(), age, max, t) {
                                Some(a) => {
                                    out.push(a);
                                    assert(slo_action_views(out@) =~= slo_action_views(before).push(slo_action_view(out@.last())));
                                },
                                None => {},
                            }
                        },
                        None => {},
                    }
                },
                _ => {},
            }
            i = i + 1;
        }
        assert(rv.take(rows@.len() as int) =~= rv);
        out
    }
}

/// A change is reported once: observing a product again in the same
/// state (still too old, or still fresh) reports nothing and changes
/// nothing.
pub proof fn law_slo_change_reported_once(breached: Set<Seq<char>>, dp: Seq<char>, too_old: bool)
    ensures
        !slo_reports(slo_next(breached, dp, too_old), dp, too_old),
        slo_next(slo_next(breached, dp, too_old), dp, too_old) == slo_next(breached, dp, too_old),
{
    if too_old {
        assert(breached.insert(dp).insert(dp) =~= breached.insert(dp));
    } else {
        assert(breached.remove(dp).remove(dp) =~= breached.remove(dp));
    }
}

} // verus!
