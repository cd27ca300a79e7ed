//! Hardware counters read from `/proc`: the aggregate CPU times of
//! `/proc/stat` and the memory totals of `/proc/meminfo`, as integers.
//! Reading the files and turning counters into percentages or megabytes is
//! left to the caller.

use vstd::prelude::*;

use crate::text::{
    chars_of, ends_with, ends_with_chars, is_whitespace, is_ws, nonempty_only, nonempty_pieces, parse_u64,
    parse_u64_chars, split_chars, split_on, starts_with, starts_with_chars, sub_chars, trim,
    trim_chars,
};

verus! {

broadcast use vstd::string::group_string_axioms;

// ---------------------------------------------------------------------------
// Tokens
// ---------------------------------------------------------------------------

/// The pieces of `s` between whitespace characters, empty pieces kept.
pub open spec fn ws_split(s: Seq<char>) -> Seq<Seq<char>>
    decreases s.len(),
{
    if s.len() == 0 {
        seq![Seq::<char>::empty()]
    } else {
        let p = ws_split(s.drop_last());
        if is_ws(s.last()) {
            p.push(Seq::<char>::empty())
        } else {
            p.update(p.len() - 1, p.last().push(s.last()))
        }
    }
}

/// `str::split_whitespace`: the non-empty runs of non-whitespace.
pub open spec fn ws_tokens(s: Seq<char>) -> Seq<Seq<char>> {
    nonempty_pieces(ws_split(s))
}

/// The tokens that parse as `u64`, in order (others are skipped).
pub open spec fn parsed_fields(ts: Seq<Seq<char>>) -> Seq<u64>
    decreases ts.len(),
{
    if ts.len() == 0 {
        Seq::empty()
    } else {
        let p = parsed_fields(ts.drop_last());
        match parse_u64(ts.last()) {
            Some(v) => p.push(v),
            None => p,
        }
    }
}

/// The sum of the counters.
pub open spec fn counter_sum(f: Seq<u64>) -> nat
    decreases f.len(),
{
    if f.len() == 0 {
        0
    } else {
        counter_sum(f.drop_last()) + f.last() as nat
    }
}

fn ws_split_chars(v: &[char]) -> (res: Vec<Vec<char>>)
    ensures
        res@.map_values(|p: Vec<char>| p@) == ws_split(v@),
{
    let mut res: Vec<Vec<char>> = Vec::new();
    let mut cur: Vec<char> = Vec::new();
    let mut i: usize = 0;
    assert(v@.take(0) =~= Seq::<char>::empty());
    while i < v.len()
        invariant
            i <= v@.len(),
            res@.map_values(|p: Vec<char>| p@).push(cur@) == ws_split(v@.take(i as int)),
        decreases v@.len() - i,
    {
        let ghost before = res@.map_values(|p: Vec<char>| p@).push(cur@);
        assert(v@.take(i + 1).drop_last() =~= v@.take(i as int));
        assert(v@.take(i + 1).last() == v@[i as int]);
        let c = v[i];
        if is_whitespace(c) {
            let done = cur;
            let ghost rv = res@.map_values(|p: Vec<char>| p@);
            res.push(done);
            cur = Vec::new();
            assert(res@.map_values(|p: Vec<char>| p@) =~= rv.push(done@));
            assert(res@.map_values(|p: Vec<char>| p@).push(cur@) =~= before.push(Seq::<char>::empty()));
        } else {
            cur.push(c);
            assert(res@.map_values(|p: Vec<char>| p@).push(cur@) =~= before.update(
                before.len() - 1,
                before.last().push(c),
            ));
        }
        i = i + 1;
    }
    assert(v@.take(v@.len() as int) =~= v@);
    let ghost rv = res@.map_values(|p: Vec<char>| p@);
    let last = cur;
    res.push(last);
    assert(res@.map_values(|p: Vec<char>| p@) =~= rv.push(last@));
    res
}

/// `str::split_whitespace` on a character vector.
pub fn ws_tokens_chars(v: &[char]) -> (res: Vec<Vec<char>>)
    ensures
        res@.map_values(|p: Vec<char>| p@) == ws_tokens(v@),
{
    let pieces = ws_split_chars(v);
    let res = nonempty_only(pieces);
    assert(res@.map_values(|p: Vec<char>| p@) =~= ws_tokens(v@));
    res
}

// ---------------------------------------------------------------------------
// /proc/stat
// ---------------------------------------------------------------------------

/// Aggregate CPU times from `/proc/stat`.
#[derive(Debug, Clone, Copy, PartialEq, Eq)]
pub struct CpuTimes {
    /// idle + iowait.
    pub idle: u64,
    /// The sum of all counters on the line.
    pub total: u64,
}

/// The index of the first line starting with `pre`.
pub open spec fn first_line_with(lines: Seq<Seq<char>>, pre: Seq<char>) -> Option<int> {
    if exists|k: int| 0 <= k < lines.len() && starts_with(#[trigger] lines[k], pre) {
        Some(
            choose|k: int|
                0 <= k < lines.len() && starts_with(#[trigger] lines[k], pre) && forall|j: int|
                    0 <= j < k ==> !starts_with(#[trigger] lines[j], pre),
        )
    } else {
        None
    }
}

/// The numeric counters of the aggregate `cpu ` line: its tokens after the
/// first, those that parse as `u64`.
pub open spec fn cpu_counters(content: Seq<char>) -> Option<Seq<u64>> {
    let lines = split_on(content, '\n');
    match first_line_with(lines, "cpu "@) {
        None => None,
        Some(k) => {
            let ts = ws_tokens(lines[k]);
            Some(parsed_fields(if ts.len() == 0 { ts } else { ts.skip(1) }))
        },
    }
}

/// (idle + iowait, total) of `/proc/stat` content: idle is the fourth
/// counter, iowait the fifth (zero when absent), total the sum; `None`
/// without a `cpu ` line or with fewer than four counters.
pub open spec fn proc_stat_cpu(content: Seq<char>) -> Option<(nat, nat)> {
    match cpu_counters(content) {
        None => None,
        Some(f) => if f.len() < 4 {
            None
        } else {
            Some(((f[3] + if f.len() > 4 { f[4] as nat } else { 0 }) as nat, counter_sum(f)))
        },
    }
}

/// The counters of the `cpu ` line sum to at most `u64::MAX`.
pub open spec fn cpu_counters_fit(content: Seq<char>) -> bool {
    match cpu_counters(content) {
        None => true,
        Some(f) => counter_sum(f) <= u64::MAX,
    }
}

proof fn lemma_counter_sum_prefix(f: Seq<u64>, k: int)
    requires
        0 <= k <= f.len(),
    ensures
        counter_sum(f.take(k)) <= counter_sum(f),
    decreases f.len() - k,
{
    if k < f.len() {
        lemma_counter_sum_prefix(f, k + 1);
        assert(f.take(k + 1).drop_last() =~= f.take(k));
    } else {
        assert(f.take(k) =~= f);
    }
}

proof fn lemma_counter_sum_ge(f: Seq<u64>, i: int)
    requires
        0 <= i < f.len(),
    ensures
        f[i] <= counter_sum(f),
    decreases f.len(),
{
    if i < f.len() - 1 {
        lemma_counter_sum_ge(f.drop_last(), i);
    }
}

fn first_line_index(lines: &Vec<Vec<char>>, pre: &[char]) -> (r: Option<usize>)
    ensures
        ({
            let ls = lines@.map_values(|p: Vec<char>| p@);
            match r {
                Some(k) => first_line_with(ls, pre@) == Some(k as int) && k < ls.len(),
                None => first_line_with(ls, pre@) is None,
            }
        }),
{
    let ghost ls = lines@.map_values(|p: Vec<char>| p@);
    let mut k: usize = 0;
    while k < lines.len()
        invariant
            k <= lines@.len(),
            ls == lines@.map_values(|p: Vec<char>| p@),
            forall|j: int| 0 <= j < k ==> !starts_with(#[trigger] ls[j], pre@),
        decreases lines@.len() - k,
    {
        if starts_with_chars(lines[k].as_slice(), pre) {
            proof {
                assert(starts_with(ls[k as int], pre@));
                let w = choose|w: int|
                    0 <= w < ls.len() && starts_with(#[trigger] ls[w], pre@) && forall|j: int|
                        0 <= j < w ==> !starts_with(#[trigger] ls[j], pre@);
                if w < k {
                    assert(!starts_with(ls[w], pre@));
                }
                if w > k {
                    assert(!starts_with(ls[k as int], pre@));
                }
            }
            return Some(k);
        }
        k = k + 1;
    }
    None
}

/// The numeric counters of the aggregate `cpu ` line, if there is one.
fn cpu_counter_values(content: &str) -> (r: Option<Vec<u64>>)
    ensures
        match r {
            Some(f) => cpu_counters(content@) == Some(f@),
            None => cpu_counters(content@) is None,
        },
{
    let v = chars_of(content);
    let lines = split_chars(v.as_slice(), '\n');
    let ghost ls = lines@.map_values(|p: Vec<char>| p@);
    assert(ls =~= split_on(content@, '\n'));
    let pre = chars_of("cpu ");
    let k = match first_line_index(&lines, pre.as_slice()) {
        None => {
            return None;
        },
        Some(k) => k,
    };
    let tokens = ws_tokens_chars(lines[k].as_slice());
    let ghost ts = tokens@.map_values(|p: Vec<char>| p@);
    assert(ts == ws_tokens(ls[k as int]));
    let mut fields: Vec<u64> = Vec::new();
    if tokens.len() == 0 {
        assert(parsed_fields(ts) =~= Seq::<u64>::empty());
        return Some(fields);
    }
    let ghost rest = ts.skip(1);
    let mut i: usize = 1;
    assert(rest.take(0) =~= Seq::<Seq<char>>::empty());
    while i < tokens.len()
        invariant
            1 <= i <= tokens@.len(),
            ts == tokens@.map_values(|p: Vec<char>| p@),
            rest == ts.skip(1),
            fields@ == parsed_fields(rest.take(i - 1)),
        decreases tokens@.len() - i,
    {
        assert(rest.take(i - 1 + 1).drop_last() =~= rest.take(i - 1));
        assert(rest.take(i - 1 + 1).last() == tokens@[i as int]@);
        match parse_u64_chars(tokens[i].as_slice()) {
            Some(x) => {
                fields.push(x);
            },
            None => {},
        }
        i = i + 1;
    }
    assert(rest.take(tokens@.len() - 1) =~= rest);
    Some(fields)
}

/// Whether the counters of the `cpu ` line fit their sum in a `u64`, the
/// condition under which `parse_proc_stat_cpu` can total them.
pub fn proc_stat_counters_fit(content: &str) -> (r: bool)
    ensures
        r == cpu_counters_fit(content@),
{
    match cpu_counter_values(content) {
        None => true,
        Some(f) => {
            let mut acc: u64 = 0;
            let mut i: usize = 0;
            while i < f.len()
                invariant
                    i <= f@.len(),
                    cpu_counters(content@) == Some(f@),
                    acc == counter_sum(f@.take(i as int)),
                decreases f@.len() - i,
            {
                assert(f@.take(i + 1).drop_last() =~= f@.take(i as int));
                if acc > u64::MAX - f[i] {
                    proof {
                        assert(f@.take(i + 1).last() == f@[i as int]);
                        assert(counter_sum(f@.take(i + 1)) == acc + f@[i as int]);
                        lemma_counter_sum_prefix(f@, i + 1);
                    }
                    return false;
                }
                acc = acc + f[i];
                i = i + 1;
            }
            assert(f@.take(f@.len() as int) =~= f@);
            true
        },
    }
}

/// Parse the aggregate `cpu` line of `/proc/stat` content: the first line
/// that starts with `cpu `, its numeric counters after the label; idle is
/// the fourth counter plus the fifth (iowait, zero when absent), total the
/// sum of all counters. `None` without such a line or with fewer than four
/// counters.
pub fn parse_proc_stat_cpu(content: &str) -> (r: Option<CpuTimes>)
    requires
        cpu_counters_fit(content@),
    ensures
        match r {
            Some(t) => proc_stat_cpu(content@) == Some((t.idle as nat, t.total as nat)),
            None => proc_stat_cpu(content@) is None,
        },
{
    let f = match cpu_counter_values(content) {
        None => {
            return None;
        },
        Some(f) => f,
    };
    if f.len() < 4 {
        return None;
    }
    proof {
        lemma_counter_sum_ge(f@, 3);
        if f@.len() > 4 {
            lemma_counter_sum_ge(f@, 4);
            assert(f@[3] + f@[4] <= counter_sum(f@)) by {
                assert(counter_sum(f@.take(5)) <= counter_sum(f@)) by {
                    lemma_counter_sum_prefix(f@, 5);
                }
                assert(f@.take(5).drop_last() =~= f@.take(4));
                assert(f@.take(4).drop_last() =~= f@.take(3));
                assert(f@.take(5).last() == f@[4]);
                assert(f@.take(4).last() == f@[3]);
                assert(counter_sum(f@.take(5)) == counter_sum(f@.take(4)) + f@[4]);
                assert(counter_sum(f@.take(4)) == counter_sum(f@.take(3)) + f@[3]);
            }
        }
    }
    let iowait: u64 = if f.len() > 4 { f[4] } else { 0 };
    let idle = f[3] + iowait;
    let mut total: u64 = 0;
    let mut i: usize = 0;
    while i < f.len()
        invariant
            i <= f@.len(),
            counter_sum(f@) <= u64::MAX,
            total == counter_sum(f@.take(i as int)),
        decreases f@.len() - i,
    {
        assert(f@.take(i + 1).drop_last() =~= f@.take(i as int));
        proof {
            lemma_counter_sum_prefix(f@, i + 1);
        }
        total = total + f[i];
        i = i + 1;
    }
    assert(f@.take(f@.len() as int) =~= f@);
    Some(CpuTimes { idle, total })
}

/// The growth of the idle and total counters between two readings.
pub fn cpu_deltas(first: CpuTimes, second: CpuTimes) -> (r: (u64, u64))
    requires
        first.idle <= second.idle,
        first.total <= second.total,
    ensures
        r.0 == second.idle - first.idle,
        r.1 == second.total - first.total,
{
    (second.idle - first.idle, second.total - first.total)
}

// ---------------------------------------------------------------------------
// /proc/meminfo
// ---------------------------------------------------------------------------

/// The kilobytes of a meminfo value such as `  16384000 kB`: trimmed, the
/// `kB` suffix removed, trimmed again, parsed.
pub open spec fn kb_value(rest: Seq<char>) -> Option<u64> {
    let t = trim(rest);
    if ends_with(t, "kB"@) {
        parse_u64(trim(t.take(t.len() - "kB"@.len())))
    } else {
        None
    }
}

/// One meminfo line applied to (total, available): a `MemTotal:` line
/// sets the total, a `MemAvailable:` line the available memory (either to
/// `None` when its value does not parse); other lines change nothing.
pub open spec fn meminfo_step(st: (Option<u64>, Option<u64>), line: Seq<char>) -> (Option<u64>, Option<u64>) {
    if starts_with(line, "MemTotal:"@) {
        (kb_value(line.skip("MemTotal:"@.len() as int)), st.1)
    } else if starts_with(line, "MemAvailable:"@) {
        (st.0, kb_value(line.skip("MemAvailable:"@.len() as int)))
    } else {
        st
    }
}

/// The lines read in order until both values are known.
pub open spec fn meminfo_scan(lines: Seq<Seq<char>>) -> (Option<u64>, Option<u64>)
    decreases lines.len(),
{
    if lines.len() == 0 {
        (None, None)
    } else {
        let st = meminfo_scan(lines.drop_last());
        if st.0 is Some && st.1 is Some {
            st
        } else {
            meminfo_step(st, lines.last())
        }
    }
}

/// (total, available) in kB from `/proc/meminfo` content, when both are
/// found.
pub open spec fn meminfo_kb(content: Seq<char>) -> Option<(u64, u64)> {
    match meminfo_scan(split_on(content, '\n')) {
        (Some(t), Some(a)) => Some((t, a)),
        _ => None,
    }
}

fn kb_value_chars(rest: &[char]) -> (r: Option<u64>)
    ensures
        r == kb_value(rest@),
{
    let t = trim_chars(rest);
    let kb = chars_of("kB");
    if ends_with_chars(t.as_slice(), kb.as_slice()) {
        let body = sub_chars(t.as_slice(), 0, t.len() - kb.len());
        assert(body@ =~= t@.take(t@.len() - kb@.len()));
        let b2 = trim_chars(body.as_slice());
        parse_u64_chars(b2.as_slice())
    } else {
        None
    }
}

/// The `MemTotal` and `MemAvailable` values of `/proc/meminfo` content, in
/// kB: lines are read in order until both are known, a later line of the
/// same name replacing an earlier one; `None` unless both parse.
pub fn parse_meminfo_kb(content: &str) -> (r: Option<(u64, u64)>)
    ensures
        r == meminfo_kb(content@),
{
    let v = chars_of(content);
    let lines = split_chars(v.as_slice(), '\n');
    let ghost ls = lines@.map_values(|p: Vec<char>| p@);
    assert(ls =~= split_on(content@, '\n'));
    let total_pre = chars_of("MemTotal:");
    let avail_pre = chars_of("MemAvailable:");
    let mut total: Option<u64> = None;
    let mut available: Option<u64> = None;
    let mut i: usize = 0;
    assert(ls.take(0) =~= Seq::<Seq<char>>::empty());
    while i < lines.len()
        invariant
            i <= lines@.len(),
            ls == lines@.map_values(|p: Vec<char>| p@),
            total_pre@ == "MemTotal:"@,
            avail_pre@ == "MemAvailable:"@,
            (total, available) == meminfo_scan(ls.take(i as int)),
        decreases lines@.len() - i,
    {
        assert(ls.take(i + 1).drop_last() =~= ls.take(i as int));
        assert(ls.take(i + 1).last() == lines@[i as int]@);
        if total.is_none() || available.is_none() {
            let line = lines[i].as_slice();
            if starts_with_chars(line, total_pre.as_slice()) {
                let rest = sub_chars(line, total_pre.len(), line.len());
                assert(rest@ =~= line@.skip(total_pre@.len() as int));
                total = kb_value_chars(rest.as_slice());
            } else if starts_with_chars(line, avail_pre.as_slice()) {
                let rest = sub_chars(line, avail_pre.len(), line.len());
                assert(rest@ =~= line@.skip(avail_pre@.len() as int));
                available = kb_value_chars(rest.as_slice());
            }
        }
        i = i + 1;
    }
    assert(ls.take(lines@.len() as int) =~= ls);
    match (total, available) {
        (Some(t), Some(a)) => Some((t, a)),
        _ => None,
    }
}

} // verus!
