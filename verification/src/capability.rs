//! Capability resolution: semver-like version comparison and the choice
//! of the product that implements a capability.

use vstd::prelude::*;

use crate::text::{before_first, before_first_chars, chars_of, ends_with, ends_with_chars, occurs_at, parse_u64, parse_u64_chars, split_chars, split_on, str_eq, string_of, sub_chars};

verus! {

broadcast use vstd::string::group_string_axioms;

// ---------------------------------------------------------------------------
// Versions
// ---------------------------------------------------------------------------

/// A dot-separated version component; text that is not a `u64` counts as 0.
pub open spec fn component_value(p: Seq<char>) -> u64 {
    match parse_u64(p) {
        Some(n) => n,
        None => 0,
    }
}

/// The numeric components of a version string, split at `.`.
pub open spec fn version_components(v: Seq<char>) -> Seq<u64> {
    split_on(v, '.').map_values(|p: Seq<char>| component_value(p))
}

/// Component `i`, with missing components read as 0.
pub open spec fn comp_at(c: Seq<u64>, i: int) -> u64 {
    if 0 <= i < c.len() {
        c[i]
    } else {
        0
    }
}

/// The larger of the two lengths.
pub open spec fn max_len(a: Seq<u64>, b: Seq<u64>) -> int {
    if a.len() >= b.len() {
        a.len() as int
    } else {
        b.len() as int
    }
}

/// Lexicographic comparison of zero-padded component lists from position
/// `i`: 1 when `a` is greater, -1 when smaller, 0 when equal.
pub open spec fn lex_from(a: Seq<u64>, b: Seq<u64>, i: int) -> int
    decreases max_len(a, b) - i,
{
    if i >= max_len(a, b) {
        0
    } else if comp_at(a, i) > comp_at(b, i) {
        1
    } else if comp_at(a, i) < comp_at(b, i) {
        -1
    } else {
        lex_from(a, b, i + 1)
    }
}

/// The order of two version strings: 1, 0 or -1.
pub open spec fn version_rank(a: Seq<char>, b: Seq<char>) -> int {
    lex_from(version_components(a), version_components(b), 0)
}

/// One step of `lex_from`, valid past the end of both lists as well.
proof fn lemma_lex_unfold(a: Seq<u64>, b: Seq<u64>, i: int)
    requires
        0 <= i,
    ensures
        lex_from(a, b, i) == if comp_at(a, i) > comp_at(b, i) {
            1
        } else if comp_at(a, i) < comp_at(b, i) {
            -1
        } else {
            lex_from(a, b, i + 1)
        },
{
}

proof fn lemma_lex_antisym(a: Seq<u64>, b: Seq<u64>, i: int)
    requires
        0 <= i,
    ensures
        lex_from(a, b, i) == -lex_from(b, a, i),
    decreases max_len(a, b) - i,
{
    if i < max_len(a, b) && comp_at(a, i) == comp_at(b, i) {
        lemma_lex_antisym(a, b, i + 1);
    }
}

proof fn lemma_lex_range(a: Seq<u64>, b: Seq<u64>, i: int)
    ensures
        -1 <= lex_from(a, b, i) <= 1,
    decreases max_len(a, b) - i,
{
    if i < max_len(a, b) && comp_at(a, i) == comp_at(b, i) {
        lemma_lex_range(a, b, i + 1);
    }
}

/// The largest of the pairwise lengths of three component lists.
spec fn bound3(a: Seq<u64>, b: Seq<u64>, c: Seq<u64>) -> int {
    let x = max_len(a, b);
    let y = max_len(b, c);
    let z = max_len(a, c);
    if x >= y && x >= z {
        x
    } else if y >= z {
        y
    } else {
        z
    }
}

proof fn lemma_lex_trans(a: Seq<u64>, b: Seq<u64>, c: Seq<u64>, i: int)
    requires
        0 <= i,
        lex_from(a, b, i) <= 0,
        lex_from(b, c, i) <= 0,
    ensures
        lex_from(a, c, i) <= 0,
        lex_from(a, b, i) < 0 || lex_from(b, c, i) < 0 ==> lex_from(a, c, i) < 0,
    decreases bound3(a, b, c) - i,
{
    lemma_lex_unfold(a, b, i);
    lemma_lex_unfold(b, c, i);
    lemma_lex_unfold(a, c, i);
    if i >= max_len(a, b) && i >= max_len(b, c) && i >= max_len(a, c) {
    } else if comp_at(a, i) == comp_at(b, i) && comp_at(b, i) == comp_at(c, i) {
        lemma_lex_trans(a, b, c, i + 1);
    }
}

/// Version order is antisymmetric: comparing the other way round gives
/// the opposite answer.
pub proof fn law_version_rank_antisymmetric(a: Seq<char>, b: Seq<char>)
    ensures
        version_rank(a, b) == -version_rank(b, a),
{
    lemma_lex_antisym(version_components(a), version_components(b), 0);
}

/// Version order is transitive, strictly as soon as one step is strict.
pub proof fn law_version_rank_transitive(a: Seq<char>, b: Seq<char>, c: Seq<char>)
    requires
        version_rank(a, b) <= 0,
        version_rank(b, c) <= 0,
    ensures
        version_rank(a, c) <= 0,
        version_rank(a, b) < 0 || version_rank(b, c) < 0 ==> version_rank(a, c) < 0,
{
    lemma_lex_trans(version_components(a), version_components(b), version_components(c), 0);
}

/// Every version equals itself.
pub proof fn law_version_rank_reflexive(a: Seq<char>)
    ensures
        version_rank(a, a) == 0,
{
    lemma_lex_antisym(version_components(a), version_components(a), 0);
}

/// The numeric components of a version string.
fn components(v: &str) -> (c: Vec<u64>)
    ensures
        c@ == version_components(v@),
{
    let cv = chars_of(v);
    let parts = split_chars(cv.as_slice(), '.');
    let ghost ps = split_on(v@, '.');
    let mut out: Vec<u64> = Vec::new();
    let mut i: usize = 0;
    while i < parts.len()
        invariant
            i <= parts@.len() == ps.len(),
            forall|k: int| 0 <= k < parts@.len() ==> #[trigger] parts@[k]@ == ps[k],
            out@.len() == i,
            forall|k: int| 0 <= k < i ==> #[trigger] out@[k] == component_value(ps[k]),
        decreases parts@.len() - i,
    {
        let n = match parse_u64_chars(parts[i].as_slice()) {
            Some(n) => n,
            None => 0,
        };
        out.push(n);
        i = i + 1;
    }
    assert(out@ =~= version_components(v@));
    out
}

/// `comp_at` for a vector.
fn comp_of(c: &Vec<u64>, i: usize) -> (r: u64)
    ensures
        r == comp_at(c@, i as int),
{
    if i < c.len() {
        c[i]
    } else {
        0
    }
}

/// `lex_from(a, b, 0)` computed by a left-to-right scan.
fn lex_compare(a: &Vec<u64>, b: &Vec<u64>) -> (r: i8)
    ensures
        r as int == lex_from(a@, b@, 0),
{
    let m = if a.len() >= b.len() { a.len() } else { b.len() };
    let mut i: usize = 0;
    while i < m
        invariant
            i <= m,
            m as int == max_len(a@, b@),
            lex_from(a@, b@, 0) == lex_from(a@, b@, i as int),
        decreases m - i,
    {
        let x = comp_of(a, i);
        let y = comp_of(b, i);
        if x > y {
            return 1;
        }
        if x < y {
            return -1;
        }
        i = i + 1;
    }
    0
}

/// Compare two semver-like version strings. Returns true if `offered` >=
/// `required`. Components are compared numerically, missing ones as 0.
pub fn version_satisfies(offered: &str, required: &str) -> (r: bool)
    ensures
        r == (version_rank(offered@, required@) >= 0),
{
    let o = components(offered);
    let q = components(required);
    lex_compare(&o, &q) >= 0
}

/// Compare two version strings for ordering.
pub fn version_cmp(a: &str, b: &str) -> (r: std::cmp::Ordering)
    ensures
        (r == std::cmp::Ordering::Less) == (version_rank(a@, b@) < 0),
        (r == std::cmp::Ordering::Equal) == (version_rank(a@, b@) == 0),
        (r == std::cmp::Ordering::Greater) == (version_rank(a@, b@) > 0),
{
    let x = version_order_value(a, b);
    if x < 0 {
        std::cmp::Ordering::Less
    } else if x == 0 {
        std::cmp::Ordering::Equal
    } else {
        std::cmp::Ordering::Greater
    }
}

/// The order of two version strings as -1, 0 or 1.
fn version_order_value(a: &str, b: &str) -> (r: i8)
    ensures
        r as int == version_rank(a@, b@),
{
    let x = components(a);
    let y = components(b);
    lex_compare(&x, &y)
}

// ---------------------------------------------------------------------------
// Implementor choice
// ---------------------------------------------------------------------------

/// The product a capability resolves to.
#[derive(Debug, Clone)]
pub struct CapabilityResolution {
    pub capability_name: String,
    pub implementor_product: String,
    pub implementor_version: String,
}

/// Why a capability could not be resolved.
#[derive(Debug, Clone)]
pub enum CapabilityError {
    /// No implementor offers at least the minimum version.
    Unfulfilled { capability: String, min_version: String },
}

/// The text after the last `pat` in `s` (all of `s` when `pat` is absent):
/// the first item of `s.rsplit(pat)`.
pub open spec fn after_last(s: Seq<char>, pat: Seq<char>) -> Seq<char> {
    if exists|i: int| occurs_at(s, pat, i) {
        let i = choose|i: int| occurs_at(s, pat, i) && forall|j: int| i < j ==> !occurs_at(s, pat, j);
        s.skip(i + pat.len())
    } else {
        s
    }
}

/// The product name in a product IRI `.../products/<name>/...`.
pub open spec fn product_name_of_iri(iri: Seq<char>) -> Seq<char> {
    before_first(after_last(iri, "/products/"@), '/')
}

/// The last position of `pat` in `v`.
fn rfind_chars(v: &[char], pat: &[char]) -> (r: Option<usize>)
    ensures
        match r {
            Some(i) => occurs_at(v@, pat@, i as int) && forall|j: int| i < j ==> !occurs_at(v@, pat@, j),
            None => forall|j: int| !occurs_at(v@, pat@, j),
        },
{
    let n = v.len();
    let mut i: usize = n + 0;
    if pat.len() > n {
        return None;
    }
    i = n - pat.len();
    loop
        invariant
            i + pat@.len() <= n == v@.len(),
            forall|j: int| i < j ==> !occurs_at(v@, pat@, j),
        decreases i,
    {
        if crate::text::occurs_at_exec(v, pat, i) {
            return Some(i);
        }
        if i == 0 {
            return None;
        }
        i = i - 1;
    }
}

/// Extract the product name from a product IRI: what follows the last
/// `/products/`, up to the next `/`.
pub fn product_name_from_iri(iri: &str) -> (r: String)
    ensures
        r@ == product_name_of_iri(iri@),
{
    let v = chars_of(iri);
    let pat = chars_of("/products/");
    let tail = match rfind_chars(v.as_slice(), pat.as_slice()) {
        Some(i) => {
            proof {
                let w = choose|w: int| occurs_at(v@, pat@, w) && forall|j: int| w < j ==> !occurs_at(v@, pat@, j);
                assert(w == i);
            }
            let n = v.len();
            assert(i + pat@.len() <= n);
            sub_chars(v.as_slice(), i + pat.len(), n)
        },
        None => sub_chars(v.as_slice(), 0, v.len()),
    };
    assert(tail@ =~= after_last(iri@, "/products/"@));
    let name = before_first_chars(tail.as_slice(), '/');
    string_of(name.as_slice())
}

/// Candidate `i` (version, product IRI) offers at least `min`.
pub open spec fn candidate_ok(cands: Seq<(String, String)>, min: Seq<char>, i: int) -> bool {
    0 <= i < cands.len() && version_rank(cands[i].0@, min) >= 0
}

/// Candidate `i` is the chosen implementor: it satisfies the minimum, no
/// satisfying candidate has a higher version, and every earlier satisfying
/// candidate has a lower one (the first of the highest wins).
pub open spec fn candidate_best(cands: Seq<(String, String)>, min: Seq<char>, i: int) -> bool {
    &&& candidate_ok(cands, min, i)
    &&& forall|j: int| candidate_ok(cands, min, j) ==> version_rank(cands[j].0@, cands[i].0@) <= 0
    &&& forall|j: int| 0 <= j < i && candidate_ok(cands, min, j) ==> version_rank(cands[j].0@, cands[i].0@) < 0
}

/// Choose the implementor of a capability among `(version, product IRI)`
/// candidates: the highest version that satisfies `min_version`, the first
/// of equal highest ones. The product is named by the last path segment
/// after `/products/` in its IRI. Unfulfilled when no candidate satisfies.
pub fn resolve_implementor(
    capability_name: &str,
    min_version: &str,
    candidates: &Vec<(String, String)>,
) -> (r: Result<CapabilityResolution, CapabilityError>)
    ensures
        match r {
            Ok(res) => exists|i: int|
                #![trigger candidates@[i]]
                candidate_best(candidates@, min_version@, i) && res.capability_name@ == capability_name@
                    && res.implementor_version@ == candidates@[i].0@ && res.implementor_product@
                    == product_name_of_iri(candidates@[i].1@),
            Err(CapabilityError::Unfulfilled { capability, min_version: m }) => (forall|j: int|
                !candidate_ok(candidates@, min_version@, j)) && capability@ == capability_name@ && m@
                == min_version@,
        },
{
    let mut best: Option<usize> = None;
    let mut i: usize = 0;
    while i < candidates.len()
        invariant
            i <= candidates@.len(),
            match best {
                Some(b) => b < i && candidate_ok(candidates@, min_version@, b as int) && (forall|j: int|
                    0 <= j < i && candidate_ok(candidates@, min_version@, j) ==> version_rank(
                        candidates@[j].0@,
                        candidates@[b as int].0@,
                    ) <= 0) && (forall|j: int|
                    0 <= j < b && candidate_ok(candidates@, min_version@, j) ==> version_rank(
                        candidates@[j].0@,
                        candidates@[b as int].0@,
                    ) < 0),
                None => forall|j: int| 0 <= j < i ==> !candidate_ok(candidates@, min_version@, j),
            },
        decreases candidates@.len() - i,
    {
        let v = &candidates[i].0;
        if version_satisfies(v.as_str(), min_version) {
            match best {
                None => {
                    proof {
                        law_version_rank_reflexive(candidates@[i as int].0@);
                    }
                    best = Some(i);
                },
                Some(b) => {
                    let x = version_order_value(v.as_str(), candidates[b].0.as_str());
                    if x > 0 {
                        proof {
                            let bi = candidates@[b as int].0@;
                            let vi = candidates@[i as int].0@;
                            law_version_rank_antisymmetric(vi, bi);
                            assert forall|j: int|
                                0 <= j <= i && candidate_ok(candidates@, min_version@, j) implies version_rank(
                                candidates@[j].0@,
                                vi,
                            ) <= 0 && (j < i ==> version_rank(candidates@[j].0@, vi) < 0) by {
                                if j < i {
                                    law_version_rank_transitive(candidates@[j].0@, bi, vi);
                                } else {
                                    law_version_rank_reflexive(vi);
                                }
                            }
                        }
                        best = Some(i);
                    } else {
                        proof {
                            law_version_rank_antisymmetric(candidates@[i as int].0@, candidates@[b as int].0@);
                        }
                    }
                },
            }
        }
        i = i + 1;
    }
    match best {
        Some(b) => Ok(
            CapabilityResolution {
                capability_name: String::from_str(capability_name),
                implementor_product: product_name_from_iri(candidates[b].1.as_str()),
                implementor_version: String::from_str(candidates[b].0.as_str()),
            },
        ),
        None => Err(
            CapabilityError::Unfulfilled {
                capability: String::from_str(capability_name),
                min_version: String::from_str(min_version),
            },
        ),
    }
}

/// A capability is fulfilled when it has an implementor and its status is
/// `ready` or ends with `Ready`.
pub open spec fn fulfilled_spec(implementors: nat, status: Seq<char>) -> bool {
    implementors > 0 && (status == "ready"@ || ends_with(status, "Ready"@))
}

/// Whether a listed capability counts as fulfilled.
pub fn capability_fulfilled(implementors: usize, status: &str) -> (r: bool)
    ensures
        r == fulfilled_spec(implementors as nat, status@),
{
    let v = chars_of(status);
    let ready = chars_of("Ready");
    implementors > 0 && (str_eq(status, "ready") || ends_with_chars(v.as_slice(), ready.as_slice()))
}

/// The minimum version a routed capability event asks for: its
/// `minVersion`, or `1.0.0`.
pub fn min_version_or_default(requested: Option<&str>) -> (r: String)
    ensures
        r@ == match requested {
            Some(v) => v@,
            None => "1.0.0"@,
        },
{
    match requested {
        Some(v) => String::from_str(v),
        None => String::from_str("1.0.0"),
    }
}

} // verus!
