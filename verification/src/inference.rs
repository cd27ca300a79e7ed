//! Inference rules: turning a CONSTRUCT rule into the SELECT that feeds it,
//! collecting the triples a rule produced, and the difference between two
//! evaluations (assertions, retractions, group membership changes).
//!
//! Running queries and appending events is the caller's business; this
//! module decides what the results mean.

use vstd::prelude::*;
use vstd::utf8::*;

use crate::text::{spec_to_uppercase, str_eq, to_uppercase};

verus! {

broadcast use vstd::string::group_string_axioms;

// ---------------------------------------------------------------------------
// CONSTRUCT to SELECT
// ---------------------------------------------------------------------------

/// The bytes of the keyword `WHERE`.
pub open spec fn where_keyword() -> Seq<u8> {
    seq![0x57u8, 0x48u8, 0x45u8, 0x52u8, 0x45u8]
}

/// The byte of `{`.
pub open spec fn open_brace() -> u8 {
    0x7bu8
}

/// Does `pat` occur in `s` at byte position `i`?
pub open spec fn bytes_at(s: Seq<u8>, pat: Seq<u8>, i: int) -> bool {
    0 <= i && i + pat.len() <= s.len() && s.subrange(i, i + pat.len()) == pat
}

/// The first byte position of `pat` in `s`.
#[verifier::opaque]
pub open spec fn find_bytes(s: Seq<u8>, pat: Seq<u8>) -> Option<int> {
    if exists|i: int| bytes_at(s, pat, i) {
        Some(choose|i: int| bytes_at(s, pat, i) && forall|j: int| 0 <= j < i ==> !bytes_at(s, pat, j))
    } else {
        None
    }
}

/// The first position of the byte `b` in `s`.
#[verifier::opaque]
pub open spec fn find_byte(s: Seq<u8>, b: u8) -> Option<int> {
    if exists|i: int| 0 <= i < s.len() && s[i] == b {
        Some(choose|i: int| 0 <= i < s.len() && s[i] == b && forall|j: int| 0 <= j < i ==> s[j] != b)
    } else {
        None
    }
}

/// Where `WHERE` stands in the upper-cased query (`upper`), the query
/// itself (`query`) can be cut just after it: the cut is a character
/// boundary of the query.
#[verifier::opaque]
pub open spec fn construct_cut_ok(query: Seq<u8>, upper: Seq<u8>) -> bool {
    match find_bytes(upper, where_keyword()) {
        None => true,
        Some(p) => is_char_boundary(query, p + 5),
    }
}

/// The byte offset in the query where the SELECT body begins: the first `{`
/// after the `WHERE` found in the upper-cased query.
#[verifier::opaque]
pub open spec fn select_body_start(query: Seq<u8>, upper: Seq<u8>) -> Option<int> {
    match find_bytes(upper, where_keyword()) {
        None => None,
        Some(p) => match find_byte(query.skip(p + 5), open_brace()) {
            None => None,
            Some(q) => Some(p + 5 + q),
        },
    }
}

/// The SELECT query that stands for a CONSTRUCT rule: its WHERE block
/// under `SELECT ?s ?p ?o WHERE`, or the whole rule wrapped in a WHERE block when
/// it has none.
#[verifier::opaque]
pub open spec fn select_for_construct(query: Seq<char>, upper: Seq<char>) -> Seq<char> {
    match select_body_start(encode_utf8(query), encode_utf8(upper)) {
        Some(k) => "SELECT ?s ?p ?o WHERE "@ + decode_utf8(encode_utf8(query).skip(k)),
        None => "SELECT ?s ?p ?o WHERE { "@ + query + " }"@,
    }
}

fn bytes_at_exec(s: &[u8], pat: &[u8], i: usize) -> (r: bool)
    ensures
        r == bytes_at(s@, pat@, i as int),
{
    let n = s.len();
    if i > n || pat.len() > n - i {
        return false;
    }
    let mut k: usize = 0;
    while k < pat.len()
        invariant
            i + pat@.len() <= s@.len(),
            n == s@.len(),
            k <= pat@.len(),
            forall|m: int| 0 <= m < k ==> s@[i + m] == pat@[m],
        decreases pat@.len() - k,
    {
        if s[i + k] != pat[k] {
            assert(s@.subrange(i as int, i + pat@.len())[k as int] != pat@[k as int]);
            return false;
        }
        k = k + 1;
    }
    assert(s@.subrange(i as int, i + pat@.len()) =~= pat@);
    true
}

fn find_bytes_exec(s: &[u8], pat: &[u8]) -> (r: Option<usize>)
    ensures
        match r {
            Some(i) => find_bytes(s@, pat@) == Some(i as int) && bytes_at(s@, pat@, i as int),
            None => find_bytes(s@, pat@) is None,
        },
{
    proof {
        reveal(find_bytes);
    }
    let n = s.len();
    let mut i: usize = 0;
    loop
        invariant
            i <= n == s@.len(),
            forall|j: int| 0 <= j < i ==> !bytes_at(s@, pat@, j),
        decreases n - i,
    {
        if bytes_at_exec(s, pat, i) {
            proof {
                reveal(find_bytes);
                let w = choose|w: int| bytes_at(s@, pat@, w) && forall|j: int| 0 <= j < w ==> !bytes_at(s@, pat@, j);
                assert(bytes_at(s@, pat@, i as int));
                assert(w == i);
            }
            return Some(i);
        }
        if i == n {
            proof {
                reveal(find_bytes);
                assert forall|j: int| !bytes_at(s@, pat@, j) by {
                    if 0 <= j <= i {
                    }
                }
            }
            return None;
        }
        i = i + 1;
    }
}

fn find_byte_exec(s: &[u8], b: u8) -> (r: Option<usize>)
    ensures
        match r {
            Some(i) => find_byte(s@, b) == Some(i as int) && (i as int) < s@.len() && s@[i as int] == b,
            None => find_byte(s@, b) is None,
        },
{
    proof {
        reveal(find_byte);
    }
    let mut i: usize = 0;
    while i < s.len()
        invariant
            i <= s@.len(),
            forall|j: int| 0 <= j < i ==> s@[j] != b,
        decreases s@.len() - i,
    {
        if s[i] == b {
            proof {
                reveal(find_byte);
                let w = choose|w: int| 0 <= w < s@.len() && s@[w] == b && forall|j: int| 0 <= j < w ==> s@[j] != b;
                assert(w == i);
            }
            return Some(i);
        }
        i = i + 1;
    }
    proof {
        reveal(find_byte);
    }
    None
}

/// The SELECT `construct_to_select` builds from a rule and its upper-cased
/// text, when the cut after `WHERE` falls on a character boundary.
fn select_from_parts(construct: &str, upper: &str) -> (r: String)
    requires
        construct_cut_ok(encode_utf8(construct@), encode_utf8(upper@)),
    ensures
        r@ == select_for_construct(construct@, upper@),
{
    proof {
        reveal(construct_cut_ok);
        reveal(select_body_start);
        reveal(select_for_construct);
    }
    let ub = upper.as_bytes();
    let cb = construct.as_bytes();
    let where_kw: [u8; 5] = [0x57u8, 0x48u8, 0x45u8, 0x52u8, 0x45u8];
    assert(where_kw@ =~= where_keyword());
    if let Some(p) = find_bytes_exec(ub, where_kw.as_slice()) {
        assert(where_kw@.len() == 5);
        let ub_len = ub.len();
        assert(p + 5 <= ub_len);
        let cut = p + 5;
        assert(is_char_boundary(cb@, cut as int));
        assert(cut <= cb@.len()) by {
            encode_utf8_valid_utf8(construct@);
        }
        let (_, after) = construct.split_at(cut);
        let ab = after.as_bytes();
        assert(ab@ =~= cb@.skip(cut as int));
        if let Some(q) = find_byte_exec(ab, 0x7bu8) {
            proof {
                encode_utf8_valid_utf8(construct@);
                valid_utf8_split(cb@, cut as int);
                assert(cb@.subrange(cut as int, cb@.len() as int) =~= ab@);
                is_char_boundary_iff_not_is_continuation_byte(ab@, q as int);
            }
            let (_, body) = after.split_at(q);
            assert(encode_utf8(body@) =~= cb@.skip(cut + q));
            let mut r = String::from_str("SELECT ?s ?p ?o WHERE ");
            r.append(body);
            proof {
                encode_utf8_decode_utf8(body@);
            }
            return r;
        }
    }
    let mut r = String::from_str("SELECT ?s ?p ?o WHERE { ");
    r.append(construct);
    r.append(" }");
    r
}

/// Turn a CONSTRUCT rule into the SELECT query that yields its bindings:
/// `WHERE` is looked for in the upper-cased rule and, after it, the first
/// `{`; from that brace on the rule is kept under `SELECT ?s ?p ?o WHERE`. With
/// no such block the whole rule is wrapped as `SELECT ?s ?p ?o WHERE { .. }`.
/// The position found in the upper-cased text must cut the rule itself on a
/// character boundary.
pub fn construct_to_select(construct: &str) -> (r: String)
    requires
        construct_cut_ok(encode_utf8(construct@), encode_utf8(spec_to_uppercase(construct@))),
    ensures
        r@ == select_for_construct(construct@, spec_to_uppercase(construct@)),
{
    let upper = to_uppercase(construct);
    select_from_parts(construct, upper.as_str())
}

/// `construct_to_select` where the cut after `WHERE` falls on a character
/// boundary of the rule; `None` where it would not (the rule's upper-cased
/// form has a different byte layout before `WHERE`).
pub fn try_construct_to_select(construct: &str) -> (r: Option<String>)
    ensures
        construct_cut_ok(encode_utf8(construct@), encode_utf8(spec_to_uppercase(construct@))) <==> r is Some,
        r matches Some(s) ==> s@ == select_for_construct(construct@, spec_to_uppercase(construct@)),
{
    let upper = to_uppercase(construct);
    proof {
        reveal(construct_cut_ok);
    }
    let ub = upper.as_str().as_bytes();
    let where_kw: [u8; 5] = [0x57u8, 0x48u8, 0x45u8, 0x52u8, 0x45u8];
    assert(where_kw@ =~= where_keyword());
    match find_bytes_exec(ub, where_kw.as_slice()) {
        None => Some(construct_to_select(construct)),
        Some(p) => {
            assert(where_kw@.len() == 5);
            let ub_len = ub.len();
            assert(p + 5 <= ub_len);
            if construct.is_char_boundary(p + 5) {
                Some(construct_to_select(construct))
            } else {
                None
            }
        },
    }
}

// ---------------------------------------------------------------------------
// Produced triples
// ---------------------------------------------------------------------------

/// A triple as three texts: subject, predicate, object.
pub type TripleView = (Seq<char>, Seq<char>, Seq<char>);

/// A triple a rule produced, compared across evaluations by its three texts.
#[derive(Debug)]
pub struct ProducedTriple {
    pub subject: String,
    pub predicate: String,
    pub object: String,
}

impl View for ProducedTriple {
    type V = TripleView;

    open spec fn view(&self) -> TripleView {
        (self.subject@, self.predicate@, self.object@)
    }
}

impl ProducedTriple {
    /// A copy of this triple.
    pub fn copy(&self) -> (r: ProducedTriple)
        ensures
            r@ == self@,
    {
        ProducedTriple {
            subject: String::from_str(self.subject.as_str()),
            predicate: String::from_str(self.predicate.as_str()),
            object: String::from_str(self.object.as_str()),
        }
    }

    /// Do the two triples hold the same texts?
    pub fn same(&self, other: &ProducedTriple) -> (r: bool)
        ensures
            r == (self@ == other@),
    {
        str_eq(self.subject.as_str(), other.subject.as_str()) && str_eq(
            self.predicate.as_str(),
            other.predicate.as_str(),
        ) && str_eq(self.object.as_str(), other.object.as_str())
    }
}

/// The texts of a sequence of triples.
pub open spec fn triple_views(v: Seq<ProducedTriple>) -> Seq<TripleView> {
    v.map_values(|t: ProducedTriple| t@)
}

/// A binding row (`?s`, `?p`, `?o`; an unbound variable reads as empty).
pub open spec fn binding_views(b: Seq<(String, String, String)>) -> Seq<TripleView> {
    b.map_values(|x: (String, String, String)| (x.0@, x.1@, x.2@))
}

/// All three parts are non-empty.
pub open spec fn complete_triple(t: TripleView) -> bool {
    t.0.len() > 0 && t.1.len() > 0 && t.2.len() > 0
}

/// Is `t` among the triples `v`?
pub fn contains_triple(v: &Vec<ProducedTriple>, t: &ProducedTriple) -> (r: bool)
    ensures
        r == triple_views(v@).contains(t@),
{
    let mut i: usize = 0;
    while i < v.len()
        invariant
            i <= v@.len(),
            forall|j: int| 0 <= j < i ==> v@[j]@ != t@,
        decreases v@.len() - i,
    {
        if v[i].same(t) {
            assert(triple_views(v@)[i as int] == t@);
            return true;
        }
        i = i + 1;
    }
    proof {
        if triple_views(v@).contains(t@) {
            let j = choose|j: int| 0 <= j < triple_views(v@).len() && triple_views(v@)[j] == t@;
            assert(v@[j]@ == t@);
        }
    }
    false
}

/// The triples of a result: each complete binding row once, in the order of
/// first appearance; rows with an empty part are dropped.
pub fn triples_from_bindings(bindings: &Vec<(String, String, String)>) -> (r: Vec<ProducedTriple>)
    ensures
        triple_views(r@).no_duplicates(),
        forall|t: TripleView|
            #[trigger] triple_views(r@).contains(t) <==> (complete_triple(t) && binding_views(
                bindings@,
            ).contains(t)),
{
    let mut r: Vec<ProducedTriple> = Vec::new();
    let mut i: usize = 0;
    while i < bindings.len()
        invariant
            i <= bindings@.len(),
            triple_views(r@).no_duplicates(),
            forall|t: TripleView|
                #[trigger] triple_views(r@).contains(t) <==> (complete_triple(t) && binding_views(
                    bindings@.take(i as int),
                ).contains(t)),
        decreases bindings@.len() - i,
    {
        let row = &bindings[i];
        let t = ProducedTriple {
            subject: String::from_str(row.0.as_str()),
            predicate: String::from_str(row.1.as_str()),
            object: String::from_str(row.2.as_str()),
        };
        let ghost before = r@;
        let ghost bv_old = binding_views(bindings@.take(i as int));
        let ghost bv_new = binding_views(bindings@.take(i + 1));
        assert(bv_new =~= bv_old.push(t@));
        let complete = !row.0.as_str().is_empty() && !row.1.as_str().is_empty() && !row.2.as_str().is_empty();
        if complete && !contains_triple(&r, &t) {
            r.push(t);
            proof {
                assert(triple_views(r@) =~= triple_views(before).push(t@));
                assert forall|a: int, b: int| 0 <= a < b < triple_views(r@).len() implies triple_views(r@)[a]
                    != triple_views(r@)[b] by {
                    if b == before.len() {
                        assert(triple_views(before).contains(triple_views(r@)[a]));
                    } else {
                        assert(triple_views(before)[a] == triple_views(r@)[a]);
                        assert(triple_views(before)[b] == triple_views(r@)[b]);
                    }
                }
                assert forall|x: TripleView| #[trigger] triple_views(r@).contains(x) <==> (complete_triple(x)
                    && bv_new.contains(x)) by {
                    if triple_views(r@).contains(x) {
                        let j = choose|j: int| 0 <= j < triple_views(r@).len() && triple_views(r@)[j] == x;
                        if j < before.len() {
                            assert(triple_views(before)[j] == x);
                            assert(triple_views(before).contains(x));
                            let m = choose|m: int| 0 <= m < bv_old.len() && bv_old[m] == x;
                            assert(bv_new[m] == x);
                        } else {
                            assert(bv_new[i as int] == x);
                        }
                    }
                    if complete_triple(x) && bv_new.contains(x) {
                        let m = choose|m: int| 0 <= m < bv_new.len() && bv_new[m] == x;
                        if m < i {
                            assert(bv_old[m] == x);
                            assert(bv_old.contains(x));
                            assert(triple_views(before).contains(x));
                            let j = choose|j: int| 0 <= j < triple_views(before).len() && triple_views(before)[j] == x;
                            assert(triple_views(r@)[j] == x);
                        } else {
                            assert(triple_views(r@)[before.len() as int] == x);
                        }
                    }
                }
            }
        } else {
            proof {
                assert forall|x: TripleView| #[trigger] triple_views(r@).contains(x) <==> (complete_triple(x)
                    && bv_new.contains(x)) by {
                    if triple_views(r@).contains(x) {
                        let m = choose|m: int| 0 <= m < bv_old.len() && bv_old[m] == x;
                        assert(bv_new[m] == x);
                    }
                    if complete_triple(x) && bv_new.contains(x) {
                        let m = choose|m: int| 0 <= m < bv_new.len() && bv_new[m] == x;
                        if m < i {
                            assert(bv_old[m] == x);
                            assert(bv_old.contains(x));
                        } else {
                            assert(x == t@);
                        }
                    }
                }
            }
        }
        i = i + 1;
    }
    assert(bindings@.take(bindings@.len() as int) =~= bindings@);
    r
}

/// The triples of `x` that are not in `y`, in the order of `x`.
pub fn triples_minus(x: &Vec<ProducedTriple>, y: &Vec<ProducedTriple>) -> (r: Vec<ProducedTriple>)
    ensures
        forall|t: TripleView|
            #[trigger] triple_views(r@).contains(t) <==> (triple_views(x@).contains(t)
                && !triple_views(y@).contains(t)),
        triple_views(x@).no_duplicates() ==> triple_views(r@).no_duplicates(),
{
    let mut r: Vec<ProducedTriple> = Vec::new();
    let mut i: usize = 0;
    while i < x.len()
        invariant
            i <= x@.len(),
            triple_views(x@).no_duplicates() ==> triple_views(r@).no_duplicates(),
            forall|t: TripleView|
                #[trigger] triple_views(r@).contains(t) <==> (triple_views(x@.take(i as int)).contains(t)
                    && !triple_views(y@).contains(t)),
        decreases x@.len() - i,
    {
        let ghost before = r@;
        let ghost xv_old = triple_views(x@.take(i as int));
        let ghost xv_new = triple_views(x@.take(i + 1));
        assert(xv_new =~= xv_old.push(x@[i as int]@));
        if !contains_triple(y, &x[i]) {
            r.push(x[i].copy());
            proof {
                assert(triple_views(r@) =~= triple_views(before).push(x@[i as int]@));
                if triple_views(x@).no_duplicates() {
                    assert forall|a: int, b: int| 0 <= a < b < triple_views(r@).len() implies triple_views(
                        r@,
                    )[a] != triple_views(r@)[b] by {
                        if b == before.len() {
                            let v = triple_views(r@)[a];
                            assert(triple_views(before)[a] == v);
                            assert(triple_views(before).contains(v));
                            assert(xv_old.contains(v));
                            let m = choose|m: int| 0 <= m < xv_old.len() && xv_old[m] == v;
                            assert(triple_views(x@)[m] == v);
                            assert(triple_views(x@)[i as int] == x@[i as int]@);
                        } else {
                            assert(triple_views(before)[a] == triple_views(r@)[a]);
                            assert(triple_views(before)[b] == triple_views(r@)[b]);
                        }
                    }
                }
                assert forall|t: TripleView| #[trigger] triple_views(r@).contains(t) <==> (xv_new.contains(t)
                    && !triple_views(y@).contains(t)) by {
                    if triple_views(r@).contains(t) {
                        let j = choose|j: int| 0 <= j < triple_views(r@).len() && triple_views(r@)[j] == t;
                        if j < before.len() {
                            assert(triple_views(before)[j] == t);
                            assert(triple_views(before).contains(t));
                            let m = choose|m: int| 0 <= m < xv_old.len() && xv_old[m] == t;
                            assert(xv_new[m] == t);
                        } else {
                            assert(xv_new[i as int] == t);
                        }
                    }
                    if xv_new.contains(t) && !triple_views(y@).contains(t) {
                        let m = choose|m: int| 0 <= m < xv_new.len() && xv_new[m] == t;
                        if m < i {
                            assert(xv_old[m] == t);
                            assert(xv_old.contains(t));
                            assert(triple_views(before).contains(t));
                            let j = choose|j: int| 0 <= j < triple_views(before).len() && triple_views(before)[j] == t;
                            assert(triple_views(r@)[j] == t);
                        } else {
                            assert(triple_views(r@)[before.len() as int] == t);
                        }
                    }
                }
            }
        } else {
            proof {
                assert forall|t: TripleView| #[trigger] triple_views(r@).contains(t) <==> (xv_new.contains(t)
                    && !triple_views(y@).contains(t)) by {
                    if triple_views(r@).contains(t) {
                        let m = choose|m: int| 0 <= m < xv_old.len() && xv_old[m] == t;
                        assert(xv_new[m] == t);
                    }
                    if xv_new.contains(t) && !triple_views(y@).contains(t) {
                        let m = choose|m: int| 0 <= m < xv_new.len() && xv_new[m] == t;
                        if m < i {
                            assert(xv_old[m] == t);
                            assert(xv_old.contains(t));
                        }
                    }
                }
            }
        }
        i = i + 1;
    }
    assert(x@.take(x@.len() as int) =~= x@);
    r
}

// ---------------------------------------------------------------------------
// Differences between evaluations
// ---------------------------------------------------------------------------

/// Triples a rule produces now that it did not produce before.
pub open spec fn asserted(current: Seq<TripleView>, previous: Seq<TripleView>) -> Set<TripleView> {
    current.to_set().difference(previous.to_set())
}

/// Triples a rule produced before that it no longer produces.
pub open spec fn retracted(current: Seq<TripleView>, previous: Seq<TripleView>) -> Set<TripleView> {
    previous.to_set().difference(current.to_set())
}

/// The predicate of group membership.
pub open spec fn has_member_predicate() -> Seq<char> {
    "https://picloud.local/ontology#hasMember"@
}

/// A membership change as (group, member, added).
pub type MembershipView = (Seq<char>, Seq<char>, bool);

/// The membership changes that a sequence of triples announces: each
/// `hasMember` triple, in order, as (subject, object, `added`).
pub open spec fn membership_events(ts: Seq<TripleView>, added: bool) -> Seq<MembershipView>
    decreases ts.len(),
{
    if ts.len() == 0 {
        Seq::empty()
    } else {
        let rest = membership_events(ts.drop_last(), added);
        let t = ts.last();
        if t.1 == has_member_predicate() {
            rest.push((t.0, t.2, added))
        } else {
            rest
        }
    }
}

/// A group gained or lost a member.
#[derive(Debug)]
pub struct MembershipChange {
    pub group_iri: String,
    pub member_iri: String,
    /// `true` for "added", `false` for "removed".
    pub added: bool,
}

impl View for MembershipChange {
    type V = MembershipView;

    open spec fn view(&self) -> MembershipView {
        (self.group_iri@, self.member_iri@, self.added)
    }
}

impl MembershipChange {
    /// The `action` a GroupMembershipChanged event carries.
    pub fn action(&self) -> (r: &'static str)
        ensures
            r@ == if self.added { "added"@ } else { "removed"@ },
    {
        if self.added {
            "added"
        } else {
            "removed"
        }
    }
}

/// The texts of a sequence of membership changes.
pub open spec fn membership_views(v: Seq<MembershipChange>) -> Seq<MembershipView> {
    v.map_values(|m: MembershipChange| m@)
}

fn push_membership(ts: &Vec<ProducedTriple>, added: bool, out: &mut Vec<MembershipChange>)
    ensures
        membership_views(final(out)@) == membership_views(old(out)@) + membership_events(
            triple_views(ts@),
            added,
        ),
{
    let ghost start = membership_views(out@);
    let mut i: usize = 0;
    while i < ts.len()
        invariant
            i <= ts@.len(),
            membership_views(out@) == start + membership_events(triple_views(ts@.take(i as int)), added),
        decreases ts@.len() - i,
    {
        let ghost before = membership_views(out@);
        assert(triple_views(ts@.take(i + 1)).drop_last() =~= triple_views(ts@.take(i as int)));
        assert(triple_views(ts@.take(i + 1)).last() == ts@[i as int]@);
        if str_eq(ts[i].predicate.as_str(), "https://picloud.local/ontology#hasMember") {
            out.push(
                MembershipChange {
                    group_iri: String::from_str(ts[i].subject.as_str()),
                    member_iri: String::from_str(ts[i].object.as_str()),
                    added,
                },
            );
            assert(membership_views(out@) =~= before.push((ts@[i as int]@.0, ts@[i as int]@.2, added)));
        }
        i = i + 1;
    }
    assert(ts@.take(ts@.len() as int) =~= ts@);
}

/// What one evaluation of a rule found.
#[derive(Debug)]
pub struct RuleEvaluation {
    /// Triples produced now and not before.
    pub assertions: Vec<ProducedTriple>,
    /// Triples produced before and not now.
    pub retractions: Vec<ProducedTriple>,
    /// Group membership changes: those of the assertions, then those of the
    /// retractions.
    pub membership: Vec<MembershipChange>,
    /// Whether an evaluation summary is due (something changed).
    pub emit_summary: bool,
}

// ---------------------------------------------------------------------------
// Rules
// ---------------------------------------------------------------------------

/// The texts of a rule.
pub struct RuleModel {
    pub iri: Seq<char>,
    pub name: Seq<char>,
    pub scope: Seq<char>,
    pub trigger: Seq<char>,
    pub trigger_events: Seq<Seq<char>>,
    pub reconciliation: bool,
    pub construct_query: Seq<char>,
}

/// A loaded inference rule ready for evaluation.
#[derive(Debug)]
pub struct LoadedRule {
    /// IRI of the rule resource.
    pub iri: String,
    /// Human-readable name.
    pub name: String,
    /// Scope: "platform" or a product name.
    pub scope: String,
    /// Trigger mode.
    pub trigger: String,
    /// Event types that trigger this rule.
    pub trigger_events: Vec<String>,
    /// Whether to run on the reconciliation schedule.
    pub reconciliation: bool,
    /// The SPARQL CONSTRUCT query.
    pub construct_query: String,
}

/// The texts of a sequence of strings.
pub open spec fn string_views(v: Seq<String>) -> Seq<Seq<char>> {
    v.map_values(|x: String| x@)
}

impl View for LoadedRule {
    type V = RuleModel;

    open spec fn view(&self) -> RuleModel {
        RuleModel {
            iri: self.iri@,
            name: self.name@,
            scope: self.scope@,
            trigger: self.trigger@,
            trigger_events: string_views(self.trigger_events@),
            reconciliation: self.reconciliation,
            construct_query: self.construct_query@,
        }
    }
}

impl LoadedRule {
    /// A copy of this rule.
    pub fn copy(&self) -> (r: LoadedRule)
        ensures
            r@ == self@,
    {
        let mut events: Vec<String> = Vec::new();
        let mut i: usize = 0;
        while i < self.trigger_events.len()
            invariant
                i <= self.trigger_events@.len(),
                string_views(events@) == string_views(self.trigger_events@.take(i as int)),
            decreases self.trigger_events@.len() - i,
        {
            let ghost before = events@;
            assert(string_views(before).len() == i);
            assert(before.len() == i);
            events.push(String::from_str(self.trigger_events[i].as_str()));
            assert(events@.len() == i + 1);
            assert forall|j: int| 0 <= j < i + 1 implies string_views(events@)[j] == string_views(
                self.trigger_events@.take(i + 1),
            )[j] by {
                if j < i {
                    assert(string_views(before)[j] == string_views(self.trigger_events@.take(i as int))[j]);
                }
            }
            assert(string_views(events@) =~= string_views(self.trigger_events@.take(i + 1)));
            i = i + 1;
        }
        assert(self.trigger_events@.take(self.trigger_events@.len() as int) =~= self.trigger_events@);
        LoadedRule {
            iri: String::from_str(self.iri.as_str()),
            name: String::from_str(self.name.as_str()),
            scope: String::from_str(self.scope.as_str()),
            trigger: String::from_str(self.trigger.as_str()),
            trigger_events: events,
            reconciliation: self.reconciliation,
            construct_query: String::from_str(self.construct_query.as_str()),
        }
    }
}

/// The texts of a sequence of rules.
pub open spec fn rule_views(v: Seq<LoadedRule>) -> Seq<RuleModel> {
    v.map_values(|r: LoadedRule| r@)
}

/// Is the rule evaluated when an event of type `event_type` arrives?
pub open spec fn is_triggered_by(m: RuleModel, event_type: Seq<char>) -> bool {
    m.trigger == "event"@ && m.trigger_events.contains(event_type)
}

/// The engine's own event types, which never trigger rules.
pub open spec fn is_engine_event_type(t: Seq<char>) -> bool {
    t == "InferenceRuleEvaluated"@ || t == "ReconciliationCompleted"@ || t
        == "GroupMembershipChanged"@
}

/// Is `event_type` one the engine itself emits (and so skips)?
pub fn is_engine_event(event_type: &str) -> (r: bool)
    ensures
        r == is_engine_event_type(event_type@),
{
    str_eq(event_type, "InferenceRuleEvaluated") || str_eq(event_type, "ReconciliationCompleted")
        || str_eq(event_type, "GroupMembershipChanged")
}

/// The indices, in increasing order, of the rules that satisfy `pred`.
pub open spec fn indices_where(rules: Seq<RuleModel>, pred: spec_fn(RuleModel) -> bool) -> Seq<int>
    decreases rules.len(),
{
    if rules.len() == 0 {
        Seq::empty()
    } else {
        let rest = indices_where(rules.drop_last(), pred);
        if pred(rules.last()) {
            rest.push(rules.len() - 1)
        } else {
            rest
        }
    }
}

/// The usize indices as integers.
pub open spec fn index_ints(v: Seq<usize>) -> Seq<int> {
    v.map_values(|i: usize| i as int)
}

/// The rules, stored triples per rule and the evaluation logic of the
/// inference engine.
pub struct InferenceEngine {
    rules: Vec<LoadedRule>,
    previous: Vec<(String, Vec<ProducedTriple>)>,
}

impl InferenceEngine {
    /// The registered rules, in registration order.
    pub closed spec fn rules(&self) -> Seq<RuleModel> {
        rule_views(self.rules@)
    }

    /// Does the engine hold triples of the rule `iri`?
    pub closed spec fn has_previous(&self, iri: Seq<char>) -> bool {
        exists|i: int| 0 <= i < self.previous@.len() && (#[trigger] self.previous@[i]).0@ == iri
    }

    /// The triples the rule `iri` produced at its last evaluation (none if
    /// it was never evaluated).
    pub closed spec fn previous_of(&self, iri: Seq<char>) -> Seq<TripleView> {
        if self.has_previous(iri) {
            let i = choose|i: int| 0 <= i < self.previous@.len() && (#[trigger] self.previous@[i]).0@ == iri;
            triple_views(self.previous@[i].1@)
        } else {
            Seq::empty()
        }
    }

    /// One entry per rule, each entry without repeated triples.
    pub closed spec fn wf(&self) -> bool {
        &&& forall|i: int, j: int|
            0 <= i < j < self.previous@.len() ==> (#[trigger] self.previous@[i]).0@ != (
            #[trigger] self.previous@[j]).0@
        &&& forall|i: int|
            0 <= i < self.previous@.len() ==> triple_views((#[trigger] self.previous@[i]).1@).no_duplicates()
    }

    /// An engine with no rules and no stored triples.
    pub fn new() -> (e: InferenceEngine)
        ensures
            e.wf(),
            e.rules() == Seq::<RuleModel>::empty(),
            forall|iri: Seq<char>| e.previous_of(iri) == Seq::<TripleView>::empty(),
    {
        let e = InferenceEngine { rules: Vec::new(), previous: Vec::new() };
        assert(e.rules() =~= Seq::<RuleModel>::empty());
        e
    }

    /// The rule at `i`.
    pub fn rule(&self, i: usize) -> (r: &LoadedRule)
        requires
            i < self.rules().len(),
        ensures
            r@ == self.rules()[i as int],
    {
        &self.rules[i]
    }

    /// The number of registered rules.
    pub fn rule_count(&self) -> (n: usize)
        ensures
            n == self.rules().len(),
    {
        self.rules.len()
    }

    /// Register a rule, replacing any rule with the same IRI.
    pub fn register_rule(&mut self, rule: LoadedRule)
        ensures
            final(self).rules() == old(self).rules().filter(|m: RuleModel| m.iri != rule@.iri).push(rule@),
            forall|iri: Seq<char>| final(self).previous_of(iri) == old(self).previous_of(iri),
            old(self).wf() ==> final(self).wf(),
    {
        let ghost old_rules = self.rules();
        let ghost pred = |m: RuleModel| m.iri != rule@.iri;
        let mut kept: Vec<LoadedRule> = Vec::new();
        let mut i: usize = 0;
        while i < self.rules.len()
            invariant
                i <= self.rules@.len(),
                old_rules == rule_views(self.rules@),
                pred == (|m: RuleModel| m.iri != rule@.iri),
                rule_views(kept@) == old_rules.take(i as int).filter(pred),
            decreases self.rules@.len() - i,
        {
            proof {
                reveal(Seq::filter);
                assert(old_rules.take(i + 1).drop_last() =~= old_rules.take(i as int));
                assert(old_rules.take(i + 1).last() == self.rules@[i as int]@);
            }
            if !str_eq(self.rules[i].iri.as_str(), rule.iri.as_str()) {
                let ghost before = rule_views(kept@);
                kept.push(self.rules[i].copy());
                assert(rule_views(kept@) =~= before.push(self.rules@[i as int]@));
            }
            i = i + 1;
        }
        assert(old_rules.take(old_rules.len() as int) =~= old_rules);
        let ghost filtered = rule_views(kept@);
        kept.push(rule);
        assert(rule_views(kept@) =~= filtered.push(rule@));
        self.rules = kept;
        assert forall|iri: Seq<char>| self.previous_of(iri) == old(self).previous_of(iri) by {
            assert(self.previous@ == old(self).previous@);
        }
    }

    /// The rules that an event of type `event_type` triggers, by index.
    pub fn triggered_rules(&self, event_type: &str) -> (r: Vec<usize>)
        ensures
            index_ints(r@) == indices_where(self.rules(), |m: RuleModel| is_triggered_by(m, event_type@)),
    {
        let ghost pred = |m: RuleModel| is_triggered_by(m, event_type@);
        let mut r: Vec<usize> = Vec::new();
        let mut i: usize = 0;
        while i < self.rules.len()
            invariant
                i <= self.rules@.len(),
                pred == (|m: RuleModel| is_triggered_by(m, event_type@)),
                index_ints(r@) == indices_where(self.rules().take(i as int), pred),
            decreases self.rules@.len() - i,
        {
            let ghost rs = self.rules().take(i + 1);
            assert(rs.drop_last() =~= self.rules().take(i as int));
            assert(rs.last() == self.rules@[i as int]@);
            let rule = &self.rules[i];
            let mut listed = false;
            let mut k: usize = 0;
            while k < rule.trigger_events.len()
                invariant
                    k <= rule.trigger_events@.len(),
                    listed <==> string_views(rule.trigger_events@.take(k as int)).contains(event_type@),
                decreases rule.trigger_events@.len() - k,
            {
                let ghost ev = string_views(rule.trigger_events@.take(k + 1));
                assert(ev =~= string_views(rule.trigger_events@.take(k as int)).push(rule.trigger_events@[k as int]@));
                if str_eq(rule.trigger_events[k].as_str(), event_type) {
                    proof {
                        assert(ev[k as int] == event_type@);
                    }
                    listed = true;
                } else {
                    proof {
                        let prev = string_views(rule.trigger_events@.take(k as int));
                        if ev.contains(event_type@) {
                            let m = choose|m: int| 0 <= m < ev.len() && ev[m] == event_type@;
                            assert(prev[m] == event_type@);
                        }
                        if prev.contains(event_type@) {
                            let m = choose|m: int| 0 <= m < prev.len() && prev[m] == event_type@;
                            assert(ev[m] == event_type@);
                        }
                    }
                }
                k = k + 1;
            }
            assert(rule.trigger_events@.take(rule.trigger_events@.len() as int) =~= rule.trigger_events@);
            if str_eq(rule.trigger.as_str(), "event") && listed {
                let ghost before = index_ints(r@);
                r.push(i);
                assert(index_ints(r@) =~= before.push(i as int));
            }
            assert(rs.len() - 1 == i);
            i = i + 1;
        }
        assert(self.rules().take(self.rules@.len() as int) =~= self.rules());
        r
    }

    /// The rules run on the reconciliation schedule, by index.
    pub fn reconciliation_rules(&self) -> (r: Vec<usize>)
        ensures
            index_ints(r@) == indices_where(self.rules(), |m: RuleModel| m.reconciliation),
    {
        let ghost pred = |m: RuleModel| m.reconciliation;
        let mut r: Vec<usize> = Vec::new();
        let mut i: usize = 0;
        while i < self.rules.len()
            invariant
                i <= self.rules@.len(),
                pred == (|m: RuleModel| m.reconciliation),
                index_ints(r@) == indices_where(self.rules().take(i as int), pred),
            decreases self.rules@.len() - i,
        {
            let ghost rs = self.rules().take(i + 1);
            assert(rs.drop_last() =~= self.rules().take(i as int));
            assert(rs.last() == self.rules@[i as int]@);
            if self.rules[i].reconciliation {
                let ghost before = index_ints(r@);
                r.push(i);
                assert(index_ints(r@) =~= before.push(i as int));
            }
            i = i + 1;
        }
        assert(self.rules().take(self.rules@.len() as int) =~= self.rules());
        r
    }
}

impl InferenceEngine {
    proof fn lemma_previous_at(&self, k: int)
        requires
            self.wf(),
            0 <= k < self.previous@.len(),
        ensures
            self.has_previous(self.previous@[k].0@),
            self.previous_of(self.previous@[k].0@) == triple_views(self.previous@[k].1@),
    {
        let iri = self.previous@[k].0@;
        assert(self.has_previous(iri));
        let i = choose|i: int| 0 <= i < self.previous@.len() && (#[trigger] self.previous@[i]).0@ == iri;
        if i != k {
            if i < k {
                assert(self.previous@[i].0@ != self.previous@[k].0@);
            } else {
                assert(self.previous@[k].0@ != self.previous@[i].0@);
            }
        }
    }

    fn find_previous(&self, iri: &str) -> (r: Option<usize>)
        ensures
            match r {
                Some(k) => k < self.previous@.len() && self.previous@[k as int].0@ == iri@,
                None => !self.has_previous(iri@),
            },
    {
        let mut k: usize = 0;
        while k < self.previous.len()
            invariant
                k <= self.previous@.len(),
                forall|j: int| 0 <= j < k ==> self.previous@[j].0@ != iri@,
            decreases self.previous@.len() - k,
        {
            if str_eq(self.previous[k].0.as_str(), iri) {
                return Some(k);
            }
            k = k + 1;
        }
        None
    }

    /// Evaluate the rule `rule_iri` on the triples it produces now: the
    /// assertions and retractions against its last evaluation, the group
    /// membership changes among them, and whether a summary is due; the
    /// current triples are kept for the next evaluation.
    pub fn evaluate_rule(&mut self, rule_iri: &str, current: Vec<ProducedTriple>) -> (r: RuleEvaluation)
        requires
            old(self).wf(),
            triple_views(current@).no_duplicates(),
        ensures
            final(self).wf(),
            final(self).rules() == old(self).rules(),
            final(self).previous_of(rule_iri@) == triple_views(current@),
            forall|iri: Seq<char>|
                iri != rule_iri@ ==> #[trigger] final(self).previous_of(iri) == old(self).previous_of(iri),
            triple_views(r.assertions@).no_duplicates(),
            triple_views(r.retractions@).no_duplicates(),
            triple_views(r.assertions@).to_set() == asserted(triple_views(current@), old(self).previous_of(rule_iri@)),
            triple_views(r.retractions@).to_set() == retracted(triple_views(current@), old(self).previous_of(rule_iri@)),
            r.assertions@.len() == asserted(triple_views(current@), old(self).previous_of(rule_iri@)).len(),
            r.retractions@.len() == retracted(triple_views(current@), old(self).previous_of(rule_iri@)).len(),
            membership_views(r.membership@) == membership_events(triple_views(r.assertions@), true)
                + membership_events(triple_views(r.retractions@), false),
            r.emit_summary == (r.assertions@.len() > 0 || r.retractions@.len() > 0),
    {
        let pos = self.find_previous(rule_iri);
        let empty: Vec<ProducedTriple> = Vec::new();
        let ghost prev_views = old(self).previous_of(rule_iri@);
        let (assertions, retractions) = match pos {
            Some(k) => {
                proof {
                    self.lemma_previous_at(k as int);
                }
                let prev = &self.previous[k].1;
                (triples_minus(&current, prev), triples_minus(prev, &current))
            },
            None => {
                assert(triple_views(empty@) =~= Seq::<TripleView>::empty());
                (triples_minus(&current, &empty), triples_minus(&empty, &current))
            },
        };
        proof {
            let cv = triple_views(current@);
            let av = triple_views(assertions@);
            let rv = triple_views(retractions@);
            assert(prev_views.no_duplicates()) by {
                if pos is Some {
                    let k = pos->0;
                    assert(triple_views(self.previous@[k as int].1@).no_duplicates());
                }
            }
            assert(av.to_set() =~= asserted(cv, prev_views));
            assert(rv.to_set() =~= retracted(cv, prev_views));
            av.unique_seq_to_set();
            rv.unique_seq_to_set();
        }
        let mut membership: Vec<MembershipChange> = Vec::new();
        assert(membership_views(membership@) =~= Seq::<MembershipView>::empty());
        push_membership(&assertions, true, &mut membership);
        push_membership(&retractions, false, &mut membership);
        let emit_summary = assertions.len() > 0 || retractions.len() > 0;
        let ghost old_prev = self.previous@;
        match pos {
            Some(k) => {
                self.previous.set(k, (String::from_str(rule_iri), current));
            },
            None => {
                self.previous.push((String::from_str(rule_iri), current));
            },
        }
        proof {
            let n = self.previous@.len();
            let k: int = match pos {
                Some(k) => k as int,
                None => old_prev.len() as int,
            };
            assert forall|i: int, j: int| 0 <= i < j < n implies (#[trigger] self.previous@[i]).0@ != (
            #[trigger] self.previous@[j]).0@ by {
                if i != k && j != k {
                    assert(old_prev[i] == self.previous@[i]);
                    assert(old_prev[j] == self.previous@[j]);
                } else if i == k {
                    assert(old_prev[j] == self.previous@[j]);
                    if pos is None {
                        assert(false);
                    }
                } else {
                    assert(old_prev[i] == self.previous@[i]);
                    if pos is None {
                        assert(old(self).has_previous(old_prev[i].0@) ==> true);
                        assert(old_prev[i].0@ != rule_iri@);
                    }
                }
            }
            assert forall|i: int| 0 <= i < n implies triple_views((#[trigger] self.previous@[i]).1@).no_duplicates() by {
                if i != k {
                    assert(old_prev[i] == self.previous@[i]);
                }
            }
            assert(self.wf());
            self.lemma_previous_at(k);
            assert forall|iri: Seq<char>| iri != rule_iri@ implies #[trigger] self.previous_of(iri) == old(self).previous_of(iri) by {
                if old(self).has_previous(iri) {
                    let i = choose|i: int| 0 <= i < old_prev.len() && (#[trigger] old_prev[i]).0@ == iri;
                    old(self).lemma_previous_at(i);
                    assert(i != k);
                    assert(self.previous@[i] == old_prev[i]);
                    self.lemma_previous_at(i);
                } else {
                    if self.has_previous(iri) {
                        let i = choose|i: int| 0 <= i < n && (#[trigger] self.previous@[i]).0@ == iri;
                        assert(i != k);
                        assert(self.previous@[i] == old_prev[i]);
                        assert(old(self).has_previous(iri));
                    }
                }
            }
        }
        RuleEvaluation { assertions, retractions, membership, emit_summary }
    }
}

/// An event an evaluation asks its caller to append.
#[derive(Debug)]
pub enum InferenceEvent {
    /// GroupMembershipChanged for one `hasMember` triple.
    MembershipChanged(MembershipChange),
    /// InferenceRuleEvaluated with the rule and its counts.
    RuleEvaluated { rule_iri: String, assertions: usize, retractions: usize },
}

/// The value of an [`InferenceEvent`].
pub enum InferenceEventView {
    MembershipChanged(MembershipView),
    RuleEvaluated(Seq<char>, nat, nat),
}

impl View for InferenceEvent {
    type V = InferenceEventView;

    open spec fn view(&self) -> InferenceEventView {
        match self {
            InferenceEvent::MembershipChanged(m) => InferenceEventView::MembershipChanged(m@),
            InferenceEvent::RuleEvaluated { rule_iri, assertions, retractions } => InferenceEventView::RuleEvaluated(
                rule_iri@,
                *assertions as nat,
                *retractions as nat,
            ),
        }
    }
}

/// The values of a sequence of events.
pub open spec fn event_views(v: Seq<InferenceEvent>) -> Seq<InferenceEventView> {
    v.map_values(|e: InferenceEvent| e@)
}

/// The events of one evaluation, in order: a membership change for each
/// `hasMember` triple asserted, then retracted, then the evaluation summary
/// when something changed.
pub open spec fn evaluation_events(
    rule_iri: Seq<char>,
    membership: Seq<MembershipView>,
    assertions: nat,
    retractions: nat,
) -> Seq<InferenceEventView> {
    membership.map_values(|m: MembershipView| InferenceEventView::MembershipChanged(m)) + if assertions > 0 || retractions > 0 {
        seq![InferenceEventView::RuleEvaluated(rule_iri, assertions, retractions)]
    } else {
        Seq::empty()
    }
}

/// The events to append for an evaluation of `rule_iri`.
pub fn events_of_evaluation(rule_iri: &str, evaluation: &RuleEvaluation) -> (r: Vec<InferenceEvent>)
    requires
        evaluation.emit_summary == (evaluation.assertions@.len() > 0 || evaluation.retractions@.len() > 0),
    ensures
        event_views(r@) == evaluation_events(
            rule_iri@,
            membership_views(evaluation.membership@),
            evaluation.assertions@.len(),
            evaluation.retractions@.len(),
        ),
{
    let mut r: Vec<InferenceEvent> = Vec::new();
    let ghost mv = membership_views(evaluation.membership@);
    let mut i: usize = 0;
    while i < evaluation.membership.len()
        invariant
            i <= evaluation.membership@.len(),
            mv == membership_views(evaluation.membership@),
            event_views(r@) == mv.take(i as int).map_values(|m: MembershipView| InferenceEventView::MembershipChanged(m)),
        decreases evaluation.membership@.len() - i,
    {
        let m = &evaluation.membership[i];
        let ghost before = event_views(r@);
        r.push(
            InferenceEvent::MembershipChanged(
                MembershipChange {
                    group_iri: String::from_str(m.group_iri.as_str()),
                    member_iri: String::from_str(m.member_iri.as_str()),
                    added: m.added,
                },
            ),
        );
        assert(event_views(r@) =~= before.push(InferenceEventView::MembershipChanged(mv[i as int])));
        assert(mv.take(i + 1).map_values(|m: MembershipView| InferenceEventView::MembershipChanged(m)) =~= mv.take(
            i as int,
        ).map_values(|m: MembershipView| InferenceEventView::MembershipChanged(m)).push(InferenceEventView::MembershipChanged(mv[i as int])));
        i = i + 1;
    }
    assert(mv.take(mv.len() as int) =~= mv);
    if evaluation.emit_summary {
        r.push(
            InferenceEvent::RuleEvaluated {
                rule_iri: String::from_str(rule_iri),
                assertions: evaluation.assertions.len(),
                retractions: evaluation.retractions.len(),
            },
        );
    }
    assert(event_views(r@) =~= evaluation_events(
        rule_iri@,
        mv,
        evaluation.assertions@.len(),
        evaluation.retractions@.len(),
    ));
    r
}

impl InferenceEngine {
    /// What the engine does with the outcome of a rule's query: a failed
    /// query is handed back with nothing stored and no event; a result's
    /// complete rows are the rule's current triples, evaluated as by
    /// [`InferenceEngine::evaluate_rule`], with the events to append.
    pub fn apply_query_result(
        &mut self,
        rule_iri: &str,
        result: Result<Vec<(String, String, String)>, String>,
    ) -> (r: Result<(RuleEvaluation, Vec<InferenceEvent>), String>)
        requires
            old(self).wf(),
        ensures
            final(self).wf(),
            final(self).rules() == old(self).rules(),
            match result {
                Err(e) => r matches Err(e2) && e2@ == e@ && *final(self) == *old(self),
                Ok(rows) => r matches Ok((ev, events)) && {
                    let current = Set::new(|t: TripleView| complete_triple(t) && binding_views(rows@).contains(t));
                    &&& final(self).previous_of(rule_iri@).to_set() == current
                    &&& final(self).previous_of(rule_iri@).no_duplicates()
                    &&& forall|iri: Seq<char>|
                        iri != rule_iri@ ==> #[trigger] final(self).previous_of(iri) == old(self).previous_of(iri)
                    &&& triple_views(ev.assertions@).no_duplicates()
                    &&& triple_views(ev.retractions@).no_duplicates()
                    &&& triple_views(ev.assertions@).to_set() == current.difference(old(self).previous_of(rule_iri@).to_set())
                    &&& triple_views(ev.retractions@).to_set() == old(self).previous_of(rule_iri@).to_set().difference(current)
                    &&& membership_views(ev.membership@) == membership_events(triple_views(ev.assertions@), true)
                        + membership_events(triple_views(ev.retractions@), false)
                    &&& ev.emit_summary == (ev.assertions@.len() > 0 || ev.retractions@.len() > 0)
                    &&& event_views(events@) == evaluation_events(
                        rule_iri@,
                        membership_views(ev.membership@),
                        ev.assertions@.len(),
                        ev.retractions@.len(),
                    )
                },
            },
    {
        match result {
            Err(e) => Err(e),
            Ok(rows) => {
                let current = triples_from_bindings(&rows);
                let ghost cv = triple_views(current@);
                let ev = self.evaluate_rule(rule_iri, current);
                let events = events_of_evaluation(rule_iri, &ev);
                assert(cv.to_set() =~= Set::new(|t: TripleView| complete_triple(t) && binding_views(rows@).contains(t)));
                Ok((ev, events))
            },
        }
    }
}

// ---------------------------------------------------------------------------
// Reconciliation
// ---------------------------------------------------------------------------

/// Totals of one reconciliation pass.
#[derive(Debug, Clone, Copy, PartialEq, Eq)]
pub struct ReconciliationSummary {
    /// Rules whose evaluation succeeded.
    pub rules_evaluated: usize,
    /// Assertions over those rules.
    pub total_assertions: usize,
    /// Retractions over those rules.
    pub total_retractions: usize,
}

/// (evaluated, assertions, retractions) over the outcomes of a pass; a
/// failed evaluation (`None`) counts for nothing.
pub open spec fn reconciliation_totals(results: Seq<Option<(usize, usize)>>) -> (nat, nat, nat)
    decreases results.len(),
{
    if results.len() == 0 {
        (0, 0, 0)
    } else {
        let t = reconciliation_totals(results.drop_last());
        match results.last() {
            Some((a, r)) => (t.0 + 1, t.1 + a as nat, t.2 + r as nat),
            None => t,
        }
    }
}

proof fn lemma_totals_monotone(results: Seq<Option<(usize, usize)>>, k: int)
    requires
        0 <= k <= results.len(),
    ensures
        reconciliation_totals(results.take(k)).0 <= reconciliation_totals(results).0,
        reconciliation_totals(results.take(k)).1 <= reconciliation_totals(results).1,
        reconciliation_totals(results.take(k)).2 <= reconciliation_totals(results).2,
    decreases results.len() - k,
{
    if k < results.len() {
        lemma_totals_monotone(results, k + 1);
        assert(results.take(k + 1).drop_last() =~= results.take(k));
    } else {
        assert(results.take(k) =~= results);
    }
}

/// Sum up a reconciliation pass: the number of rules evaluated and the
/// totals of their assertions and retractions.
pub fn reconciliation_summary(results: &Vec<Option<(usize, usize)>>) -> (s: ReconciliationSummary)
    requires
        reconciliation_totals(results@).1 <= usize::MAX,
        reconciliation_totals(results@).2 <= usize::MAX,
    ensures
        s.rules_evaluated == reconciliation_totals(results@).0,
        s.total_assertions == reconciliation_totals(results@).1,
        s.total_retractions == reconciliation_totals(results@).2,
{
    let mut s = ReconciliationSummary { rules_evaluated: 0, total_assertions: 0, total_retractions: 0 };
    let mut i: usize = 0;
    while i < results.len()
        invariant
            i <= results@.len(),
            reconciliation_totals(results@).1 <= usize::MAX,
            reconciliation_totals(results@).2 <= usize::MAX,
            s.rules_evaluated == reconciliation_totals(results@.take(i as int)).0,
            s.rules_evaluated <= i,
            s.total_assertions == reconciliation_totals(results@.take(i as int)).1,
            s.total_retractions == reconciliation_totals(results@.take(i as int)).2,
        decreases results@.len() - i,
    {
        proof {
            assert(results@.take(i + 1).drop_last() =~= results@.take(i as int));
            lemma_totals_monotone(results@, i + 1);
        }
        match results[i] {
            Some((a, r)) => {
                s.rules_evaluated = s.rules_evaluated + 1;
                s.total_assertions = s.total_assertions + a;
                s.total_retractions = s.total_retractions + r;
            },
            None => {},
        }
        i = i + 1;
    }
    assert(results@.take(results@.len() as int) =~= results@);
    s
}

// ---------------------------------------------------------------------------
// Laws
// ---------------------------------------------------------------------------

/// Evaluating a rule that produces the same triples as last time asserts
/// and retracts nothing.
pub proof fn law_same_result_is_quiet(triples: Seq<TripleView>)
    ensures
        asserted(triples, triples) == Set::<TripleView>::empty(),
        retracted(triples, triples) == Set::<TripleView>::empty(),
{
    assert(asserted(triples, triples) =~= Set::<TripleView>::empty());
    assert(retracted(triples, triples) =~= Set::<TripleView>::empty());
}

/// No triple is both asserted and retracted, and applying the changes to
/// the previous triples gives the current ones.
pub proof fn law_changes_rebuild_current(current: Seq<TripleView>, previous: Seq<TripleView>)
    ensures
        asserted(current, previous).disjoint(retracted(current, previous)),
        previous.to_set().difference(retracted(current, previous)).union(asserted(current, previous))
            == current.to_set(),
{
    assert(previous.to_set().difference(retracted(current, previous)).union(asserted(current, previous))
        =~= current.to_set());
}

/// After a rule is registered, it is the only registered rule with its IRI.
pub proof fn law_register_replaces(rules: Seq<RuleModel>, rule: RuleModel)
    ensures
        ({
            let after = rules.filter(|m: RuleModel| m.iri != rule.iri).push(rule);
            &&& after.last() == rule
            &&& forall|i: int| 0 <= i < after.len() - 1 ==> (#[trigger] after[i]).iri != rule.iri
        }),
{
    let pred = |m: RuleModel| m.iri != rule.iri;
    let f = rules.filter(pred);
    assert forall|i: int| 0 <= i < f.len() implies (#[trigger] f[i]).iri != rule.iri by {
        rules.lemma_filter_pred(pred, i);
    }
}

} // verus!
