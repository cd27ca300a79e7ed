//! Decisions of the HTTP server: content negotiation, bearer tokens and
//! audiences, OCI registry paths and scopes, SPARQL query forms, event
//! schema versions, config key screening and the legacy ingress table.

use vstd::prelude::*;

use crate::text::{all_ws, is_ws, join_with, lemma_split_join, lemma_trim_ws_around, lemma_before_first_absent, lemma_split_on_absent, lemma_trim_unchanged, before_first, before_first_chars, chars_of, contains_chars, contains_seq, ends_with, ends_with_chars, find_chars, find_seq, hex_lower, hex_lower_string, parse_u32, parse_u64_chars, spec_to_lowercase, split_chars, split_on, starts_with, starts_with_chars, str_eq, string_of, sub_chars, to_lowercase, trim, trim_chars, trim_end_str, trim_end_str_len};

verus! {

broadcast use vstd::string::group_string_axioms;

// ---------------------------------------------------------------------------
// Content negotiation
// ---------------------------------------------------------------------------

/// Supported response content types.
#[derive(Debug, Clone, Copy, PartialEq, Eq, Structural)]
pub enum ContentType {
    Json,
    Turtle,
    JsonLd,
}

/// The media range of one comma-separated part of an Accept header: the
/// trimmed text before its first `;`.
pub open spec fn media_of(part: Seq<char>) -> Seq<char> {
    trim(before_first(trim(part), ';'))
}

/// The content type of the first part, in order, whose media range is a
/// known type; JSON when none is.
pub open spec fn first_known_media(parts: Seq<Seq<char>>) -> ContentType
    decreases parts.len(),
{
    if parts.len() == 0 {
        ContentType::Json
    } else if media_of(parts[0]) == "text/turtle"@ {
        ContentType::Turtle
    } else if media_of(parts[0]) == "application/ld+json"@ {
        ContentType::JsonLd
    } else if media_of(parts[0]) == "application/json"@ {
        ContentType::Json
    } else {
        first_known_media(parts.drop_first())
    }
}

/// The content type an Accept header value selects.
pub open spec fn content_type_of_accept(accept: Seq<char>) -> ContentType {
    first_known_media(split_on(accept, ','))
}

/// The Content-Type header value of each type.
pub open spec fn header_value_of(ct: ContentType) -> Seq<char> {
    match ct {
        ContentType::Json => "application/json"@,
        ContentType::Turtle => "text/turtle"@,
        ContentType::JsonLd => "application/ld+json"@,
    }
}

impl ContentType {
    /// Parse an `Accept` header value: the first comma-separated media range
    /// that names a known type wins (quality parameters are ignored); JSON
    /// when none does.
    pub fn from_accept(accept: &str) -> (ct: ContentType)
        ensures
            ct == content_type_of_accept(accept@),
    {
        let v = chars_of(accept);
        let parts = split_chars(v.as_slice(), ',');
        let ghost ps = split_on(accept@, ',');
        let mut i: usize = 0;
        assert(ps.skip(0) =~= ps);
        while i < parts.len()
            invariant
                i <= parts@.len() == ps.len(),
                ps == split_on(accept@, ','),
                forall|k: int| 0 <= k < parts@.len() ==> #[trigger] parts@[k]@ == ps[k],
                first_known_media(ps) == first_known_media(ps.skip(i as int)),
            decreases parts@.len() - i,
        {
            let t = trim_chars(parts[i].as_slice());
            let b = before_first_chars(t.as_slice(), ';');
            let media = trim_chars(b.as_slice());
            let ghost rest = ps.skip(i as int);
            assert(rest[0] == ps[i as int]);
            assert(media@ == media_of(rest[0]));
            let ms = string_of(media.as_slice());
            if str_eq(ms.as_str(), "text/turtle") {
                assert(first_known_media(rest) == ContentType::Turtle);
                return ContentType::Turtle;
            } else if str_eq(ms.as_str(), "application/ld+json") {
                assert(first_known_media(rest) == ContentType::JsonLd);
                return ContentType::JsonLd;
            } else if str_eq(ms.as_str(), "application/json") {
                assert(first_known_media(rest) == ContentType::Json);
                return ContentType::Json;
            }
            assert(rest.drop_first() =~= ps.skip(i + 1));
            i = i + 1;
        }
        assert(ps.skip(i as int) =~= Seq::<Seq<char>>::empty());
        ContentType::Json
    }

    /// The HTTP Content-Type header value for this type.
    pub fn as_header_value(&self) -> (h: &'static str)
        ensures
            h@ == header_value_of(*self),
    {
        match self {
            ContentType::Json => "application/json",
            ContentType::Turtle => "text/turtle",
            ContentType::JsonLd => "application/ld+json",
        }
    }
}

/// Negotiating on a type's own header value gives that type back.
pub proof fn law_header_value_negotiates_back(c: ContentType)
    ensures
        content_type_of_accept(header_value_of(c)) == c,
{
    reveal_strlit("application/json");
    reveal_strlit("text/turtle");
    reveal_strlit("application/ld+json");
    let h = header_value_of(c);
    lemma_split_on_absent(h, ',');
    lemma_before_first_absent(h, ';');
    lemma_trim_unchanged(h);
    assert(media_of(h) == h);
    assert(seq![h].drop_first() =~= Seq::<Seq<char>>::empty());
}

/// Lists of parts whose media ranges agree select the same type.
proof fn lemma_first_known_same(a: Seq<Seq<char>>, b: Seq<Seq<char>>)
    requires
        a.len() == b.len(),
        forall|j: int| 0 <= j < a.len() ==> media_of(#[trigger] a[j]) == media_of(b[j]),
    ensures
        first_known_media(a) == first_known_media(b),
    decreases a.len(),
{
    if a.len() > 0 {
        assert(media_of(a[0]) == media_of(b[0]));
        assert forall|j: int| 0 <= j < a.drop_first().len() implies media_of(#[trigger] a.drop_first()[j]) == media_of(b.drop_first()[j]) by {
            assert(a.drop_first()[j] == a[j + 1]);
            assert(b.drop_first()[j] == b[j + 1]);
        }
        lemma_first_known_same(a.drop_first(), b.drop_first());
    }
}

/// Whitespace around one comma-separated media range of an Accept header
/// does not change the negotiated type: `text/html, text/turtle` selects
/// what `text/html,text/turtle` does.
pub proof fn law_accept_ignores_whitespace_around_ranges(parts: Seq<Seq<char>>, i: int, w1: Seq<char>, w2: Seq<char>)
    requires
        0 <= i < parts.len(),
        forall|a: int, b: int| 0 <= a < parts.len() && 0 <= b < parts[a].len() ==> #[trigger] parts[a][b] != ',',
        all_ws(w1),
        all_ws(w2),
    ensures
        content_type_of_accept(join_with(parts.update(i, w1 + parts[i] + w2), ',')) == content_type_of_accept(join_with(parts, ',')),
{
    let q = parts.update(i, w1 + parts[i] + w2);
    assert forall|a: int, b: int| 0 <= a < q.len() && 0 <= b < q[a].len() implies #[trigger] q[a][b] != ',' by {
        if a == i {
            let x = w1 + parts[i] + w2;
            if b < w1.len() {
                assert(x[b] == w1[b]);
                assert(is_ws(w1[b]));
            } else if b < w1.len() + parts[i].len() {
                assert(x[b] == parts[i][b - w1.len()]);
            } else {
                assert(x[b] == w2[b - w1.len() - parts[i].len()]);
                assert(is_ws(w2[b - w1.len() - parts[i].len()]));
            }
        }
    }
    lemma_split_join(parts, ',');
    lemma_split_join(q, ',');
    assert forall|j: int| 0 <= j < q.len() implies media_of(#[trigger] q[j]) == media_of(parts[j]) by {
        if j == i {
            lemma_trim_ws_around(w1, parts[i], w2);
        }
    }
    lemma_first_known_same(q, parts);
}

/// A known type's header value, with any whitespace around it, selects
/// that type.
pub proof fn law_padded_header_value_negotiates(c: ContentType, w1: Seq<char>, w2: Seq<char>)
    requires
        all_ws(w1),
        all_ws(w2),
    ensures
        content_type_of_accept(w1 + header_value_of(c) + w2) == c,
{
    reveal_strlit("application/json");
    reveal_strlit("text/turtle");
    reveal_strlit("application/ld+json");
    let parts = seq![header_value_of(c)];
    law_accept_ignores_whitespace_around_ranges(parts, 0, w1, w2);
    law_header_value_negotiates_back(c);
    assert(parts.update(0, w1 + parts[0] + w2) =~= seq![w1 + header_value_of(c) + w2]);
}

/// The first part of an Accept header that names a known type, with any
/// whitespace around it, decides the type whatever parts follow.
pub proof fn law_accept_first_known_part_wins(c: ContentType, w1: Seq<char>, w2: Seq<char>, rest: Seq<Seq<char>>)
    requires
        all_ws(w1),
        all_ws(w2),
        forall|a: int, b: int| 0 <= a < rest.len() && 0 <= b < rest[a].len() ==> #[trigger] rest[a][b] != ',',
    ensures
        content_type_of_accept(join_with(seq![w1 + header_value_of(c) + w2] + rest, ',')) == c,
{
    reveal_strlit("application/json");
    reveal_strlit("text/turtle");
    reveal_strlit("application/ld+json");
    let h = header_value_of(c);
    let parts = seq![h] + rest;
    assert forall|a: int, b: int| 0 <= a < parts.len() && 0 <= b < parts[a].len() implies #[trigger] parts[a][b] != ',' by {
        if a > 0 {
            assert(parts[a] == rest[a - 1]);
        }
    }
    law_accept_ignores_whitespace_around_ranges(parts, 0, w1, w2);
    assert(parts.update(0, w1 + parts[0] + w2) =~= seq![w1 + h + w2] + rest);
    lemma_split_join(parts, ',');
    lemma_before_first_absent(h, ';');
    lemma_trim_unchanged(h);
    assert(media_of(parts[0]) == h);
}

/// A part whose media range names no known type is passed over: the
/// parts after it decide.
pub proof fn law_accept_unknown_part_passed_over(u: Seq<char>, rest: Seq<Seq<char>>)
    requires
        rest.len() >= 1,
        forall|j: int| 0 <= j < u.len() ==> #[trigger] u[j] != ',',
        forall|a: int, b: int| 0 <= a < rest.len() && 0 <= b < rest[a].len() ==> #[trigger] rest[a][b] != ',',
        forall|c: ContentType| media_of(u) != #[trigger] header_value_of(c),
    ensures
        content_type_of_accept(join_with(seq![u] + rest, ',')) == content_type_of_accept(join_with(rest, ',')),
{
    let parts = seq![u] + rest;
    assert forall|a: int, b: int| 0 <= a < parts.len() && 0 <= b < parts[a].len() implies #[trigger] parts[a][b] != ',' by {
        if a > 0 {
            assert(parts[a] == rest[a - 1]);
        } else {
            assert(parts[0] == u);
        }
    }
    lemma_split_join(parts, ',');
    lemma_split_join(rest, ',');
    assert(media_of(u) != header_value_of(ContentType::Json));
    assert(media_of(u) != header_value_of(ContentType::Turtle));
    assert(media_of(u) != header_value_of(ContentType::JsonLd));
    assert(parts.drop_first() =~= rest);
}

/// The negotiated type of a request: its Accept header when it has one that
/// is valid text, JSON otherwise.
pub fn content_type_from_accept_header(accept: Option<&str>) -> (ct: ContentType)
    ensures
        ct == match accept {
            Some(a) => content_type_of_accept(a@),
            None => ContentType::Json,
        },
{
    match accept {
        Some(a) => ContentType::from_accept(a),
        None => ContentType::Json,
    }
}

// ---------------------------------------------------------------------------
// Legacy ingress table
// ---------------------------------------------------------------------------

/// An ingress route mapping a URL path prefix to a local workload port.
#[derive(Debug, Clone)]
pub struct IngressRoute {
    /// The URL path prefix that triggers this route.
    pub path: String,
    /// The local port to proxy requests to.
    pub target_port: u16,
    /// The product that owns this ingress route.
    pub product: String,
}

/// Route `i` of `routes` matches `path`.
pub open spec fn legacy_matches(routes: Seq<IngressRoute>, path: Seq<char>, i: int) -> bool {
    0 <= i < routes.len() && starts_with(path, routes[i].path@)
}

/// Route `i` is the one a longest-prefix search picks: it matches, no
/// matching route has a longer prefix, and every later matching route has a
/// shorter one (the last of equally long prefixes wins).
pub open spec fn legacy_best(routes: Seq<IngressRoute>, path: Seq<char>, i: int) -> bool {
    &&& legacy_matches(routes, path, i)
    &&& forall|j: int| legacy_matches(routes, path, j) ==> routes[j].path@.len() <= routes[i].path@.len()
    &&& forall|j: int| i < j && legacy_matches(routes, path, j) ==> routes[j].path@.len() < routes[i].path@.len()
}

/// Legacy ingress lookup by path prefix only: the index of the route with
/// the longest matching prefix, `None` when no prefix matches.
pub fn legacy_ingress_lookup(routes: &Vec<IngressRoute>, path: &str) -> (r: Option<usize>)
    ensures
        match r {
            Some(i) => legacy_best(routes@, path@, i as int),
            None => forall|j: int| !legacy_matches(routes@, path@, j),
        },
{
    let pv = chars_of(path);
    let mut best: Option<usize> = None;
    let mut i: usize = 0;
    while i < routes.len()
        invariant
            i <= routes@.len(),
            pv@ == path@,
            match best {
                Some(b) => b < i && legacy_matches(routes@, path@, b as int) && (forall|j: int|
                    0 <= j < i && legacy_matches(routes@, path@, j) ==> routes@[j].path@.len()
                        <= routes@[b as int].path@.len()) && (forall|j: int|
                    b < j < i && legacy_matches(routes@, path@, j) ==> routes@[j].path@.len()
                        < routes@[b as int].path@.len()),
                None => forall|j: int| 0 <= j < i ==> !legacy_matches(routes@, path@, j),
            },
        decreases routes@.len() - i,
    {
        let pre = chars_of(routes[i].path.as_str());
        if starts_with_chars(pv.as_slice(), pre.as_slice()) {
            match best {
                Some(b) => {
                    let bl = chars_of(routes[b].path.as_str());
                    if pre.len() >= bl.len() {
                        best = Some(i);
                    }
                },
                None => {
                    best = Some(i);
                },
            }
        }
        i = i + 1;
    }
    best
}

/// An ingress route as texts: (path prefix, port, product).
pub type IngressRouteView = (Seq<char>, u16, Seq<char>);

impl View for IngressRoute {
    type V = IngressRouteView;

    open spec fn view(&self) -> IngressRouteView {
        (self.path@, self.target_port, self.product@)
    }
}

/// The legacy routing table: ingress routes keyed by the IRI of the
/// ingress resource that declared them.
pub struct IngressTable {
    keys: Vec<String>,
    routes: Vec<IngressRoute>,
}

/// The texts of a sequence of strings.
pub open spec fn key_views(v: Seq<String>) -> Seq<Seq<char>> {
    v.map_values(|x: String| x@)
}

/// The position of `k` among `keys`.
pub open spec fn key_index(keys: Seq<String>, k: Seq<char>) -> int {
    choose|i: int| 0 <= i < keys.len() && (#[trigger] keys[i])@ == k
}

fn key_position(keys: &Vec<String>, key: &str) -> (r: Option<usize>)
    ensures
        match r {
            Some(j) => j < keys@.len() && keys@[j as int]@ == key@,
            None => forall|m: int| 0 <= m < keys@.len() ==> keys@[m]@ != key@,
        },
{
    let mut j: usize = 0;
    while j < keys.len()
        invariant
            j <= keys@.len(),
            forall|m: int| 0 <= m < j ==> keys@[m]@ != key@,
        decreases keys@.len() - j,
    {
        if str_eq(keys[j].as_str(), key) {
            return Some(j);
        }
        j = j + 1;
    }
    None
}

/// A new, empty ingress routing table.
pub fn new_ingress_table() -> (t: IngressTable)
    ensures
        t.wf(),
        t.entries() == Map::<Seq<char>, IngressRouteView>::empty(),
{
    IngressTable::new()
}

impl IngressTable {
    /// The routes, by ingress IRI.
    pub closed spec fn entries(&self) -> Map<Seq<char>, IngressRouteView> {
        Map::new(
            |k: Seq<char>| key_views(self.keys@).contains(k),
            |k: Seq<char>| self.routes@[key_index(self.keys@, k)]@,
        )
    }

    /// One route per key.
    pub closed spec fn wf(&self) -> bool {
        &&& self.keys@.len() == self.routes@.len()
        &&& key_views(self.keys@).no_duplicates()
    }

    /// The routes, in the order the lookup visits them.
    pub closed spec fn route_seq(&self) -> Seq<IngressRoute> {
        self.routes@
    }

    proof fn lemma_entry_at(&self, j: int)
        requires
            self.wf(),
            0 <= j < self.keys@.len(),
        ensures
            self.entries().contains_key(self.keys@[j]@),
            self.entries()[self.keys@[j]@] == self.routes@[j]@,
    {
        let k = self.keys@[j]@;
        assert(key_views(self.keys@)[j] == k);
        let i = key_index(self.keys@, k);
        assert(0 <= i < self.keys@.len() && self.keys@[i]@ == k);
        if i != j {
            assert(key_views(self.keys@)[i] == k);
            assert(false);
        }
        assert(key_views(self.keys@).contains(k));
    }

    /// An empty table.
    pub fn new() -> (t: IngressTable)
        ensures
            t.wf(),
            t.entries() == Map::<Seq<char>, IngressRouteView>::empty(),
    {
        let t = IngressTable { keys: Vec::new(), routes: Vec::new() };
        assert(t.entries() =~= Map::<Seq<char>, IngressRouteView>::empty());
        t
    }

    /// Is `route` the route of some ingress?
    pub open spec fn has_route(&self, route: IngressRouteView) -> bool {
        exists|k: Seq<char>| #[trigger] self.entries().contains_key(k) && self.entries()[k] == route
    }

    /// The routes the lookup visits are the table's routes, one per entry.
    pub proof fn lemma_route_seq(&self)
        requires
            self.wf(),
        ensures
            self.route_seq().len() == self.entries().dom().len(),
            forall|j: int| 0 <= j < self.route_seq().len() ==> self.has_route((#[trigger] self.route_seq()[j])@),
    {
        assert(self.entries().dom() =~= key_views(self.keys@).to_set());
        key_views(self.keys@).unique_seq_to_set();
        assert forall|j: int| 0 <= j < self.route_seq().len() implies self.has_route((#[trigger] self.route_seq()[j])@) by {
            self.lemma_entry_at(j);
            let k = self.keys@[j]@;
            assert(self.entries().contains_key(k) && self.entries()[k] == self.route_seq()[j]@);
        }
    }

    /// Set the route of an ingress, replacing any it had.
    pub fn insert(&mut self, key: String, route: IngressRoute)
        requires
            old(self).wf(),
        ensures
            final(self).wf(),
            final(self).entries() == old(self).entries().insert(key@, route@),
    {
        let ghost k0 = key@;
        let ghost r0 = route@;
        let ghost old_k = self.keys@;
        let ghost old_r = self.routes@;
        let pos = key_position(&self.keys, key.as_str());
        let found = pos.is_some();
        let j: usize = match pos {
            Some(j) => j,
            None => self.keys.len(),
        };
        if found {
            self.keys.set(j, key);
            self.routes.set(j, route);
            assert(key_views(self.keys@) =~= key_views(old_k));
        } else {
            self.keys.push(key);
            self.routes.push(route);
            proof {
                assert(key_views(self.keys@) =~= key_views(old_k).push(k0));
                assert forall|a: int, b: int| 0 <= a < b < key_views(self.keys@).len() implies key_views(self.keys@)[a]
                    != key_views(self.keys@)[b] by {
                    assert(key_views(old_k)[a] == key_views(self.keys@)[a]);
                    if b < old_k.len() {
                        assert(key_views(old_k)[b] == key_views(self.keys@)[b]);
                    }
                }
            }
        }
        proof {
            let nk = self.keys@;
            let nr = self.routes@;
            assert(self.wf());
            self.lemma_entry_at(j as int);
            assert forall|x: Seq<char>| #[trigger] self.entries().contains_key(x) == old(self).entries().insert(k0, r0).contains_key(x) by {
                if self.entries().contains_key(x) {
                    let m = choose|m: int| 0 <= m < key_views(nk).len() && key_views(nk)[m] == x;
                    if m != j {
                        assert(m < old_k.len());
                        assert(nk[m] == old_k[m]);
                        assert(key_views(old_k)[m] == x);
                    }
                }
                if old(self).entries().contains_key(x) {
                    let m = choose|m: int| 0 <= m < key_views(old_k).len() && key_views(old_k)[m] == x;
                    if m != j {
                        assert(nk[m] == old_k[m]);
                    }
                    assert(key_views(nk)[m] == x || m == j);
                }
            }
            assert forall|x: Seq<char>| #[trigger] self.entries().contains_key(x) implies self.entries()[x] == old(self).entries().insert(k0, r0)[x] by {
                if x != k0 {
                    let m = choose|m: int| 0 <= m < key_views(nk).len() && key_views(nk)[m] == x;
                    assert(m != j);
                    assert(nk[m] == old_k[m]);
                    assert(nr[m] == old_r[m]);
                    self.lemma_entry_at(m);
                    old(self).lemma_entry_at(m);
                }
            }
            assert(self.entries() =~= old(self).entries().insert(k0, r0));
        }
    }

    /// The number of routes.
    pub fn len(&self) -> (n: usize)
        requires
            self.wf(),
        ensures
            n == self.entries().len(),
    {
        proof {
            assert(self.entries().dom() =~= key_views(self.keys@).to_set());
            key_views(self.keys@).unique_seq_to_set();
        }
        self.keys.len()
    }

    /// The route with the longest path prefix that `path` starts with.
    pub fn lookup(&self, path: &str) -> (r: Option<&IngressRoute>)
        requires
            self.wf(),
        ensures
            match r {
                Some(route) => exists|i: int| legacy_best(self.route_seq(), path@, i) && self.route_seq()[i] == *route,
                None => forall|j: int| !legacy_matches(self.route_seq(), path@, j),
            },
    {
        match legacy_ingress_lookup(&self.routes, path) {
            Some(i) => {
                assert(legacy_best(self.route_seq(), path@, i as int) && self.route_seq()[i as int] == self.routes@[i as int]);
                Some(&self.routes[i])
            },
            None => None,
        }
    }

    /// The route of an ingress.
    pub fn get(&self, key: &str) -> (r: Option<&IngressRoute>)
        requires
            self.wf(),
        ensures
            match r {
                Some(route) => self.entries().contains_key(key@) && self.entries()[key@] == route@,
                None => !self.entries().contains_key(key@),
            },
    {
        let mut j: usize = 0;
        while j < self.keys.len()
            invariant
                j <= self.keys@.len(),
                self.wf(),
                forall|m: int| 0 <= m < j ==> self.keys@[m]@ != key@,
            decreases self.keys@.len() - j,
        {
            if str_eq(self.keys[j].as_str(), key) {
                proof {
                    self.lemma_entry_at(j as int);
                }
                return Some(&self.routes[j]);
            }
            j = j + 1;
        }
        proof {
            if self.entries().contains_key(key@) {
                let m = choose|m: int| 0 <= m < key_views(self.keys@).len() && key_views(self.keys@)[m] == key@;
                assert(self.keys@[m]@ == key@);
            }
        }
        None
    }
}

// ---------------------------------------------------------------------------
// Bearer tokens and audiences
// ---------------------------------------------------------------------------

/// The token of an `Authorization: Bearer <token>` header value.
pub open spec fn bearer_token_of(header: Seq<char>) -> Option<Seq<char>> {
    if starts_with(header, "Bearer "@) {
        Some(header.skip(7))
    } else {
        None
    }
}

/// The token carried by an Authorization header value, when it uses the
/// `Bearer ` scheme.
pub fn bearer_token(header: &str) -> (r: Option<String>)
    ensures
        match r {
            Some(t) => bearer_token_of(header@) == Some(t@),
            None => bearer_token_of(header@) is None,
        },
{
    let v = chars_of(header);
    let pre = chars_of("Bearer ");
    proof {
        reveal_strlit("Bearer ");
    }
    if starts_with_chars(v.as_slice(), pre.as_slice()) {
        let t = sub_chars(v.as_slice(), 7, v.len());
        assert(t@ =~= header@.skip(7));
        Some(string_of(t.as_slice()))
    } else {
        None
    }
}

/// The audiences a token may carry to act on `product`: the product's IRI
/// or the cluster root.
pub open spec fn audience_accepted(aud: Seq<char>, domain: Seq<char>, product: Seq<char>) -> bool {
    aud == "https://"@ + domain + "/products/"@ + product || aud == "https://"@ + domain
}

/// Audience check of a validated token against the product it targets:
/// a token without audience passes; one with an audience passes when it is
/// the product IRI or the cluster root IRI.
pub fn audience_allowed(audience: Option<&str>, domain: &str, product: &str) -> (ok: bool)
    ensures
        ok == match audience {
            Some(a) => audience_accepted(a@, domain@, product@),
            None => true,
        },
{
    match audience {
        None => true,
        Some(a) => {
            let mut expected = String::from_str("https://");
            expected.append(domain);
            expected.append("/products/");
            expected.append(product);
            let mut root = String::from_str("https://");
            root.append(domain);
            proof {
                reveal_strlit("https://");
                reveal_strlit("/products/");
            }
            let e = str_eq(a, expected.as_str());
            let r = str_eq(a, root.as_str());
            e || r
        },
    }
}

// ---------------------------------------------------------------------------
// OCI registry
// ---------------------------------------------------------------------------

/// The identity a token was validated to: the parts the registry checks.
#[derive(Debug, Clone)]
pub struct ValidatedIdentity {
    /// IRI of the identity.
    pub identity_iri: String,
    /// Product the identity belongs to, if any.
    pub product: Option<String>,
    /// Roles granted to the identity.
    pub roles: Vec<String>,
    /// Audience the token was issued for.
    pub audience: Option<String>,
    /// OAuth scopes of the token.
    pub scopes: Vec<String>,
    /// Permissions of the token.
    pub permissions: Vec<String>,
}

/// Some element of `v` holds the characters `x`.
pub open spec fn has_text(v: Seq<String>, x: Seq<char>) -> bool {
    exists|i: int| 0 <= i < v.len() && #[trigger] v[i]@ == x
}

/// The registry accepts `required` for this identity: an admin role, or a
/// scope or permission that is `required` itself or `*`.
pub open spec fn scope_granted(id: ValidatedIdentity, required: Seq<char>) -> bool {
    ||| has_text(id.roles@, "admin"@)
    ||| has_text(id.scopes@, required)
    ||| has_text(id.scopes@, "*"@)
    ||| has_text(id.permissions@, required)
    ||| has_text(id.permissions@, "*"@)
}

/// Does some element of `v` equal `x`?
fn any_text(v: &Vec<String>, x: &str) -> (r: bool)
    ensures
        r == has_text(v@, x@),
{
    let mut i: usize = 0;
    while i < v.len()
        invariant
            i <= v@.len(),
            forall|k: int| 0 <= k < i ==> v@[k]@ != x@,
        decreases v@.len() - i,
    {
        if str_eq(v[i].as_str(), x) {
            return true;
        }
        i = i + 1;
    }
    false
}

/// Check that a validated identity may use the registry with scope
/// `required` (pull, push or delete). Admins bypass the check; otherwise a
/// scope or a permission must be `required` or `*`. The error is the
/// message of the 403 answer.
pub fn require_oci_scope(identity: &ValidatedIdentity, required: &str) -> (r: Result<(), String>)
    ensures
        r is Ok <==> scope_granted(*identity, required@),
        r matches Err(m) ==> m@ == "insufficient scope: "@ + required@ + " required"@,
{
    if any_text(&identity.roles, "admin") {
        return Ok(());
    }
    if any_text(&identity.scopes, required) || any_text(&identity.scopes, "*") {
        return Ok(());
    }
    if any_text(&identity.permissions, required) || any_text(&identity.permissions, "*") {
        return Ok(());
    }
    let mut m = String::from_str("insufficient scope: ");
    m.append(required);
    m.append(" required");
    Err(m)
}

/// `(repository, reference)` of an OCI path split at `/segment/`; `None`
/// when the marker is absent or either side is empty.
pub open spec fn oci_split(path: Seq<char>, segment: Seq<char>) -> Option<(Seq<char>, Seq<char>)> {
    let marker = "/"@ + segment + "/"@;
    match find_seq(path, marker) {
        Some(i) => {
            let repo = path.take(i);
            let reference = path.skip(i + marker.len());
            if repo.len() == 0 || reference.len() == 0 {
                None
            } else {
                Some((repo, reference))
            }
        },
        None => None,
    }
}

/// Split an OCI Distribution path into (repository, reference),
/// e.g. "photo-app/api/manifests/v1.0" gives ("photo-app/api", "v1.0").
pub fn split_oci_path(path: &str, segment: &str) -> (r: Option<(String, String)>)
    ensures
        match r {
            Some((a, b)) => oci_split(path@, segment@) == Some((a@, b@)),
            None => oci_split(path@, segment@) is None,
        },
{
    let v = chars_of(path);
    let mut m = String::from_str("/");
    m.append(segment);
    m.append("/");
    let marker = chars_of(m.as_str());
    match find_chars(v.as_slice(), marker.as_slice()) {
        Some(i) => {
            assert(crate::text::occurs_at(v@, marker@, i as int));
            let n = v.len();
            assert(i + marker@.len() <= n);
            let repo = sub_chars(v.as_slice(), 0, i);
            let reference = sub_chars(v.as_slice(), i + marker.len(), v.len());
            assert(repo@ =~= path@.take(i as int));
            assert(reference@ =~= path@.skip(i + marker@.len()));
            if repo.len() == 0 || reference.len() == 0 {
                None
            } else {
                Some((string_of(repo.as_slice()), string_of(reference.as_slice())))
            }
        },
        None => None,
    }
}

/// The requests the registry distinguishes by path.
#[derive(Debug, Clone, PartialEq, Eq)]
pub enum OciRequest {
    /// `{repo}/manifests/{reference}`
    Manifest { repo: String, reference: String },
    /// `{repo}/blobs/{digest}`
    Blob { repo: String, digest: String },
    /// `{repo}/tags/list`
    TagsList { repo: String },
    /// `.../blobs/uploads/...` (upload completion)
    BlobUpload,
    /// `{repo}/blobs/uploads` (start of an upload)
    StartUpload { repo: String },
    /// Anything else
    NotFound,
}

/// Character model of an [`OciRequest`].
pub enum OciRequestModel {
    Manifest { repo: Seq<char>, reference: Seq<char> },
    Blob { repo: Seq<char>, digest: Seq<char> },
    TagsList { repo: Seq<char> },
    BlobUpload,
    StartUpload { repo: Seq<char> },
    NotFound,
}

impl View for OciRequest {
    type V = OciRequestModel;

    open spec fn view(&self) -> OciRequestModel {
        match self {
            OciRequest::Manifest { repo, reference } => OciRequestModel::Manifest { repo: repo@, reference: reference@ },
            OciRequest::Blob { repo, digest } => OciRequestModel::Blob { repo: repo@, digest: digest@ },
            OciRequest::TagsList { repo } => OciRequestModel::TagsList { repo: repo@ },
            OciRequest::BlobUpload => OciRequestModel::BlobUpload,
            OciRequest::StartUpload { repo } => OciRequestModel::StartUpload { repo: repo@ },
            OciRequest::NotFound => OciRequestModel::NotFound,
        }
    }
}

/// What a GET or HEAD on `/v2/{path}` asks for: a manifest, a blob, a tag
/// list, or nothing known.
pub open spec fn oci_read_request(path: Seq<char>) -> OciRequestModel {
    match oci_split(path, "manifests"@) {
        Some((r, x)) => OciRequestModel::Manifest { repo: r, reference: x },
        None => match oci_split(path, "blobs"@) {
            Some((r, d)) => OciRequestModel::Blob { repo: r, digest: d },
            None => if ends_with(path, "/tags/list"@) {
                OciRequestModel::TagsList { repo: trim_end_str(path, "/tags/list"@) }
            } else {
                OciRequestModel::NotFound
            },
        },
    }
}

/// What a PUT on `/v2/{path}` asks for.
pub open spec fn oci_put_request(path: Seq<char>) -> OciRequestModel {
    match oci_split(path, "manifests"@) {
        Some((r, x)) => OciRequestModel::Manifest { repo: r, reference: x },
        None => if contains_seq(path, "/blobs/uploads/"@) {
            OciRequestModel::BlobUpload
        } else {
            OciRequestModel::NotFound
        },
    }
}

/// The repository of an upload-start path: trailing `/`s, then trailing
/// `/blobs/uploads`, then trailing `/`s removed.
pub open spec fn upload_repo(path: Seq<char>) -> Seq<char> {
    trim_end_str(trim_end_str(trim_end_str(path, "/"@), "/blobs/uploads"@), "/"@)
}

/// What a POST on `/v2/{path}` asks for.
pub open spec fn oci_post_request(path: Seq<char>) -> OciRequestModel {
    if ends_with(path, "/blobs/uploads/"@) || ends_with(path, "/blobs/uploads"@) {
        OciRequestModel::StartUpload { repo: upload_repo(path) }
    } else {
        OciRequestModel::NotFound
    }
}

/// What a DELETE on `/v2/{path}` asks for.
pub open spec fn oci_delete_request(path: Seq<char>) -> OciRequestModel {
    match oci_split(path, "manifests"@) {
        Some((r, x)) => OciRequestModel::Manifest { repo: r, reference: x },
        None => OciRequestModel::NotFound,
    }
}

/// `v` with repeated trailing `pat` removed.
fn trim_end_pattern(v: &[char], pat: &str) -> (r: Vec<char>)
    ensures
        r@ == trim_end_str(v@, pat@),
{
    let p = chars_of(pat);
    let n = trim_end_str_len(v, p.as_slice());
    sub_chars(v, 0, n)
}

/// Does `v` end with `pat`?
fn ends_with_str(v: &[char], pat: &str) -> (r: bool)
    ensures
        r == ends_with(v@, pat@),
{
    let p = chars_of(pat);
    ends_with_chars(v, p.as_slice())
}

/// Classify the path of a GET or HEAD under `/v2/`.
pub fn classify_oci_read(path: &str) -> (r: OciRequest)
    ensures
        r@ == oci_read_request(path@),
{
    if let Some((repo, reference)) = split_oci_path(path, "manifests") {
        return OciRequest::Manifest { repo, reference };
    }
    if let Some((repo, digest)) = split_oci_path(path, "blobs") {
        return OciRequest::Blob { repo, digest };
    }
    let v = chars_of(path);
    if ends_with_str(v.as_slice(), "/tags/list") {
        let repo = trim_end_pattern(v.as_slice(), "/tags/list");
        OciRequest::TagsList { repo: string_of(repo.as_slice()) }
    } else {
        OciRequest::NotFound
    }
}

/// Classify the path of a PUT under `/v2/`.
pub fn classify_oci_put(path: &str) -> (r: OciRequest)
    ensures
        r@ == oci_put_request(path@),
{
    if let Some((repo, reference)) = split_oci_path(path, "manifests") {
        return OciRequest::Manifest { repo, reference };
    }
    let v = chars_of(path);
    let pat = chars_of("/blobs/uploads/");
    if contains_chars(v.as_slice(), pat.as_slice()) {
        OciRequest::BlobUpload
    } else {
        OciRequest::NotFound
    }
}

/// Classify the path of a POST under `/v2/`.
pub fn classify_oci_post(path: &str) -> (r: OciRequest)
    ensures
        r@ == oci_post_request(path@),
{
    let v = chars_of(path);
    if ends_with_str(v.as_slice(), "/blobs/uploads/") || ends_with_str(v.as_slice(), "/blobs/uploads") {
        let a = trim_end_pattern(v.as_slice(), "/");
        let b = trim_end_pattern(a.as_slice(), "/blobs/uploads");
        let c = trim_end_pattern(b.as_slice(), "/");
        OciRequest::StartUpload { repo: string_of(c.as_slice()) }
    } else {
        OciRequest::NotFound
    }
}

/// Classify the path of a DELETE under `/v2/`.
pub fn classify_oci_delete(path: &str) -> (r: OciRequest)
    ensures
        r@ == oci_delete_request(path@),
{
    if let Some((repo, reference)) = split_oci_path(path, "manifests") {
        OciRequest::Manifest { repo, reference }
    } else {
        OciRequest::NotFound
    }
}

/// The SHA-256 digest of a byte string, as the `sha2` crate computes it.
pub uninterp spec fn spec_sha256(data: Seq<u8>) -> Seq<u8>;

/// Calls `sha2::Sha256::digest`. Claimed: the result is the fixed function
/// `spec_sha256` of the input bytes, and it is 32 bytes long (the output
/// size of SHA-256). The hash function itself is not restated.
#[verifier::external_body]
fn sha256_digest(data: &[u8]) -> (r: Vec<u8>)
    ensures
        r@ == spec_sha256(data@),
        r@.len() == 32,
{
    <sha2::Sha256 as sha2::Digest>::digest(data).to_vec()
}

/// Lower-case hex SHA-256 digest of `data` (64 characters).
pub fn sha2_hex(data: &[u8]) -> (r: String)
    ensures
        r@ == hex_lower(spec_sha256(data@)),
{
    let d = sha256_digest(data);
    hex_lower_string(d.as_slice())
}

/// The `sha256:<hex>` content digest the registry reports for `data`.
pub fn content_digest(data: &[u8]) -> (r: String)
    ensures
        r@ == "sha256:"@ + hex_lower(spec_sha256(data@)),
{
    let mut r = String::from_str("sha256:");
    let h = sha2_hex(data);
    r.append(h.as_str());
    r
}

// ---------------------------------------------------------------------------
// Request parameters
// ---------------------------------------------------------------------------

/// The schema version of an event-schema path segment: a `u32` in decimal;
/// `None` (a 400 answer) otherwise.
pub fn parse_schema_version(version: &str) -> (r: Option<u32>)
    ensures
        r == parse_u32(version@),
{
    let v = chars_of(version);
    let r = parse_u64_chars(v.as_slice());
    proof {
        let b = crate::text::unsigned_body(version@);
        assert(v@ == version@);
    }
    match r {
        Some(n) => {
            if n <= u32::MAX as u64 {
                Some(n as u32)
            } else {
                None
            }
        },
        None => None,
    }
}

/// Key fragments that mark a config key as a secret.
pub open spec fn sensitive_patterns() -> Seq<Seq<char>> {
    seq!["password"@, "secret"@, "token"@, "api_key"@, "private_key"@, "credential"@]
}

/// A lower-cased config key names a secret: it contains one of the
/// sensitive fragments.
pub open spec fn lowercased_key_is_sensitive(lower: Seq<char>) -> bool {
    exists|i: int| 0 <= i < sensitive_patterns().len() && contains_seq(lower, #[trigger] sensitive_patterns()[i])
}

/// Does an already lower-cased config key name a secret?
pub fn is_sensitive_lowercased_key(lower: &str) -> (r: bool)
    ensures
        r == lowercased_key_is_sensitive(lower@),
        r <==> (contains_seq(lower@, "password"@) || contains_seq(lower@, "secret"@) || contains_seq(lower@, "token"@)
            || contains_seq(lower@, "api_key"@) || contains_seq(lower@, "private_key"@) || contains_seq(lower@, "credential"@)),
{
    proof {
        law_sensitive_fragments(lower@);
    }
    let v = chars_of(lower);
    let pats: [&str; 6] = ["password", "secret", "token", "api_key", "private_key", "credential"];
    let mut i: usize = 0;
    while i < 6
        invariant
            i <= 6,
            v@ == lower@,
            pats@.len() == 6,
            forall|k: int| 0 <= k < 6 ==> #[trigger] pats@[k]@ == sensitive_patterns()[k],
            forall|k: int| 0 <= k < i ==> !contains_seq(lower@, #[trigger] sensitive_patterns()[k]),
        decreases 6 - i,
    {
        let p = chars_of(pats[i]);
        if contains_chars(v.as_slice(), p.as_slice()) {
            return true;
        }
        i = i + 1;
    }
    false
}

/// A lower-cased key is sensitive exactly when it contains one of
/// `password`, `secret`, `token`, `api_key`, `private_key` or
/// `credential`.
pub proof fn law_sensitive_fragments(lower: Seq<char>)
    ensures
        lowercased_key_is_sensitive(lower) <==> (contains_seq(lower, "password"@) || contains_seq(lower, "secret"@)
            || contains_seq(lower, "token"@) || contains_seq(lower, "api_key"@) || contains_seq(lower, "private_key"@)
            || contains_seq(lower, "credential"@)),
{
    let ps = sensitive_patterns();
    assert(ps[0] == "password"@);
    assert(ps[1] == "secret"@);
    assert(ps[2] == "token"@);
    assert(ps[3] == "api_key"@);
    assert(ps[4] == "private_key"@);
    assert(ps[5] == "credential"@);
}

/// Does a config key look like a secret (case-insensitively)? Such keys
/// are refused: they belong in the secrets store.
pub fn is_sensitive_config_key(key: &str) -> (r: bool)
    ensures
        r == lowercased_key_is_sensitive(spec_to_lowercase(key@)),
        r <==> (contains_seq(spec_to_lowercase(key@), "password"@) || contains_seq(spec_to_lowercase(key@), "secret"@)
            || contains_seq(spec_to_lowercase(key@), "token"@) || contains_seq(spec_to_lowercase(key@), "api_key"@)
            || contains_seq(spec_to_lowercase(key@), "private_key"@) || contains_seq(spec_to_lowercase(key@), "credential"@)),
{
    proof {
        law_sensitive_fragments(spec_to_lowercase(key@));
    }
    let lower = to_lowercase(key);
    is_sensitive_lowercased_key(lower.as_str())
}

/// The default HMAC format of a login completion.
pub fn default_hmac_format() -> (r: String)
    ensures
        r@ == "hmac"@,
{
    String::from_str("hmac")
}

/// The default type of a config entry.
pub fn default_config_type_str() -> (r: String)
    ensures
        r@ == "string"@,
{
    String::from_str("string")
}

} // verus!
