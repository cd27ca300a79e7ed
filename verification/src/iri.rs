//! IRI-based content negotiation and routing.
//!
//! Every resource has a dereferenceable IRI. This module maps URL paths to
//! IRI routes and negotiates the response format from the Accept header.

use vstd::prelude::*;

use crate::text::{
    join_with, lemma_nonempty_pieces_keep, lemma_split_join, ends_with, lemma_absent_by_pair, lower_ascii, occurs_at, chars_eq_str, chars_of, contains_chars, contains_seq, nonempty_only, nonempty_pieces, split_chars, spec_to_lowercase, to_lowercase,
    split_on, string_of, sub_chars, trim_char_bounds, trim_end_char, trim_start_char,
};

verus! {

broadcast use vstd::string::group_string_axioms;

/// Supported content types for content negotiation.
#[derive(Debug, Clone, Copy, PartialEq, Eq, Structural)]
pub enum ContentType {
    /// text/turtle: RDF Turtle
    Turtle,
    /// application/ld+json: JSON-LD
    JsonLd,
    /// application/json: plain JSON
    Json,
    /// text/html: HTML
    Html,
}

/// The content type an already lower-cased Accept header asks for.
pub open spec fn content_type_of_lowercased(lower: Seq<char>) -> ContentType {
    if contains_seq(lower, "text/turtle"@) || contains_seq(lower, "application/x-turtle"@) {
        ContentType::Turtle
    } else if contains_seq(lower, "application/ld+json"@) {
        ContentType::JsonLd
    } else if contains_seq(lower, "text/html"@) {
        ContentType::Html
    } else {
        ContentType::Json
    }
}

/// The MIME type string of each content type.
pub open spec fn mime_type_of(ct: ContentType) -> Seq<char> {
    match ct {
        ContentType::Turtle => "text/turtle; charset=utf-8"@,
        ContentType::JsonLd => "application/ld+json; charset=utf-8"@,
        ContentType::Json => "application/json; charset=utf-8"@,
        ContentType::Html => "text/html; charset=utf-8"@,
    }
}

/// Each MIME string is plain lower-case ASCII, ends with the UTF-8 charset
/// parameter, and classifies back to its own content type.
proof fn lemma_mime_type_classifies_back(c: ContentType)
    ensures
        lower_ascii(mime_type_of(c)),
        ends_with(mime_type_of(c), "; charset=utf-8"@),
        content_type_of_lowercased(mime_type_of(c)) == c,
{
    reveal_strlit("text/turtle; charset=utf-8");
    reveal_strlit("application/ld+json; charset=utf-8");
    reveal_strlit("application/json; charset=utf-8");
    reveal_strlit("text/html; charset=utf-8");
    reveal_strlit("; charset=utf-8");
    reveal_strlit("text/turtle");
    reveal_strlit("application/x-turtle");
    reveal_strlit("application/ld+json");
    reveal_strlit("text/html");
    let m = mime_type_of(c);
    assert(m.skip(m.len() - 15) =~= "; charset=utf-8"@);
    match c {
        ContentType::Turtle => {
            assert(occurs_at(m, "text/turtle"@, 0)) by {
                assert(m.subrange(0, 11) =~= "text/turtle"@);
            }
        },
        ContentType::JsonLd => {
            lemma_absent_by_pair(m, "text/turtle"@, 1);
            lemma_absent_by_pair(m, "application/x-turtle"@, 11);
            assert(occurs_at(m, "application/ld+json"@, 0)) by {
                assert(m.subrange(0, 19) =~= "application/ld+json"@);
            }
        },
        ContentType::Json => {
            lemma_absent_by_pair(m, "text/turtle"@, 1);
            lemma_absent_by_pair(m, "application/x-turtle"@, 11);
            lemma_absent_by_pair(m, "application/ld+json"@, 11);
            lemma_absent_by_pair(m, "text/html"@, 1);
        },
        ContentType::Html => {
            lemma_absent_by_pair(m, "text/turtle"@, 6);
            lemma_absent_by_pair(m, "application/x-turtle"@, 0);
            lemma_absent_by_pair(m, "application/ld+json"@, 0);
            assert(occurs_at(m, "text/html"@, 0)) by {
                assert(m.subrange(0, 9) =~= "text/html"@);
            }
        },
    }
}

/// Does the text `v` contain the string `pat`?
fn contains_str(v: &[char], pat: &str) -> (r: bool)
    ensures
        r == contains_seq(v@, pat@),
{
    let p = chars_of(pat);
    contains_chars(v, p.as_slice())
}

impl ContentType {
    /// Classify an Accept header that has already been lower-cased:
    /// Turtle, then JSON-LD, then HTML are looked for as substrings; anything
    /// else is JSON.
    pub fn from_lowercased_accept(lower: &str) -> (ct: ContentType)
        ensures
            ct == content_type_of_lowercased(lower@),
    {
        let v = chars_of(lower);
        if contains_str(v.as_slice(), "text/turtle") || contains_str(v.as_slice(), "application/x-turtle") {
            ContentType::Turtle
        } else if contains_str(v.as_slice(), "application/ld+json") {
            ContentType::JsonLd
        } else if contains_str(v.as_slice(), "text/html") {
            ContentType::Html
        } else {
            ContentType::Json
        }
    }

    /// Parse the Accept header to determine the preferred content type.
    /// The header is lower-cased, then classified.
    /// Negotiating on a type's own MIME string gives that type back.
    pub fn from_accept(accept: &str) -> (ct: ContentType)
        ensures
            ct == content_type_of_lowercased(spec_to_lowercase(accept@)),
            lower_ascii(accept@) ==> ct == content_type_of_lowercased(accept@),
            forall|c: ContentType| #[trigger] mime_type_of(c) == accept@ ==> ct == c,
    {
        proof {
            lemma_mime_type_classifies_back(ContentType::Turtle);
            lemma_mime_type_classifies_back(ContentType::JsonLd);
            lemma_mime_type_classifies_back(ContentType::Json);
            lemma_mime_type_classifies_back(ContentType::Html);
        }
        let lower = to_lowercase(accept);
        ContentType::from_lowercased_accept(lower.as_str())
    }

    /// Return the MIME type string.
    pub fn mime_type(&self) -> (m: &'static str)
        ensures
            m@ == mime_type_of(*self),
            ends_with(m@, "; charset=utf-8"@),
    {
        proof {
            lemma_mime_type_classifies_back(*self);
        }
        match self {
            ContentType::Turtle => "text/turtle; charset=utf-8",
            ContentType::JsonLd => "application/ld+json; charset=utf-8",
            ContentType::Json => "application/json; charset=utf-8",
            ContentType::Html => "text/html; charset=utf-8",
        }
    }
}

/// IRI routes: the set of URL paths the HTTP server handles.
#[derive(Debug, Clone, PartialEq, Eq)]
pub enum IriRoute {
    /// GET /
    ClusterRoot,
    /// GET /nodes/{name}
    Node { name: String },
    /// GET /products/{product}
    Product { product: String },
    /// GET /products/{product}/graph
    ProductGraph { product: String },
    /// GET /products/{product}/ontology
    ProductOntology { product: String },
    /// GET /products/{product}/events
    ProductEvents { product: String },
    /// GET /products/{product}/config
    ProductConfig { product: String },
    /// GET /products/{product}/config/{key}
    ConfigEntry { product: String, key: String },
    /// GET /products/{product}/flags
    ProductFlags { product: String },
    /// GET /products/{product}/flags/{name}
    FeatureFlag { product: String, name: String },
    /// GET /products/{product}/event-store/{store}/{agg_type}/{agg_id}/events
    AggregateStream { product: String, store: String, agg_type: String, agg_id: String },
    /// GET /schemas/events/{type}/{version}
    EventSchema { event_type: String, version: String },
    /// GET /products/{product}/{type}/{name}
    Resource { product: String, resource_type: String, name: String },
    /// No matching route
    NotFound,
}

/// The mathematical value of an [`IriRoute`]: the same variants over
/// character sequences.
pub enum IriRouteModel {
    ClusterRoot,
    Node { name: Seq<char> },
    Product { product: Seq<char> },
    ProductGraph { product: Seq<char> },
    ProductOntology { product: Seq<char> },
    ProductEvents { product: Seq<char> },
    ProductConfig { product: Seq<char> },
    ConfigEntry { product: Seq<char>, key: Seq<char> },
    ProductFlags { product: Seq<char> },
    FeatureFlag { product: Seq<char>, name: Seq<char> },
    AggregateStream { product: Seq<char>, store: Seq<char>, agg_type: Seq<char>, agg_id: Seq<char> },
    EventSchema { event_type: Seq<char>, version: Seq<char> },
    Resource { product: Seq<char>, resource_type: Seq<char>, name: Seq<char> },
    NotFound,
}

impl View for IriRoute {
    type V = IriRouteModel;

    open spec fn view(&self) -> IriRouteModel {
        match self {
            IriRoute::ClusterRoot => IriRouteModel::ClusterRoot,
            IriRoute::Node { name } => IriRouteModel::Node { name: name@ },
            IriRoute::Product { product } => IriRouteModel::Product { product: product@ },
            IriRoute::ProductGraph { product } => IriRouteModel::ProductGraph { product: product@ },
            IriRoute::ProductOntology { product } => IriRouteModel::ProductOntology { product: product@ },
            IriRoute::ProductEvents { product } => IriRouteModel::ProductEvents { product: product@ },
            IriRoute::ProductConfig { product } => IriRouteModel::ProductConfig { product: product@ },
            IriRoute::ConfigEntry { product, key } => IriRouteModel::ConfigEntry { product: product@, key: key@ },
            IriRoute::ProductFlags { product } => IriRouteModel::ProductFlags { product: product@ },
            IriRoute::FeatureFlag { product, name } => IriRouteModel::FeatureFlag { product: product@, name: name@ },
            IriRoute::AggregateStream { product, store, agg_type, agg_id } => IriRouteModel::AggregateStream {
                product: product@,
                store: store@,
                agg_type: agg_type@,
                agg_id: agg_id@,
            },
            IriRoute::EventSchema { event_type, version } => IriRouteModel::EventSchema {
                event_type: event_type@,
                version: version@,
            },
            IriRoute::Resource { product, resource_type, name } => IriRouteModel::Resource {
                product: product@,
                resource_type: resource_type@,
                name: name@,
            },
            IriRoute::NotFound => IriRouteModel::NotFound,
        }
    }
}

/// The non-empty `/`-separated segments of a path, after leading and
/// trailing slashes are trimmed.
pub open spec fn path_segments(path: Seq<char>) -> Seq<Seq<char>> {
    nonempty_pieces(split_on(trim_end_char(trim_start_char(path, '/'), '/'), '/'))
}

/// The route a list of path segments denotes; the first matching pattern wins.
pub open spec fn route_of_segments(s: Seq<Seq<char>>) -> IriRouteModel {
    if s.len() == 0 {
        IriRouteModel::ClusterRoot
    } else if s.len() == 2 && s[0] == "nodes"@ {
        IriRouteModel::Node { name: s[1] }
    } else if s.len() == 2 && s[0] == "products"@ {
        IriRouteModel::Product { product: s[1] }
    } else if s.len() == 3 && s[0] == "products"@ && s[2] == "graph"@ {
        IriRouteModel::ProductGraph { product: s[1] }
    } else if s.len() == 3 && s[0] == "products"@ && s[2] == "ontology"@ {
        IriRouteModel::ProductOntology { product: s[1] }
    } else if s.len() == 3 && s[0] == "products"@ && s[2] == "events"@ {
        IriRouteModel::ProductEvents { product: s[1] }
    } else if s.len() == 3 && s[0] == "products"@ && s[2] == "config"@ {
        IriRouteModel::ProductConfig { product: s[1] }
    } else if s.len() == 4 && s[0] == "products"@ && s[2] == "config"@ {
        IriRouteModel::ConfigEntry { product: s[1], key: s[3] }
    } else if s.len() == 3 && s[0] == "products"@ && s[2] == "flags"@ {
        IriRouteModel::ProductFlags { product: s[1] }
    } else if s.len() == 4 && s[0] == "products"@ && s[2] == "flags"@ {
        IriRouteModel::FeatureFlag { product: s[1], name: s[3] }
    } else if s.len() == 7 && s[0] == "products"@ && s[2] == "event-store"@ && s[6] == "events"@ {
        IriRouteModel::AggregateStream { product: s[1], store: s[3], agg_type: s[4], agg_id: s[5] }
    } else if s.len() == 4 && s[0] == "schemas"@ && s[1] == "events"@ {
        IriRouteModel::EventSchema { event_type: s[2], version: s[3] }
    } else if s.len() == 4 && s[0] == "products"@ {
        IriRouteModel::Resource { product: s[1], resource_type: s[2], name: s[3] }
    } else {
        IriRouteModel::NotFound
    }
}

/// A path segment as a URL names it: non-empty and without `/`.
pub open spec fn plain_segment(s: Seq<char>) -> bool {
    s.len() > 0 && forall|j: int| 0 <= j < s.len() ==> #[trigger] s[j] != '/'
}

/// The first and last characters of pieces joined with `/`.
proof fn lemma_join_ends(parts: Seq<Seq<char>>)
    requires
        parts.len() >= 1,
        forall|i: int| 0 <= i < parts.len() ==> plain_segment(#[trigger] parts[i]),
    ensures
        join_with(parts, '/').len() > 0,
        join_with(parts, '/')[0] == parts[0][0],
        join_with(parts, '/').last() == parts.last().last(),
    decreases parts.len(),
{
    if parts.len() > 1 {
        let d = parts.drop_last();
        assert forall|i: int| 0 <= i < d.len() implies plain_segment(#[trigger] d[i]) by {
            assert(d[i] == parts[i]);
        }
        lemma_join_ends(d);
        assert(plain_segment(parts[parts.len() - 1]));
    } else {
        assert(plain_segment(parts[0]));
    }
}

/// The segments of `/s0/s1/../sn` are `s0, .., sn`.
proof fn lemma_segments_of_path(parts: Seq<Seq<char>>)
    requires
        parts.len() >= 1,
        forall|i: int| 0 <= i < parts.len() ==> plain_segment(#[trigger] parts[i]),
    ensures
        path_segments(seq!['/'] + join_with(parts, '/')) == parts,
{
    let j = join_with(parts, '/');
    lemma_join_ends(parts);
    assert(plain_segment(parts[0]));
    assert(plain_segment(parts.last()));
    let path = seq!['/'] + j;
    assert(path.drop_first() =~= j);
    assert(trim_start_char(path, '/') == trim_start_char(j, '/'));
    assert(trim_start_char(j, '/') == j);
    assert(trim_end_char(j, '/') == j);
    assert forall|i: int, k: int| 0 <= i < parts.len() && 0 <= k < parts[i].len() implies #[trigger] parts[i][k] != '/' by {
        assert(plain_segment(parts[i]));
    }
    lemma_split_join(parts, '/');
    lemma_nonempty_pieces_keep(parts);
}

/// Every documented path pattern routes to its own route, whatever its
/// segments (each non-empty and without `/`): `/`, `/nodes/{n}`,
/// `/products/{p}` and its `graph`, `ontology`, `events`, `config`,
/// `config/{key}`, `flags`, `flags/{name}` and
/// `event-store/{store}/{type}/{id}/events`, `/schemas/events/{type}/{version}`,
/// and `/products/{p}/{type}/{name}` for any other resource type.
pub proof fn law_documented_paths_route(
    n: Seq<char>,
    p: Seq<char>,
    k: Seq<char>,
    st: Seq<char>,
    at: Seq<char>,
    id: Seq<char>,
    t: Seq<char>,
    rt: Seq<char>,
)
    requires
        plain_segment(n),
        plain_segment(p),
        plain_segment(k),
        plain_segment(st),
        plain_segment(at),
        plain_segment(id),
        plain_segment(t),
        plain_segment(rt),
    ensures
        route_of_segments(path_segments("/"@)) == IriRouteModel::ClusterRoot,
        route_of_segments(path_segments("/nodes/"@ + n)) == (IriRouteModel::Node { name: n }),
        route_of_segments(path_segments("/products/"@ + p)) == (IriRouteModel::Product { product: p }),
        route_of_segments(path_segments("/products/"@ + p + "/graph"@)) == (IriRouteModel::ProductGraph { product: p }),
        route_of_segments(path_segments("/products/"@ + p + "/ontology"@)) == (IriRouteModel::ProductOntology { product: p }),
        route_of_segments(path_segments("/products/"@ + p + "/events"@)) == (IriRouteModel::ProductEvents { product: p }),
        route_of_segments(path_segments("/products/"@ + p + "/config"@)) == (IriRouteModel::ProductConfig { product: p }),
        route_of_segments(path_segments("/products/"@ + p + "/config/"@ + k)) == (IriRouteModel::ConfigEntry { product: p, key: k }),
        route_of_segments(path_segments("/products/"@ + p + "/flags"@)) == (IriRouteModel::ProductFlags { product: p }),
        route_of_segments(path_segments("/products/"@ + p + "/flags/"@ + n)) == (IriRouteModel::FeatureFlag { product: p, name: n }),
        route_of_segments(path_segments("/products/"@ + p + "/event-store/"@ + st + "/"@ + at + "/"@ + id + "/events"@))
            == (IriRouteModel::AggregateStream { product: p, store: st, agg_type: at, agg_id: id }),
        route_of_segments(path_segments("/schemas/events/"@ + t + "/"@ + k)) == (IriRouteModel::EventSchema { event_type: t, version: k }),
        rt != "config"@ && rt != "flags"@ ==> route_of_segments(path_segments("/products/"@ + p + "/"@ + rt + "/"@ + n))
            == (IriRouteModel::Resource { product: p, resource_type: rt, name: n }),
{
    reveal_strlit("/");
    reveal_strlit("graph");
    reveal_strlit("/graph");
    reveal_strlit("ontology");
    reveal_strlit("/ontology");
    reveal_strlit("events");
    reveal_strlit("/events");
    reveal_strlit("config");
    reveal_strlit("/config");
    reveal_strlit("/config/");
    reveal_strlit("flags");
    reveal_strlit("/flags");
    reveal_strlit("/flags/");
    assert(plain_segment("graph"@) && "/graph"@ =~= "/"@ + "graph"@);
    assert(plain_segment("ontology"@) && "/ontology"@ =~= "/"@ + "ontology"@);
    assert(plain_segment("events"@) && "/events"@ =~= "/"@ + "events"@);
    assert(plain_segment("config"@) && "/config"@ =~= "/"@ + "config"@);
    assert(plain_segment("flags"@) && "/flags"@ =~= "/"@ + "flags"@);
    assert("/config/"@ =~= "/"@ + "config"@ + "/"@);
    assert("/flags/"@ =~= "/"@ + "flags"@ + "/"@);
    assert("/products/"@ + p + "/"@ + rt + "/"@ + n =~= "/products/"@ + p + ("/"@ + rt + "/"@) + n);
    lemma_route_root_node_product(n, p);
    lemma_route_product_child(p, "graph"@, "/graph"@);
    lemma_route_product_child(p, "ontology"@, "/ontology"@);
    lemma_route_product_child(p, "events"@, "/events"@);
    lemma_route_product_child(p, "config"@, "/config"@);
    lemma_route_product_child(p, "flags"@, "/flags"@);
    lemma_route_product_entry(p, "config"@, "/config/"@, k);
    lemma_route_product_entry(p, "flags"@, "/flags/"@, n);
    lemma_route_product_entry(p, rt, "/"@ + rt + "/"@, n);
    lemma_route_aggregate_stream(p, st, at, id);
    lemma_route_event_schema(t, k);
}

proof fn lemma_route_root_node_product(n: Seq<char>, p: Seq<char>)
    requires
        plain_segment(n),
        plain_segment(p),
    ensures
        route_of_segments(path_segments("/"@)) == IriRouteModel::ClusterRoot,
        route_of_segments(path_segments("/nodes/"@ + n)) == (IriRouteModel::Node { name: n }),
        route_of_segments(path_segments("/products/"@ + p)) == (IriRouteModel::Product { product: p }),
{
    reveal_strlit("/");
    reveal_strlit("/nodes/");
    reveal_strlit("nodes");
    reveal_strlit("/products/");
    reveal_strlit("products");
    let nodes = "nodes"@;
    let products = "products"@;
    assert(plain_segment(nodes));
    assert(plain_segment(products));
    assert(trim_start_char("/"@, '/') == trim_start_char("/"@.drop_first(), '/'));
    assert("/"@.drop_first() =~= Seq::<char>::empty());
    assert(nonempty_pieces(seq![Seq::<char>::empty()]) =~= Seq::<Seq<char>>::empty()) by {
        reveal_with_fuel(nonempty_pieces, 3);
        assert(seq![Seq::<char>::empty()].drop_last() =~= Seq::<Seq<char>>::empty());
    }
    let s = seq![nodes, n];
    lemma_segments_of_path(s);
    assert(seq!['/'] + join_with(s, '/') =~= "/nodes/"@ + n) by {
        reveal_with_fuel(join_with, 3);
        assert(s.drop_last() =~= seq![nodes]);
    }
    let s = seq![products, p];
    lemma_segments_of_path(s);
    assert(seq!['/'] + join_with(s, '/') =~= "/products/"@ + p) by {
        reveal_with_fuel(join_with, 3);
        assert(s.drop_last() =~= seq![products]);
    }
}

/// `/products/{p}` + `tail` (`/` and then `last`) has the segments
/// `products, p, last`, and routes as `route_of_segments` says of them.
proof fn lemma_route_product_child(p: Seq<char>, last: Seq<char>, tail: Seq<char>)
    requires
        plain_segment(p),
        plain_segment(last),
        tail == "/"@ + last,
    ensures
        path_segments("/products/"@ + p + tail) == seq!["products"@, p, last],
        last == "graph"@ ==> route_of_segments(path_segments("/products/"@ + p + tail)) == (IriRouteModel::ProductGraph { product: p }),
        last == "ontology"@ ==> route_of_segments(path_segments("/products/"@ + p + tail)) == (IriRouteModel::ProductOntology { product: p }),
        last == "events"@ ==> route_of_segments(path_segments("/products/"@ + p + tail)) == (IriRouteModel::ProductEvents { product: p }),
        last == "config"@ ==> route_of_segments(path_segments("/products/"@ + p + tail)) == (IriRouteModel::ProductConfig { product: p }),
        last == "flags"@ ==> route_of_segments(path_segments("/products/"@ + p + tail)) == (IriRouteModel::ProductFlags { product: p }),
{
    reveal_strlit("nodes");
    reveal_strlit("products");
    reveal_strlit("graph");
    reveal_strlit("ontology");
    reveal_strlit("events");
    reveal_strlit("config");
    reveal_strlit("flags");
    assert("config"@[0] != "events"@[0]);
    assert("flags"@[0] != "graph"@[0]);
    lemma_three(p, last);
    assert("/products/"@ + p + tail =~= "/products/"@ + p + "/"@ + last);
}

/// `/products/{p}` + `mid` (`/`, `kind`, `/`) + `x` routes by its kind.
proof fn lemma_route_product_entry(p: Seq<char>, kind: Seq<char>, mid: Seq<char>, x: Seq<char>)
    requires
        plain_segment(p),
        plain_segment(kind),
        plain_segment(x),
        mid == "/"@ + kind + "/"@,
    ensures
        kind == "config"@ ==> route_of_segments(path_segments("/products/"@ + p + mid + x)) == (IriRouteModel::ConfigEntry { product: p, key: x }),
        kind == "flags"@ ==> route_of_segments(path_segments("/products/"@ + p + mid + x)) == (IriRouteModel::FeatureFlag { product: p, name: x }),
        kind != "config"@ && kind != "flags"@ ==> route_of_segments(path_segments("/products/"@ + p + mid + x))
            == (IriRouteModel::Resource { product: p, resource_type: kind, name: x }),
{
    reveal_strlit("/");
    reveal_strlit("/products/");
    reveal_strlit("nodes");
    reveal_strlit("products");
    reveal_strlit("schemas");
    reveal_strlit("config");
    reveal_strlit("flags");
    assert(plain_segment("products"@));
    lemma_four("products"@, p, kind, x);
    assert("/products/"@ + p + mid + x =~= "/"@ + "products"@ + "/"@ + p + "/"@ + kind + "/"@ + x);
}

proof fn lemma_route_aggregate_stream(p: Seq<char>, st: Seq<char>, at: Seq<char>, id: Seq<char>)
    requires
        plain_segment(p),
        plain_segment(st),
        plain_segment(at),
        plain_segment(id),
    ensures
        route_of_segments(path_segments("/products/"@ + p + "/event-store/"@ + st + "/"@ + at + "/"@ + id + "/events"@))
            == (IriRouteModel::AggregateStream { product: p, store: st, agg_type: at, agg_id: id }),
{
    reveal_strlit("/");
    reveal_strlit("/products/");
    reveal_strlit("products");
    reveal_strlit("/event-store/");
    reveal_strlit("event-store");
    reveal_strlit("/events");
    reveal_strlit("events");
    let products = "products"@;
    assert(plain_segment(products));
    assert(plain_segment("event-store"@));
    assert(plain_segment("events"@));
    let s = seq![products, p, "event-store"@, st, at, id, "events"@];
    lemma_segments_of_path(s);
    assert(seq!['/'] + join_with(s, '/') =~= "/products/"@ + p + "/event-store/"@ + st + "/"@ + at + "/"@ + id + "/events"@) by {
        reveal_with_fuel(join_with, 8);
        assert(s.drop_last() =~= seq![products, p, "event-store"@, st, at, id]);
        assert(s.drop_last().drop_last() =~= seq![products, p, "event-store"@, st, at]);
        assert(s.drop_last().drop_last().drop_last() =~= seq![products, p, "event-store"@, st]);
        assert(s.drop_last().drop_last().drop_last().drop_last() =~= seq![products, p, "event-store"@]);
        assert(s.drop_last().drop_last().drop_last().drop_last().drop_last() =~= seq![products, p]);
        assert(s.drop_last().drop_last().drop_last().drop_last().drop_last().drop_last() =~= seq![products]);
    }
}

proof fn lemma_route_event_schema(t: Seq<char>, v: Seq<char>)
    requires
        plain_segment(t),
        plain_segment(v),
    ensures
        route_of_segments(path_segments("/schemas/events/"@ + t + "/"@ + v)) == (IriRouteModel::EventSchema { event_type: t, version: v }),
{
    reveal_strlit("/");
    reveal_strlit("/schemas/events/");
    reveal_strlit("schemas");
    reveal_strlit("events");
    reveal_strlit("nodes");
    reveal_strlit("products");
    assert(plain_segment("schemas"@));
    assert(plain_segment("events"@));
    lemma_four("schemas"@, "events"@, t, v);
    assert("/schemas/events/"@ + t + "/"@ + v =~= "/"@ + "schemas"@ + "/"@ + "events"@ + "/"@ + t + "/"@ + v);
}

/// The segments of `/products/{p}/{last}`.
proof fn lemma_three(p: Seq<char>, last: Seq<char>)
    requires
        plain_segment(p),
        plain_segment(last),
    ensures
        path_segments("/products/"@ + p + "/"@ + last) == seq!["products"@, p, last],
{
    reveal_strlit("/products/");
    reveal_strlit("products");
    reveal_strlit("/");
    let s = seq!["products"@, p, last];
    assert(plain_segment("products"@));
    lemma_segments_of_path(s);
    assert(seq!['/'] + join_with(s, '/') =~= "/products/"@ + p + "/"@ + last) by {
        reveal_with_fuel(join_with, 4);
        assert(s.drop_last() =~= seq!["products"@, p]);
        assert(s.drop_last().drop_last() =~= seq!["products"@]);
    }
}

/// The segments of `/{a}/{b}/{c}/{d}`.
proof fn lemma_four(a: Seq<char>, b: Seq<char>, c: Seq<char>, d: Seq<char>)
    requires
        plain_segment(a),
        plain_segment(b),
        plain_segment(c),
        plain_segment(d),
    ensures
        path_segments("/"@ + a + "/"@ + b + "/"@ + c + "/"@ + d) == seq![a, b, c, d],
{
    reveal_strlit("/");
    let s = seq![a, b, c, d];
    lemma_segments_of_path(s);
    assert(seq!['/'] + join_with(s, '/') =~= "/"@ + a + "/"@ + b + "/"@ + c + "/"@ + d) by {
        reveal_with_fuel(join_with, 5);
        assert(s.drop_last() =~= seq![a, b, c]);
        assert(s.drop_last().drop_last() =~= seq![a, b]);
        assert(s.drop_last().drop_last().drop_last() =~= seq![a]);
    }
}

/// The segments of `path`, each as a character vector.
fn segments_of(path: &str) -> (segs: Vec<Vec<char>>)
    ensures
        segs@.len() == path_segments(path@).len(),
        forall|k: int| 0 <= k < segs@.len() ==> #[trigger] segs@[k]@ == path_segments(path@)[k],
{
    let v = chars_of(path);
    let (i, j) = trim_char_bounds(v.as_slice(), '/');
    let inner = sub_chars(v.as_slice(), i, j);
    let pieces = split_chars(inner.as_slice(), '/');
    assert(pieces@.map_values(|p: Vec<char>| p@) =~= split_on(inner@, '/'));
    nonempty_only(pieces)
}

/// Does segment `k` of `segs` equal `lit`?
fn seg_is(segs: &Vec<Vec<char>>, k: usize, lit: &str) -> (r: bool)
    requires
        k < segs@.len(),
    ensures
        r == (segs@[k as int]@ == lit@),
{
    chars_eq_str(segs[k].as_slice(), lit)
}

/// Segment `k` of `segs` as a `String`.
fn seg_string(segs: &Vec<Vec<char>>, k: usize) -> (r: String)
    requires
        k < segs@.len(),
    ensures
        r@ == segs@[k as int]@,
{
    string_of(segs[k].as_slice())
}

/// Route a URL path to an [`IriRoute`].
pub fn route_iri(path: &str) -> (r: IriRoute)
    ensures
        r@ == route_of_segments(path_segments(path@)),
{
    let segs = segments_of(path);
    let ghost s = path_segments(path@);
    assert(forall|k: int| 0 <= k < segs@.len() ==> #[trigger] segs@[k]@ == s[k]);
    let n = segs.len();
    if n == 0 {
        IriRoute::ClusterRoot
    } else if n == 2 && seg_is(&segs, 0, "nodes") {
        IriRoute::Node { name: seg_string(&segs, 1) }
    } else if n == 2 && seg_is(&segs, 0, "products") {
        IriRoute::Product { product: seg_string(&segs, 1) }
    } else if n == 3 && seg_is(&segs, 0, "products") && seg_is(&segs, 2, "graph") {
        IriRoute::ProductGraph { product: seg_string(&segs, 1) }
    } else if n == 3 && seg_is(&segs, 0, "products") && seg_is(&segs, 2, "ontology") {
        IriRoute::ProductOntology { product: seg_string(&segs, 1) }
    } else if n == 3 && seg_is(&segs, 0, "products") && seg_is(&segs, 2, "events") {
        IriRoute::ProductEvents { product: seg_string(&segs, 1) }
    } else if n == 3 && seg_is(&segs, 0, "products") && seg_is(&segs, 2, "config") {
        IriRoute::ProductConfig { product: seg_string(&segs, 1) }
    } else if n == 4 && seg_is(&segs, 0, "products") && seg_is(&segs, 2, "config") {
        IriRoute::ConfigEntry { product: seg_string(&segs, 1), key: seg_string(&segs, 3) }
    } else if n == 3 && seg_is(&segs, 0, "products") && seg_is(&segs, 2, "flags") {
        IriRoute::ProductFlags { product: seg_string(&segs, 1) }
    } else if n == 4 && seg_is(&segs, 0, "products") && seg_is(&segs, 2, "flags") {
        IriRoute::FeatureFlag { product: seg_string(&segs, 1), name: seg_string(&segs, 3) }
    } else if n == 7 && seg_is(&segs, 0, "products") && seg_is(&segs, 2, "event-store") && seg_is(
        &segs,
        6,
        "events",
    ) {
        IriRoute::AggregateStream {
            product: seg_string(&segs, 1),
            store: seg_string(&segs, 3),
            agg_type: seg_string(&segs, 4),
            agg_id: seg_string(&segs, 5),
        }
    } else if n == 4 && seg_is(&segs, 0, "schemas") && seg_is(&segs, 1, "events") {
        IriRoute::EventSchema { event_type: seg_string(&segs, 2), version: seg_string(&segs, 3) }
    } else if n == 4 && seg_is(&segs, 0, "products") {
        IriRoute::Resource {
            product: seg_string(&segs, 1),
            resource_type: seg_string(&segs, 2),
            name: seg_string(&segs, 3),
        }
    } else {
        IriRoute::NotFound
    }
}

// ---------------------------------------------------------------------------
// Routing depends on the segments alone
// ---------------------------------------------------------------------------

proof fn lemma_split_nonempty(s: Seq<char>, sep: char)
    ensures
        split_on(s, sep).len() >= 1,
    decreases s.len(),
{
    if s.len() > 0 {
        lemma_split_nonempty(s.drop_last(), sep);
    }
}

proof fn lemma_split_leading_sep(s: Seq<char>, sep: char)
    ensures
        split_on(seq![sep] + s, sep) == seq![Seq::<char>::empty()] + split_on(s, sep),
    decreases s.len(),
{
    let t = seq![sep] + s;
    if s.len() == 0 {
        assert(s =~= Seq::<char>::empty());
        assert(t.len() == 1 && t.last() == sep);
        assert(t.drop_last() =~= Seq::<char>::empty());
        assert(split_on(Seq::<char>::empty(), sep) == seq![Seq::<char>::empty()]);
        assert(split_on(t, sep) == seq![Seq::<char>::empty()].push(Seq::<char>::empty()));
        assert(split_on(t, sep) =~= seq![Seq::<char>::empty()] + split_on(s, sep));
    } else {
        assert(t.drop_last() =~= seq![sep] + s.drop_last());
        assert(t.last() == s.last());
        lemma_split_leading_sep(s.drop_last(), sep);
        lemma_split_nonempty(s.drop_last(), sep);
        let p = split_on(s.drop_last(), sep);
        let e = seq![Seq::<char>::empty()];
        if s.last() == sep {
            assert(split_on(t, sep) =~= (e + p).push(Seq::<char>::empty()));
            assert((e + p).push(Seq::<char>::empty()) =~= e + p.push(Seq::<char>::empty()));
        } else {
            let q = e + p;
            assert(q.last() == p.last());
            assert(q.update(q.len() - 1, q.last().push(s.last())) =~= e + p.update(p.len() - 1, p.last().push(s.last())));
        }
    }
}

proof fn lemma_nonempty_leading_empty(ps: Seq<Seq<char>>)
    ensures
        nonempty_pieces(seq![Seq::<char>::empty()] + ps) == nonempty_pieces(ps),
    decreases ps.len(),
{
    let q = seq![Seq::<char>::empty()] + ps;
    if ps.len() == 0 {
        assert(q.drop_last() =~= Seq::<Seq<char>>::empty());
        assert(q.last() == Seq::<char>::empty());
        assert(nonempty_pieces(q) == nonempty_pieces(q.drop_last()));
        assert(ps =~= Seq::<Seq<char>>::empty());
    } else {
        assert(q.drop_last() =~= seq![Seq::<char>::empty()] + ps.drop_last());
        assert(q.last() == ps.last());
        lemma_nonempty_leading_empty(ps.drop_last());
    }
}

proof fn lemma_trim_start_keeps_pieces(s: Seq<char>, sep: char)
    ensures
        nonempty_pieces(split_on(trim_start_char(s, sep), sep)) == nonempty_pieces(split_on(s, sep)),
    decreases s.len(),
{
    if s.len() > 0 && s[0] == sep {
        lemma_trim_start_keeps_pieces(s.drop_first(), sep);
        assert(s =~= seq![sep] + s.drop_first());
        lemma_split_leading_sep(s.drop_first(), sep);
        lemma_nonempty_leading_empty(split_on(s.drop_first(), sep));
    }
}

proof fn lemma_trim_end_keeps_pieces(s: Seq<char>, sep: char)
    ensures
        nonempty_pieces(split_on(trim_end_char(s, sep), sep)) == nonempty_pieces(split_on(s, sep)),
    decreases s.len(),
{
    if s.len() > 0 && s.last() == sep {
        lemma_trim_end_keeps_pieces(s.drop_last(), sep);
        let p = split_on(s.drop_last(), sep);
        assert(split_on(s, sep) == p.push(Seq::<char>::empty()));
        assert(p.push(Seq::<char>::empty()).drop_last() =~= p);
    }
}

/// The segments of a path are its non-empty `/`-separated pieces: the
/// slashes trimmed first change nothing.
pub proof fn lemma_path_segments_are_pieces(path: Seq<char>)
    ensures
        path_segments(path) == nonempty_pieces(split_on(path, '/')),
{
    lemma_trim_end_keeps_pieces(trim_start_char(path, '/'), '/');
    lemma_trim_start_keeps_pieces(path, '/');
}

/// Paths with the same non-empty `/`-separated segments route alike (so
/// repeated, leading and trailing slashes do not matter).
pub proof fn law_same_segments_route_alike(p: Seq<char>, q: Seq<char>)
    requires
        nonempty_pieces(split_on(p, '/')) == nonempty_pieces(split_on(q, '/')),
    ensures
        route_of_segments(path_segments(p)) == route_of_segments(path_segments(q)),
{
    lemma_path_segments_are_pieces(p);
    lemma_path_segments_are_pieces(q);
}

} // verus!
