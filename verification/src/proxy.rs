//! Reverse proxy decisions: connection draining, the host a request names,
//! the upstream URL a matched route leads to, which headers travel with the
//! request and the response, the trace context added when none came in,
//! and the status a failed upstream call is answered with.

use vstd::prelude::*;

use crate::implementation::{legacy_best, legacy_matches, IngressTable};
use crate::router::{route_best, route_lookup, IngressRouter};
use crate::text::{before_first, chars_of, decimal, decimal_string, hex_char, hex_digit, hex_lower, hex_lower_string, starts_with, str_eq, string_of, sub_chars};

verus! {

broadcast use vstd::string::group_string_axioms;

// ---------------------------------------------------------------------------
// Draining
// ---------------------------------------------------------------------------

/// Whether the node is draining: while it is, new requests are refused
/// with 503 and a Retry-After.
pub struct DrainState {
    draining: bool,
}

impl DrainState {
    /// Is draining active?
    pub closed spec fn draining(&self) -> bool {
        self.draining
    }

    /// Not draining.
    pub fn new() -> (d: DrainState)
        ensures
            !d.draining(),
    {
        DrainState { draining: false }
    }

    /// Start draining: new requests will be refused.
    pub fn start_drain(&mut self)
        ensures
            final(self).draining(),
    {
        self.draining = true;
    }

    /// Stop draining: resume normal operation.
    pub fn stop_drain(&mut self)
        ensures
            !final(self).draining(),
    {
        self.draining = false;
    }

    /// Is draining active?
    pub fn is_draining(&self) -> (r: bool)
        ensures
            r == self.draining(),
    {
        self.draining
    }
}

/// The seconds a client is asked to wait before retrying after a 503.
pub const RETRY_AFTER_SECONDS: u64 = 5;

/// The grace period, in seconds, for in-flight requests while draining.
pub const DRAIN_GRACE_PERIOD_SECS: u64 = 30;

/// Timeout, in seconds, for connecting to an upstream.
pub const UPSTREAM_CONNECT_TIMEOUT_SECS: u64 = 5;

/// Timeout, in seconds, for a whole upstream request.
pub const UPSTREAM_REQUEST_TIMEOUT_SECS: u64 = 60;

/// The largest request body forwarded, in bytes.
pub const MAX_PROXY_BODY_BYTES: usize = 10485760;

// ---------------------------------------------------------------------------
// Request routing
// ---------------------------------------------------------------------------

/// The host a `Host` header names: the text before its first `:`.
pub fn proxy_host(host_header: &str) -> (r: String)
    ensures
        r@ == before_first(host_header@, ':'),
{
    let v = chars_of(host_header);
    let h = crate::text::before_first_chars(v.as_slice(), ':');
    string_of(h.as_slice())
}

/// The path an upstream sees: the request path after the route's prefix,
/// with a leading `/` added when the rest is empty or does not start with
/// one.
pub open spec fn downstream_path_spec(request_path: Seq<char>, prefix: Seq<char>) -> Seq<char> {
    let rest = request_path.skip(prefix.len() as int);
    if rest.len() == 0 || rest[0] != '/' {
        seq!['/'] + rest
    } else {
        rest
    }
}

/// The path forwarded to the upstream of a route whose prefix the request
/// path starts with (as every matched route's prefix does).
pub fn downstream_path(request_path: &str, path_prefix: &str) -> (r: String)
    requires
        starts_with(request_path@, path_prefix@),
    ensures
        r@ == downstream_path_spec(request_path@, path_prefix@),
{
    let v = chars_of(request_path);
    let p = chars_of(path_prefix);
    let rest = sub_chars(v.as_slice(), p.len(), v.len());
    assert(rest@ =~= request_path@.skip(path_prefix@.len() as int));
    if rest.len() == 0 || rest[0] != '/' {
        let mut out: Vec<char> = Vec::new();
        out.push('/');
        let mut i: usize = 0;
        while i < rest.len()
            invariant
                i <= rest@.len(),
                out@ == seq!['/'] + rest@.take(i as int),
            decreases rest@.len() - i,
        {
            out.push(rest[i]);
            assert(seq!['/'] + rest@.take(i + 1) =~= (seq!['/'] + rest@.take(i as int)).push(rest@[i as int]));
            i = i + 1;
        }
        assert(rest@.take(rest@.len() as int) =~= rest@);
        string_of(out.as_slice())
    } else {
        string_of(rest.as_slice())
    }
}

/// `http://{addr}:{port}{path}` followed by `?{query}` when there is a
/// query.
pub open spec fn target_url_spec(addr: Seq<char>, port: u16, path: Seq<char>, query: Option<Seq<char>>) -> Seq<char> {
    let base = "http://"@ + addr + ":"@ + decimal(port as nat) + path;
    match query {
        Some(q) => base + "?"@ + q,
        None => base,
    }
}

/// The URL a request is forwarded to.
pub fn target_url(addr: &str, port: u16, path: &str, query: Option<&str>) -> (r: String)
    ensures
        r@ == target_url_spec(addr@, port, path@, match query {
            Some(q) => Some(q@),
            None => None,
        }),
{
    let mut r = String::from_str("http://");
    r.append(addr);
    r.append(":");
    let port_text = decimal_string(port as u64);
    r.append(port_text.as_str());
    r.append(path);
    match query {
        Some(q) => {
            r.append("?");
            r.append(q);
        },
        None => {},
    }
    r
}

/// The message of a 404 for a request no route matches.
pub fn no_route_message(host: &str, path: &str) -> (r: String)
    ensures
        r@ == "no route matches host="@ + host@ + " path="@ + path@,
{
    let mut r = String::from_str("no route matches host=");
    r.append(host);
    r.append(" path=");
    r.append(path);
    r
}

/// The message of a 404 for a request no legacy (path-only) route matches.
pub fn legacy_no_route_message(path: &str) -> (r: String)
    ensures
        r@ == "no route matches path: "@ + path@,
{
    let mut r = String::from_str("no route matches path: ");
    r.append(path);
    r
}

/// The answer to a request arriving while the node drains: 503 with the
/// `error` code `service_unavailable` and a message asking to retry
/// elsewhere (sent with Retry-After).
pub fn draining_refusal() -> (r: (u16, String, String))
    ensures
        r.0 == 503,
        r.1@ == "service_unavailable"@,
        r.2@ == "node is draining \u{2014} retry on another node"@,
{
    (503, String::from_str("service_unavailable"), String::from_str("node is draining \u{2014} retry on another node"))
}

// ---------------------------------------------------------------------------
// Dispatch
// ---------------------------------------------------------------------------

/// What the ingress proxy does with a request.
#[derive(Debug)]
pub enum ProxyDecision {
    /// Refuse it: the node is draining (503 with Retry-After).
    Draining,
    /// Answer 404 with this message: no route matches.
    NoRoute(String),
    /// Forward it to this upstream URL.
    Forward(String),
}

/// The host of an optional `Host` header: the text before its first `:`,
/// empty without the header.
pub open spec fn host_of(host_header: Option<&str>) -> Seq<char> {
    match host_header {
        Some(h) => before_first(h@, ':'),
        None => Seq::empty(),
    }
}

/// The view of an optional query text.
pub open spec fn query_of(query: Option<&str>) -> Option<Seq<char>> {
    match query {
        Some(q) => Some(q@),
        None => None,
    }
}

proof fn lemma_lookup_matches(rs: Seq<crate::router::RouteModel>, path: Seq<char>)
    requires
        route_lookup(rs, path) is Some,
    ensures
        starts_with(path, route_lookup(rs, path)->0.path_prefix),
{
    let i = choose|i: int| route_best(rs, path, i);
    assert(route_best(rs, path, i));
}

/// Decide a request to the ingress: while the node drains it is refused
/// before any lookup; with the host router, the route of the request's
/// host with the longest prefix of its path is taken; without it, the
/// legacy table's route with the longest prefix. The request goes to the
/// route's upstream (the legacy table's on this node), under the path
/// after the prefix and with the query; with no route it is answered 404.
pub fn ingress_proxy_decision(
    drain: &DrainState,
    router: Option<&IngressRouter>,
    table: &IngressTable,
    host_header: Option<&str>,
    path: &str,
    query: Option<&str>,
) -> (r: ProxyDecision)
    requires
        match router {
            Some(rt) => rt.wf(),
            None => true,
        },
        table.wf(),
    ensures
        drain.draining() ==> r is Draining,
        !drain.draining() && router is Some ==> match route_lookup(router->0.external_routes(host_of(host_header)), path@) {
            None => r matches ProxyDecision::NoRoute(m) && m@ == "no route matches host="@ + host_of(host_header) + " path="@
                + path@,
            Some(e) => r matches ProxyDecision::Forward(u) && u@ == target_url_spec(
                e.upstream_addr,
                e.upstream_port,
                downstream_path_spec(path@, e.path_prefix),
                query_of(query),
            ),
        },
        !drain.draining() && router is None ==> match r {
            ProxyDecision::Draining => false,
            ProxyDecision::NoRoute(m) => (forall|j: int| !legacy_matches(table.route_seq(), path@, j)) && m@
                == "no route matches path: "@ + path@,
            ProxyDecision::Forward(u) => exists|i: int|
                legacy_best(table.route_seq(), path@, i) && u@ == target_url_spec(
                    "127.0.0.1"@,
                    table.route_seq()[i].target_port,
                    downstream_path_spec(path@, table.route_seq()[i].path@),
                    query_of(query),
                ),
        },
{
    if drain.is_draining() {
        return ProxyDecision::Draining;
    }
    match router {
        Some(rt) => {
            let host = match host_header {
                Some(h) => proxy_host(h),
                None => String::new(),
            };
            match rt.lookup(host.as_str(), path) {
                None => ProxyDecision::NoRoute(no_route_message(host.as_str(), path)),
                Some(e) => {
                    proof {
                        lemma_lookup_matches(rt.external_routes(host@), path@);
                    }
                    let rest = downstream_path(path, e.path_prefix.as_str());
                    ProxyDecision::Forward(target_url(e.upstream_addr.as_str(), e.upstream_port, rest.as_str(), query))
                },
            }
        },
        None => match table.lookup(path) {
            None => ProxyDecision::NoRoute(legacy_no_route_message(path)),
            Some(route) => {
                let rest = downstream_path(path, route.path.as_str());
                ProxyDecision::Forward(target_url("127.0.0.1", route.target_port, rest.as_str(), query))
            },
        },
    }
}

// ---------------------------------------------------------------------------
// Headers
// ---------------------------------------------------------------------------

/// The ASCII lower-case form of a character.
pub open spec fn ascii_lower(c: char) -> char {
    if 'A' <= c && c <= 'Z' {
        ((c as u32) + 32) as char
    } else {
        c
    }
}

/// `str::eq_ignore_ascii_case`.
pub open spec fn eq_ignore_ascii_case(a: Seq<char>, b: Seq<char>) -> bool {
    a.len() == b.len() && forall|i: int| 0 <= i < a.len() ==> ascii_lower(#[trigger] a[i]) == ascii_lower(b[i])
}

fn ascii_lower_char(c: char) -> (r: char)
    ensures
        r == ascii_lower(c),
{
    if 'A' <= c && c <= 'Z' {
        let b: u8 = (c as u32) as u8 + 32;
        b as char
    } else {
        c
    }
}

/// Do the two texts agree up to ASCII case?
pub fn eq_ignore_ascii_case_str(a: &str, b: &str) -> (r: bool)
    ensures
        r == eq_ignore_ascii_case(a@, b@),
{
    let av = chars_of(a);
    let bv = chars_of(b);
    if av.len() != bv.len() {
        return false;
    }
    let mut i: usize = 0;
    while i < av.len()
        invariant
            i <= av@.len(),
            av@.len() == bv@.len(),
            av@ == a@,
            bv@ == b@,
            forall|j: int| 0 <= j < i ==> ascii_lower(#[trigger] av@[j]) == ascii_lower(bv@[j]),
        decreases av@.len() - i,
    {
        if ascii_lower_char(av[i]) != ascii_lower_char(bv[i]) {
            return false;
        }
        i = i + 1;
    }
    true
}

/// Is a request header (by its lower-case name) forwarded upstream? All
/// but `host` and `transfer-encoding` are.
pub open spec fn forwards_request_header(name: Seq<char>) -> bool {
    name != "host"@ && name != "transfer-encoding"@
}

/// Is a response header (by its lower-case name) passed back to the
/// client? All but `transfer-encoding` are.
pub open spec fn forwards_response_header(name: Seq<char>) -> bool {
    name != "transfer-encoding"@
}

/// A header as (lower-case name, value when it is visible text).
pub type HeaderView = (Seq<char>, Option<Seq<char>>);

/// The views of header pairs.
pub open spec fn header_views(h: Seq<(String, Option<String>)>) -> Seq<HeaderView> {
    h.map_values(
        |x: (String, Option<String>)|
            (
                x.0@,
                match x.1 {
                    Some(v) => Some(v@),
                    None => None,
                },
            ),
    )
}

/// The request headers sent upstream, in order: those forwarded whose value
/// is visible text.
pub open spec fn forwarded_headers(h: Seq<HeaderView>) -> Seq<(Seq<char>, Seq<char>)>
    decreases h.len(),
{
    if h.len() == 0 {
        Seq::empty()
    } else {
        let rest = forwarded_headers(h.drop_last());
        let x = h.last();
        match x.1 {
            Some(v) => if forwards_request_header(x.0) {
                rest.push((x.0, v))
            } else {
                rest
            },
            None => rest,
        }
    }
}

/// The views of (name, value) pairs.
pub open spec fn pair_views(h: Seq<(String, String)>) -> Seq<(Seq<char>, Seq<char>)> {
    h.map_values(|x: (String, String)| (x.0@, x.1@))
}

/// Does a forwarded header carry trace context (`traceparent` in any ASCII
/// case)?
pub open spec fn has_traceparent(h: Seq<(Seq<char>, Seq<char>)>) -> bool {
    exists|i: int| 0 <= i < h.len() && eq_ignore_ascii_case((#[trigger] h[i]).0, "traceparent"@)
}

/// The request headers to send upstream, and whether one of them is a
/// `traceparent`.
pub fn forwarded_request_headers(headers: &Vec<(String, Option<String>)>) -> (r: (Vec<(String, String)>, bool))
    ensures
        pair_views(r.0@) == forwarded_headers(header_views(headers@)),
        r.1 == has_traceparent(pair_views(r.0@)),
{
    let ghost hv = header_views(headers@);
    let mut out: Vec<(String, String)> = Vec::new();
    let mut traced = false;
    let mut i: usize = 0;
    while i < headers.len()
        invariant
            i <= headers@.len(),
            hv == header_views(headers@),
            pair_views(out@) == forwarded_headers(hv.take(i as int)),
            traced == has_traceparent(pair_views(out@)),
        decreases headers@.len() - i,
    {
        assert(hv.take(i + 1).drop_last() =~= hv.take(i as int));
        assert(hv.take(i + 1).last() == hv[i as int]);
        let (name, value) = (&headers[i].0, &headers[i].1);
        match value {
            Some(v) => {
                if !str_eq(name.as_str(), "host") && !str_eq(name.as_str(), "transfer-encoding") {
                    let ghost before = pair_views(out@);
                    out.push((String::from_str(name.as_str()), String::from_str(v.as_str())));
                    assert(pair_views(out@) =~= before.push((name@, v@)));
                    let is_trace = eq_ignore_ascii_case_str(name.as_str(), "traceparent");
                    proof {
                        let pv = pair_views(out@);
                        if has_traceparent(before) {
                            let k = choose|k: int| 0 <= k < before.len() && eq_ignore_ascii_case((#[trigger] before[k]).0, "traceparent"@);
                            assert(pv[k] == before[k]);
                        }
                        if is_trace {
                            assert(pv[before.len() as int] == (name@, v@));
                        }
                        if has_traceparent(pv) {
                            let k = choose|k: int| 0 <= k < pv.len() && eq_ignore_ascii_case((#[trigger] pv[k]).0, "traceparent"@);
                            if k < before.len() {
                                assert(pv[k] == before[k]);
                            }
                        }
                    }
                    traced = traced || is_trace;
                }
            },
            None => {},
        }
        i = i + 1;
    }
    assert(hv.take(headers@.len() as int) =~= hv);
    (out, traced)
}

/// Is a response header passed back? (by lower-case name)
pub fn is_forwarded_response_header(name: &str) -> (r: bool)
    ensures
        r == forwards_response_header(name@),
{
    !str_eq(name, "transfer-encoding")
}

// ---------------------------------------------------------------------------
// Trace context
// ---------------------------------------------------------------------------

/// The `k` lower-case hex digits of `n`, most significant first (`n`
/// reduced modulo 16^k).
pub open spec fn hex_fixed(n: nat, k: nat) -> Seq<char>
    decreases k,
{
    if k == 0 {
        Seq::empty()
    } else {
        hex_fixed(n / 16, (k - 1) as nat).push(hex_digit(n % 16))
    }
}

/// A `traceparent` value: version `00`, the trace id as 32 hex digits
/// (its 16 bytes in order), the parent id as 16 hex digits, flags `01`.
pub open spec fn traceparent_spec(trace_id: Seq<u8>, parent_id: u64) -> Seq<char> {
    "00-"@ + hex_lower(trace_id) + "-"@ + hex_fixed(parent_id as nat, 16) + "-01"@
}

fn hex_fixed_string(n: u64) -> (r: String)
    ensures
        r@ == hex_fixed(n as nat, 16),
{
    let mut digits: Vec<char> = Vec::new();
    let mut m: u64 = n;
    let mut k: usize = 0;
    assert(hex_fixed(n as nat, 0) =~= Seq::<char>::empty());
    while k < 16
        invariant
            k <= 16,
            hex_fixed(n as nat, 16) == hex_fixed(m as nat, (16 - k) as nat) + digits@.reverse(),
        decreases 16 - k,
    {
        let d = (m % 16) as u8;
        let c = hex_char(d);
        proof {
            let rest = (16 - k - 1) as nat;
            assert(hex_fixed(m as nat, (16 - k) as nat) == hex_fixed((m / 16) as nat, rest).push(c));
            assert(digits@.push(c).reverse() =~= seq![c] + digits@.reverse());
            assert(hex_fixed((m / 16) as nat, rest).push(c) + digits@.reverse() =~= hex_fixed(
                (m / 16) as nat,
                rest,
            ) + (seq![c] + digits@.reverse()));
        }
        digits.push(c);
        m = m / 16;
        k = k + 1;
    }
    assert(hex_fixed(m as nat, 0) =~= Seq::<char>::empty());
    let mut out: Vec<char> = Vec::new();
    let mut i: usize = digits.len();
    assert(digits@.reverse().take(0) =~= Seq::<char>::empty());
    while i > 0
        invariant
            i <= digits@.len(),
            out@ == digits@.reverse().take(digits@.len() - i),
        decreases i,
    {
        i = i - 1;
        out.push(digits[i]);
        assert(digits@.reverse().take(digits@.len() - i) =~= digits@.reverse().take(digits@.len() - i - 1).push(
            digits@[i as int],
        ));
    }
    assert(digits@.reverse().take(digits@.len() as int) =~= digits@.reverse());
    string_of(out.as_slice())
}

/// The `traceparent` value added to a request that came without one.
pub fn traceparent(trace_id: &[u8], parent_id: u64) -> (r: String)
    ensures
        r@ == traceparent_spec(trace_id@, parent_id),
{
    let mut r = String::from_str("00-");
    let t = hex_lower_string(trace_id);
    r.append(t.as_str());
    r.append("-");
    let p = hex_fixed_string(parent_id);
    r.append(p.as_str());
    r.append("-01");
    r
}

// ---------------------------------------------------------------------------
// Upstream outcomes
// ---------------------------------------------------------------------------

/// How a proxied request ended without an upstream response.
#[derive(Debug, Clone, Copy, PartialEq, Eq)]
pub enum UpstreamFailure {
    /// The request body could not be read.
    BodyUnreadable,
    /// The upstream could not be connected to.
    Unreachable,
    /// The upstream call failed otherwise.
    RequestFailed,
    /// The upstream response body could not be read.
    ResponseUnreadable,
}

/// The status a failed proxy call is answered with: 400 for an unreadable
/// request body, 503 (with Retry-After) for an unreachable upstream, 502
/// otherwise.
pub open spec fn failure_status_spec(f: UpstreamFailure) -> u16 {
    match f {
        UpstreamFailure::BodyUnreadable => 400,
        UpstreamFailure::Unreachable => 503,
        UpstreamFailure::RequestFailed => 502,
        UpstreamFailure::ResponseUnreadable => 502,
    }
}

/// The status and whether a Retry-After header is due for a failure.
pub fn failure_status(f: UpstreamFailure) -> (r: (u16, bool))
    ensures
        r.0 == failure_status_spec(f),
        r.1 == (f == UpstreamFailure::Unreachable),
{
    match f {
        UpstreamFailure::BodyUnreadable => (400, false),
        UpstreamFailure::Unreachable => (503, true),
        UpstreamFailure::RequestFailed => (502, false),
        UpstreamFailure::ResponseUnreadable => (502, false),
    }
}

/// The `error` code and `message` of a failed proxy call's answer:
/// `detail` is the error text, or for an unreachable upstream its address.
pub open spec fn failure_body_spec(f: UpstreamFailure, detail: Seq<char>) -> (Seq<char>, Seq<char>) {
    match f {
        UpstreamFailure::BodyUnreadable => ("bad_request"@, "failed to read request body: "@ + detail),
        UpstreamFailure::Unreachable => ("service_unavailable"@, "upstream unreachable: "@ + detail),
        UpstreamFailure::RequestFailed => ("bad_gateway"@, "failed to connect to workload: "@ + detail),
        UpstreamFailure::ResponseUnreadable => ("bad_gateway"@, "failed to read upstream response: "@ + detail),
    }
}

/// The `error` code and `message` of a failed proxy call's answer.
pub fn failure_body(f: UpstreamFailure, detail: &str) -> (r: (String, String))
    ensures
        (r.0@, r.1@) == failure_body_spec(f, detail@),
{
    let (code, prefix) = match f {
        UpstreamFailure::BodyUnreadable => ("bad_request", "failed to read request body: "),
        UpstreamFailure::Unreachable => ("service_unavailable", "upstream unreachable: "),
        UpstreamFailure::RequestFailed => ("bad_gateway", "failed to connect to workload: "),
        UpstreamFailure::ResponseUnreadable => ("bad_gateway", "failed to read upstream response: "),
    };
    let mut message = String::from_str(prefix);
    message.append(detail);
    (String::from_str(code), message)
}

/// The status passed back for an upstream status code: the code itself
/// when it is a valid HTTP status (100 to 999), else 502.
pub fn proxied_status(code: u16) -> (r: u16)
    ensures
        r == if 100 <= code <= 999 { code } else { 502 },
{
    if 100 <= code && code <= 999 {
        code
    } else {
        502
    }
}

} // verus!
