//! Decisions of the HTTP handlers that do not depend on the transport:
//! who may query a product graph, whether a SPARQL query is an ASK query,
//! which telemetry signal a query reads and how an export is framed, and
//! the time window of a replay request, and the refusals and defaults of
//! the config, feature flag and command endpoints.

use vstd::prelude::*;

use crate::implementation::{is_sensitive_config_key, lowercased_key_is_sensitive};
use crate::text::{
    chars_of, is_ws, spec_to_lowercase, spec_to_uppercase, starts_with,
    starts_with_chars, str_eq, to_uppercase, trim, trim_chars, trim_start, parse_u64, parse_u64_str,
};

verus! {

broadcast use vstd::string::group_string_axioms;

// ---------------------------------------------------------------------------
// Product graph access
// ---------------------------------------------------------------------------

/// What access to a product graph requires.
#[derive(Debug)]
pub enum GraphAccess {
    /// Go ahead.
    Proceed,
    /// Go ahead if the bearer token validates (403 otherwise).
    ValidateToken(String),
    /// Refuse with 401: identity management is on and no credentials came.
    Unauthorized,
}

/// The access decision for a product graph query: with an
/// `Authorization: Bearer <token>` header the token is validated when
/// identity management is on; any other `Authorization` header lets the
/// query through; without the header, the query is refused when identity
/// management is on.
pub open spec fn graph_access_spec(authorization: Option<Seq<char>>, iam_on: bool) -> Option<Option<Seq<char>>> {
    match authorization {
        Some(a) => if starts_with(a, "Bearer "@) && iam_on {
            Some(Some(a.skip(7)))
        } else {
            Some(None)
        },
        None => if iam_on {
            None
        } else {
            Some(None)
        },
    }
}

/// Decide how a product graph query is admitted.
pub fn graph_access(authorization: Option<&str>, iam_on: bool) -> (r: GraphAccess)
    ensures
        match r {
            GraphAccess::Proceed => graph_access_spec(match authorization {
                Some(a) => Some(a@),
                None => None,
            }, iam_on) == Some(None::<Seq<char>>),
            GraphAccess::ValidateToken(t) => graph_access_spec(match authorization {
                Some(a) => Some(a@),
                None => None,
            }, iam_on) == Some(Some(t@)),
            GraphAccess::Unauthorized => graph_access_spec(match authorization {
                Some(a) => Some(a@),
                None => None,
            }, iam_on) is None,
        },
{
    match authorization {
        Some(a) => {
            let v = chars_of(a);
            let pre = chars_of("Bearer ");
            proof {
                reveal_strlit("Bearer ");
            }
            if iam_on && starts_with_chars(v.as_slice(), pre.as_slice()) {
                let t = crate::text::sub_chars(v.as_slice(), 7, v.len());
                assert(t@ =~= a@.skip(7));
                GraphAccess::ValidateToken(crate::text::string_of(t.as_slice()))
            } else {
                GraphAccess::Proceed
            }
        },
        None => if iam_on {
            GraphAccess::Unauthorized
        } else {
            GraphAccess::Proceed
        },
    }
}

// ---------------------------------------------------------------------------
// ASK queries
// ---------------------------------------------------------------------------

/// The position of the first newline in `s`.
pub open spec fn first_newline(s: Seq<char>) -> Option<int> {
    if exists|i: int| 0 <= i < s.len() && s[i] == '\n' {
        Some(choose|i: int| 0 <= i < s.len() && s[i] == '\n' && forall|j: int| 0 <= j < i ==> s[j] != '\n')
    } else {
        None
    }
}

/// Removing leading whitespace never lengthens a text, and shortens one
/// that starts with whitespace.
pub proof fn lemma_trim_start_len(s: Seq<char>)
    ensures
        trim_start(s).len() <= s.len(),
        s.len() > 0 && is_ws(s[0]) ==> trim_start(s).len() < s.len(),
    decreases s.len(),
{
    if s.len() > 0 && is_ws(s[0]) {
        lemma_trim_start_len(s.drop_first());
    }
}

/// The upper-cased query with its leading `PREFIX` and `BASE` lines
/// removed: while it starts with either and has a line break, it continues
/// after the break, without leading whitespace.
#[verifier::opaque]
pub open spec fn strip_prologue(body: Seq<char>) -> Seq<char>
    decreases body.len(),
{
    if starts_with(body, "PREFIX"@) || starts_with(body, "BASE"@) {
        match first_newline(body) {
            Some(pos) => if 0 <= pos < body.len() && body[pos] == '\n' {
                proof {
                    assert(body.skip(pos)[0] == '\n');
                    assert(is_ws('\n'));
                    lemma_trim_start_len(body.skip(pos));
                }
                strip_prologue(trim_start(body.skip(pos)))
            } else {
                body
            },
            None => body,
        }
    } else {
        body
    }
}

proof fn lemma_strip_stop(b: Seq<char>)
    requires
        !(starts_with(b, "PREFIX"@) || starts_with(b, "BASE"@)) || first_newline(b) is None,
    ensures
        strip_prologue(b) == b,
{
    reveal(strip_prologue);
}

proof fn lemma_strip_step(b: Seq<char>, pos: int)
    requires
        starts_with(b, "PREFIX"@) || starts_with(b, "BASE"@),
        first_newline(b) == Some(pos),
        0 <= pos < b.len(),
        b[pos] == '\n',
    ensures
        strip_prologue(b) == strip_prologue(trim_start(b.skip(pos))),
{
    reveal(strip_prologue);
}

/// Is a SPARQL query an ASK query? The trimmed, upper-cased query starts
/// with `ASK` once its `PREFIX`/`BASE` lines are removed.
pub open spec fn is_ask_spec(sparql: Seq<char>) -> bool {
    starts_with(strip_prologue(spec_to_uppercase(trim(sparql))), "ASK"@)
}

fn first_newline_exec(v: &[char]) -> (r: Option<usize>)
    ensures
        match r {
            Some(i) => first_newline(v@) == Some(i as int) && i < v@.len() && v@[i as int] == '\n',
            None => first_newline(v@) is None,
        },
{
    let mut i: usize = 0;
    while i < v.len()
        invariant
            i <= v@.len(),
            forall|j: int| 0 <= j < i ==> v@[j] != '\n',
        decreases v@.len() - i,
    {
        if v[i] == '\n' {
            proof {
                let w = choose|w: int| 0 <= w < v@.len() && v@[w] == '\n' && forall|j: int| 0 <= j < w ==> v@[j] != '\n';
                assert(w == i);
            }
            return Some(i);
        }
        i = i + 1;
    }
    None
}

fn trim_start_chars(v: &[char]) -> (r: Vec<char>)
    ensures
        r@ == trim_start(v@),
{
    let mut i: usize = 0;
    assert(v@.skip(0) =~= v@);
    while i < v.len() && crate::text::is_whitespace(v[i])
        invariant
            i <= v@.len(),
            trim_start(v@) == trim_start(v@.skip(i as int)),
        decreases v@.len() - i,
    {
        assert(v@.skip(i as int).drop_first() =~= v@.skip(i + 1));
        i = i + 1;
    }
    let r = crate::text::sub_chars(v, i, v.len());
    assert(r@ =~= v@.skip(i as int));
    r
}

/// Whether a SPARQL query is an ASK query (answered with a boolean).
pub fn is_ask_query(sparql: &str) -> (r: bool)
    ensures
        r == is_ask_spec(sparql@),
{
    let raw = chars_of(sparql);
    let t = trim_chars(raw.as_slice());
    let ts = crate::text::string_of(t.as_slice());
    let upper = to_uppercase(ts.as_str());
    let mut body = chars_of(upper.as_str());
    let prefix = chars_of("PREFIX");
    let base = chars_of("BASE");
    let ask = chars_of("ASK");
    assert(ts@ == trim(sparql@));
    loop
        invariant
            strip_prologue(body@) == strip_prologue(spec_to_uppercase(trim(sparql@))),
            prefix@ == "PREFIX"@,
            base@ == "BASE"@,
        ensures
            strip_prologue(body@) == body@,
            strip_prologue(body@) == strip_prologue(spec_to_uppercase(trim(sparql@))),
        decreases body@.len(),
    {
        if !(starts_with_chars(body.as_slice(), prefix.as_slice()) || starts_with_chars(body.as_slice(), base.as_slice())) {
            proof {
                lemma_strip_stop(body@);
            }
            break;
        }
        match first_newline_exec(body.as_slice()) {
            Some(pos) => {
                let rest = crate::text::sub_chars(body.as_slice(), pos, body.len());
                assert(rest@ =~= body@.skip(pos as int));
                let next = trim_start_chars(rest.as_slice());
                proof {
                    assert(body@[pos as int] == '\n');
                    assert(body@.skip(pos as int)[0] == '\n');
                    lemma_trim_start_len(body@.skip(pos as int));
                    lemma_strip_step(body@, pos as int);
                }
                body = next;
            },
            None => {
                proof {
                    lemma_strip_stop(body@);
                }
                break;
            },
        }
    }
    starts_with_chars(body.as_slice(), ask.as_slice())
}

// ---------------------------------------------------------------------------
// Telemetry queries and exports
// ---------------------------------------------------------------------------

/// Does a telemetry query read spans? It does for the signals `traces`
/// (also the default) and `spans`; any other signal reads metrics.
pub fn query_reads_spans(signal: Option<&str>) -> (r: bool)
    ensures
        r == match signal {
            Some(s) => s@ == "traces"@ || s@ == "spans"@,
            None => true,
        },
{
    match signal {
        Some(s) => str_eq(s, "traces") || str_eq(s, "spans"),
        None => true,
    }
}

/// The Parquet marker framing an export.
pub open spec fn par1() -> Seq<u8> {
    seq![0x50u8, 0x41u8, 0x52u8, 0x31u8]
}

/// The body of a Parquet-format export: empty when there are no spans,
/// else the serialized spans between two `PAR1` markers.
pub fn parquet_export_body(span_count: usize, json: &[u8]) -> (r: Vec<u8>)
    ensures
        r@ == if span_count == 0 { Seq::<u8>::empty() } else { par1() + json@ + par1() },
{
    let mut r: Vec<u8> = Vec::new();
    if span_count == 0 {
        return r;
    }
    r.push(0x50u8);
    r.push(0x41u8);
    r.push(0x52u8);
    r.push(0x31u8);
    let mut i: usize = 0;
    while i < json.len()
        invariant
            i <= json@.len(),
            r@ == par1() + json@.take(i as int),
        decreases json@.len() - i,
    {
        r.push(json[i]);
        assert(par1() + json@.take(i + 1) =~= (par1() + json@.take(i as int)).push(json@[i as int]));
        i = i + 1;
    }
    assert(json@.take(json@.len() as int) =~= json@);
    r.push(0x50u8);
    r.push(0x41u8);
    r.push(0x52u8);
    r.push(0x31u8);
    assert(r@ =~= par1() + json@ + par1());
    r
}

/// Is an export in Parquet form? Only for the format `parquet`; `json` is
/// the default.
pub fn export_is_parquet(format: Option<&str>) -> (r: bool)
    ensures
        r == match format {
            Some(f) => f@ == "parquet"@,
            None => false,
        },
{
    match format {
        Some(f) => str_eq(f, "parquet"),
        None => false,
    }
}

// ---------------------------------------------------------------------------
// Replay windows
// ---------------------------------------------------------------------------

/// The instant, or chrono's error message, that parsing a text as a UTC
/// date-time gives.
pub uninterp spec fn spec_parse_utc(s: Seq<char>) -> Result<(i64, u32), Seq<char>>;

/// The view of a parse result.
pub open spec fn parse_view(r: Result<(i64, u32), String>) -> Result<(i64, u32), Seq<char>> {
    match r {
        Ok(t) => Ok(t),
        Err(e) => Err(e@),
    }
}

/// Calls `str::parse::<chrono::DateTime<chrono::Utc>>`. Claimed: the
/// outcome (the instant, or the text of chrono's error) is the fixed
/// function `spec_parse_utc` of the text; the accepted formats are not
/// restated.
#[verifier::external_body]
fn parse_utc(s: &str) -> (r: Result<(i64, u32), String>)
    ensures
        parse_view(r) == spec_parse_utc(s@),
{
    match s.parse::<chrono::DateTime<chrono::Utc>>() {
        Ok(t) => Ok((t.timestamp(), t.timestamp_subsec_nanos())),
        Err(e) => Err(e.to_string()),
    }
}

/// The window of a replay request, or the message of its 400 answer.
pub open spec fn replay_window_spec(from: Seq<char>, to: Option<Seq<char>>) -> Result<((i64, u32), Option<(i64, u32)>), Seq<char>> {
    match spec_parse_utc(from) {
        Err(m) => Err("invalid 'from' timestamp: "@ + m),
        Ok(f) => match to {
            None => Ok((f, None)),
            Some(t) => match spec_parse_utc(t) {
                Err(m) => Err("invalid 'to' timestamp: "@ + m),
                Ok(tt) => Ok((f, Some(tt))),
            },
        },
    }
}

/// The (from, optional to) window of a replay request: `from` is
/// required, `to` optional; a text that does not parse is refused with a
/// message naming the field.
pub fn replay_window(from: &str, to: Option<&str>) -> (r: Result<((i64, u32), Option<(i64, u32)>), String>)
    ensures
        match r {
            Ok(w) => replay_window_spec(from@, match to {
                Some(t) => Some(t@),
                None => None,
            }) == Ok::<((i64, u32), Option<(i64, u32)>), Seq<char>>(w),
            Err(m) => replay_window_spec(from@, match to {
                Some(t) => Some(t@),
                None => None,
            }) == Err::<((i64, u32), Option<(i64, u32)>), Seq<char>>(m@),
        },
{
    let f = match parse_utc(from) {
        Ok(f) => f,
        Err(m) => {
            let mut msg = String::from_str("invalid 'from' timestamp: ");
            msg.append(m.as_str());
            return Err(msg);
        },
    };
    match to {
        None => Ok((f, None)),
        Some(t) => match parse_utc(t) {
            Ok(tt) => Ok((f, Some(tt))),
            Err(m) => {
                let mut msg = String::from_str("invalid 'to' timestamp: ");
                msg.append(m.as_str());
                Err(msg)
            },
        },
    }
}

// ---------------------------------------------------------------------------
// Config keys, feature flags, commands
// ---------------------------------------------------------------------------

/// The refusal of a config key that looks like a secret, or `None` for a
/// key that may be stored in the config store.
pub fn config_key_rejection(key: &str) -> (r: Option<String>)
    ensures
        lowercased_key_is_sensitive(spec_to_lowercase(key@)) ==> (r matches Some(m) && m@
            == "config key '"@ + key@ + "' looks like a secret \u{2014} use the secrets store (picloud secret set) instead"@),
        !lowercased_key_is_sensitive(spec_to_lowercase(key@)) ==> r is None,
{
    if is_sensitive_config_key(key) {
        let mut m = String::from_str("config key '");
        m.append(key);
        m.append("' looks like a secret \u{2014} use the secrets store (picloud secret set) instead");
        Some(m)
    } else {
        None
    }
}

/// A feature flag is active when its `flagEnabled` value is the text
/// `true` and its version expression matches the running product's major
/// version (`version_matches`: `None` when the product version or the
/// expression could not be read).
pub fn flag_active(enabled: &str, version_matches: Option<bool>) -> (r: bool)
    ensures
        r == (enabled@ == "true"@ && version_matches == Some(true)),
{
    let is_true = str_eq(enabled, "true");
    is_true && match version_matches {
        Some(m) => m,
        None => false,
    }
}

/// The event type of a command: the one given, else `Command`.
pub fn command_event_type(event_type: Option<&str>) -> (r: String)
    ensures
        r@ == match event_type {
            Some(t) => t@,
            None => "Command"@,
        },
{
    match event_type {
        Some(t) => String::from_str(t),
        None => String::from_str("Command"),
    }
}

/// The source text of a command: the one given, else
/// `{cluster_root}/api/commands`.
pub fn command_source_text(source: Option<&str>, cluster_root: &str) -> (r: String)
    ensures
        r@ == match source {
            Some(s) => s@,
            None => cluster_root@ + "/api/commands"@,
        },
{
    match source {
        Some(s) => String::from_str(s),
        None => {
            let mut m = String::from_str(cluster_root);
            m.append("/api/commands");
            m
        },
    }
}

/// The source IRI of a command: its source text when that is a valid
/// resource IRI (`valid`), else the text filed under
/// `{cluster_root}/external/`.
pub fn command_source_iri(source: &str, cluster_root: &str, valid: bool) -> (r: String)
    ensures
        r@ == if valid { source@ } else { cluster_root@ + "/external/"@ + source@ },
{
    if valid {
        return String::from_str(source);
    }
    let mut m = String::from_str(cluster_root);
    m.append("/external/");
    m.append(source);
    m
}

// ---------------------------------------------------------------------------
// Event store reads
// ---------------------------------------------------------------------------

/// The number of events a product event-store read returns at most: the
/// `limit` parameter when it parses as a count, else 100.
pub fn event_read_limit(limit: Option<&str>) -> (r: u64)
    ensures
        r == match limit {
            Some(l) => match parse_u64(l@) {
                Some(n) => n,
                None => 100,
            },
            None => 100,
        },
{
    match limit {
        Some(l) => match parse_u64_str(l) {
            Some(n) => n,
            None => 100,
        },
        None => 100,
    }
}

/// Where a logged event comes from: its product scope and its source IRI.
#[derive(Debug)]
pub struct EventOrigin {
    pub product: Option<String>,
    pub source: String,
}

/// Is the event scoped to `product` (and, when a stream is given, does it
/// come from that stream)?
pub open spec fn event_selected(e: EventOrigin, product: Seq<char>, stream: Option<Seq<char>>) -> bool {
    &&& e.product matches Some(p) && p@ == product
    &&& match stream {
        Some(st) => e.source@ == st,
        None => true,
    }
}

/// The positions, in log order, of the selected events among the first `n`.
pub open spec fn selected_positions(
    events: Seq<EventOrigin>,
    product: Seq<char>,
    stream: Option<Seq<char>>,
    n: nat,
) -> Seq<usize>
    decreases n,
{
    if n == 0 {
        Seq::empty()
    } else {
        let prev = selected_positions(events, product, stream, (n - 1) as nat);
        if event_selected(events[n - 1], product, stream) {
            prev.push((n - 1) as usize)
        } else {
            prev
        }
    }
}

/// At most the first `k` items of a sequence.
pub open spec fn at_most<A>(s: Seq<A>, k: nat) -> Seq<A> {
    if k >= s.len() {
        s
    } else {
        s.take(k as int)
    }
}

proof fn lemma_selected_positions_len(
    events: Seq<EventOrigin>,
    product: Seq<char>,
    stream: Option<Seq<char>>,
    n: nat,
)
    ensures
        selected_positions(events, product, stream, n).len() <= n,
    decreases n,
{
    if n > 0 {
        lemma_selected_positions_len(events, product, stream, (n - 1) as nat);
    }
}

/// The positions of the events a read returns, in log order: those scoped
/// to `product` (and from `stream`, when given), the first `limit` of them
/// when a limit is given.
pub fn select_events(events: &[EventOrigin], product: &str, stream: Option<&str>, limit: Option<u64>) -> (r: Vec<
    usize,
>)
    ensures
        r@ == match limit {
            Some(k) => at_most(
                selected_positions(events@, product@, opt_view(stream), events@.len()),
                k as nat,
            ),
            None => selected_positions(events@, product@, opt_view(stream), events@.len()),
        },
{
    let ghost st = opt_view(stream);
    let mut r: Vec<usize> = Vec::new();
    let mut i: usize = 0;
    while i < events.len()
        invariant
            i <= events@.len(),
            st == opt_view(stream),
            r@ == match limit {
                Some(k) => at_most(selected_positions(events@, product@, st, i as nat), k as nat),
                None => selected_positions(events@, product@, st, i as nat),
            },
        decreases events.len() - i,
    {
        let e = &events[i];
        let in_scope = match &e.product {
            Some(p) => str_eq(p.as_str(), product),
            None => false,
        };
        let from_stream = match stream {
            Some(sv) => str_eq(e.source.as_str(), sv),
            None => true,
        };
        let ghost prev = selected_positions(events@, product@, st, i as nat);
        proof {
            lemma_selected_positions_len(events@, product@, st, i as nat);
            assert(selected_positions(events@, product@, st, (i + 1) as nat) == if event_selected(
                events@[i as int],
                product@,
                st,
            ) {
                prev.push(i)
            } else {
                prev
            });
        }
        if in_scope && from_stream {
            let room = match limit {
                Some(k) => (r.len() as u64) < k,
                None => true,
            };
            if room {
                r.push(i);
            }
            proof {
                match limit {
                    Some(k) => {
                        if k == prev.len() {
                            assert(prev.push(i).take(k as int) =~= prev);
                        } else if k < prev.len() {
                            assert(prev.push(i).take(k as int) =~= prev.take(k as int));
                        }
                    },
                    None => {},
                }
            }
        }
        i = i + 1;
    }
    assert(events@.len() == events.len());
    r
}

/// The view of an optional `&str`.
pub open spec fn opt_view(s: Option<&str>) -> Option<Seq<char>> {
    match s {
        Some(x) => Some(x@),
        None => None,
    }
}

} // verus!
