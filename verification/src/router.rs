//! Ingress router: the in-memory routing table kept in step with ingress
//! events. External routes are keyed by hostname; internal (mesh-only)
//! routes form one list. A lookup picks the route whose path prefix is the
//! longest one that the request path starts with.

use vstd::prelude::*;

use crate::text::{chars_of, starts_with, starts_with_chars, str_eq};

verus! {

broadcast use vstd::string::group_string_axioms;

/// The mathematical value of a [`RouteEntry`].
pub struct RouteModel {
    pub path_prefix: Seq<char>,
    pub upstream_addr: Seq<char>,
    pub upstream_port: u16,
    pub product: Seq<char>,
    pub internal: bool,
    pub ingress_iri: Seq<char>,
}

/// One route of the table.
#[derive(Debug, Clone)]
pub struct RouteEntry {
    /// Path prefix to match (e.g. "/api", "/"). Longest prefix wins.
    pub path_prefix: String,
    /// Upstream address of the workload.
    pub upstream_addr: String,
    /// Upstream port of the workload.
    pub upstream_port: u16,
    /// Product that owns this route.
    pub product: String,
    /// Whether this is an internal-only route.
    pub internal: bool,
    /// IRI of the ingress resource that created this route.
    pub ingress_iri: String,
}

impl View for RouteEntry {
    type V = RouteModel;

    open spec fn view(&self) -> RouteModel {
        RouteModel {
            path_prefix: self.path_prefix@,
            upstream_addr: self.upstream_addr@,
            upstream_port: self.upstream_port,
            product: self.product@,
            internal: self.internal,
            ingress_iri: self.ingress_iri@,
        }
    }
}

impl RouteEntry {
    /// A copy of this entry.
    pub fn copy(&self) -> (r: RouteEntry)
        ensures
            r@ == self@,
    {
        RouteEntry {
            path_prefix: String::from_str(self.path_prefix.as_str()),
            upstream_addr: String::from_str(self.upstream_addr.as_str()),
            upstream_port: self.upstream_port,
            product: String::from_str(self.product.as_str()),
            internal: self.internal,
            ingress_iri: String::from_str(self.ingress_iri.as_str()),
        }
    }
}

/// The routes of one hostname.
#[derive(Debug)]
pub struct HostRoutes {
    pub host: String,
    pub routes: Vec<RouteEntry>,
}

/// The values of a vector of routes.
pub open spec fn rviews(v: Seq<RouteEntry>) -> Seq<RouteModel> {
    v.map_values(|e: RouteEntry| e@)
}

/// The value of the external table: hostnames with their routes, in table order.
pub open spec fn hviews(v: Seq<HostRoutes>) -> Seq<(Seq<char>, Seq<RouteModel>)> {
    v.map_values(|h: HostRoutes| (h.host@, rviews(h.routes@)))
}

// ---------------------------------------------------------------------------
// Longest-prefix selection
// ---------------------------------------------------------------------------

/// Route `i` of `rs` matches `path`.
pub open spec fn route_matches(rs: Seq<RouteModel>, path: Seq<char>, i: int) -> bool {
    0 <= i < rs.len() && starts_with(path, rs[i].path_prefix)
}

/// Route `i` is the one a longest-prefix search picks: it matches, no
/// matching route has a longer prefix, and later matching routes have
/// shorter ones (of equally long prefixes the last one wins).
pub open spec fn route_best(rs: Seq<RouteModel>, path: Seq<char>, i: int) -> bool {
    &&& route_matches(rs, path, i)
    &&& forall|j: int| route_matches(rs, path, j) ==> rs[j].path_prefix.len() <= rs[i].path_prefix.len()
    &&& forall|j: int| i < j && route_matches(rs, path, j) ==> rs[j].path_prefix.len() < rs[i].path_prefix.len()
}

/// The route a lookup of `path` among `rs` selects.
pub open spec fn route_lookup(rs: Seq<RouteModel>, path: Seq<char>) -> Option<RouteModel> {
    if exists|i: int| route_best(rs, path, i) {
        Some(rs[choose|i: int| route_best(rs, path, i)])
    } else {
        None
    }
}

/// At most one route is the best.
pub proof fn lemma_best_unique(rs: Seq<RouteModel>, path: Seq<char>, i: int, j: int)
    requires
        route_best(rs, path, i),
        route_best(rs, path, j),
    ensures
        i == j,
{
    if i < j {
        assert(rs[j].path_prefix.len() < rs[i].path_prefix.len());
    } else if j < i {
        assert(rs[i].path_prefix.len() < rs[j].path_prefix.len());
    }
}

/// When some route matches, a best route exists.
pub proof fn lemma_best_exists(rs: Seq<RouteModel>, path: Seq<char>, m: int)
    requires
        route_matches(rs, path, m),
    ensures
        exists|i: int| route_best(rs, path, i),
    decreases rs.len(),
{
    let n = rs.len() - 1;
    let p = rs.drop_last();
    if exists|k: int| route_matches(p, path, k) {
        let k = choose|k: int| route_matches(p, path, k);
        lemma_best_exists(p, path, k);
        let b = choose|b: int| route_best(p, path, b);
        assert forall|j: int| route_matches(rs, path, j) && j < n implies route_matches(p, path, j) by {
        }
        if route_matches(rs, path, n) && rs[n].path_prefix.len() >= rs[b].path_prefix.len() {
            assert(route_best(rs, path, n));
        } else {
            assert(route_best(rs, path, b));
        }
    } else {
        assert forall|j: int| route_matches(rs, path, j) implies j == n by {
            if j < n {
                assert(route_matches(p, path, j));
            }
        }
        assert(route_best(rs, path, n));
    }
}

/// The index of the best route for `path`, if any route matches.
fn best_route(routes: &Vec<RouteEntry>, path: &[char]) -> (r: Option<usize>)
    ensures
        match r {
            Some(i) => route_best(rviews(routes@), path@, i as int),
            None => forall|j: int| !route_matches(rviews(routes@), path@, j),
        },
{
    let ghost rs = rviews(routes@);
    let mut best: Option<usize> = None;
    let mut best_len: usize = 0;
    let mut i: usize = 0;
    while i < routes.len()
        invariant
            i <= routes@.len() == rs.len(),
            rs == rviews(routes@),
            match best {
                Some(b) => b < i && route_matches(rs, path@, b as int) && best_len == rs[b as int].path_prefix.len() && (
                forall|j: int| 0 <= j < i && route_matches(rs, path@, j) ==> rs[j].path_prefix.len() <= rs[b as int].path_prefix.len())
                    && (forall|j: int|
                    b < j < i && route_matches(rs, path@, j) ==> rs[j].path_prefix.len() < rs[b as int].path_prefix.len()),
                None => forall|j: int| 0 <= j < i ==> !route_matches(rs, path@, j),
            },
        decreases routes@.len() - i,
    {
        let pre = chars_of(routes[i].path_prefix.as_str());
        assert(rs[i as int] == routes@[i as int]@);
        if starts_with_chars(path, pre.as_slice()) {
            match best {
                Some(_) => {
                    if pre.len() >= best_len {
                        best = Some(i);
                        best_len = pre.len();
                    }
                },
                None => {
                    best = Some(i);
                    best_len = pre.len();
                },
            }
        }
        i = i + 1;
    }
    best
}

/// The selected route among `routes` for `path`, copied out.
fn lookup_in(routes: &Vec<RouteEntry>, path: &[char]) -> (r: Option<RouteEntry>)
    ensures
        match r {
            Some(e) => route_lookup(rviews(routes@), path@) == Some(e@),
            None => route_lookup(rviews(routes@), path@) is None,
        },
{
    match best_route(routes, path) {
        Some(i) => {
            proof {
                let rs = rviews(routes@);
                let c = choose|c: int| route_best(rs, path@, c);
                lemma_best_unique(rs, path@, i as int, c);
            }
            Some(routes[i].copy())
        },
        None => None,
    }
}

// ---------------------------------------------------------------------------
// Table operations on route lists
// ---------------------------------------------------------------------------

/// `rs` without the routes created by ingress `iri`.
pub open spec fn without_iri(rs: Seq<RouteModel>, iri: Seq<char>) -> Seq<RouteModel>
    decreases rs.len(),
{
    if rs.len() == 0 {
        rs
    } else if rs.last().ingress_iri == iri {
        without_iri(rs.drop_last(), iri)
    } else {
        without_iri(rs.drop_last(), iri).push(rs.last())
    }
}

/// `r` pointed at `new` when its upstream is `old`.
pub open spec fn reroute_one(r: RouteModel, old: Seq<char>, new: Seq<char>) -> RouteModel {
    if r.upstream_addr == old {
        RouteModel { upstream_addr: new, ..r }
    } else {
        r
    }
}

/// Every route of `rs` rerouted from `old` to `new`.
pub open spec fn reroute(rs: Seq<RouteModel>, old: Seq<char>, new: Seq<char>) -> Seq<RouteModel> {
    rs.map_values(|r: RouteModel| reroute_one(r, old, new))
}

/// Copies of the routes of `routes` not created by ingress `iri`.
fn copy_without_iri(routes: &Vec<RouteEntry>, iri: &str) -> (r: Vec<RouteEntry>)
    ensures
        rviews(r@) == without_iri(rviews(routes@), iri@),
{
    let ghost rs = rviews(routes@);
    let mut out: Vec<RouteEntry> = Vec::new();
    let mut i: usize = 0;
    assert(rs.take(0) =~= Seq::<RouteModel>::empty());
    assert(rviews(out@) =~= Seq::<RouteModel>::empty());
    while i < routes.len()
        invariant
            i <= routes@.len() == rs.len(),
            rs == rviews(routes@),
            rviews(out@) == without_iri(rs.take(i as int), iri@),
        decreases routes@.len() - i,
    {
        assert(rs.take(i + 1).drop_last() =~= rs.take(i as int));
        assert(rs.take(i + 1).last() == routes@[i as int]@);
        if !str_eq(routes[i].ingress_iri.as_str(), iri) {
            let c = routes[i].copy();
            let ghost before = out@;
            out.push(c);
            assert(rviews(out@) =~= rviews(before).push(c@));
        }
        i = i + 1;
    }
    assert(rs.take(routes@.len() as int) =~= rs);
    out
}

/// Copies of `routes` with upstream `old` replaced by `new`.
fn copy_rerouted(routes: &Vec<RouteEntry>, old: &str, new: &str) -> (r: Vec<RouteEntry>)
    ensures
        rviews(r@) == reroute(rviews(routes@), old@, new@),
{
    let ghost rs = rviews(routes@);
    let mut out: Vec<RouteEntry> = Vec::new();
    let mut i: usize = 0;
    while i < routes.len()
        invariant
            i <= routes@.len() == rs.len(),
            rs == rviews(routes@),
            out@.len() == i,
            forall|k: int| 0 <= k < i ==> #[trigger] out@[k]@ == reroute_one(rs[k], old@, new@),
        decreases routes@.len() - i,
    {
        let mut c = routes[i].copy();
        if str_eq(c.upstream_addr.as_str(), old) {
            c.upstream_addr = String::from_str(new);
        }
        out.push(c);
        i = i + 1;
    }
    assert(rviews(out@) =~= reroute(rs, old@, new@));
    out
}

/// The number of routes in a host table.
pub open spec fn total_routes(hs: Seq<(Seq<char>, Seq<RouteModel>)>) -> nat
    decreases hs.len(),
{
    if hs.len() == 0 {
        0
    } else {
        total_routes(hs.drop_last()) + hs.last().1.len()
    }
}

proof fn lemma_total_push(hs: Seq<(Seq<char>, Seq<RouteModel>)>, x: (Seq<char>, Seq<RouteModel>))
    ensures
        total_routes(hs.push(x)) == total_routes(hs) + x.1.len(),
{
    assert(hs.push(x).drop_last() =~= hs);
}

proof fn lemma_total_update(hs: Seq<(Seq<char>, Seq<RouteModel>)>, k: int, x: (Seq<char>, Seq<RouteModel>))
    requires
        0 <= k < hs.len(),
    ensures
        total_routes(hs.update(k, x)) + hs[k].1.len() == total_routes(hs) + x.1.len(),
    decreases hs.len(),
{
    if k < hs.len() - 1 {
        lemma_total_update(hs.drop_last(), k, x);
        assert(hs.update(k, x).drop_last() =~= hs.drop_last().update(k, x));
    } else {
        assert(hs.update(k, x).drop_last() =~= hs.drop_last());
    }
}

// ---------------------------------------------------------------------------
// The router
// ---------------------------------------------------------------------------

/// Does the host table have an entry for `host`?
pub open spec fn has_host(hs: Seq<(Seq<char>, Seq<RouteModel>)>, host: Seq<char>) -> bool {
    exists|k: int| 0 <= k < hs.len() && #[trigger] hs[k].0 == host
}

/// The routes of `host` (none when it has no entry).
pub open spec fn routes_for(hs: Seq<(Seq<char>, Seq<RouteModel>)>, host: Seq<char>) -> Seq<RouteModel> {
    if has_host(hs, host) {
        hs[choose|k: int| 0 <= k < hs.len() && #[trigger] hs[k].0 == host].1
    } else {
        Seq::<RouteModel>::empty()
    }
}

/// Hostnames are distinct and every listed hostname has a route.
pub open spec fn hosts_wf(hs: Seq<(Seq<char>, Seq<RouteModel>)>) -> bool {
    &&& forall|i: int, j: int| 0 <= i < hs.len() && 0 <= j < hs.len() && i != j ==> hs[i].0 != hs[j].0
    &&& forall|i: int| 0 <= i < hs.len() ==> #[trigger] hs[i].1.len() > 0
}

proof fn lemma_routes_for_at(hs: Seq<(Seq<char>, Seq<RouteModel>)>, k: int)
    requires
        hosts_wf(hs),
        0 <= k < hs.len(),
    ensures
        has_host(hs, hs[k].0),
        routes_for(hs, hs[k].0) == hs[k].1,
{
    assert(has_host(hs, hs[k].0));
    let c = choose|c: int| 0 <= c < hs.len() && #[trigger] hs[c].0 == hs[k].0;
    assert(c == k);
}

/// The ingress router: external routes per hostname and internal routes.
pub struct IngressRouter {
    external: Vec<HostRoutes>,
    internal: Vec<RouteEntry>,
}

impl IngressRouter {
    /// The external table as hostnames with route values.
    pub closed spec fn hosts(&self) -> Seq<(Seq<char>, Seq<RouteModel>)> {
        hviews(self.external@)
    }

    /// The internal routes.
    pub closed spec fn internal_routes(&self) -> Seq<RouteModel> {
        rviews(self.internal@)
    }

    /// Well-formedness: hostnames distinct, none without routes.
    pub open spec fn wf(&self) -> bool {
        hosts_wf(self.hosts())
    }

    /// The external routes of `host`.
    pub open spec fn external_routes(&self, host: Seq<char>) -> Seq<RouteModel> {
        routes_for(self.hosts(), host)
    }

    /// An empty router.
    pub fn new() -> (r: IngressRouter)
        ensures
            r.wf(),
            r.hosts().len() == 0,
            r.internal_routes().len() == 0,
            forall|h: Seq<char>| #[trigger] r.external_routes(h).len() == 0,
    {
        let r = IngressRouter { external: Vec::new(), internal: Vec::new() };
        assert(r.hosts() =~= Seq::<(Seq<char>, Seq<RouteModel>)>::empty());
        r
    }

    /// The index of `host` in the external table.
    fn find_host(&self, host: &str) -> (r: Option<usize>)
        ensures
            match r {
                Some(k) => k < self.hosts().len() && self.hosts()[k as int].0 == host@,
                None => !has_host(self.hosts(), host@),
            },
    {
        let mut k: usize = 0;
        while k < self.external.len()
            invariant
                k <= self.external@.len() == self.hosts().len(),
                forall|j: int| 0 <= j < k ==> #[trigger] self.hosts()[j].0 != host@,
            decreases self.external@.len() - k,
        {
            if str_eq(self.external[k].host.as_str(), host) {
                return Some(k);
            }
            k = k + 1;
        }
        None
    }

    /// Look up a route for a request by hostname and path: the best
    /// (longest-prefix) external route of that host.
    pub fn lookup(&self, host: &str, path: &str) -> (r: Option<RouteEntry>)
        requires
            self.wf(),
        ensures
            match r {
                Some(e) => route_lookup(self.external_routes(host@), path@) == Some(e@),
                None => route_lookup(self.external_routes(host@), path@) is None,
            },
    {
        let pv = chars_of(path);
        match self.find_host(host) {
            Some(k) => {
                proof {
                    lemma_routes_for_at(self.hosts(), k as int);
                }
                lookup_in(&self.external[k].routes, pv.as_slice())
            },
            None => {
                proof {
                    assert(self.external_routes(host@) =~= Seq::<RouteModel>::empty());
                }
                None
            },
        }
    }

    /// Look up a route in the internal table by path.
    pub fn lookup_internal(&self, path: &str) -> (r: Option<RouteEntry>)
        ensures
            match r {
                Some(e) => route_lookup(self.internal_routes(), path@) == Some(e@),
                None => route_lookup(self.internal_routes(), path@) is None,
            },
    {
        let pv = chars_of(path);
        lookup_in(&self.internal, pv.as_slice())
    }

    /// Add or update a route. An internal entry replaces the internal route
    /// of the same ingress IRI; an external one replaces the route of the
    /// same ingress IRI under `hostname`. The new route comes last.
    pub fn upsert_route(&mut self, hostname: String, entry: RouteEntry)
        requires
            old(self).wf(),
        ensures
            final(self).wf(),
            entry.internal ==> {
                &&& final(self).internal_routes() == without_iri(old(self).internal_routes(), entry.ingress_iri@).push(entry@)
                &&& final(self).hosts() == old(self).hosts()
            },
            !entry.internal ==> {
                &&& final(self).internal_routes() == old(self).internal_routes()
                &&& has_host(final(self).hosts(), hostname@)
                &&& final(self).external_routes(hostname@) == without_iri(old(self).external_routes(hostname@), entry.ingress_iri@).push(entry@)
                &&& hosts_agree_except(final(self).hosts(), old(self).hosts(), hostname@)
                &&& total_routes(final(self).hosts()) + old(self).external_routes(hostname@).len() == total_routes(old(self).hosts())
                    + without_iri(old(self).external_routes(hostname@), entry.ingress_iri@).len() + 1
            },
    {
        if entry.internal {
            let mut kept = copy_without_iri(&self.internal, entry.ingress_iri.as_str());
            let ghost ev = entry@;
            let ghost before = kept@;
            kept.push(entry);
            assert(rviews(kept@) =~= rviews(before).push(ev));
            self.internal = kept;
            return;
        }
        let ghost old_hosts = self.hosts();
        assert(old_hosts == old(self).hosts());
        match self.find_host(hostname.as_str()) {
            Some(k) => {
                proof {
                    lemma_routes_for_at(old_hosts, k as int);
                }
                let mut kept = copy_without_iri(&self.external[k].routes, entry.ingress_iri.as_str());
                let ghost ev = entry@;
                let ghost before = kept@;
                kept.push(entry);
                assert(rviews(kept@) =~= rviews(before).push(ev));
                let hr = HostRoutes { host: hostname, routes: kept };
                let ghost x = (hr.host@, rviews(hr.routes@));
                self.external.set(k, hr);
                proof {
                    assert(self.hosts() =~= old_hosts.update(k as int, x));
                    lemma_total_update(old_hosts, k as int, x);
                    assert(hosts_wf(self.hosts()));
                    lemma_routes_for_at(self.hosts(), k as int);
                    lemma_agree_except(self.hosts(), old_hosts, hostname@);
                    assert(x.0 == hostname@);
                    assert(has_host(self.hosts(), hostname@));
                    assert(old(self).external_routes(hostname@) == old_hosts[k as int].1);
                    assert(self.external_routes(hostname@) == x.1);
                    assert(self.internal_routes() == old(self).internal_routes());
                    assert(old_hosts == old(self).hosts());
                    assert(x.1.len() == without_iri(old(self).external_routes(hostname@), ev.ingress_iri).len() + 1);
                    assert(total_routes(self.hosts()) + old(self).external_routes(hostname@).len() == total_routes(
                        old(self).hosts(),
                    ) + without_iri(old(self).external_routes(hostname@), ev.ingress_iri).len() + 1);
                }
            },
            None => {
                let mut rs: Vec<RouteEntry> = Vec::new();
                let ghost ev = entry@;
                rs.push(entry);
                let hr = HostRoutes { host: hostname, routes: rs };
                let ghost x = (hr.host@, rviews(hr.routes@));
                assert(x.1 =~= seq![ev]);
                assert(without_iri(Seq::<RouteModel>::empty(), ev.ingress_iri) =~= Seq::<RouteModel>::empty());
                assert(old(self).external_routes(x.0) =~= Seq::<RouteModel>::empty());
                self.external.push(hr);
                proof {
                    assert(self.hosts() =~= old_hosts.push(x));
                    lemma_total_push(old_hosts, x);
                    assert(hosts_wf(self.hosts()));
                    lemma_routes_for_at(self.hosts(), old_hosts.len() as int);
                    assert(seq![ev] =~= Seq::<RouteModel>::empty().push(ev));
                    lemma_agree_except(self.hosts(), old_hosts, hostname@);
                    assert(x.0 == hostname@);
                    assert(has_host(self.hosts(), hostname@));
                    assert(self.external_routes(hostname@) == x.1);
                    assert(self.internal_routes() == old(self).internal_routes());
                    assert(old_hosts == old(self).hosts());
                    assert(x.1.len() == without_iri(old(self).external_routes(hostname@), ev.ingress_iri).len() + 1);
                    assert(total_routes(self.hosts()) + old(self).external_routes(hostname@).len() == total_routes(
                        old(self).hosts(),
                    ) + without_iri(old(self).external_routes(hostname@), ev.ingress_iri).len() + 1);
                }
            },
        }
    }

    /// Remove every route created by ingress `ingress_iri`, internal and
    /// external; hostnames left without routes disappear.
    pub fn remove_route(&mut self, ingress_iri: &str)
        requires
            old(self).wf(),
        ensures
            final(self).wf(),
            final(self).internal_routes() == without_iri(old(self).internal_routes(), ingress_iri@),
            forall|h: Seq<char>|
                #![trigger final(self).external_routes(h)]
                has_host(final(self).hosts(), h) == (has_host(old(self).hosts(), h) && without_iri(
                    old(self).external_routes(h),
                    ingress_iri@,
                ).len() > 0) && final(self).external_routes(h) == without_iri(old(self).external_routes(h), ingress_iri@),
    {
        let ghost old_hosts = self.hosts();
        let mut kept_hosts: Vec<HostRoutes> = Vec::new();
        let mut i: usize = 0;
        while i < self.external.len()
            invariant
                i <= self.external@.len() == old_hosts.len(),
                old_hosts == self.hosts(),
                hosts_wf(old_hosts),
                hosts_wf(hviews(kept_hosts@)),
                forall|k: int| 0 <= k < kept_hosts@.len() ==> exists|j: int| 0 <= j < i && #[trigger] hviews(kept_hosts@)[k].0 == old_hosts[j].0,
                forall|j: int|
                    0 <= j < i ==> (has_host(hviews(kept_hosts@), #[trigger] old_hosts[j].0) == (without_iri(old_hosts[j].1, ingress_iri@).len() > 0))
                        && routes_for(hviews(kept_hosts@), old_hosts[j].0) == without_iri(old_hosts[j].1, ingress_iri@),
            decreases self.external@.len() - i,
        {
            let kept = copy_without_iri(&self.external[i].routes, ingress_iri);
            let ghost kv = hviews(kept_hosts@);
            assert(old_hosts[i as int] == (self.external@[i as int].host@, rviews(self.external@[i as int].routes@)));
            if kept.len() > 0 {
                let h = String::from_str(self.external[i].host.as_str());
                let hr = HostRoutes { host: h, routes: kept };
                let ghost x = (hr.host@, rviews(hr.routes@));
                kept_hosts.push(hr);
                proof {
                    assert(hviews(kept_hosts@) =~= kv.push(x));
                    assert(x.0 == old_hosts[i as int].0);
                    assert forall|k: int| 0 <= k < kv.len() implies kv[k].0 != x.0 by {
                        let j = choose|j: int| 0 <= j < i && #[trigger] kv[k].0 == old_hosts[j].0;
                        assert(j != i);
                    }
                    assert(hosts_wf(hviews(kept_hosts@)));
                    lemma_routes_for_at(hviews(kept_hosts@), kv.len() as int);
                    assert forall|j: int| 0 <= j < i + 1 implies (has_host(hviews(kept_hosts@), #[trigger] old_hosts[j].0) == (without_iri(old_hosts[j].1, ingress_iri@).len() > 0))
                        && routes_for(hviews(kept_hosts@), old_hosts[j].0) == without_iri(old_hosts[j].1, ingress_iri@) by {
                        if j < i {
                            if has_host(kv, old_hosts[j].0) {
                                let m = choose|m: int| 0 <= m < kv.len() && #[trigger] kv[m].0 == old_hosts[j].0;
                                lemma_routes_for_at(kv, m);
                                lemma_routes_for_at(hviews(kept_hosts@), m);
                            } else {
                                if has_host(hviews(kept_hosts@), old_hosts[j].0) {
                                    let m = choose|m: int| 0 <= m < hviews(kept_hosts@).len() && #[trigger] hviews(kept_hosts@)[m].0 == old_hosts[j].0;
                                    if m < kv.len() {
                                        assert(kv[m].0 == old_hosts[j].0);
                                    }
                                }
                            }
                        }
                    }
                }
            } else {
                proof {
                    assert forall|k: int| 0 <= k < kv.len() implies kv[k].0 != old_hosts[i as int].0 by {
                        let j = choose|j: int| 0 <= j < i && #[trigger] kv[k].0 == old_hosts[j].0;
                    }
                    assert(!has_host(kv, old_hosts[i as int].0));
                }
            }
            i = i + 1;
        }
        self.external = kept_hosts;
        let internal = copy_without_iri(&self.internal, ingress_iri);
        self.internal = internal;
        proof {
            assert forall|h: Seq<char>|
                #![trigger routes_for(self.hosts(), h)]
                has_host(self.hosts(), h) == (has_host(old_hosts, h) && without_iri(routes_for(old_hosts, h), ingress_iri@).len() > 0)
                    && routes_for(self.hosts(), h) == without_iri(routes_for(old_hosts, h), ingress_iri@) by {
                if has_host(old_hosts, h) {
                    let j = choose|j: int| 0 <= j < old_hosts.len() && #[trigger] old_hosts[j].0 == h;
                    lemma_routes_for_at(old_hosts, j);
                } else {
                    assert(without_iri(Seq::<RouteModel>::empty(), ingress_iri@) =~= Seq::<RouteModel>::empty());
                    if has_host(self.hosts(), h) {
                        let m = choose|m: int| 0 <= m < self.hosts().len() && #[trigger] self.hosts()[m].0 == h;
                    }
                }
            }
        }
    }

    /// Point every route whose upstream is `old_addr` at `new_addr`.
    pub fn update_upstream(&mut self, old_addr: &str, new_addr: &str)
        requires
            old(self).wf(),
        ensures
            final(self).wf(),
            final(self).internal_routes() == reroute(old(self).internal_routes(), old_addr@, new_addr@),
            external_rerouted(final(self), old(self), old_addr@, new_addr@),
    {
        let ghost old_hosts = self.hosts();
        let mut out: Vec<HostRoutes> = Vec::new();
        let mut i: usize = 0;
        while i < self.external.len()
            invariant
                i <= self.external@.len() == old_hosts.len(),
                old_hosts == self.hosts(),
                hosts_wf(old_hosts),
                out@.len() == i,
                forall|k: int| 0 <= k < i ==> #[trigger] hviews(out@)[k] == (old_hosts[k].0, reroute(old_hosts[k].1, old_addr@, new_addr@)),
            decreases self.external@.len() - i,
        {
            let rs = copy_rerouted(&self.external[i].routes, old_addr, new_addr);
            let h = String::from_str(self.external[i].host.as_str());
            assert(old_hosts[i as int] == (self.external@[i as int].host@, rviews(self.external@[i as int].routes@)));
            let ghost prev = out@;
            out.push(HostRoutes { host: h, routes: rs });
            assert(hviews(out@) =~= hviews(prev).push((h@, rviews(rs@))));
            i = i + 1;
        }
        self.external = out;
        let internal = copy_rerouted(&self.internal, old_addr, new_addr);
        self.internal = internal;
        proof {
            assert forall|k: int| 0 <= k < self.hosts().len() implies #[trigger] self.hosts()[k] == (old_hosts[k].0, reroute(old_hosts[k].1, old_addr@, new_addr@)) by {
                assert(hviews(self.external@)[k] == (old_hosts[k].0, reroute(old_hosts[k].1, old_addr@, new_addr@)));
            }
            assert(hosts_wf(self.hosts()));
            assert(old_hosts == old(self).hosts());
            assert forall|h: Seq<char>|
                #![trigger self.external_routes(h)]
                #![trigger has_host(self.hosts(), h)]
                has_host(self.hosts(), h) == has_host(old(self).hosts(), h) && self.external_routes(h) == reroute(old(self).external_routes(h), old_addr@, new_addr@) by {
                if has_host(old_hosts, h) {
                    let j = choose|j: int| 0 <= j < old_hosts.len() && #[trigger] old_hosts[j].0 == h;
                    lemma_routes_for_at(old_hosts, j);
                    assert(self.hosts()[j].0 == h);
                    lemma_routes_for_at(self.hosts(), j);
                } else {
                    assert(reroute(Seq::<RouteModel>::empty(), old_addr@, new_addr@) =~= Seq::<RouteModel>::empty());
                    if has_host(self.hosts(), h) {
                        let m = choose|m: int| 0 <= m < self.hosts().len() && #[trigger] self.hosts()[m].0 == h;
                        assert(old_hosts[m].0 == h);
                    }
                }
            }
            assert(external_rerouted(self, old(self), old_addr@, new_addr@));
        }
    }

    /// Total number of routes across both tables.
    pub fn route_count(&self) -> (n: usize)
        requires
            total_routes(self.hosts()) + self.internal_routes().len() <= usize::MAX,
        ensures
            n == total_routes(self.hosts()) + self.internal_routes().len(),
    {
        let mut total: usize = 0;
        let mut i: usize = 0;
        let ghost hs = self.hosts();
        assert(hs.take(0) =~= Seq::<(Seq<char>, Seq<RouteModel>)>::empty());
        while i < self.external.len()
            invariant
                i <= self.external@.len() == hs.len(),
                hs == self.hosts(),
                total == total_routes(hs.take(i as int)),
                total_routes(hs.take(i as int)) <= total_routes(hs),
                total_routes(hs) + self.internal_routes().len() <= usize::MAX,
            decreases self.external@.len() - i,
        {
            proof {
                assert(hs.take(i + 1).drop_last() =~= hs.take(i as int));
                lemma_total_prefix(hs, i + 1);
            }
            total = total + self.external[i].routes.len();
            i = i + 1;
        }
        assert(hs.take(hs.len() as int) =~= hs);
        total + self.internal.len()
    }
}

/// Every hostname other than `host` has the same routes in both tables.
pub open spec fn hosts_agree_except(new: Seq<(Seq<char>, Seq<RouteModel>)>, old: Seq<(Seq<char>, Seq<RouteModel>)>, host: Seq<char>) -> bool {
    forall|h: Seq<char>|
        h != host ==> (has_host(new, h) == has_host(old, h)) && #[trigger] routes_for(new, h) == routes_for(old, h)
}

/// Replacing the routes of the host at `k`, or appending a new host,
/// leaves every other host as it was.
proof fn lemma_agree_except(new: Seq<(Seq<char>, Seq<RouteModel>)>, old: Seq<(Seq<char>, Seq<RouteModel>)>, host: Seq<char>)
    requires
        hosts_wf(old),
        hosts_wf(new),
        old.len() <= new.len() <= old.len() + 1,
        forall|j: int| 0 <= j < old.len() && old[j].0 != host ==> #[trigger] new[j] == old[j],
        forall|j: int| 0 <= j < new.len() && (j >= old.len() || old[j].0 == host) ==> #[trigger] new[j].0 == host,
    ensures
        hosts_agree_except(new, old, host),
{
    assert forall|h: Seq<char>| #![trigger routes_for(new, h)] #![trigger has_host(new, h)] h != host implies (has_host(new, h) == has_host(old, h)) && routes_for(new, h) == routes_for(old, h) by {
        if has_host(old, h) {
            let j = choose|j: int| 0 <= j < old.len() && #[trigger] old[j].0 == h;
            assert(new[j] == old[j]);
            assert(new[j].0 == h);
            lemma_routes_for_at(old, j);
            lemma_routes_for_at(new, j);
        }
        if has_host(new, h) {
            let j = choose|j: int| 0 <= j < new.len() && #[trigger] new[j].0 == h;
            if j >= old.len() || old[j].0 == host {
                assert(new[j].0 == host);
            } else {
                assert(new[j] == old[j]);
                assert(old[j].0 == h);
            }
        }
    }
}

/// The hostnames are the same and each one's routes are those of `old`
/// rerouted from `o` to `n`.
pub open spec fn external_rerouted(new: &IngressRouter, old: &IngressRouter, o: Seq<char>, n: Seq<char>) -> bool {
    forall|h: Seq<char>|
        has_host(new.hosts(), h) == has_host(old.hosts(), h) && #[trigger] new.external_routes(h) == reroute(
            old.external_routes(h),
            o,
            n,
        )
}

proof fn lemma_total_prefix(hs: Seq<(Seq<char>, Seq<RouteModel>)>, k: int)
    requires
        0 <= k <= hs.len(),
    ensures
        total_routes(hs.take(k)) <= total_routes(hs),
    decreases hs.len() - k,
{
    if k < hs.len() {
        lemma_total_prefix(hs, k + 1);
        assert(hs.take(k + 1).drop_last() =~= hs.take(k));
    } else {
        assert(hs.take(k) =~= hs);
    }
}

// ---------------------------------------------------------------------------
// Laws of the routing table
// ---------------------------------------------------------------------------

/// A lookup finds a route exactly when some route's prefix starts the path.
pub proof fn law_lookup_some_iff_match(rs: Seq<RouteModel>, path: Seq<char>)
    ensures
        route_lookup(rs, path) is Some <==> exists|i: int| route_matches(rs, path, i),
{
    if exists|i: int| route_matches(rs, path, i) {
        let m = choose|i: int| route_matches(rs, path, i);
        lemma_best_exists(rs, path, m);
    }
}

/// After a route is upserted, a lookup of any path under its prefix finds
/// a route: the upserted one, or one with a strictly longer prefix.
pub proof fn law_lookup_after_upsert(rs: Seq<RouteModel>, e: RouteModel, path: Seq<char>)
    requires
        starts_with(path, e.path_prefix),
    ensures
        match route_lookup(without_iri(rs, e.ingress_iri).push(e), path) {
            Some(r) => r == e || r.path_prefix.len() > e.path_prefix.len(),
            None => false,
        },
{
    let s = without_iri(rs, e.ingress_iri).push(e);
    let n = s.len() - 1;
    assert(s[n] == e);
    assert(route_matches(s, path, n));
    lemma_best_exists(s, path, n);
    let b = choose|b: int| route_best(s, path, b);
    if b != n {
        assert(s[n].path_prefix.len() < s[b].path_prefix.len());
    }
}

/// Every route kept by `without_iri` has another ingress IRI, and every
/// route of another IRI is kept.
pub proof fn lemma_without_iri_members(rs: Seq<RouteModel>, iri: Seq<char>)
    ensures
        forall|i: int| 0 <= i < without_iri(rs, iri).len() ==> #[trigger] without_iri(rs, iri)[i].ingress_iri != iri,
        without_iri(rs, iri).len() <= rs.len(),
    decreases rs.len(),
{
    if rs.len() > 0 {
        lemma_without_iri_members(rs.drop_last(), iri);
    }
}

/// Once a route's ingress is removed, no lookup returns a route of it.
pub proof fn law_removed_ingress_unreachable(rs: Seq<RouteModel>, iri: Seq<char>, path: Seq<char>)
    ensures
        match route_lookup(without_iri(rs, iri), path) {
            Some(r) => r.ingress_iri != iri,
            None => true,
        },
{
    lemma_without_iri_members(rs, iri);
}

/// After an upsert the upserted ingress owns exactly one route of its
/// host: the new one, at the end.
pub proof fn law_upsert_keeps_one_route_per_ingress(rs: Seq<RouteModel>, e: RouteModel)
    ensures
        forall|i: int|
            0 <= i < without_iri(rs, e.ingress_iri).push(e).len() && (#[trigger] without_iri(rs, e.ingress_iri).push(e)[i]).ingress_iri
                == e.ingress_iri ==> i == without_iri(rs, e.ingress_iri).len(),
{
    lemma_without_iri_members(rs, e.ingress_iri);
    let w = without_iri(rs, e.ingress_iri);
    assert forall|i: int| 0 <= i < w.push(e).len() && (#[trigger] w.push(e)[i]).ingress_iri == e.ingress_iri implies i == w.len() by {
        if i < w.len() {
            assert(w.push(e)[i] == w[i]);
        }
    }
}

/// Rerouting upstreams changes no lookup's choice, only the address of
/// the chosen route.
pub proof fn law_reroute_keeps_selection(rs: Seq<RouteModel>, o: Seq<char>, n: Seq<char>, path: Seq<char>)
    ensures
        route_lookup(reroute(rs, o, n), path) == match route_lookup(rs, path) {
            Some(r) => Some(reroute_one(r, o, n)),
            None => None,
        },
{
    let t = reroute(rs, o, n);
    assert forall|i: int| route_matches(t, path, i) == route_matches(rs, path, i) by {
        if 0 <= i < rs.len() {
            assert(t[i].path_prefix == rs[i].path_prefix);
        }
    }
    assert forall|i: int| route_best(t, path, i) == route_best(rs, path, i) by {
        if 0 <= i < rs.len() {
            assert forall|j: int| 0 <= j < rs.len() implies t[j].path_prefix == rs[j].path_prefix by {
            }
        }
    }
    if exists|i: int| route_best(rs, path, i) {
        let a = choose|i: int| route_best(rs, path, i);
        let b = choose|i: int| route_best(t, path, i);
        assert(route_best(t, path, a));
        lemma_best_unique(rs, path, a, b);
    }
}

} // verus!
