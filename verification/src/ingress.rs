//! Keeping the ingress router and the TLS certificates in step with ingress
//! events: a created or updated ingress (re)places its route, after its
//! host has a certificate when it is external; a deleted ingress loses its
//! route and its host's certificate; a rescheduled workload moves the
//! routes that pointed at its old address.

use vstd::prelude::*;

use crate::router::{external_rerouted, has_host, reroute, without_iri, IngressRouter, RouteEntry, RouteModel};
use crate::text::str_eq;
use crate::tls::TlsState;

verus! {

broadcast use vstd::string::group_string_axioms;

/// The events the ingress handler subscribes to.
pub open spec fn subscribed_events_spec() -> Seq<Seq<char>> {
    seq!["IngressCreated"@, "IngressUpdated"@, "IngressDeleted"@, "WorkloadRescheduled"@, "WorkloadFailed"@]
}

/// The event types the ingress handler subscribes to.
pub fn subscribed_events() -> (r: Vec<String>)
    ensures
        r@.map_values(|s: String| s@) == subscribed_events_spec(),
{
    let mut r: Vec<String> = Vec::new();
    r.push(String::from_str("IngressCreated"));
    r.push(String::from_str("IngressUpdated"));
    r.push(String::from_str("IngressDeleted"));
    r.push(String::from_str("WorkloadRescheduled"));
    r.push(String::from_str("WorkloadFailed"));
    assert(r@.map_values(|s: String| s@) =~= subscribed_events_spec());
    r
}

/// What an event means for ingress routing.
#[derive(Debug, Clone, Copy, PartialEq, Eq)]
pub enum IngressEvent {
    /// An ingress was created or updated.
    Upserted,
    /// An ingress was deleted.
    Deleted,
    /// A workload moved to another address.
    WorkloadRescheduled,
}

/// The meaning of an event type, if it concerns ingress routing.
pub open spec fn ingress_event_of(event_type: Seq<char>) -> Option<IngressEvent> {
    if event_type == "IngressCreated"@ || event_type == "IngressUpdated"@ {
        Some(IngressEvent::Upserted)
    } else if event_type == "IngressDeleted"@ {
        Some(IngressEvent::Deleted)
    } else if event_type == "WorkloadRescheduled"@ {
        Some(IngressEvent::WorkloadRescheduled)
    } else {
        None
    }
}

/// Classify an event type.
pub fn ingress_event(event_type: &str) -> (r: Option<IngressEvent>)
    ensures
        r == ingress_event_of(event_type@),
{
    if str_eq(event_type, "IngressCreated") || str_eq(event_type, "IngressUpdated") {
        Some(IngressEvent::Upserted)
    } else if str_eq(event_type, "IngressDeleted") {
        Some(IngressEvent::Deleted)
    } else if str_eq(event_type, "WorkloadRescheduled") {
        Some(IngressEvent::WorkloadRescheduled)
    } else {
        None
    }
}

/// The fields of an ingress event payload, where they have the expected
/// JSON type.
#[derive(Debug)]
pub struct IngressPayload {
    pub ingress_iri: Option<String>,
    pub product: Option<String>,
    pub path: Option<String>,
    pub upstream_addr: Option<String>,
    pub port: Option<u64>,
    pub internal: Option<bool>,
    pub host: Option<String>,
    pub old_address: Option<String>,
    pub new_address: Option<String>,
}

/// The text of an optional string, or a default.
pub open spec fn or_text(s: Option<String>, default: Seq<char>) -> Seq<char> {
    match s {
        Some(x) => x@,
        None => default,
    }
}

fn or_string(s: &Option<String>, default: &str) -> (r: String)
    ensures
        r@ == or_text(*s, default@),
{
    match s {
        Some(x) => String::from_str(x.as_str()),
        None => String::from_str(default),
    }
}

/// A route to place, under a host.
#[derive(Debug)]
pub struct IngressUpsert {
    /// The host the route serves.
    pub host: String,
    /// The route.
    pub entry: RouteEntry,
    /// Whether the host needs a certificate first (external routes do).
    pub needs_cert: bool,
}

/// The ingress IRI a route is filed under: the payload's when it is a valid
/// resource IRI (`iri_valid`), else the product's `unknown` ingress.
pub open spec fn upsert_iri(p: IngressPayload, iri_valid: bool) -> Seq<char> {
    if iri_valid {
        or_text(p.ingress_iri, ""@)
    } else {
        "https://picloud.local/products/"@ + or_text(p.product, "unknown"@) + "/ingresses/unknown"@
    }
}

/// The route a created or updated ingress places: defaults product
/// `unknown`, path `/`, upstream `127.0.0.1`, port 8080 (the low 16 bits of
/// a declared port), external, host `picloud.local`.
pub open spec fn upsert_entry(p: IngressPayload, iri_valid: bool) -> RouteModel {
    RouteModel {
        path_prefix: or_text(p.path, "/"@),
        upstream_addr: or_text(p.upstream_addr, "127.0.0.1"@),
        upstream_port: match p.port {
            Some(n) => (n % 0x1_0000) as u16,
            None => 8080,
        },
        product: or_text(p.product, "unknown"@),
        internal: match p.internal {
            Some(b) => b,
            None => false,
        },
        ingress_iri: upsert_iri(p, iri_valid),
    }
}

/// The route a created or updated ingress places takes each field the
/// payload gives, and the default of each field it leaves out: path prefix
/// `/`, upstream `127.0.0.1`, port 8080, product `unknown`, external. An
/// external route needs a certificate, an internal one does not.
pub proof fn law_upsert_takes_payload_fields(p: IngressPayload, iri_valid: bool)
    ensures
        p.path is Some ==> upsert_entry(p, iri_valid).path_prefix == p.path->0@,
        p.path is None ==> upsert_entry(p, iri_valid).path_prefix == "/"@,
        p.upstream_addr is Some ==> upsert_entry(p, iri_valid).upstream_addr == p.upstream_addr->0@,
        p.upstream_addr is None ==> upsert_entry(p, iri_valid).upstream_addr == "127.0.0.1"@,
        p.port is Some ==> upsert_entry(p, iri_valid).upstream_port == p.port->0 % 0x1_0000,
        p.port is None ==> upsert_entry(p, iri_valid).upstream_port == 8080,
        p.product is Some ==> upsert_entry(p, iri_valid).product == p.product->0@,
        p.product is None ==> upsert_entry(p, iri_valid).product == "unknown"@,
        p.internal is Some ==> upsert_entry(p, iri_valid).internal == p.internal->0,
        p.internal is None ==> !upsert_entry(p, iri_valid).internal,
        iri_valid && p.ingress_iri is Some ==> upsert_entry(p, iri_valid).ingress_iri == p.ingress_iri->0@,
{
}

/// What a created or updated ingress asks for; `iri_valid` says whether the
/// payload's ingress IRI is a valid resource IRI.
pub fn ingress_upsert(p: &IngressPayload, iri_valid: bool) -> (u: IngressUpsert)
    ensures
        u.host@ == or_text(p.host, "picloud.local"@),
        u.entry@ == upsert_entry(*p, iri_valid),
        u.needs_cert == !upsert_entry(*p, iri_valid).internal,
        p.path is Some ==> u.entry@.path_prefix == p.path->0@,
        p.path is None ==> u.entry@.path_prefix == "/"@,
        p.host is Some ==> u.host@ == p.host->0@,
        p.host is None ==> u.host@ == "picloud.local"@,
{
    proof {
        law_upsert_takes_payload_fields(*p, iri_valid);
    }
    let internal = match p.internal {
        Some(b) => b,
        None => false,
    };
    let port: u16 = match p.port {
        Some(n) => (n % 0x1_0000) as u16,
        None => 8080,
    };
    let entry = RouteEntry {
        path_prefix: or_string(&p.path, "/"),
        upstream_addr: or_string(&p.upstream_addr, "127.0.0.1"),
        upstream_port: port,
        product: or_string(&p.product, "unknown"),
        internal,
        ingress_iri: if iri_valid {
            or_string(&p.ingress_iri, "")
        } else {
            let mut fallback = String::from_str("https://picloud.local/products/");
            fallback.append(or_string(&p.product, "unknown").as_str());
            fallback.append("/ingresses/unknown");
            fallback
        },
    };
    IngressUpsert { host: or_string(&p.host, "picloud.local"), entry, needs_cert: !internal }
}

/// The ingress router and the per-host certificates, kept in step with
/// ingress events.
pub struct IngressEventHandler {
    router: IngressRouter,
    tls: TlsState,
}

impl IngressEventHandler {
    /// The router and the certificate table are well formed.
    pub closed spec fn wf(&self) -> bool {
        self.router.wf() && self.tls.wf()
    }

    /// The routing table.
    pub closed spec fn router_state(&self) -> IngressRouter {
        self.router
    }

    /// The certificate table.
    pub closed spec fn tls_state(&self) -> TlsState {
        self.tls
    }

    /// A handler over a router and a certificate table.
    pub fn new(router: IngressRouter, tls: TlsState) -> (h: IngressEventHandler)
        requires
            router.wf(),
            tls.wf(),
        ensures
            h.wf(),
            h.router_state() == router,
            h.tls_state() == tls,
    {
        IngressEventHandler { router, tls }
    }

    /// The routing table.
    pub fn router(&self) -> (r: &IngressRouter)
        requires
            self.wf(),
        ensures
            *r == self.router_state(),
            r.wf(),
    {
        &self.router
    }

    /// The certificate table.
    pub fn tls(&self) -> (t: &TlsState)
        requires
            self.wf(),
        ensures
            *t == self.tls_state(),
            t.wf(),
    {
        &self.tls
    }

    /// Keep a certificate the CA issued for a host.
    pub fn store_cert(&mut self, cert: crate::tls::IssuedCert)
        requires
            old(self).wf(),
        ensures
            final(self).wf(),
            final(self).router_state() == old(self).router_state(),
            final(self).tls_state().certs() == old(self).tls_state().certs().insert(cert.hostname@, cert.model()),
            final(self).tls_state().has_ca() == old(self).tls_state().has_ca(),
    {
        self.tls.store_cert(cert);
    }

    /// Place the route of a created or updated ingress (once its host has
    /// its certificate, when it needs one), replacing the ingress's
    /// earlier route.
    pub fn apply_upsert(&mut self, u: IngressUpsert)
        requires
            old(self).wf(),
        ensures
            final(self).wf(),
            final(self).tls_state() == old(self).tls_state(),
            u.entry.internal ==> final(self).router_state().internal_routes() == without_iri(
                old(self).router_state().internal_routes(),
                u.entry.ingress_iri@,
            ).push(u.entry@),
            !u.entry.internal ==> {
                &&& has_host(final(self).router_state().hosts(), u.host@)
                &&& final(self).router_state().external_routes(u.host@) == without_iri(
                    old(self).router_state().external_routes(u.host@),
                    u.entry.ingress_iri@,
                ).push(u.entry@)
            },
    {
        self.router.upsert_route(u.host, u.entry);
    }

    /// A deleted ingress: its routes go, and the certificate of its host,
    /// when the event names one.
    pub fn on_ingress_deleted(&mut self, ingress_iri: &str, host: &str)
        requires
            old(self).wf(),
        ensures
            final(self).wf(),
            final(self).router_state().internal_routes() == without_iri(old(self).router_state().internal_routes(), ingress_iri@),
            forall|h: Seq<char>|
                #![trigger final(self).router_state().external_routes(h)]
                final(self).router_state().external_routes(h) == without_iri(old(self).router_state().external_routes(h), ingress_iri@),
            host@.len() > 0 ==> final(self).tls_state().certs() == old(self).tls_state().certs().remove(host@),
            host@.len() == 0 ==> final(self).tls_state().certs() == old(self).tls_state().certs(),
    {
        self.router.remove_route(ingress_iri);
        if !host.is_empty() {
            self.tls.remove_cert(host);
        }
    }

    /// A rescheduled workload: routes to its old address now lead to the new
    /// one, when the event names both.
    pub fn on_workload_rescheduled(&mut self, old_addr: &str, new_addr: &str)
        requires
            old(self).wf(),
        ensures
            final(self).wf(),
            final(self).tls_state() == old(self).tls_state(),
            (old_addr@.len() > 0 && new_addr@.len() > 0) ==> {
                &&& final(self).router_state().internal_routes() == reroute(
                    old(self).router_state().internal_routes(),
                    old_addr@,
                    new_addr@,
                )
                &&& external_rerouted(&final(self).router_state(), &old(self).router_state(), old_addr@, new_addr@)
            },
            !(old_addr@.len() > 0 && new_addr@.len() > 0) ==> final(self).router_state() == old(self).router_state(),
    {
        if !old_addr.is_empty() && !new_addr.is_empty() {
            self.router.update_upstream(old_addr, new_addr);
        }
    }
}

} // verus!
