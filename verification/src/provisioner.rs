//! Resource provisioning decisions: which backend a declared resource
//! needs, the defaults of its declaration, the routes an ingress
//! registers, what a product deletion cascades to, and what a node failure
//! reschedules.
//!
//! Talking to the event log, the storage backend, the scheduler and the
//! secret store is the caller's business; each function here takes what
//! those returned and says what happens next.

use vstd::prelude::*;

use crate::implementation::{IngressRoute, IngressTable};
use crate::router::{has_host, without_iri, IngressRouter, RouteEntry};
use crate::text::str_eq;

verus! {

broadcast use vstd::string::group_string_axioms;

// ---------------------------------------------------------------------------
// Events the provisioner handles
// ---------------------------------------------------------------------------

/// The work an event gives the provisioner.
#[derive(Debug, Clone, Copy, PartialEq, Eq)]
pub enum ProvisionerTask {
    /// Provision a declared resource.
    Provision,
    /// Delete a product's resources.
    CascadeDelete,
    /// Reschedule the workloads of an unreachable node.
    Reschedule,
}

/// The task of an event type, if the provisioner handles it.
pub open spec fn task_of(event_type: Seq<char>) -> Option<ProvisionerTask> {
    if event_type == "ResourceDeclared"@ {
        Some(ProvisionerTask::Provision)
    } else if event_type == "ProductDeleted"@ {
        Some(ProvisionerTask::CascadeDelete)
    } else if event_type == "NodeUnreachable"@ {
        Some(ProvisionerTask::Reschedule)
    } else {
        None
    }
}

/// The task an event of `event_type` gives the provisioner.
pub fn provisioner_task(event_type: &str) -> (r: Option<ProvisionerTask>)
    ensures
        r == task_of(event_type@),
{
    if str_eq(event_type, "ResourceDeclared") {
        Some(ProvisionerTask::Provision)
    } else if str_eq(event_type, "ProductDeleted") {
        Some(ProvisionerTask::CascadeDelete)
    } else if str_eq(event_type, "NodeUnreachable") {
        Some(ProvisionerTask::Reschedule)
    } else {
        None
    }
}

/// The event types the provisioner subscribes to.
pub fn subscribed_event_types() -> (r: Vec<String>)
    ensures
        r@.map_values(|s: String| s@) == seq!["ResourceDeclared"@, "ProductDeleted"@, "NodeUnreachable"@],
{
    let mut r: Vec<String> = Vec::new();
    r.push(String::from_str("ResourceDeclared"));
    r.push(String::from_str("ProductDeleted"));
    r.push(String::from_str("NodeUnreachable"));
    assert(r@.map_values(|s: String| s@) =~= seq!["ResourceDeclared"@, "ProductDeleted"@, "NodeUnreachable"@]);
    r
}

// ---------------------------------------------------------------------------
// Declared resources
// ---------------------------------------------------------------------------

/// The backend a declared resource needs.
#[derive(Debug, Clone, Copy, PartialEq, Eq)]
pub enum ResourceKind {
    /// Allocated by the storage backend.
    Volume,
    /// Scheduled as a container.
    Container,
    /// Scheduled as a binary.
    Binary,
    /// Stored, encrypted, by the secret store.
    Secret,
    /// Registered with the ingress routing tables.
    Ingress,
    /// Needs no provisioning (event subscriptions).
    EventSubscription,
    /// Not a known type; marked ready as is.
    Unknown,
}

/// The kind of a `resource_type`.
pub open spec fn kind_of(resource_type: Seq<char>) -> ResourceKind {
    if resource_type == "Volume"@ {
        ResourceKind::Volume
    } else if resource_type == "Container"@ {
        ResourceKind::Container
    } else if resource_type == "Binary"@ {
        ResourceKind::Binary
    } else if resource_type == "Secret"@ {
        ResourceKind::Secret
    } else if resource_type == "Ingress"@ {
        ResourceKind::Ingress
    } else if resource_type == "EventSubscription"@ {
        ResourceKind::EventSubscription
    } else {
        ResourceKind::Unknown
    }
}

/// The backend a resource of `resource_type` needs.
pub fn resource_kind(resource_type: &str) -> (k: ResourceKind)
    ensures
        k == kind_of(resource_type@),
{
    if str_eq(resource_type, "Volume") {
        ResourceKind::Volume
    } else if str_eq(resource_type, "Container") {
        ResourceKind::Container
    } else if str_eq(resource_type, "Binary") {
        ResourceKind::Binary
    } else if str_eq(resource_type, "Secret") {
        ResourceKind::Secret
    } else if str_eq(resource_type, "Ingress") {
        ResourceKind::Ingress
    } else if str_eq(resource_type, "EventSubscription") {
        ResourceKind::EventSubscription
    } else {
        ResourceKind::Unknown
    }
}

/// A declaration is processed only when it names both its type and its
/// IRI; otherwise it is skipped and nothing is emitted.
pub fn declaration_complete(resource_type: Option<&str>, resource_iri: Option<&str>) -> (r: bool)
    ensures
        r == (resource_type is Some && resource_iri is Some),
{
    resource_type.is_some() && resource_iri.is_some()
}

/// The event type that closes a provisioning: `ResourceReady` when it
/// succeeded, `ResourceFailed` when it failed.
pub fn provisioning_result_event(succeeded: bool) -> (r: String)
    ensures
        r@ == if succeeded { "ResourceReady"@ } else { "ResourceFailed"@ },
{
    if succeeded {
        String::from_str("ResourceReady")
    } else {
        String::from_str("ResourceFailed")
    }
}

/// The text of an optional string, or a default.
pub open spec fn text_or(s: Option<Seq<char>>, default: Seq<char>) -> Seq<char> {
    match s {
        Some(x) => x,
        None => default,
    }
}

/// The view of an optional `&str`.
pub open spec fn opt_str(s: Option<&str>) -> Option<Seq<char>> {
    match s {
        Some(x) => Some(x@),
        None => None,
    }
}

fn string_or(s: Option<&str>, default: &str) -> (r: String)
    ensures
        r@ == text_or(opt_str(s), default@),
{
    match s {
        Some(x) => String::from_str(x),
        None => String::from_str(default),
    }
}

/// The size of a volume in GB: as declared, 1 by default.
pub fn volume_size_gb(size_gb: Option<u64>) -> (r: u64)
    ensures
        r == match size_gb {
            Some(n) => n,
            None => 1,
        },
{
    match size_gb {
        Some(n) => n,
        None => 1,
    }
}

/// (product, name, value) of a secret: `default`, `unknown` and the empty
/// text where the declaration leaves them out.
pub fn secret_fields(product: Option<&str>, name: Option<&str>, value: Option<&str>) -> (r: (String, String, String))
    ensures
        r.0@ == text_or(opt_str(product), "default"@),
        r.1@ == text_or(opt_str(name), "unknown"@),
        r.2@ == text_or(opt_str(value), ""@),
{
    (string_or(product, "default"), string_or(name, "unknown"), string_or(value, ""))
}

/// The image (or executable) and identity of a workload: `unknown` and
/// `default` where the declaration leaves them out.
pub fn workload_fields(program: Option<&str>, identity: Option<&str>) -> (r: (String, String))
    ensures
        r.0@ == text_or(opt_str(program), "unknown"@),
        r.1@ == text_or(opt_str(identity), "default"@),
{
    (string_or(program, "unknown"), string_or(identity, "default"))
}

/// A declared limit as `u32` (the low 32 bits of the declared number).
pub open spec fn limit_u32(v: Option<u64>) -> Option<u32> {
    match v {
        Some(n) => Some((n % 0x1_0000_0000) as u32),
        None => None,
    }
}

/// The CPU (millicores) and memory (MB) limits of a workload.
pub fn resource_limits(cpu_millicores: Option<u64>, memory_mb: Option<u64>) -> (r: (Option<u32>, Option<u32>))
    ensures
        r.0 == limit_u32(cpu_millicores),
        r.1 == limit_u32(memory_mb),
{
    let cpu = match cpu_millicores {
        Some(n) => Some((n % 0x1_0000_0000) as u32),
        None => None,
    };
    let mem = match memory_mb {
        Some(n) => Some((n % 0x1_0000_0000) as u32),
        None => None,
    };
    (cpu, mem)
}

/// The arguments of a binary: the string items of the declared list, in
/// order (other items are skipped).
pub fn binary_args(items: &Vec<Option<String>>) -> (r: Vec<String>)
    ensures
        r@.map_values(|s: String| s@) == string_items(items@),
{
    let mut r: Vec<String> = Vec::new();
    let mut i: usize = 0;
    while i < items.len()
        invariant
            i <= items@.len(),
            r@.map_values(|s: String| s@) == string_items(items@.take(i as int)),
        decreases items@.len() - i,
    {
        assert(items@.take(i + 1).drop_last() =~= items@.take(i as int));
        assert(items@.take(i + 1).last() == items@[i as int]);
        let ghost before = r@.map_values(|s: String| s@);
        match &items[i] {
            Some(s) => {
                r.push(String::from_str(s.as_str()));
                assert(r@.map_values(|s: String| s@) =~= before.push(s@));
            },
            None => {},
        }
        i = i + 1;
    }
    assert(items@.take(items@.len() as int) =~= items@);
    r
}

/// The texts of the present items, in order.
pub open spec fn string_items(items: Seq<Option<String>>) -> Seq<Seq<char>>
    decreases items.len(),
{
    if items.len() == 0 {
        Seq::empty()
    } else {
        let rest = string_items(items.drop_last());
        match items.last() {
            Some(s) => rest.push(s@),
            None => rest,
        }
    }
}

// ---------------------------------------------------------------------------
// Ingresses
// ---------------------------------------------------------------------------

/// An ingress declaration with its defaults applied.
#[derive(Debug)]
pub struct IngressDeclaration {
    pub path: String,
    pub target_port: u16,
    pub product: String,
    pub host: String,
    pub internal: bool,
}

/// The declared port as `u16` (its low 16 bits), 8080 when not declared.
pub open spec fn ingress_port(port: Option<u64>) -> u16 {
    match port {
        Some(n) => (n % 0x1_0000) as u16,
        None => 8080,
    }
}

/// Apply the defaults of an ingress declaration: path `/`, port 8080,
/// product `unknown`, host `picloud.local`, not internal.
pub fn ingress_declaration(
    path: Option<&str>,
    port: Option<u64>,
    product: Option<&str>,
    host: Option<&str>,
    internal: Option<bool>,
) -> (d: IngressDeclaration)
    ensures
        d.path@ == text_or(opt_str(path), "/"@),
        d.target_port == ingress_port(port),
        d.product@ == text_or(opt_str(product), "unknown"@),
        d.host@ == text_or(opt_str(host), "picloud.local"@),
        d.internal == match internal {
            Some(b) => b,
            None => false,
        },
{
    let target_port: u16 = match port {
        Some(n) => (n % 0x1_0000) as u16,
        None => 8080,
    };
    IngressDeclaration {
        path: string_or(path, "/"),
        target_port,
        product: string_or(product, "unknown"),
        host: string_or(host, "picloud.local"),
        internal: match internal {
            Some(b) => b,
            None => false,
        },
    }
}

/// The route an ingress registers with the host router: its path as
/// prefix, to the declared port on the local node.
pub open spec fn ingress_route_entry(d: IngressDeclaration, resource_iri: Seq<char>) -> crate::router::RouteModel {
    crate::router::RouteModel {
        path_prefix: d.path@,
        upstream_addr: "127.0.0.1"@,
        upstream_port: d.target_port,
        product: d.product@,
        internal: d.internal,
        ingress_iri: resource_iri,
    }
}

/// Register an ingress in the legacy table: its route under the ingress
/// IRI, replacing any it had.
pub fn register_ingress(table: &mut IngressTable, resource_iri: &str, d: &IngressDeclaration)
    requires
        old(table).wf(),
    ensures
        final(table).wf(),
        final(table).entries() == old(table).entries().insert(resource_iri@, (d.path@, d.target_port, d.product@)),
{
    let route = IngressRoute {
        path: String::from_str(d.path.as_str()),
        target_port: d.target_port,
        product: String::from_str(d.product.as_str()),
    };
    table.insert(String::from_str(resource_iri), route);
}

/// The IRI an ingress is routed under: its resource IRI when that is a
/// valid resource IRI (`iri_valid`), else its product's `unknown` ingress.
pub open spec fn routed_iri(d: IngressDeclaration, resource_iri: Seq<char>, iri_valid: bool) -> Seq<char> {
    if iri_valid {
        resource_iri
    } else {
        "https://picloud.local/products/"@ + d.product@ + "/ingresses/unknown"@
    }
}

/// Register an ingress with the host router: its route (path prefix to the
/// declared port on this node) under its host, or among the internal
/// routes, replacing any route of the same ingress. `iri_valid` says
/// whether `resource_iri` is a valid resource IRI.
pub fn route_ingress(router: &mut IngressRouter, resource_iri: &str, iri_valid: bool, d: &IngressDeclaration)
    requires
        old(router).wf(),
    ensures
        final(router).wf(),
        d.internal ==> final(router).internal_routes() == without_iri(
            old(router).internal_routes(),
            routed_iri(*d, resource_iri@, iri_valid),
        ).push(ingress_route_entry(*d, routed_iri(*d, resource_iri@, iri_valid))),
        !d.internal ==> {
            &&& has_host(final(router).hosts(), d.host@)
            &&& final(router).external_routes(d.host@) == without_iri(
                old(router).external_routes(d.host@),
                routed_iri(*d, resource_iri@, iri_valid),
            ).push(ingress_route_entry(*d, routed_iri(*d, resource_iri@, iri_valid)))
        },
{
    let iri = if iri_valid {
        String::from_str(resource_iri)
    } else {
        let mut fallback = String::from_str("https://picloud.local/products/");
        fallback.append(d.product.as_str());
        fallback.append("/ingresses/unknown");
        fallback
    };
    let entry = RouteEntry {
        path_prefix: String::from_str(d.path.as_str()),
        upstream_addr: String::from_str("127.0.0.1"),
        upstream_port: d.target_port,
        product: String::from_str(d.product.as_str()),
        internal: d.internal,
        ingress_iri: iri,
    };
    router.upsert_route(String::from_str(d.host.as_str()), entry);
}

// ---------------------------------------------------------------------------
// Product deletion
// ---------------------------------------------------------------------------

/// The SPARQL query for the resources of a product: typed resources whose
/// IRI starts with the product IRI and a `/`.
pub open spec fn child_resources_query_spec(product_iri: Seq<char>) -> Seq<char> {
    "SELECT ?res ?rtype WHERE { ?res <http://www.w3.org/1999/02/22-rdf-syntax-ns#type> <https://picloud.local/ontology#Resource> . ?res <https://picloud.local/ontology#resourceType> ?rtype . FILTER(STRSTARTS(STR(?res), \""@
        + product_iri + "/\")) }"@
}

/// The query for the resources of a product.
pub fn child_resources_query(product_iri: &str) -> (r: String)
    ensures
        r@ == child_resources_query_spec(product_iri@),
{
    let mut r = String::from_str(
        "SELECT ?res ?rtype WHERE { ?res <http://www.w3.org/1999/02/22-rdf-syntax-ns#type> <https://picloud.local/ontology#Resource> . ?res <https://picloud.local/ontology#resourceType> ?rtype . FILTER(STRSTARTS(STR(?res), \"",
    );
    r.append(product_iri);
    r.append("/\")) }");
    r
}

/// The backend clean-up a deleted resource needs.
#[derive(Debug, Clone, Copy, PartialEq, Eq)]
pub enum Cleanup {
    /// Stop its workload.
    StopWorkload,
    /// Delete its volume.
    DeleteVolume,
    /// Nothing (ingresses, subscriptions and the like).
    Nothing,
}

/// The clean-up of a resource type: containers and binaries are stopped,
/// volumes deleted, anything else left alone.
pub open spec fn cleanup_of(resource_type: Seq<char>) -> Cleanup {
    if resource_type == "Container"@ || resource_type == "Binary"@ {
        Cleanup::StopWorkload
    } else if resource_type == "Volume"@ {
        Cleanup::DeleteVolume
    } else {
        Cleanup::Nothing
    }
}

/// One resource of a deleted product: clean it up, then announce its
/// deletion.
#[derive(Debug)]
pub struct CascadeStep {
    pub resource_iri: String,
    pub cleanup: Cleanup,
}

/// The steps for the child rows of a deletion query: each row with a
/// resource IRI gives one step, in order; a missing type reads as
/// `Unknown`.
pub open spec fn cascade_steps(rows: Seq<(Option<String>, Option<String>)>) -> Seq<(Seq<char>, Cleanup)>
    decreases rows.len(),
{
    if rows.len() == 0 {
        Seq::empty()
    } else {
        let rest = cascade_steps(rows.drop_last());
        match rows.last().0 {
            Some(iri) => rest.push((
                iri@,
                cleanup_of(
                    match rows.last().1 {
                        Some(t) => t@,
                        None => "Unknown"@,
                    },
                ),
            )),
            None => rest,
        }
    }
}

/// The views of cascade steps.
pub open spec fn step_views(v: Seq<CascadeStep>) -> Seq<(Seq<char>, Cleanup)> {
    v.map_values(|s: CascadeStep| (s.resource_iri@, s.cleanup))
}

/// What a product deletion does, given the (resource IRI, resource type)
/// rows of the child query; nothing at all when the deletion event lacks
/// the product IRI or the product scope.
pub fn cascade_plan(
    product_iri: Option<&str>,
    product: Option<&str>,
    rows: &Vec<(Option<String>, Option<String>)>,
) -> (r: Vec<CascadeStep>)
    ensures
        (product_iri is None || product is None) ==> r@.len() == 0,
        (product_iri is Some && product is Some) ==> step_views(r@) == cascade_steps(rows@),
{
    let mut r: Vec<CascadeStep> = Vec::new();
    if product_iri.is_none() || product.is_none() {
        return r;
    }
    let mut i: usize = 0;
    while i < rows.len()
        invariant
            i <= rows@.len(),
            step_views(r@) == cascade_steps(rows@.take(i as int)),
        decreases rows@.len() - i,
    {
        assert(rows@.take(i + 1).drop_last() =~= rows@.take(i as int));
        assert(rows@.take(i + 1).last() == rows@[i as int]);
        let ghost before = step_views(r@);
        match &rows[i].0 {
            Some(iri) => {
                let t: &str = match &rows[i].1 {
                    Some(t) => t.as_str(),
                    None => "Unknown",
                };
                let cleanup = if str_eq(t, "Container") || str_eq(t, "Binary") {
                    Cleanup::StopWorkload
                } else if str_eq(t, "Volume") {
                    Cleanup::DeleteVolume
                } else {
                    Cleanup::Nothing
                };
                r.push(CascadeStep { resource_iri: String::from_str(iri.as_str()), cleanup });
                assert(step_views(r@) =~= before.push((iri@, cleanup)));
            },
            None => {},
        }
        i = i + 1;
    }
    assert(rows@.take(rows@.len() as int) =~= rows@);
    r
}

// ---------------------------------------------------------------------------
// Node failure
// ---------------------------------------------------------------------------

/// The SPARQL query for the workloads scheduled on a node.
pub open spec fn node_workloads_query_spec(node_iri: Seq<char>) -> Seq<char> {
    "SELECT ?workload ?rtype ?product WHERE { ?workload <https://picloud.local/ontology#scheduledOn> <"@ + node_iri
        + "> . ?workload <https://picloud.local/ontology#resourceType> ?rtype . OPTIONAL { ?workload <https://picloud.local/ontology#product> ?product } }"@
}

/// The query for the workloads of a node.
pub fn node_workloads_query(node_iri: &str) -> (r: String)
    ensures
        r@ == node_workloads_query_spec(node_iri@),
{
    let mut r = String::from_str(
        "SELECT ?workload ?rtype ?product WHERE { ?workload <https://picloud.local/ontology#scheduledOn> <",
    );
    r.append(node_iri);
    r.append(
        "> . ?workload <https://picloud.local/ontology#resourceType> ?rtype . OPTIONAL { ?workload <https://picloud.local/ontology#product> ?product } }",
    );
    r
}

/// One workload to move off a failed node: announce the move, then declare
/// it again so it is provisioned on a healthy node.
#[derive(Debug)]
pub struct RescheduleStep {
    pub workload_iri: String,
    pub resource_type: String,
    pub product: Option<String>,
    /// `Node {name} became unreachable`.
    pub reason: String,
}

/// A step as (workload, type, product, reason).
pub type RescheduleView = (Seq<char>, Seq<char>, Option<Seq<char>>, Seq<char>);

/// The views of reschedule steps.
pub open spec fn reschedule_views(v: Seq<RescheduleStep>) -> Seq<RescheduleView> {
    v.map_values(
        |s: RescheduleStep|
            (
                s.workload_iri@,
                s.resource_type@,
                match s.product {
                    Some(p) => Some(p@),
                    None => None,
                },
                s.reason@,
            ),
    )
}

/// The reason a failed node's workloads are moved.
pub open spec fn unreachable_reason(node_name: Seq<char>) -> Seq<char> {
    "Node "@ + node_name + " became unreachable"@
}

/// The steps for the workload rows (workload, type, product) of a failed
/// node: each row with a workload IRI, in order; a missing type reads as
/// `Container`.
pub open spec fn reschedule_steps(rows: Seq<(Option<String>, Option<String>, Option<String>)>, node_name: Seq<char>) -> Seq<RescheduleView>
    decreases rows.len(),
{
    if rows.len() == 0 {
        Seq::empty()
    } else {
        let rest = reschedule_steps(rows.drop_last(), node_name);
        let row = rows.last();
        match row.0 {
            Some(w) => rest.push((
                w@,
                match row.1 {
                    Some(t) => t@,
                    None => "Container"@,
                },
                match row.2 {
                    Some(p) => Some(p@),
                    None => None,
                },
                unreachable_reason(node_name),
            )),
            None => rest,
        }
    }
}

/// What a node failure does, given the rows of the workload query: nothing
/// when the event lacks the node IRI; the node name reads as `unknown`
/// when absent.
pub fn reschedule_plan(
    node_iri: Option<&str>,
    node_name: Option<&str>,
    rows: &Vec<(Option<String>, Option<String>, Option<String>)>,
) -> (r: Vec<RescheduleStep>)
    ensures
        node_iri is None ==> r@.len() == 0,
        node_iri is Some ==> reschedule_views(r@) == reschedule_steps(rows@, text_or(opt_str(node_name), "unknown"@)),
{
    let mut r: Vec<RescheduleStep> = Vec::new();
    if node_iri.is_none() {
        return r;
    }
    let name = string_or(node_name, "unknown");
    let mut i: usize = 0;
    while i < rows.len()
        invariant
            i <= rows@.len(),
            name@ == text_or(opt_str(node_name), "unknown"@),
            reschedule_views(r@) == reschedule_steps(rows@.take(i as int), name@),
        decreases rows@.len() - i,
    {
        assert(rows@.take(i + 1).drop_last() =~= rows@.take(i as int));
        assert(rows@.take(i + 1).last() == rows@[i as int]);
        let ghost before = reschedule_views(r@);
        match &rows[i].0 {
            Some(w) => {
                let t = match &rows[i].1 {
                    Some(t) => String::from_str(t.as_str()),
                    None => String::from_str("Container"),
                };
                let p = match &rows[i].2 {
                    Some(p) => Some(String::from_str(p.as_str())),
                    None => None,
                };
                let mut reason = String::from_str("Node ");
                reason.append(name.as_str());
                reason.append(" became unreachable");
                let step = RescheduleStep { workload_iri: String::from_str(w.as_str()), resource_type: t, product: p, reason };
                r.push(step);
                assert(reschedule_views(r@) =~= before.push(reschedule_views(r@).last()));
            },
            None => {},
        }
        i = i + 1;
    }
    assert(rows@.take(rows@.len() as int) =~= rows@);
    r
}

/// The rows of a product deletion that name no resource are skipped; the
/// others are each cleaned up exactly once, in order.
pub proof fn law_cascade_one_step_per_resource(rows: Seq<(Option<String>, Option<String>)>)
    ensures
        cascade_steps(rows).len() <= rows.len(),
        (forall|i: int| 0 <= i < rows.len() ==> (#[trigger] rows[i]).0 is Some) ==> cascade_steps(rows).len() == rows.len(),
    decreases rows.len(),
{
    if rows.len() > 0 {
        law_cascade_one_step_per_resource(rows.drop_last());
        if forall|i: int| 0 <= i < rows.len() ==> (#[trigger] rows[i]).0 is Some {
            assert forall|i: int| 0 <= i < rows.drop_last().len() implies (#[trigger] rows.drop_last()[i]).0 is Some by {
                assert(rows.drop_last()[i] == rows[i]);
            }
            assert(rows[rows.len() - 1].0 is Some);
        }
    }
}

// ---------------------------------------------------------------------------
// The events the provisioner appends
// ---------------------------------------------------------------------------

/// An event to append: its type (and schema name), source resource,
/// product scope, correlation id, and its payload's text fields in order.
#[derive(Debug)]
pub struct PlannedEvent {
    pub event_type: String,
    pub source: String,
    pub product: Option<String>,
    pub correlation_id: String,
    pub payload: Vec<(String, String)>,
}

/// A planned event as texts.
pub struct PlannedEventView {
    pub event_type: Seq<char>,
    pub source: Seq<char>,
    pub product: Option<Seq<char>>,
    pub correlation_id: Seq<char>,
    pub payload: Seq<(Seq<char>, Seq<char>)>,
}

impl View for PlannedEvent {
    type V = PlannedEventView;

    open spec fn view(&self) -> PlannedEventView {
        PlannedEventView {
            event_type: self.event_type@,
            source: self.source@,
            product: match self.product {
                Some(p) => Some(p@),
                None => None,
            },
            correlation_id: self.correlation_id@,
            payload: self.payload@.map_values(|f: (String, String)| (f.0@, f.1@)),
        }
    }
}

fn field(name: &str, value: &str) -> (f: (String, String))
    ensures
        f.0@ == name@,
        f.1@ == value@,
{
    (String::from_str(name), String::from_str(value))
}

/// The event announcing a provisioning outcome, under the declaring
/// event's product and correlation id: `ResourceReady` with the resource
/// IRI, or `ResourceFailed` with it and the failure's reason.
pub fn provisioning_outcome_event(
    resource_iri: &str,
    product: Option<&str>,
    correlation_id: &str,
    failure: Option<&str>,
) -> (e: PlannedEvent)
    ensures
        e@.source == resource_iri@,
        e@.product == opt_str(product),
        e@.correlation_id == correlation_id@,
        failure is None ==> e@.event_type == "ResourceReady"@ && e@.payload == seq![("resource_iri"@, resource_iri@)],
        failure matches Some(reason) ==> e@.event_type == "ResourceFailed"@ && e@.payload == seq![
            ("resource_iri"@, resource_iri@),
            ("reason"@, reason@),
        ],
{
    let mut payload: Vec<(String, String)> = Vec::new();
    payload.push(field("resource_iri", resource_iri));
    if let Some(reason) = failure {
        payload.push(field("reason", reason));
    }
    let e = PlannedEvent {
        event_type: provisioning_result_event(failure.is_none()),
        source: String::from_str(resource_iri),
        product: match product {
            Some(p) => Some(String::from_str(p)),
            None => None,
        },
        correlation_id: String::from_str(correlation_id),
        payload,
    };
    assert(e@.payload =~= if failure is None { seq![("resource_iri"@, resource_iri@)] } else {
        seq![("resource_iri"@, resource_iri@), ("reason"@, failure->0@)]
    });
    e
}

/// The `ResourceDeleted` event of one resource of a deleted product: from
/// the resource, under the product and the deletion's correlation id.
pub fn deletion_event(step: &CascadeStep, product: &str, correlation_id: &str) -> (e: PlannedEvent)
    ensures
        e@.event_type == "ResourceDeleted"@,
        e@.source == step.resource_iri@,
        e@.product == Some(product@),
        e@.correlation_id == correlation_id@,
        e@.payload == seq![("resource_iri"@, step.resource_iri@)],
{
    let mut payload: Vec<(String, String)> = Vec::new();
    payload.push(field("resource_iri", step.resource_iri.as_str()));
    let e = PlannedEvent {
        event_type: String::from_str("ResourceDeleted"),
        source: String::from_str(step.resource_iri.as_str()),
        product: Some(String::from_str(product)),
        correlation_id: String::from_str(correlation_id),
        payload,
    };
    assert(e@.payload =~= seq![("resource_iri"@, step.resource_iri@)]);
    e
}

/// The two events of a rescheduled workload, under its product and one
/// fresh correlation id: `WorkloadRescheduled` (workload, failed node,
/// reason), then `ResourceDeclared` (workload, resource type) to provision
/// it again.
pub fn reschedule_events(step: &RescheduleStep, node_iri: &str, correlation_id: &str) -> (r: (PlannedEvent, PlannedEvent))
    ensures
        r.0@.event_type == "WorkloadRescheduled"@,
        r.1@.event_type == "ResourceDeclared"@,
        r.0@.source == step.workload_iri@ && r.1@.source == step.workload_iri@,
        r.0@.product == opt_string(step.product) && r.1@.product == opt_string(step.product),
        r.0@.correlation_id == correlation_id@ && r.1@.correlation_id == correlation_id@,
        r.0@.payload == seq![
            ("workload_iri"@, step.workload_iri@),
            ("from_node_iri"@, node_iri@),
            ("reason"@, step.reason@),
        ],
        r.1@.payload == seq![("resource_iri"@, step.workload_iri@), ("resource_type"@, step.resource_type@)],
{
    let w = step.workload_iri.as_str();
    let mut p0: Vec<(String, String)> = Vec::new();
    p0.push(field("workload_iri", w));
    p0.push(field("from_node_iri", node_iri));
    p0.push(field("reason", step.reason.as_str()));
    let mut p1: Vec<(String, String)> = Vec::new();
    p1.push(field("resource_iri", w));
    p1.push(field("resource_type", step.resource_type.as_str()));
    let product0 = match &step.product {
        Some(p) => Some(String::from_str(p.as_str())),
        None => None,
    };
    let product1 = match &step.product {
        Some(p) => Some(String::from_str(p.as_str())),
        None => None,
    };
    let e0 = PlannedEvent {
        event_type: String::from_str("WorkloadRescheduled"),
        source: String::from_str(w),
        product: product0,
        correlation_id: String::from_str(correlation_id),
        payload: p0,
    };
    let e1 = PlannedEvent {
        event_type: String::from_str("ResourceDeclared"),
        source: String::from_str(w),
        product: product1,
        correlation_id: String::from_str(correlation_id),
        payload: p1,
    };
    assert(e0@.payload =~= seq![
        ("workload_iri"@, step.workload_iri@),
        ("from_node_iri"@, node_iri@),
        ("reason"@, step.reason@),
    ]);
    assert(e1@.payload =~= seq![("resource_iri"@, step.workload_iri@), ("resource_type"@, step.resource_type@)]);
    (e0, e1)
}

/// The view of an optional string.
pub open spec fn opt_string(s: Option<String>) -> Option<Seq<char>> {
    match s {
        Some(x) => Some(x@),
        None => None,
    }
}

} // verus!
