//! Applying a resource file: for each declaration, the event it becomes,
//! how its IRI is formed, the product scope of the event, the type named
//! in the payload, and the idempotency key; plus the overwrite check for
//! products.

use vstd::prelude::*;


verus! {

broadcast use vstd::string::group_string_axioms;

/// The kinds of declaration a resource file holds.
#[derive(Debug, Clone, Copy, PartialEq, Eq)]
pub enum DeclarationKind {
    Product,
    Volume,
    Container,
    Binary,
    EventSubscription,
    Ingress,
    Secret,
    Role,
    Config,
    FeatureFlag,
    Group,
    InferenceRule,
    Scope,
    M2mPermission,
    Capability,
    DataDomain,
    DataProduct,
}

/// A declaration: its kind, its name and the product it belongs to (roles
/// may have none; products, groups, inference rules, capabilities and
/// data domains belong to none).
#[derive(Debug)]
pub struct Declaration {
    pub kind: DeclarationKind,
    pub name: String,
    pub product: Option<String>,
}

/// How an IRI is formed by the cluster's IRI builder.
#[derive(Debug)]
pub enum IriPlan {
    /// The product IRI of a name.
    Product { name: String },
    /// A resource of a product in a collection.
    Resource { product: String, collection: String, name: String },
    /// The configuration store of a product.
    ProductConfig { product: String },
    /// A feature flag of a product.
    FeatureFlag { product: String, name: String },
    /// A group.
    Group { name: String },
    /// An inference rule.
    InferenceRule { name: String },
    /// A cluster-level resource in a collection.
    ClusterResource { collection: String, name: String },
}

/// An IRI plan as texts.
pub enum IriPlanView {
    Product { name: Seq<char> },
    Resource { product: Seq<char>, collection: Seq<char>, name: Seq<char> },
    ProductConfig { product: Seq<char> },
    FeatureFlag { product: Seq<char>, name: Seq<char> },
    Group { name: Seq<char> },
    InferenceRule { name: Seq<char> },
    ClusterResource { collection: Seq<char>, name: Seq<char> },
}

impl View for IriPlan {
    type V = IriPlanView;

    open spec fn view(&self) -> IriPlanView {
        match self {
            IriPlan::Product { name } => IriPlanView::Product { name: name@ },
            IriPlan::Resource { product, collection, name } => IriPlanView::Resource {
                product: product@,
                collection: collection@,
                name: name@,
            },
            IriPlan::ProductConfig { product } => IriPlanView::ProductConfig { product: product@ },
            IriPlan::FeatureFlag { product, name } => IriPlanView::FeatureFlag { product: product@, name: name@ },
            IriPlan::Group { name } => IriPlanView::Group { name: name@ },
            IriPlan::InferenceRule { name } => IriPlanView::InferenceRule { name: name@ },
            IriPlan::ClusterResource { collection, name } => IriPlanView::ClusterResource {
                collection: collection@,
                name: name@,
            },
        }
    }
}

/// The collection of a product resource kind.
pub open spec fn collection_of(kind: DeclarationKind) -> Seq<char> {
    match kind {
        DeclarationKind::Volume => "volumes"@,
        DeclarationKind::Container => "containers"@,
        DeclarationKind::Binary => "binaries"@,
        DeclarationKind::EventSubscription => "event-subscriptions"@,
        DeclarationKind::Ingress => "ingresses"@,
        DeclarationKind::Secret => "secrets"@,
        DeclarationKind::Role => "roles"@,
        DeclarationKind::Scope => "scopes"@,
        DeclarationKind::M2mPermission => "m2m-permissions"@,
        DeclarationKind::Capability => "capabilities"@,
        DeclarationKind::DataDomain => "data-domains"@,
        DeclarationKind::DataProduct => "data-products"@,
        _ => Seq::empty(),
    }
}

fn collection_name(kind: DeclarationKind) -> (r: String)
    ensures
        r@ == collection_of(kind),
{
    match kind {
        DeclarationKind::Volume => String::from_str("volumes"),
        DeclarationKind::Container => String::from_str("containers"),
        DeclarationKind::Binary => String::from_str("binaries"),
        DeclarationKind::EventSubscription => String::from_str("event-subscriptions"),
        DeclarationKind::Ingress => String::from_str("ingresses"),
        DeclarationKind::Secret => String::from_str("secrets"),
        DeclarationKind::Role => String::from_str("roles"),
        DeclarationKind::Scope => String::from_str("scopes"),
        DeclarationKind::M2mPermission => String::from_str("m2m-permissions"),
        DeclarationKind::Capability => String::from_str("capabilities"),
        DeclarationKind::DataDomain => String::from_str("data-domains"),
        DeclarationKind::DataProduct => String::from_str("data-products"),
        _ => String::new(),
    }
}

/// The product text of a declaration (empty when it has none).
pub open spec fn product_text(d: Declaration) -> Seq<char> {
    match d.product {
        Some(p) => p@,
        None => Seq::empty(),
    }
}

/// The IRI of a declaration's event. A role without a product, or with an
/// empty one, belongs to `platform`.
pub open spec fn event_iri_spec(d: Declaration) -> IriPlanView {
    match d.kind {
        DeclarationKind::Product => IriPlanView::Product { name: d.name@ },
        DeclarationKind::Config => IriPlanView::ProductConfig { product: product_text(d) },
        DeclarationKind::FeatureFlag => IriPlanView::FeatureFlag { product: product_text(d), name: d.name@ },
        DeclarationKind::Group => IriPlanView::Group { name: d.name@ },
        DeclarationKind::InferenceRule => IriPlanView::InferenceRule { name: d.name@ },
        DeclarationKind::Capability | DeclarationKind::DataDomain => IriPlanView::ClusterResource {
            collection: collection_of(d.kind),
            name: d.name@,
        },
        DeclarationKind::Role => IriPlanView::Resource {
            product: if product_text(d).len() == 0 { "platform"@ } else { product_text(d) },
            collection: "roles"@,
            name: d.name@,
        },
        _ => IriPlanView::Resource { product: product_text(d), collection: collection_of(d.kind), name: d.name@ },
    }
}

/// The IRI the tags of a declaration are attached to: the event's IRI,
/// except that a role is `platform`'s only when it has no product at all.
pub open spec fn tag_iri_spec(d: Declaration) -> IriPlanView {
    match d.kind {
        DeclarationKind::Role => IriPlanView::Resource {
            product: match d.product {
                Some(p) => p@,
                None => "platform"@,
            },
            collection: "roles"@,
            name: d.name@,
        },
        _ => event_iri_spec(d),
    }
}

fn product_string(d: &Declaration) -> (r: String)
    ensures
        r@ == product_text(*d),
{
    match &d.product {
        Some(p) => String::from_str(p.as_str()),
        None => String::new(),
    }
}

/// How the IRI of a declaration's event is formed.
pub fn event_iri(d: &Declaration) -> (r: IriPlan)
    ensures
        r@ == event_iri_spec(*d),
{
    let name = String::from_str(d.name.as_str());
    match d.kind {
        DeclarationKind::Product => IriPlan::Product { name },
        DeclarationKind::Config => IriPlan::ProductConfig { product: product_string(d) },
        DeclarationKind::FeatureFlag => IriPlan::FeatureFlag { product: product_string(d), name },
        DeclarationKind::Group => IriPlan::Group { name },
        DeclarationKind::InferenceRule => IriPlan::InferenceRule { name },
        DeclarationKind::Capability | DeclarationKind::DataDomain => IriPlan::ClusterResource {
            collection: collection_name(d.kind),
            name,
        },
        DeclarationKind::Role => {
            let p = product_string(d);
            let product = if p.as_str().is_empty() { String::from_str("platform") } else { p };
            IriPlan::Resource { product, collection: String::from_str("roles"), name }
        },
        _ => IriPlan::Resource { product: product_string(d), collection: collection_name(d.kind), name },
    }
}

/// How the IRI the tags of a declaration are attached to is formed.
pub fn tag_iri(d: &Declaration) -> (r: IriPlan)
    ensures
        r@ == tag_iri_spec(*d),
{
    match d.kind {
        DeclarationKind::Role => {
            let product = match &d.product {
                Some(p) => String::from_str(p.as_str()),
                None => String::from_str("platform"),
            };
            IriPlan::Resource { product, collection: String::from_str("roles"), name: String::from_str(d.name.as_str()) }
        },
        _ => event_iri(d),
    }
}

/// The event a declaration becomes; scopes and machine-to-machine
/// permissions become none (they are left to the IAM slice).
pub open spec fn apply_event_spec(kind: DeclarationKind) -> Option<Seq<char>> {
    match kind {
        DeclarationKind::Product => Some("ProductDeployed"@),
        DeclarationKind::Scope | DeclarationKind::M2mPermission => None,
        DeclarationKind::Capability => Some("CapabilityDeclared"@),
        DeclarationKind::DataDomain => Some("DataDomainDeclared"@),
        DeclarationKind::DataProduct => Some("DataProductDeclared"@),
        _ => Some("ResourceDeclared"@),
    }
}

/// The event type a declaration is applied as.
pub fn apply_event_type(kind: DeclarationKind) -> (r: Option<String>)
    ensures
        match r {
            Some(s) => apply_event_spec(kind) == Some(s@),
            None => apply_event_spec(kind) is None,
        },
{
    match kind {
        DeclarationKind::Product => Some(String::from_str("ProductDeployed")),
        DeclarationKind::Scope | DeclarationKind::M2mPermission => None,
        DeclarationKind::Capability => Some(String::from_str("CapabilityDeclared")),
        DeclarationKind::DataDomain => Some(String::from_str("DataDomainDeclared")),
        DeclarationKind::DataProduct => Some(String::from_str("DataProductDeclared")),
        _ => Some(String::from_str("ResourceDeclared")),
    }
}

/// The `resource_type` a `ResourceDeclared` payload carries.
pub open spec fn declared_type_spec(kind: DeclarationKind) -> Option<Seq<char>> {
    match kind {
        DeclarationKind::Volume => Some("Volume"@),
        DeclarationKind::Container => Some("Container"@),
        DeclarationKind::Binary => Some("Binary"@),
        DeclarationKind::EventSubscription => Some("EventSubscription"@),
        DeclarationKind::Ingress => Some("Ingress"@),
        DeclarationKind::Secret => Some("Secret"@),
        DeclarationKind::Role => Some("Role"@),
        DeclarationKind::Config => Some("ConfigStore"@),
        DeclarationKind::FeatureFlag => Some("FeatureFlag"@),
        DeclarationKind::Group => Some("Group"@),
        DeclarationKind::InferenceRule => Some("InferenceRule"@),
        _ => None,
    }
}

/// The `resource_type` of the payload of a declared resource.
pub fn declared_resource_type(kind: DeclarationKind) -> (r: Option<String>)
    ensures
        match r {
            Some(s) => declared_type_spec(kind) == Some(s@),
            None => declared_type_spec(kind) is None,
        },
{
    match kind {
        DeclarationKind::Volume => Some(String::from_str("Volume")),
        DeclarationKind::Container => Some(String::from_str("Container")),
        DeclarationKind::Binary => Some(String::from_str("Binary")),
        DeclarationKind::EventSubscription => Some(String::from_str("EventSubscription")),
        DeclarationKind::Ingress => Some(String::from_str("Ingress")),
        DeclarationKind::Secret => Some(String::from_str("Secret")),
        DeclarationKind::Role => Some(String::from_str("Role")),
        DeclarationKind::Config => Some(String::from_str("ConfigStore")),
        DeclarationKind::FeatureFlag => Some(String::from_str("FeatureFlag")),
        DeclarationKind::Group => Some(String::from_str("Group")),
        DeclarationKind::InferenceRule => Some(String::from_str("InferenceRule")),
        _ => None,
    }
}

/// The product scope of a declaration's event: none for products, groups,
/// inference rules, capabilities and data domains; a role's own optional
/// product; the product otherwise.
pub open spec fn event_product_spec(d: Declaration) -> Option<Seq<char>> {
    match d.kind {
        DeclarationKind::Product | DeclarationKind::Group | DeclarationKind::InferenceRule
        | DeclarationKind::Capability | DeclarationKind::DataDomain => None,
        DeclarationKind::Role => match d.product {
            Some(p) => Some(p@),
            None => None,
        },
        _ => Some(product_text(d)),
    }
}

/// The product scope of a declaration's event.
pub fn event_product(d: &Declaration) -> (r: Option<String>)
    ensures
        match r {
            Some(s) => event_product_spec(*d) == Some(s@),
            None => event_product_spec(*d) is None,
        },
{
    match d.kind {
        DeclarationKind::Product | DeclarationKind::Group | DeclarationKind::InferenceRule
        | DeclarationKind::Capability | DeclarationKind::DataDomain => None,
        DeclarationKind::Role => match &d.product {
            Some(p) => Some(String::from_str(p.as_str())),
            None => None,
        },
        _ => Some(product_string(d)),
    }
}

/// The idempotency key of an applied declaration:
/// `apply-{type}-{name}-{correlation id}`.
pub fn idempotency_key(resource_type: &str, name: &str, correlation_id: &str) -> (r: String)
    ensures
        r@ == "apply-"@ + resource_type@ + "-"@ + name@ + "-"@ + correlation_id@,
{
    let mut r = String::from_str("apply-");
    r.append(resource_type);
    r.append("-");
    r.append(name);
    r.append("-");
    r.append(correlation_id);
    r
}

/// The query that finds whether a product already exists.
pub fn product_exists_query(product_iri: &str) -> (r: String)
    ensures
        r@ == "SELECT ?s WHERE { <"@ + product_iri@ + "> a <https://picloud.local/ontology#Product> } LIMIT 1"@,
{
    let mut r = String::from_str("SELECT ?s WHERE { <");
    r.append(product_iri);
    r.append("> a <https://picloud.local/ontology#Product> } LIMIT 1");
    r
}

/// The refusal of a product that already exists.
pub fn product_conflict_message(name: &str) -> (r: String)
    ensures
        r@ == "product '"@ + name@ + "' already exists — use picloud resource apply --overwrite or delete first"@,
{
    let mut r = String::from_str("product '");
    r.append(name);
    r.append("' already exists — use picloud resource apply --overwrite or delete first");
    r
}

/// The status reported for an applied declaration.
pub fn apply_status(appended: bool) -> (r: String)
    ensures
        r@ == if appended { "declared"@ } else { "failed"@ },
{
    if appended {
        String::from_str("declared")
    } else {
        String::from_str("failed")
    }
}

/// Is a product's application refused? Only when the existence query ran
/// and found the product.
pub fn product_conflicts(query_found: Option<bool>) -> (r: bool)
    ensures
        r == (query_found == Some(true)),
{
    match query_found {
        Some(found) => found,
        None => false,
    }
}

// ---------------------------------------------------------------------------
// Running an application
// ---------------------------------------------------------------------------

/// The outcome reported for one applied declaration: its name and type,
/// `declared` or `failed`, and the append error when it failed.
#[derive(Debug)]
pub struct ApplyResult {
    pub name: String,
    pub resource_type: String,
    pub status: String,
    pub error: Option<String>,
}

/// An outcome as texts.
pub type ApplyResultView = (Seq<char>, Seq<char>, Seq<char>, Option<Seq<char>>);

/// The view of an optional string.
pub open spec fn opt_view(s: Option<String>) -> Option<Seq<char>> {
    match s {
        Some(x) => Some(x@),
        None => None,
    }
}

/// The views of outcomes.
pub open spec fn result_views(v: Seq<ApplyResult>) -> Seq<ApplyResultView> {
    v.map_values(|r: ApplyResult| (r.name@, r.resource_type@, r.status@, opt_view(r.error)))
}

/// The outcome of a declaration whose event was appended (`error` is
/// `None`) or not.
pub open spec fn apply_result_spec(name: Seq<char>, resource_type: Seq<char>, error: Option<Seq<char>>) -> ApplyResultView {
    (name, resource_type, if error is None { "declared"@ } else { "failed"@ }, error)
}

/// What to do next while applying a file.
#[derive(Debug)]
pub enum ApplyStep {
    /// Stop: every declaration was handled, or a product conflicts.
    Finished,
    /// Pass over the declaration: it becomes no event.
    Skip,
    /// Ask whether the product exists, with this query, before appending.
    CheckProduct(String),
    /// Append the declaration's event.
    Append,
}

/// Whether an application may start: without an event log it is refused
/// with 503 before the file is even validated; a file that fails validation
/// is refused with 400 and the validation message.
pub fn apply_precheck(has_event_log: bool, validation: Result<(), String>) -> (r: Result<(), (u16, String)>)
    ensures
        !has_event_log ==> (r matches Err((code, m)) && code == 503 && m@ == "event log not available"@),
        has_event_log ==> match validation {
            Ok(()) => r is Ok,
            Err(e) => (r matches Err((code, m)) && code == 400 && m@ == e@),
        },
{
    if !has_event_log {
        return Err((503, String::from_str("event log not available")));
    }
    match validation {
        Ok(()) => Ok(()),
        Err(e) => Err((400, e)),
    }
}

/// The envelope fields an event of an application carries: the
/// application's correlation id, and the idempotency key of a declaration's
/// own event (tag events have none).
#[derive(Debug)]
pub struct EventStamp {
    pub correlation_id: String,
    pub idempotency_key: Option<String>,
}

/// The progress of an application: its correlation id, the next
/// declaration, the outcomes so far, and the refusal of a conflicting
/// product.
pub struct ApplyRun {
    correlation_id: String,
    next: usize,
    results: Vec<ApplyResult>,
    conflict: Option<String>,
}

impl ApplyRun {
    /// The correlation id every event of the application carries.
    pub closed spec fn correlation_id(&self) -> Seq<char> {
        self.correlation_id@
    }

    /// The position of the next declaration.
    pub closed spec fn next(&self) -> nat {
        self.next as nat
    }

    /// The position of the next declaration.
    pub fn position(&self) -> (r: usize)
        ensures
            r == self.next(),
    {
        self.next
    }

    /// The outcomes so far, in declaration order.
    pub closed spec fn results(&self) -> Seq<ApplyResultView> {
        result_views(self.results@)
    }

    /// The refusal message, once a product conflicts.
    pub closed spec fn conflict(&self) -> Option<Seq<char>> {
        opt_view(self.conflict)
    }

    /// Nothing handled yet; the application's events will carry
    /// `correlation_id`.
    pub fn new(correlation_id: &str) -> (r: ApplyRun)
        ensures
            r.correlation_id() == correlation_id@,
            r.next() == 0,
            r.results() == Seq::<ApplyResultView>::empty(),
            r.conflict() is None,
    {
        let r = ApplyRun { correlation_id: String::from_str(correlation_id), next: 0, results: Vec::new(), conflict: None };
        assert(r.results() =~= Seq::<ApplyResultView>::empty());
        r
    }

    /// The next step for the declarations `decls`; `product_iri` is the IRI
    /// of the next declaration when it is a product.
    pub fn step(&self, decls: &Vec<Declaration>, product_iri: &str) -> (s: ApplyStep)
        ensures
            self.conflict() is Some || self.next() >= decls@.len() ==> s is Finished,
            self.conflict() is None && self.next() < decls@.len() ==> {
                let kind = decls@[self.next() as int].kind;
                if apply_event_spec(kind) is None {
                    s is Skip
                } else if kind == DeclarationKind::Product {
                    s matches ApplyStep::CheckProduct(q) && q@ == "SELECT ?s WHERE { <"@ + product_iri@
                        + "> a <https://picloud.local/ontology#Product> } LIMIT 1"@
                } else {
                    s is Append
                }
            },
    {
        if self.conflict.is_some() || self.next >= decls.len() {
            return ApplyStep::Finished;
        }
        match decls[self.next].kind {
            DeclarationKind::Scope | DeclarationKind::M2mPermission => ApplyStep::Skip,
            DeclarationKind::Product => ApplyStep::CheckProduct(product_exists_query(product_iri)),
            _ => ApplyStep::Append,
        }
    }

    /// The declaration was passed over.
    pub fn skipped(&mut self)
        requires
            old(self).next() < usize::MAX,
        ensures
            final(self).next() == old(self).next() + 1,
            final(self).results() == old(self).results(),
            final(self).conflict() == old(self).conflict(),
            final(self).correlation_id() == old(self).correlation_id(),
    {
        self.next = self.next + 1;
    }

    /// The existence query of product `name` answered `found` (`None`
    /// when it failed): a product that exists refuses the whole file.
    /// Returns whether to go on and append.
    pub fn product_checked(&mut self, name: &str, found: Option<bool>) -> (go_on: bool)
        ensures
            go_on == (found != Some(true)),
            final(self).correlation_id() == old(self).correlation_id(),
            final(self).next() == old(self).next(),
            final(self).results() == old(self).results(),
            final(self).conflict() == if found == Some(true) {
                Some("product '"@ + name@ + "' already exists \u{2014} use picloud resource apply --overwrite or delete first"@)
            } else {
                old(self).conflict()
            },
    {
        if product_conflicts(found) {
            self.conflict = Some(product_conflict_message(name));
            false
        } else {
            true
        }
    }

    /// The declaration's event was appended (`error` is `None`) or failed
    /// with `error`; its tags are announced only when it was appended.
    /// Returns whether the tags are due.
    pub fn appended(&mut self, name: &str, resource_type: &str, error: Option<&str>) -> (tags_due: bool)
        requires
            old(self).next() < usize::MAX,
        ensures
            tags_due == (error is None),
            final(self).correlation_id() == old(self).correlation_id(),
            final(self).next() == old(self).next() + 1,
            final(self).results() == old(self).results().push(apply_result_spec(
                name@,
                resource_type@,
                match error {
                    Some(e) => Some(e@),
                    None => None,
                },
            )),
            final(self).conflict() == old(self).conflict(),
    {
        let r = ApplyResult {
            name: String::from_str(name),
            resource_type: String::from_str(resource_type),
            status: apply_status(error.is_none()),
            error: match error {
                Some(e) => Some(String::from_str(e)),
                None => None,
            },
        };
        let ghost before = self.results@;
        self.results.push(r);
        assert(result_views(self.results@) =~= result_views(before).push(apply_result_spec(
            name@,
            resource_type@,
            match error {
                Some(e) => Some(e@),
                None => None,
            },
        )));
        self.next = self.next + 1;
        error.is_none()
    }

    /// The envelope fields of the event of a declaration of type
    /// `resource_type` named `name`.
    pub fn declaration_stamp(&self, resource_type: &str, name: &str) -> (r: EventStamp)
        ensures
            r.correlation_id@ == self.correlation_id(),
            r.idempotency_key matches Some(k) && k@ == "apply-"@ + resource_type@ + "-"@ + name@ + "-"@
                + self.correlation_id(),
    {
        EventStamp {
            correlation_id: String::from_str(self.correlation_id.as_str()),
            idempotency_key: Some(idempotency_key(resource_type, name, self.correlation_id.as_str())),
        }
    }

    /// The envelope fields of a TagAdded event.
    pub fn tag_stamp(&self) -> (r: EventStamp)
        ensures
            r.correlation_id@ == self.correlation_id(),
            r.idempotency_key is None,
    {
        EventStamp { correlation_id: String::from_str(self.correlation_id.as_str()), idempotency_key: None }
    }

    /// The answer to the file: the refusal of a conflicting product (409),
    /// or the correlation id and the outcomes in order (200).
    pub fn outcome(&self) -> (r: Result<(&String, &Vec<ApplyResult>), &String>)
        ensures
            match r {
                Ok((c, v)) => self.conflict() is None && c@ == self.correlation_id() && result_views(v@) == self.results(),
                Err(m) => self.conflict() == Some(m@),
            },
    {
        match &self.conflict {
            Some(m) => Err(m),
            None => Ok((&self.correlation_id, &self.results)),
        }
    }
}

} // verus!
