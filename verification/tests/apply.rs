use picloud_http::apply::{
    apply_event_type, apply_status, declared_resource_type, event_iri, event_product, idempotency_key,
    product_conflict_message, product_conflicts, apply_precheck, ApplyRun, ApplyStep, product_exists_query, tag_iri, Declaration, DeclarationKind, IriPlan,
};

fn decl(kind: DeclarationKind, name: &str, product: Option<&str>) -> Declaration {
    Declaration { kind, name: name.to_string(), product: product.map(|p| p.to_string()) }
}

#[test]
fn event_types_of_declarations() {
    assert_eq!(apply_event_type(DeclarationKind::Product).as_deref(), Some("ProductDeployed"));
    assert_eq!(apply_event_type(DeclarationKind::Volume).as_deref(), Some("ResourceDeclared"));
    assert_eq!(apply_event_type(DeclarationKind::Capability).as_deref(), Some("CapabilityDeclared"));
    assert_eq!(apply_event_type(DeclarationKind::Scope), None);
    assert_eq!(apply_event_type(DeclarationKind::M2mPermission), None);
    assert_eq!(declared_resource_type(DeclarationKind::Config).as_deref(), Some("ConfigStore"));
    assert_eq!(declared_resource_type(DeclarationKind::Product), None);
}

#[test]
fn iri_plans() {
    match event_iri(&decl(DeclarationKind::Container, "api", Some("shop"))) {
        IriPlan::Resource { product, collection, name } => {
            assert_eq!((product.as_str(), collection.as_str(), name.as_str()), ("shop", "containers", "api"));
        }
        other => panic!("unexpected plan {other:?}"),
    }
    match event_iri(&decl(DeclarationKind::Role, "viewer", Some(""))) {
        IriPlan::Resource { product, .. } => assert_eq!(product, "platform"),
        other => panic!("unexpected plan {other:?}"),
    }
    match tag_iri(&decl(DeclarationKind::Role, "viewer", Some(""))) {
        IriPlan::Resource { product, .. } => assert_eq!(product, ""),
        other => panic!("unexpected plan {other:?}"),
    }
    assert!(matches!(event_iri(&decl(DeclarationKind::DataDomain, "sales", None)), IriPlan::ClusterResource { collection, .. } if collection == "data-domains"));
}

#[test]
fn product_scopes() {
    assert_eq!(event_product(&decl(DeclarationKind::Group, "g", None)), None);
    assert_eq!(event_product(&decl(DeclarationKind::Secret, "s", Some("shop"))).as_deref(), Some("shop"));
    assert_eq!(event_product(&decl(DeclarationKind::Role, "r", None)), None);
}

#[test]
fn texts_of_apply() {
    assert_eq!(idempotency_key("volume", "data", "c-1"), "apply-volume-data-c-1");
    assert_eq!(
        product_exists_query("https://picloud.local/products/shop"),
        "SELECT ?s WHERE { <https://picloud.local/products/shop> a <https://picloud.local/ontology#Product> } LIMIT 1"
    );
    assert!(product_conflict_message("shop").starts_with("product 'shop' already exists"));
    assert_eq!(apply_status(true), "declared");
    assert_eq!(apply_status(false), "failed");
    assert!(product_conflicts(Some(true)));
    assert!(!product_conflicts(None));
}


#[test]
fn apply_run_records_results_in_order() {
    let decls = vec![
        decl(DeclarationKind::Product, "shop", None),
        decl(DeclarationKind::Scope, "read", Some("shop")),
        decl(DeclarationKind::Volume, "data", Some("shop")),
    ];
    let mut run = ApplyRun::new("c-7");
    let iri = "https://picloud.local/products/shop";
    assert!(matches!(run.step(&decls, iri), ApplyStep::CheckProduct(q) if q == product_exists_query(iri)));
    assert!(run.product_checked("shop", Some(false)));
    assert!(run.appended("shop", "Product", None));
    assert!(matches!(run.step(&decls, ""), ApplyStep::Skip));
    run.skipped();
    assert!(matches!(run.step(&decls, ""), ApplyStep::Append));
    assert!(!run.appended("data", "Volume", Some("log closed")));
    assert!(matches!(run.step(&decls, ""), ApplyStep::Finished));
    let (correlation, results) = run.outcome().unwrap();
    assert_eq!(correlation, "c-7");
    assert_eq!(results.len(), 2);
    assert_eq!((results[0].name.as_str(), results[0].status.as_str()), ("shop", "declared"));
    assert_eq!((results[1].status.as_str(), results[1].error.as_deref()), ("failed", Some("log closed")));
}

#[test]
fn apply_run_stops_on_existing_product() {
    let decls = vec![decl(DeclarationKind::Product, "shop", None), decl(DeclarationKind::Volume, "v", Some("shop"))];
    let mut run = ApplyRun::new("c-8");
    assert!(!run.product_checked("shop", Some(true)));
    assert!(matches!(run.step(&decls, ""), ApplyStep::Finished));
    assert_eq!(run.outcome().unwrap_err(), &product_conflict_message("shop"));
}

#[test]
fn apply_without_event_log_is_refused_before_validation() {
    assert_eq!(apply_precheck(false, Err("bad file".to_string())), Err((503, "event log not available".to_string())));
    assert_eq!(apply_precheck(false, Ok(())), Err((503, "event log not available".to_string())));
    assert_eq!(apply_precheck(true, Err("bad file".to_string())), Err((400, "bad file".to_string())));
    assert_eq!(apply_precheck(true, Ok(())), Ok(()));
}

#[test]
fn every_event_of_an_apply_carries_its_correlation_id() {
    let mut run = ApplyRun::new("corr-1");
    let own = run.declaration_stamp("Volume", "data");
    assert_eq!(own.correlation_id, "corr-1");
    assert_eq!(own.idempotency_key.as_deref(), Some("apply-Volume-data-corr-1"));
    assert!(run.appended("data", "Volume", None));
    let tag = run.tag_stamp();
    assert_eq!(tag.correlation_id, "corr-1");
    assert_eq!(tag.idempotency_key, None);
    assert_eq!(run.outcome().unwrap().0, "corr-1");
}
