use picloud_http::implementation::IngressTable;
use picloud_http::provisioner::{
    binary_args, cascade_plan, deletion_event, provisioning_outcome_event, reschedule_events, child_resources_query, declaration_complete, ingress_declaration,
    node_workloads_query, provisioner_task, provisioning_result_event, register_ingress, reschedule_plan,
    resource_kind, resource_limits, route_ingress, secret_fields, subscribed_event_types, volume_size_gb,
    workload_fields, Cleanup, ProvisionerTask, ResourceKind,
};
use picloud_http::router::IngressRouter;

fn s(x: &str) -> Option<String> {
    Some(x.to_string())
}

#[test]
fn event_types_map_to_tasks() {
    assert_eq!(provisioner_task("ResourceDeclared"), Some(ProvisionerTask::Provision));
    assert_eq!(provisioner_task("ProductDeleted"), Some(ProvisionerTask::CascadeDelete));
    assert_eq!(provisioner_task("NodeUnreachable"), Some(ProvisionerTask::Reschedule));
    assert_eq!(provisioner_task("TagAdded"), None);
    assert_eq!(subscribed_event_types(), vec!["ResourceDeclared", "ProductDeleted", "NodeUnreachable"]);
}

#[test]
fn resource_types_select_backends() {
    assert_eq!(resource_kind("Volume"), ResourceKind::Volume);
    assert_eq!(resource_kind("Container"), ResourceKind::Container);
    assert_eq!(resource_kind("Binary"), ResourceKind::Binary);
    assert_eq!(resource_kind("Secret"), ResourceKind::Secret);
    assert_eq!(resource_kind("Ingress"), ResourceKind::Ingress);
    assert_eq!(resource_kind("EventSubscription"), ResourceKind::EventSubscription);
    assert_eq!(resource_kind("Gizmo"), ResourceKind::Unknown);
}

#[test]
fn missing_resource_type_skips_event() {
    assert!(!declaration_complete(None, Some("https://picloud.local/products/p/volumes/v")));
    assert!(!declaration_complete(Some("Volume"), None));
    assert!(declaration_complete(Some("Volume"), Some("x")));
}

#[test]
fn provisioning_outcomes() {
    assert_eq!(provisioning_result_event(true), "ResourceReady");
    assert_eq!(provisioning_result_event(false), "ResourceFailed");
}

#[test]
fn declaration_defaults() {
    assert_eq!(volume_size_gb(None), 1);
    assert_eq!(volume_size_gb(Some(20)), 20);
    assert_eq!(secret_fields(None, None, None), ("default".to_string(), "unknown".to_string(), String::new()));
    assert_eq!(workload_fields(None, Some("svc")), ("unknown".to_string(), "svc".to_string()));
    assert_eq!(resource_limits(Some(500), Some(0x1_0000_0001)), (Some(500), Some(1)));
    assert_eq!(binary_args(&vec![s("--port"), None, s("80")]), vec!["--port".to_string(), "80".to_string()]);
}

#[test]
fn ingress_emits_ready_and_registers_route() {
    let d = ingress_declaration(Some("/products/test-product/api"), None, Some("test-product"), None, None);
    assert_eq!(d.target_port, 8080);
    assert_eq!(d.host, "picloud.local");
    assert!(!d.internal);
    let mut table = IngressTable::new();
    let iri = "https://picloud.local/products/test-product/ingresses/api";
    register_ingress(&mut table, iri, &d);
    assert_eq!(table.len(), 1);
    let route = table.get(iri).unwrap();
    assert_eq!(route.path, "/products/test-product/api");
    assert_eq!(route.target_port, 8080);
    assert_eq!(route.product, "test-product");

    let mut router = IngressRouter::new();
    route_ingress(&mut router, iri, true, &d);
    let r = router.lookup("picloud.local", "/products/test-product/api/x").unwrap();
    assert_eq!(r.upstream_addr, "127.0.0.1");
    assert_eq!(r.upstream_port, 8080);
    assert_eq!(r.ingress_iri, iri);
}

#[test]
fn ingress_port_keeps_low_sixteen_bits() {
    let d = ingress_declaration(None, Some(65_536 + 443), None, Some("h"), Some(true));
    assert_eq!(d.target_port, 443);
    assert_eq!(d.path, "/");
    assert_eq!(d.product, "unknown");
    assert!(d.internal);
}

#[test]
fn cascade_delete_stops_workloads_and_deletes_volumes() {
    let rows = vec![
        (s("https://picloud.local/products/test-product/containers/api"), s("Container")),
        (s("https://picloud.local/products/test-product/binaries/worker"), s("Binary")),
        (s("https://picloud.local/products/test-product/volumes/data"), s("Volume")),
        (s("https://picloud.local/products/test-product/ingresses/web"), s("Ingress")),
        (None, s("Volume")),
    ];
    let steps = cascade_plan(Some("https://picloud.local/products/test-product"), Some("test-product"), &rows);
    assert_eq!(steps.len(), 4);
    let stopped: Vec<_> = steps.iter().filter(|s| s.cleanup == Cleanup::StopWorkload).collect();
    assert_eq!(stopped.len(), 2);
    let deleted: Vec<_> = steps.iter().filter(|s| s.cleanup == Cleanup::DeleteVolume).collect();
    assert_eq!(deleted.len(), 1);
    assert_eq!(deleted[0].resource_iri, "https://picloud.local/products/test-product/volumes/data");
    assert_eq!(steps[3].cleanup, Cleanup::Nothing);
    // A ResourceDeleted event for each of the four children, under the
    // deletion's correlation id.
    let correlation = "6f1c2b1e-0000-4000-8000-000000000001";
    let events: Vec<_> = steps.iter().map(|st| deletion_event(st, "test-product", correlation)).collect();
    assert_eq!(events.len(), 4);
    for (e, st) in events.iter().zip(&steps) {
        assert_eq!(e.event_type, "ResourceDeleted");
        assert_eq!(e.correlation_id, correlation);
        assert_eq!(e.source, st.resource_iri);
        assert_eq!(e.product.as_deref(), Some("test-product"));
        assert_eq!(e.payload, vec![("resource_iri".to_string(), st.resource_iri.clone())]);
    }
}

#[test]
fn provisioning_outcome_events() {
    let iri = "https://picloud.local/products/test-product/volumes/data";
    let e = provisioning_outcome_event(iri, Some("test-product"), "c-1", None);
    assert_eq!(e.event_type, "ResourceReady");
    assert_eq!((e.source.as_str(), e.correlation_id.as_str()), (iri, "c-1"));
    assert_eq!(e.payload, vec![("resource_iri".to_string(), iri.to_string())]);
    let e = provisioning_outcome_event(iri, None, "c-2", Some("disk full"));
    assert_eq!(e.event_type, "ResourceFailed");
    assert_eq!(e.product, None);
    assert_eq!(e.payload[1], ("reason".to_string(), "disk full".to_string()));
}

#[test]
fn cascade_delete_with_no_children_emits_nothing() {
    assert!(cascade_plan(Some("https://picloud.local/products/p"), Some("p"), &vec![]).is_empty());
}

#[test]
fn cascade_delete_missing_product_iri_skips() {
    let rows = vec![(s("https://picloud.local/products/p/volumes/v"), s("Volume"))];
    assert!(cascade_plan(None, Some("p"), &rows).is_empty());
    assert!(cascade_plan(Some("https://picloud.local/products/p"), None, &rows).is_empty());
}

#[test]
fn cascade_query_filters_by_product_prefix() {
    let q = child_resources_query("https://picloud.local/products/p");
    assert!(q.contains("FILTER(STRSTARTS(STR(?res), \"https://picloud.local/products/p/\"))"));
}

#[test]
fn node_failure_reschedules_each_workload() {
    let rows = vec![
        (s("https://picloud.local/products/a/containers/api"), None, s("a")),
        (None, s("Binary"), None),
        (s("https://picloud.local/products/b/binaries/w"), s("Binary"), None),
    ];
    let steps = reschedule_plan(Some("https://picloud.local/nodes/pi-02"), Some("pi-02"), &rows);
    assert_eq!(steps.len(), 2);
    assert_eq!(steps[0].resource_type, "Container");
    assert_eq!(steps[0].product.as_deref(), Some("a"));
    assert_eq!(steps[0].reason, "Node pi-02 became unreachable");
    assert_eq!(steps[1].resource_type, "Binary");
    assert!(reschedule_plan(None, Some("pi-02"), &rows).is_empty());
    assert_eq!(reschedule_plan(Some("n"), None, &rows)[0].reason, "Node unknown became unreachable");
    let (moved, declared) = reschedule_events(&steps[0], "https://picloud.local/nodes/pi-02", "c-9");
    assert_eq!(moved.event_type, "WorkloadRescheduled");
    assert_eq!(moved.payload[1], ("from_node_iri".to_string(), "https://picloud.local/nodes/pi-02".to_string()));
    assert_eq!(moved.payload[2], ("reason".to_string(), "Node pi-02 became unreachable".to_string()));
    assert_eq!(declared.event_type, "ResourceDeclared");
    assert_eq!(declared.payload[1], ("resource_type".to_string(), "Container".to_string()));
    assert_eq!((moved.correlation_id.as_str(), declared.correlation_id.as_str()), ("c-9", "c-9"));
    assert_eq!(declared.product.as_deref(), Some("a"));
    assert!(node_workloads_query("https://picloud.local/nodes/pi-02").contains("<https://picloud.local/nodes/pi-02>"));
}

#[test]
fn ingress_with_invalid_iri_routes_under_unknown_ingress() {
    let d = ingress_declaration(Some("/api"), Some(9000), Some("shop"), Some("shop.local"), None);
    let mut router = IngressRouter::new();
    route_ingress(&mut router, "not an iri", false, &d);
    let r = router.lookup("shop.local", "/api/v1").unwrap();
    assert_eq!(r.ingress_iri, "https://picloud.local/products/shop/ingresses/unknown");
    assert_eq!(r.upstream_port, 9000);
}

// Each declared resource is provisioned by its kind, then announced ready
// under the declaring event's product and correlation id.
fn ready_event(iri: &str) -> picloud_http::provisioner::PlannedEvent {
    provisioning_outcome_event(iri, Some("test-product"), "corr-1", None)
}

#[test]
fn provisions_volume_and_emits_ready() {
    assert_eq!(resource_kind("Volume"), ResourceKind::Volume);
    assert_eq!(volume_size_gb(Some(10)), 10);
    let e = ready_event("https://picloud.local/products/test-product/volumes/data");
    assert_eq!((e.event_type.as_str(), e.correlation_id.as_str()), ("ResourceReady", "corr-1"));
}

#[test]
fn provisions_container_and_emits_ready() {
    assert_eq!(resource_kind("Container"), ResourceKind::Container);
    let (image, identity) = workload_fields(Some("my-image:latest"), Some("api-id"));
    assert_eq!((image.as_str(), identity.as_str()), ("my-image:latest", "api-id"));
    assert_eq!(ready_event("https://picloud.local/products/test-product/containers/api").event_type, "ResourceReady");
}

#[test]
fn provisions_binary_and_emits_ready() {
    assert_eq!(resource_kind("Binary"), ResourceKind::Binary);
    let (exe, identity) = workload_fields(Some("/usr/bin/worker"), None);
    assert_eq!((exe.as_str(), identity.as_str()), ("/usr/bin/worker", "default"));
    assert_eq!(ready_event("https://picloud.local/products/test-product/binaries/worker").event_type, "ResourceReady");
}

#[test]
fn event_subscription_emits_ready_immediately() {
    assert_eq!(resource_kind("EventSubscription"), ResourceKind::EventSubscription);
    assert_eq!(ready_event("https://picloud.local/products/test-product/event-subscriptions/s").event_type, "ResourceReady");
}

#[test]
fn provisioner_start_and_process_event() {
    assert_eq!(provisioner_task("ResourceDeclared"), Some(ProvisionerTask::Provision));
    assert_eq!(volume_size_gb(Some(5)), 5);
    assert_eq!(ready_event("https://picloud.local/products/test-product/volumes/v").event_type, "ResourceReady");
}
