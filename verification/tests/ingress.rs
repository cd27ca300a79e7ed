use picloud_http::ingress::{ingress_event, ingress_upsert, subscribed_events, IngressEvent, IngressEventHandler, IngressPayload};
use picloud_http::router::IngressRouter;
use picloud_http::tls::{IssuedCert, TlsState};

fn payload() -> IngressPayload {
    IngressPayload {
        ingress_iri: Some("https://picloud.local/products/shop/ingresses/web".to_string()),
        product: Some("shop".to_string()),
        path: None,
        upstream_addr: Some("10.0.0.4".to_string()),
        port: Some(3000),
        internal: None,
        host: Some("shop.picloud.local".to_string()),
        old_address: None,
        new_address: None,
    }
}

#[test]
fn events_classified() {
    assert_eq!(ingress_event("IngressCreated"), Some(IngressEvent::Upserted));
    assert_eq!(ingress_event("IngressUpdated"), Some(IngressEvent::Upserted));
    assert_eq!(ingress_event("IngressDeleted"), Some(IngressEvent::Deleted));
    assert_eq!(ingress_event("WorkloadRescheduled"), Some(IngressEvent::WorkloadRescheduled));
    assert_eq!(ingress_event("WorkloadFailed"), None);
    assert_eq!(subscribed_events().len(), 5);
}

#[test]
fn upsert_then_delete() {
    let mut h = IngressEventHandler::new(IngressRouter::new(), TlsState::with_ca());
    let u = ingress_upsert(&payload(), true);
    assert!(u.needs_cert);
    assert_eq!(u.entry.path_prefix, "/");
    h.apply_upsert(u);
    h.store_cert(IssuedCert {
        hostname: "shop.picloud.local".to_string(),
        cert_pem: "c".to_string(),
        key_pem: "k".to_string(),
        expires_at_secs: 10,
        expires_at_nanos: 0,
    });
    assert_eq!(h.router().lookup("shop.picloud.local", "/x").unwrap().upstream_port, 3000);
    assert_eq!(h.tls().cert_count(), 1);
    h.on_ingress_deleted("https://picloud.local/products/shop/ingresses/web", "shop.picloud.local");
    assert!(h.router().lookup("shop.picloud.local", "/x").is_none());
    assert_eq!(h.tls().cert_count(), 0);
}

#[test]
fn rescheduling_moves_upstream() {
    let mut h = IngressEventHandler::new(IngressRouter::new(), TlsState::new());
    h.apply_upsert(ingress_upsert(&payload(), true));
    h.on_workload_rescheduled("10.0.0.4", "");
    assert_eq!(h.router().lookup("shop.picloud.local", "/").unwrap().upstream_addr, "10.0.0.4");
    h.on_workload_rescheduled("10.0.0.4", "10.0.0.9");
    assert_eq!(h.router().lookup("shop.picloud.local", "/").unwrap().upstream_addr, "10.0.0.9");
}

#[test]
fn invalid_ingress_iri_falls_back_to_unknown_ingress() {
    let u = ingress_upsert(&payload(), false);
    assert_eq!(u.entry.ingress_iri, "https://picloud.local/products/shop/ingresses/unknown");
    let mut p = payload();
    p.product = None;
    p.internal = Some(true);
    let u = ingress_upsert(&p, false);
    assert_eq!(u.entry.ingress_iri, "https://picloud.local/products/unknown/ingresses/unknown");
    assert_eq!(u.entry.product, "unknown");
    assert!(!u.needs_cert);
    assert_eq!(u.host, "shop.picloud.local");
}
