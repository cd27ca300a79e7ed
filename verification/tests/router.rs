use picloud_http::router::{IngressRouter, RouteEntry};

fn make_entry(path: &str, addr: &str, port: u16, product: &str, internal: bool) -> RouteEntry {
    RouteEntry {
        path_prefix: path.to_string(),
        upstream_addr: addr.to_string(),
        upstream_port: port,
        product: product.to_string(),
        internal,
        ingress_iri: format!("https://picloud.local/products/{product}/ingresses/test-{port}"),
    }
}

#[test]
fn test_lookup_by_host_and_path() {
    let mut router = IngressRouter::new();
    router.upsert_route("photos.picloud.local".to_string(), make_entry("/api", "10.0.0.1", 8080, "photo-app", false));
    router.upsert_route("photos.picloud.local".to_string(), make_entry("/", "10.0.0.1", 3000, "photo-app", false));

    let r = router.lookup("photos.picloud.local", "/api/v1/photos").unwrap();
    assert_eq!(r.path_prefix, "/api");
    assert_eq!(r.upstream_port, 8080);

    let r = router.lookup("photos.picloud.local", "/index.html").unwrap();
    assert_eq!(r.upstream_port, 3000);

    assert!(router.lookup("unknown.picloud.local", "/api").is_none());
}

#[test]
fn test_upsert_replaces_existing_route() {
    let mut router = IngressRouter::new();
    router.upsert_route("photos.picloud.local".to_string(), make_entry("/api", "10.0.0.1", 8080, "photo-app", false));
    let mut entry2 = make_entry("/api", "10.0.0.2", 9090, "photo-app", false);
    entry2.ingress_iri = "https://picloud.local/products/photo-app/ingresses/test-8080".to_string();
    router.upsert_route("photos.picloud.local".to_string(), entry2);

    assert_eq!(router.route_count(), 1);
    let r = router.lookup("photos.picloud.local", "/api/test").unwrap();
    assert_eq!(r.upstream_port, 9090);
}

#[test]
fn test_remove_route() {
    let mut router = IngressRouter::new();
    let entry = make_entry("/api", "10.0.0.1", 8080, "photo-app", false);
    let iri = entry.ingress_iri.clone();
    router.upsert_route("photos.picloud.local".to_string(), entry);
    assert_eq!(router.route_count(), 1);
    router.remove_route(&iri);
    assert_eq!(router.route_count(), 0);
    assert!(router.lookup("photos.picloud.local", "/api").is_none());
}

#[test]
fn test_internal_routes() {
    let mut router = IngressRouter::new();
    router.upsert_route("".to_string(), make_entry("/metrics", "10.0.0.1", 9090, "photo-app", true));
    assert!(router.lookup("photos.picloud.local", "/metrics").is_none());
    let r = router.lookup_internal("/metrics").unwrap();
    assert_eq!(r.upstream_port, 9090);
}

#[test]
fn update_upstream_moves_routes_to_new_address() {
    let mut router = IngressRouter::new();
    router.upsert_route("a.picloud.local".to_string(), make_entry("/", "10.0.0.1", 8080, "a", false));
    router.upsert_route("b.picloud.local".to_string(), make_entry("/", "10.0.0.9", 8081, "b", false));
    router.update_upstream("10.0.0.1", "10.0.0.5");
    assert_eq!(router.lookup("a.picloud.local", "/x").unwrap().upstream_addr, "10.0.0.5");
    assert_eq!(router.lookup("b.picloud.local", "/x").unwrap().upstream_addr, "10.0.0.9");
}

#[test]
fn lookup_misses_when_no_prefix_matches() {
    let mut router = IngressRouter::new();
    router.upsert_route("a.picloud.local".to_string(), make_entry("/api", "10.0.0.1", 8080, "a", false));
    assert!(router.lookup("a.picloud.local", "/web").is_none());
}
