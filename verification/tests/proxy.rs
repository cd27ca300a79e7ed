use picloud_http::implementation::{IngressRoute, IngressTable};
use picloud_http::router::{IngressRouter, RouteEntry};
use picloud_http::proxy::{
    downstream_path, eq_ignore_ascii_case_str, failure_body, failure_status, forwarded_request_headers, is_forwarded_response_header,
    draining_refusal, ingress_proxy_decision, legacy_no_route_message, ProxyDecision, no_route_message, proxied_status, proxy_host, target_url, traceparent, DrainState, UpstreamFailure,
};

#[test]
fn draining_toggles() {
    let mut d = DrainState::new();
    assert!(!d.is_draining());
    d.start_drain();
    assert!(d.is_draining());
    d.stop_drain();
    assert!(!d.is_draining());
}

#[test]
fn host_header_without_port() {
    assert_eq!(proxy_host("photos.picloud.local:8443"), "photos.picloud.local");
    assert_eq!(proxy_host("photos.picloud.local"), "photos.picloud.local");
    assert_eq!(proxy_host(""), "");
}

#[test]
fn downstream_paths() {
    assert_eq!(downstream_path("/api/v1/photos", "/api"), "/v1/photos");
    assert_eq!(downstream_path("/api", "/api"), "/");
    assert_eq!(downstream_path("/apiv2", "/api"), "/v2");
    assert_eq!(downstream_path("/index.html", "/"), "/index.html");
}

#[test]
fn target_urls() {
    assert_eq!(target_url("127.0.0.1", 19999, "/hello", None), "http://127.0.0.1:19999/hello");
    assert_eq!(target_url("10.0.0.1", 80, "/a", Some("x=1")), "http://10.0.0.1:80/a?x=1");
}

#[test]
fn request_headers_forwarded_without_host_and_transfer_encoding() {
    let headers = vec![
        ("host".to_string(), Some("a".to_string())),
        ("accept".to_string(), Some("*/*".to_string())),
        ("transfer-encoding".to_string(), Some("chunked".to_string())),
        ("x-binary".to_string(), None),
    ];
    let (out, traced) = forwarded_request_headers(&headers);
    assert_eq!(out, vec![("accept".to_string(), "*/*".to_string())]);
    assert!(!traced);
    let (_, traced) = forwarded_request_headers(&vec![("traceparent".to_string(), Some("00-x".to_string()))]);
    assert!(traced);
}

#[test]
fn response_headers_drop_transfer_encoding() {
    assert!(!is_forwarded_response_header("transfer-encoding"));
    assert!(is_forwarded_response_header("content-type"));
}

#[test]
fn traceparent_format() {
    let id = [0u8, 1, 2, 3, 4, 5, 6, 7, 8, 9, 10, 11, 12, 13, 254, 255];
    assert_eq!(traceparent(&id, 0xab), "00-000102030405060708090a0b0c0dfeff-00000000000000ab-01");
}

#[test]
fn ascii_case_insensitive_compare() {
    assert!(eq_ignore_ascii_case_str("TraceParent", "traceparent"));
    assert!(!eq_ignore_ascii_case_str("traceparen", "traceparent"));
}

#[test]
fn failures_map_to_statuses() {
    assert_eq!(failure_status(UpstreamFailure::Unreachable), (503, true));
    assert_eq!(failure_status(UpstreamFailure::RequestFailed), (502, false));
    assert_eq!(failure_status(UpstreamFailure::BodyUnreadable), (400, false));
    assert_eq!(proxied_status(204), 204);
    assert_eq!(proxied_status(42), 502);
}

#[test]
fn not_found_message_names_host_and_path() {
    assert_eq!(no_route_message("h", "/p"), "no route matches host=h path=/p");
}

#[test]
fn test_503_when_upstream_down() {
    // A route to a port nothing listens on: the proxy targets it, and a
    // connection failure is answered with 503 and Retry-After.
    let mut router = IngressRouter::new();
    router.upsert_route(
        "test.picloud.local".to_string(),
        RouteEntry {
            path_prefix: "/".to_string(),
            upstream_addr: "127.0.0.1".to_string(),
            upstream_port: 19999,
            product: "test".to_string(),
            internal: false,
            ingress_iri: "https://picloud.local/products/test/ingresses/dead".to_string(),
        },
    );
    let host = proxy_host("test.picloud.local");
    let route = router.lookup(&host, "/hello").unwrap();
    assert_eq!(target_url(&route.upstream_addr, route.upstream_port, "/hello", None), "http://127.0.0.1:19999/hello");
    let (status, retry_after) = failure_status(UpstreamFailure::Unreachable);
    assert!(status == 503 || status == 502);
    assert!(retry_after);
}

#[test]
fn failure_bodies_name_the_cause() {
    assert_eq!(
        failure_body(UpstreamFailure::Unreachable, "10.0.0.4"),
        ("service_unavailable".to_string(), "upstream unreachable: 10.0.0.4".to_string())
    );
    assert_eq!(
        failure_body(UpstreamFailure::BodyUnreadable, "eof"),
        ("bad_request".to_string(), "failed to read request body: eof".to_string())
    );
    assert_eq!(
        failure_body(UpstreamFailure::RequestFailed, "timeout"),
        ("bad_gateway".to_string(), "failed to connect to workload: timeout".to_string())
    );
    assert_eq!(
        failure_body(UpstreamFailure::ResponseUnreadable, "reset"),
        ("bad_gateway".to_string(), "failed to read upstream response: reset".to_string())
    );
}

#[test]
fn draining_and_legacy_refusals() {
    let (status, code, message) = draining_refusal();
    assert_eq!(status, 503);
    assert_eq!(code, "service_unavailable");
    assert_eq!(message, "node is draining \u{2014} retry on another node");
    assert_eq!(legacy_no_route_message("/x"), "no route matches path: /x");
}

#[test]
fn ingress_proxy_dispatch() {
    let mut router = IngressRouter::new();
    router.upsert_route(
        "shop.local".to_string(),
        RouteEntry {
            path_prefix: "/api".to_string(),
            upstream_addr: "10.0.0.4".to_string(),
            upstream_port: 3000,
            product: "shop".to_string(),
            internal: false,
            ingress_iri: "https://picloud.local/products/shop/ingresses/api".to_string(),
        },
    );
    let mut table = IngressTable::new();
    table.insert(
        "i".to_string(),
        IngressRoute { path: "/legacy".to_string(), target_port: 8080, product: "p".to_string() },
    );
    let mut drain = DrainState::new();
    let d = ingress_proxy_decision(&drain, Some(&router), &table, Some("shop.local:443"), "/api/v1", Some("a=1"));
    assert!(matches!(d, ProxyDecision::Forward(u) if u == "http://10.0.0.4:3000/v1?a=1"));
    let d = ingress_proxy_decision(&drain, Some(&router), &table, None, "/api/v1", None);
    assert!(matches!(d, ProxyDecision::NoRoute(m) if m == "no route matches host= path=/api/v1"));
    let d = ingress_proxy_decision(&drain, None, &table, None, "/legacy", None);
    assert!(matches!(d, ProxyDecision::Forward(u) if u == "http://127.0.0.1:8080/"));
    let d = ingress_proxy_decision(&drain, None, &table, None, "/other", None);
    assert!(matches!(d, ProxyDecision::NoRoute(m) if m == "no route matches path: /other"));
    drain.start_drain();
    let d = ingress_proxy_decision(&drain, Some(&router), &table, Some("shop.local"), "/api", None);
    assert!(matches!(d, ProxyDecision::Draining));
}
