use picloud_http::implementation::{
    content_digest, default_config_type_str, default_hmac_format,
    is_sensitive_config_key, parse_schema_version, require_oci_scope, sha2_hex, split_oci_path,
    ContentType, IngressRoute, IngressTable, ValidatedIdentity,
};

fn identity(roles: &[&str], scopes: &[&str], permissions: &[&str]) -> ValidatedIdentity {
    ValidatedIdentity {
        identity_iri: "https://picloud.local/identities/user1".to_string(),
        product: None,
        roles: roles.iter().map(|s| s.to_string()).collect(),
        audience: None,
        scopes: scopes.iter().map(|s| s.to_string()).collect(),
        permissions: permissions.iter().map(|s| s.to_string()).collect(),
    }
}

#[test]
fn content_type_negotiation_parsing() {
    assert_eq!(ContentType::from_accept("application/json"), ContentType::Json);
    assert_eq!(ContentType::from_accept("text/turtle"), ContentType::Turtle);
    assert_eq!(ContentType::from_accept("application/ld+json"), ContentType::JsonLd);
    assert_eq!(ContentType::from_accept("text/turtle, application/json"), ContentType::Turtle);
    assert_eq!(ContentType::from_accept("application/ld+json;q=0.9, text/turtle;q=1.0"), ContentType::JsonLd);
    assert_eq!(ContentType::from_accept("text/html"), ContentType::Json);
    assert_eq!(ContentType::from_accept("*/*"), ContentType::Json);
}

#[test]
fn oci_scope_check_admin_bypasses() {
    let identity = identity(&["admin"], &[], &[]);
    assert!(require_oci_scope(&identity, "pull").is_ok());
    assert!(require_oci_scope(&identity, "push").is_ok());
    assert!(require_oci_scope(&identity, "delete").is_ok());
}

#[test]
fn oci_scope_check_specific_scope() {
    let identity = identity(&["user"], &["pull"], &[]);
    assert!(require_oci_scope(&identity, "pull").is_ok());
    assert!(require_oci_scope(&identity, "push").is_err());
    assert!(require_oci_scope(&identity, "delete").is_err());
}

#[test]
fn oci_scope_check_wildcard_scope() {
    let identity = identity(&["user"], &["*"], &[]);
    assert!(require_oci_scope(&identity, "pull").is_ok());
    assert!(require_oci_scope(&identity, "push").is_ok());
    assert!(require_oci_scope(&identity, "delete").is_ok());
}

#[test]
fn oci_scope_check_permissions_fallback() {
    let identity = identity(&["user"], &[], &["push"]);
    assert!(require_oci_scope(&identity, "push").is_ok());
    assert!(require_oci_scope(&identity, "pull").is_err());
}

#[test]
fn oci_scope_refusal_message() {
    let identity = identity(&["user"], &[], &[]);
    assert_eq!(require_oci_scope(&identity, "push"), Err("insufficient scope: push required".to_string()));
}

#[test]
fn sha2_hex_of_known_inputs() {
    assert_eq!(sha2_hex(b""), "e3b0c44298fc1c149afbf4c8996fb92427ae41e4649b934ca495991b7852b855");
    assert_eq!(sha2_hex(b"abc"), "ba7816bf8f01cfea414140de5dae2223b00361a396177a9cb410ff61f20015ad");
    assert_eq!(content_digest(b"abc"), "sha256:ba7816bf8f01cfea414140de5dae2223b00361a396177a9cb410ff61f20015ad");
}

#[test]
fn split_oci_path_by_segment() {
    assert_eq!(
        split_oci_path("library/nginx/manifests/latest", "manifests"),
        Some(("library/nginx".to_string(), "latest".to_string()))
    );
    assert_eq!(split_oci_path("library/nginx", "manifests"), None);
}

#[test]
fn schema_versions_parse_as_u32() {
    assert_eq!(parse_schema_version("1"), Some(1));
    assert_eq!(parse_schema_version("v1"), None);
    assert_eq!(parse_schema_version("4294967296"), None);
}

#[test]
fn sensitive_keys_by_substring() {
    assert!(is_sensitive_config_key("DB_PASSWORD"));
    assert!(is_sensitive_config_key("stripe_api_key"));
    assert!(!is_sensitive_config_key("log_level"));
}

#[test]
fn config_defaults() {
    assert_eq!(default_hmac_format(), "hmac");
    assert_eq!(default_config_type_str(), "string");
}

#[test]
fn header_values_of_content_types() {
    assert_eq!(ContentType::Turtle.as_header_value(), "text/turtle");
    assert_eq!(ContentType::JsonLd.as_header_value(), "application/ld+json");
}

#[test]
fn ingress_table_insert_replaces_and_looks_up_longest_prefix() {
    let mut t = IngressTable::new();
    t.insert(
        "https://picloud.local/products/a/ingresses/api".to_string(),
        IngressRoute { path: "/products/a".to_string(), target_port: 8080, product: "a".to_string() },
    );
    t.insert(
        "https://picloud.local/products/a/ingresses/deep".to_string(),
        IngressRoute { path: "/products/a/api".to_string(), target_port: 9090, product: "a".to_string() },
    );
    assert_eq!(t.len(), 2);
    assert_eq!(t.lookup("/products/a/api/v1").unwrap().target_port, 9090);
    assert_eq!(t.lookup("/products/a/web").unwrap().target_port, 8080);
    assert!(t.lookup("/other").is_none());
    t.insert(
        "https://picloud.local/products/a/ingresses/deep".to_string(),
        IngressRoute { path: "/products/a/api".to_string(), target_port: 7070, product: "a".to_string() },
    );
    assert_eq!(t.len(), 2);
    assert_eq!(t.get("https://picloud.local/products/a/ingresses/deep").unwrap().target_port, 7070);
}

#[test]
fn header_value_negotiates_back_to_its_type() {
    for c in [ContentType::Json, ContentType::Turtle, ContentType::JsonLd] {
        assert_eq!(ContentType::from_accept(c.as_header_value()), c);
    }
    assert_eq!(ContentType::Json.as_header_value(), "application/json");
    assert_eq!(ContentType::Turtle.as_header_value(), "text/turtle");
    assert_eq!(ContentType::JsonLd.as_header_value(), "application/ld+json");
}
