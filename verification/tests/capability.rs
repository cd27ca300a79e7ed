use picloud_http::capability::{
    capability_fulfilled, min_version_or_default, product_name_from_iri, resolve_implementor,
    version_cmp, version_satisfies, CapabilityError,
};

#[test]
fn version_satisfies_basic() {
    assert!(version_satisfies("1.0.0", "1.0.0"));
    assert!(version_satisfies("2.0.0", "1.0.0"));
    assert!(version_satisfies("1.1.0", "1.0.0"));
    assert!(version_satisfies("1.0.1", "1.0.0"));
    assert!(!version_satisfies("0.9.0", "1.0.0"));
    assert!(!version_satisfies("1.0.0", "2.0.0"));
}

#[test]
fn version_satisfies_partial() {
    assert!(version_satisfies("2", "1.0.0"));
    assert!(version_satisfies("1.0.0", "1"));
    assert!(!version_satisfies("0", "1.0.0"));
}

#[test]
fn version_cmp_ordering() {
    assert_eq!(version_cmp("1.0.0", "1.0.0"), std::cmp::Ordering::Equal);
    assert_eq!(version_cmp("2.0.0", "1.0.0"), std::cmp::Ordering::Greater);
    assert_eq!(version_cmp("1.0.0", "2.0.0"), std::cmp::Ordering::Less);
    assert_eq!(version_cmp("1.2.0", "1.1.0"), std::cmp::Ordering::Greater);
}

#[test]
fn version_cmp_is_antisymmetric_on_examples() {
    let pairs = [("1.2", "1.10"), ("3", "3.0.0"), ("0.9.9", "1"), ("1.a.2", "1.0.3")];
    for (a, b) in pairs {
        let ab = version_cmp(a, b);
        let ba = version_cmp(b, a);
        assert_eq!(ab, ba.reverse());
        assert_eq!(version_satisfies(a, b), ab != std::cmp::Ordering::Less);
    }
}

#[test]
fn version_components_treat_missing_and_non_numeric_as_zero() {
    assert_eq!(version_cmp("3", "3.0.0"), std::cmp::Ordering::Equal);
    assert_eq!(version_cmp("1.x", "1.0"), std::cmp::Ordering::Equal);
    assert_eq!(version_cmp("1.10", "1.9"), std::cmp::Ordering::Greater);
}

#[test]
fn product_name_is_last_segment_of_iri() {
    assert_eq!(product_name_from_iri("https://picloud.local/products/photo-app"), "photo-app");
    assert_eq!(product_name_from_iri("plain"), "plain");
}

#[test]
fn resolve_picks_highest_satisfying_version() {
    let candidates = vec![
        ("1.0.0".to_string(), "https://picloud.local/products/a".to_string()),
        ("2.1.0".to_string(), "https://picloud.local/products/b".to_string()),
        ("0.5.0".to_string(), "https://picloud.local/products/c".to_string()),
    ];
    let r = resolve_implementor("storage", "1.0.0", &candidates).ok().unwrap();
    assert_eq!(r.implementor_product, "b");
    assert_eq!(r.implementor_version, "2.1.0");
}

#[test]
fn resolve_without_satisfying_candidate_is_unfulfilled() {
    let candidates = vec![("0.5.0".to_string(), "https://picloud.local/products/c".to_string())];
    match resolve_implementor("storage", "1.0.0", &candidates) {
        Err(CapabilityError::Unfulfilled { .. }) => {}
        other => panic!("expected an unfulfilled capability, got {other:?}"),
    }
}

#[test]
fn capability_fulfilled_needs_implementors_and_ready_status() {
    assert!(capability_fulfilled(1, "ready"));
    assert!(capability_fulfilled(2, "CapabilityReady"));
    assert!(!capability_fulfilled(0, "ready"));
    assert!(!capability_fulfilled(3, "declared"));
}

#[test]
fn min_version_defaults_to_one() {
    assert_eq!(min_version_or_default(None), "1.0.0");
    assert_eq!(min_version_or_default(Some("2.3")), "2.3");
}
