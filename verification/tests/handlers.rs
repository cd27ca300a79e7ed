use picloud_http::handlers::{
    command_event_type, event_read_limit, select_events, EventOrigin, command_source_text, config_key_rejection,
    export_is_parquet, command_source_iri, flag_active, graph_access, is_ask_query, parquet_export_body,
    query_reads_spans, replay_window, GraphAccess,
};

#[test]
fn graph_access_rules() {
    assert!(matches!(graph_access(Some("Bearer abc"), true), GraphAccess::ValidateToken(t) if t == "abc"));
    assert!(matches!(graph_access(Some("Bearer abc"), false), GraphAccess::Proceed));
    assert!(matches!(graph_access(Some("Basic xyz"), true), GraphAccess::Proceed));
    assert!(matches!(graph_access(None, true), GraphAccess::Unauthorized));
    assert!(matches!(graph_access(None, false), GraphAccess::Proceed));
}

#[test]
fn ask_queries_detected_after_prologue() {
    assert!(is_ask_query("ASK { ?s ?p ?o }"));
    assert!(is_ask_query("  ask where { ?s ?p ?o }"));
    assert!(is_ask_query("PREFIX pc: <https://picloud.local/ontology#>\nBASE <x>\n  ASK { ?s a pc:Node }"));
    assert!(!is_ask_query("SELECT ?s WHERE { ?s ?p ?o }"));
    assert!(!is_ask_query("PREFIX pc: <x> ASK { }"));
}

#[test]
fn telemetry_signal_and_export_format() {
    assert!(query_reads_spans(None));
    assert!(query_reads_spans(Some("spans")));
    assert!(query_reads_spans(Some("traces")));
    assert!(!query_reads_spans(Some("metrics")));
    assert!(export_is_parquet(Some("parquet")));
    assert!(!export_is_parquet(None));
}

#[test]
fn parquet_export_framing() {
    assert_eq!(parquet_export_body(0, b"[]"), Vec::<u8>::new());
    assert_eq!(parquet_export_body(1, b"[1]"), b"PAR1[1]PAR1".to_vec());
}

#[test]
fn replay_windows() {
    let (from, to) = replay_window("2026-01-01T00:00:00Z", None).unwrap();
    assert_eq!(from, (1_767_225_600, 0));
    assert_eq!(to, None);
    let (_, to) = replay_window("2026-01-01T00:00:00Z", Some("2026-01-01T00:00:01.5Z")).unwrap();
    assert_eq!(to, Some((1_767_225_601, 500_000_000)));
    assert!(replay_window("yesterday", None).unwrap_err().starts_with("invalid 'from' timestamp: "));
    assert!(replay_window("2026-01-01T00:00:00Z", Some("soon")).unwrap_err().starts_with("invalid 'to' timestamp: "));
}

#[test]
fn config_keys_that_look_like_secrets_are_refused() {
    assert_eq!(
        config_key_rejection("DB_Password"),
        Some("config key 'DB_Password' looks like a secret \u{2014} use the secrets store (picloud secret set) instead".to_string())
    );
    assert_eq!(config_key_rejection("log_level"), None);
}

#[test]
fn flag_is_active_only_when_enabled_and_version_matches() {
    assert!(flag_active("true", Some(true)));
    assert!(!flag_active("true", Some(false)));
    assert!(!flag_active("true", None));
    assert!(!flag_active("false", Some(true)));
    assert!(!flag_active("TRUE", Some(true)));
}

#[test]
fn command_defaults() {
    assert_eq!(command_event_type(None), "Command");
    assert_eq!(command_event_type(Some("ResourceDeclared")), "ResourceDeclared");
    assert_eq!(command_source_text(None, "https://c.local"), "https://c.local/api/commands");
    assert_eq!(command_source_text(Some("x"), "https://c.local"), "x");
    assert_eq!(command_source_iri("cli", "https://c.local", false), "https://c.local/external/cli");
    assert_eq!(command_source_iri("https://c.local/x", "https://c.local", true), "https://c.local/x");
}

fn origin(product: Option<&str>, source: &str) -> EventOrigin {
    EventOrigin { product: product.map(|p| p.to_string()), source: source.to_string() }
}

#[test]
fn event_read_limit_defaults_to_100() {
    assert_eq!(event_read_limit(None), 100);
    assert_eq!(event_read_limit(Some("5")), 5);
    assert_eq!(event_read_limit(Some("five")), 100);
    assert_eq!(event_read_limit(Some("-1")), 100);
}

#[test]
fn events_selected_by_product_stream_and_limit() {
    let events = vec![
        origin(Some("shop"), "s/a"),
        origin(None, "s/a"),
        origin(Some("blog"), "s/a"),
        origin(Some("shop"), "s/b"),
        origin(Some("shop"), "s/a"),
    ];
    assert_eq!(select_events(&events, "shop", None, None), vec![0, 3, 4]);
    assert_eq!(select_events(&events, "shop", None, Some(2)), vec![0, 3]);
    assert_eq!(select_events(&events, "shop", None, Some(0)), Vec::<usize>::new());
    assert_eq!(select_events(&events, "shop", Some("s/a"), None), vec![0, 4]);
    assert_eq!(select_events(&events, "none", None, Some(10)), Vec::<usize>::new());
}

#[test]
fn event_store_read_filters_by_aggregate() {
    let order1 = "https://picloud.local/products/photo-app/event-store/main/Order/order-1";
    let order2 = "https://picloud.local/products/photo-app/event-store/main/Order/order-2";
    let events = vec![origin(Some("photo-app"), order1), origin(Some("photo-app"), order2)];
    assert_eq!(select_events(&events, "photo-app", Some(order1), None), vec![0]);
    assert_eq!(select_events(&events, "photo-app", Some(order2), None), vec![1]);
}
