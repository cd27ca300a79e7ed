use picloud_http::inference::{
    construct_to_select, is_engine_event, reconciliation_summary, triples_from_bindings,
    try_construct_to_select, InferenceEngine, InferenceEvent, LoadedRule, ProducedTriple,
};

fn rule(iri: &str, trigger: &str, events: &[&str], reconciliation: bool) -> LoadedRule {
    LoadedRule {
        iri: iri.to_string(),
        name: "test-rule".to_string(),
        scope: "platform".to_string(),
        trigger: trigger.to_string(),
        trigger_events: events.iter().map(|s| s.to_string()).collect(),
        reconciliation,
        construct_query: "CONSTRUCT { ?s ?p ?o } WHERE { ?s a picloud:HumanIdentity }".to_string(),
    }
}

fn binding(s: &str, p: &str, o: &str) -> (String, String, String) {
    (s.to_string(), p.to_string(), o.to_string())
}

const MEMBER: &str = "https://picloud.local/ontology#hasMember";
const RULE: &str = "https://picloud.local/inference-rules/test-rule";

#[test]
fn construct_to_select_extracts_where_clause() {
    let construct = r#"
            CONSTRUCT {
                ?group picloud:hasMember ?user .
            }
            WHERE {
                ?user a picloud:HumanIdentity ;
                      picloud:tag ?tag .
            }
        "#;
    let select = construct_to_select(construct);
    assert!(select.starts_with("SELECT ?s ?p ?o"));
    assert!(select.contains("?user a picloud:HumanIdentity"));
}

#[test]
fn construct_without_where_is_wrapped() {
    assert_eq!(construct_to_select("?s ?p ?o"), "SELECT ?s ?p ?o WHERE { ?s ?p ?o }");
    assert_eq!(
        construct_to_select("CONSTRUCT { ?s ?p ?o } where { ?s a <x> }"),
        "SELECT ?s ?p ?o WHERE { ?s a <x> }"
    );
    assert_eq!(
        construct_to_select("CONSTRUCT { ?s ?p ?o } WHERE { ?s a picloud:Foo }"),
        "SELECT ?s ?p ?o WHERE { ?s a picloud:Foo }"
    );
    assert_eq!(try_construct_to_select("CONSTRUCT { ?s ?p ?o } WHERE x"), Some("SELECT ?s ?p ?o WHERE { CONSTRUCT { ?s ?p ?o } WHERE x }".to_string()));
}

#[test]
fn evaluate_rule_detects_new_triples() {
    let mut engine = InferenceEngine::new();
    let current = triples_from_bindings(&vec![binding(
        "https://picloud.local/groups/backend",
        MEMBER,
        "https://picloud.local/platform/identities/alice",
    )]);
    let ev = engine.evaluate_rule(RULE, current);
    assert_eq!(ev.assertions.len(), 1);
    assert_eq!(ev.retractions.len(), 0);
    assert_eq!(ev.membership.len(), 1);
    assert!(ev.membership[0].added);
    assert_eq!(ev.membership[0].group_iri, "https://picloud.local/groups/backend");
    assert!(ev.emit_summary);
}

#[test]
fn evaluate_rule_detects_retractions() {
    let mut engine = InferenceEngine::new();
    let rows = vec![binding("https://picloud.local/groups/backend", MEMBER, "https://picloud.local/platform/identities/alice")];
    let first = engine.evaluate_rule(RULE, triples_from_bindings(&rows));
    assert_eq!((first.assertions.len(), first.retractions.len()), (1, 0));
    let ev = engine.evaluate_rule(RULE, triples_from_bindings(&vec![]));
    assert_eq!((ev.assertions.len(), ev.retractions.len()), (0, 1));
    // Each evaluation appends its membership changes, then its summary:
    // two events each, four in all; the third is the removal.
    let events_of = |e: &picloud_http::inference::RuleEvaluation| e.membership.len() + usize::from(e.emit_summary);
    assert_eq!(events_of(&first) + events_of(&ev), 4);
    assert_eq!(events_of(&first), 2);
    assert_eq!(ev.membership.len(), 1);
    assert!(!ev.membership[0].added);
    assert_eq!(ev.membership[0].action(), "removed");
}

#[test]
fn same_result_twice_is_quiet() {
    let mut engine = InferenceEngine::new();
    let rows = vec![binding("s", "p", "o"), binding("s", "p", "o2")];
    engine.evaluate_rule(RULE, triples_from_bindings(&rows));
    let ev = engine.evaluate_rule(RULE, triples_from_bindings(&rows));
    assert_eq!((ev.assertions.len(), ev.retractions.len()), (0, 0));
    assert!(!ev.emit_summary);
    assert!(ev.membership.is_empty());
}

#[test]
fn rules_keep_separate_previous_results() {
    let mut engine = InferenceEngine::new();
    engine.evaluate_rule("rule-a", triples_from_bindings(&vec![binding("s", "p", "o")]));
    let ev = engine.evaluate_rule("rule-b", triples_from_bindings(&vec![binding("s", "p", "o")]));
    assert_eq!(ev.assertions.len(), 1);
}

#[test]
fn bindings_with_empty_parts_are_dropped_and_duplicates_merged() {
    let t = triples_from_bindings(&vec![binding("s", "p", "o"), binding("", "p", "o"), binding("s", "p", "o")]);
    assert_eq!(t.len(), 1);
    assert!(t[0].same(&ProducedTriple { subject: "s".to_string(), predicate: "p".to_string(), object: "o".to_string() }));
}

#[test]
fn register_replaces_rule_with_same_iri() {
    let mut engine = InferenceEngine::new();
    engine.register_rule(rule("r1", "event", &["TagAdded"], true));
    engine.register_rule(rule("r2", "manual", &[], false));
    engine.register_rule(rule("r1", "event", &["TagRemoved"], false));
    assert_eq!(engine.rule_count(), 2);
    assert_eq!(engine.rule(0).iri, "r2");
    assert_eq!(engine.rule(1).trigger_events, vec!["TagRemoved".to_string()]);
}

#[test]
fn triggered_and_reconciliation_rules() {
    let mut engine = InferenceEngine::new();
    engine.register_rule(rule("r1", "event", &["TagAdded"], true));
    engine.register_rule(rule("r2", "schedule", &["TagAdded"], false));
    engine.register_rule(rule("r3", "event", &["TagRemoved", "TagAdded"], true));
    assert_eq!(engine.triggered_rules("TagAdded"), vec![0, 2]);
    assert_eq!(engine.triggered_rules("Other"), Vec::<usize>::new());
    assert_eq!(engine.reconciliation_rules(), vec![0, 2]);
}

#[test]
fn reconciliation_emits_completed_event() {
    let s = reconciliation_summary(&vec![Some((0, 0))]);
    assert_eq!((s.rules_evaluated, s.total_assertions, s.total_retractions), (1, 0, 0));
}

#[test]
fn reconciliation_totals_skip_failures() {
    let s = reconciliation_summary(&vec![Some((2, 1)), None, Some((3, 0))]);
    assert_eq!((s.rules_evaluated, s.total_assertions, s.total_retractions), (2, 5, 1));
}

#[test]
fn engine_events_do_not_trigger_rules() {
    assert!(is_engine_event("InferenceRuleEvaluated"));
    assert!(is_engine_event("GroupMembershipChanged"));
    assert!(!is_engine_event("TagAdded"));
}

#[test]
fn failed_query_leaves_the_engine_unchanged() {
    let mut engine = InferenceEngine::new();
    engine.evaluate_rule(RULE, triples_from_bindings(&vec![binding("g", "p", "m")]));
    assert!(matches!(engine.apply_query_result(RULE, Err("store down".to_string())), Err(e) if e == "store down"));
    // The stored triples are still those of the first evaluation.
    let ev = engine.evaluate_rule(RULE, triples_from_bindings(&vec![binding("g", "p", "m")]));
    assert!(ev.assertions.is_empty() && ev.retractions.is_empty());
}

#[test]
fn query_result_yields_membership_events_then_summary() {
    let mut engine = InferenceEngine::new();
    let member = "https://picloud.local/ontology#hasMember";
    let rows = vec![binding("g1", member, "alice"), binding("x", "p", "y"), binding("", member, "bob")];
    let (ev, events) = engine.apply_query_result(RULE, Ok(rows)).unwrap();
    assert_eq!((ev.assertions.len(), ev.retractions.len()), (2, 0));
    assert_eq!(events.len(), 2);
    match &events[0] {
        InferenceEvent::MembershipChanged(m) => {
            assert_eq!((m.group_iri.as_str(), m.member_iri.as_str(), m.action()), ("g1", "alice", "added"));
        }
        other => panic!("expected a membership change, got {other:?}"),
    }
    match &events[1] {
        InferenceEvent::RuleEvaluated { rule_iri, assertions, retractions } => {
            assert_eq!((rule_iri.as_str(), *assertions, *retractions), (RULE, 2, 0));
        }
        other => panic!("expected the summary, got {other:?}"),
    }
    let (_, again) = engine.apply_query_result(RULE, Ok(vec![binding("x", "p", "y")])).unwrap();
    assert_eq!(again.len(), 2);
    assert!(matches!(&again[0], InferenceEvent::MembershipChanged(m) if m.action() == "removed"));
    let (_, quiet) = engine.apply_query_result(RULE, Ok(vec![binding("x", "p", "y")])).unwrap();
    assert!(quiet.is_empty());
}
