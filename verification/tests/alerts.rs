use picloud_http::alerts::{find_metric, render_alert_message, AlertTracker, AlertTransition, RuleObservation};

fn obs(rule: &str, exceeds: Option<bool>) -> RuleObservation {
    RuleObservation { rule_name: rule.to_string(), exceeds }
}

// Two rules on the CPU temperature, as the built-in warning (> 70) and
// critical (> 80) rules.
fn temperature_observations(value: f64) -> Vec<RuleObservation> {
    vec![obs("cpu-temp-warning", Some(value > 70.0)), obs("cpu-temp-critical", Some(value > 80.0))]
}

#[test]
fn fires_critical_alert_when_cpu_temp_exceeds_80() {
    let mut t = AlertTracker::new();
    let actions = t.evaluate("https://picloud.local/nodes/test-node-01", &temperature_observations(85.0));
    assert_eq!(actions, vec![Some(AlertTransition::Fire), Some(AlertTransition::Fire)]);
    assert!(t.is_firing("cpu-temp-critical", "https://picloud.local/nodes/test-node-01"));
}

#[test]
fn resolves_alert_when_temp_drops_below_threshold() {
    let mut t = AlertTracker::new();
    let node = "https://picloud.local/nodes/test-node-01";
    t.evaluate(node, &temperature_observations(85.0));
    let actions = t.evaluate(node, &temperature_observations(55.0));
    assert_eq!(actions, vec![Some(AlertTransition::Resolve), Some(AlertTransition::Resolve)]);
    assert!(!t.is_firing("cpu-temp-warning", node));
}

#[test]
fn no_duplicate_alerts_while_still_firing() {
    let mut t = AlertTracker::new();
    let node = "https://picloud.local/nodes/test-node-01";
    t.evaluate(node, &temperature_observations(85.0));
    let actions = t.evaluate(node, &temperature_observations(85.0));
    assert_eq!(actions, vec![None, None]);
}

#[test]
fn no_actions_when_metrics_are_normal() {
    let mut t = AlertTracker::new();
    let actions = t.evaluate("https://picloud.local/nodes/n", &temperature_observations(55.0));
    assert_eq!(actions, vec![None, None]);
}

#[test]
fn missing_metric_skips_rule() {
    let mut t = AlertTracker::new();
    let actions = t.evaluate("n", &vec![obs("r", None)]);
    assert_eq!(actions, vec![None]);
    assert!(!t.is_firing("r", "n"));
}

#[test]
fn alerts_are_kept_per_resource() {
    let mut t = AlertTracker::new();
    t.evaluate("a", &vec![obs("r", Some(true))]);
    assert!(t.is_firing("r", "a"));
    assert!(!t.is_firing("r", "b"));
}

#[test]
fn find_metric_gives_first_match() {
    let names = vec!["a".to_string(), "b".to_string(), "a".to_string()];
    assert_eq!(find_metric(&names, "a"), Some(0));
    assert_eq!(find_metric(&names, "c"), None);
}

#[test]
fn alert_message_substitutes_value_and_threshold() {
    assert_eq!(
        render_alert_message("CPU at {value}C exceeds {threshold}C", "85.0", "80"),
        "CPU at 85.0C exceeds 80C"
    );
}

#[test]
fn each_rule_is_judged_against_its_own_state() {
    let mut t = AlertTracker::new();
    let node = "https://picloud.local/nodes/n1";
    t.evaluate(node, &vec![obs("cpu", Some(true)), obs("mem", Some(false))]);
    let r = t.evaluate(node, &vec![obs("cpu", Some(false)), obs("mem", Some(true)), obs("disk", None)]);
    assert_eq!(r, vec![Some(AlertTransition::Resolve), Some(AlertTransition::Fire), None]);
    assert!(!t.is_firing("cpu", node));
    assert!(t.is_firing("mem", node));
    assert!(!t.is_firing("disk", node));
}
