use picloud_http::self_monitor::{projection_healthy_message, raft_healthy_message, replication_healthy_message, run_checks};

#[derive(Debug, PartialEq)]
enum Health {
    Healthy,
    Degraded,
}

#[test]
fn three_checks_in_order() {
    let checks = run_checks(
        (Health::Healthy, raft_healthy_message()),
        (Health::Degraded, "1 volume under-replicated".to_string()),
        (Health::Healthy, projection_healthy_message()),
    );
    let names: Vec<_> = checks.iter().map(|c| c.check_name.as_str()).collect();
    assert_eq!(names, vec!["raft_health", "replication_status", "projection_lag"]);
    assert_eq!(checks[1].status, Health::Degraded);
    assert_eq!(checks[0].message, "Raft cluster is healthy");
    assert_eq!(replication_healthy_message(), "All volumes fully replicated");
}
