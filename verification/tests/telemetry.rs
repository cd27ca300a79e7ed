use picloud_http::telemetry::{
    group_by_partition, hours_in_range, instant_or_now, is_expired_jsonl_file, is_expired_partition, jsonl_partition_key, parquet_partition_key,
    part_file_name, partition_in_range, query_metrics, query_spans, MetricFacts, SpanFacts, TelemetryFilter,
};

fn span(service: &str, op: &str, start: i64, duration: u64) -> SpanFacts {
    SpanFacts { service_name: service.to_string(), operation_name: op.to_string(), start: (start, 0), duration_ms: duration }
}

const NOW: i64 = 1_775_570_400; // 2026-04-07T14:00:00Z

#[test]
fn spans_query_by_service_and_min_duration() {
    let spans = vec![span("api-server", "GET /api", NOW, 100), span("order-svc", "POST /orders", NOW, 200)];
    let (from, to) = ((NOW - 60, 0), (NOW + 60, 0));
    assert_eq!(query_spans(&spans, from, to, &TelemetryFilter::unconstrained()), vec![0, 1]);
    let by_service = TelemetryFilter {
        service_name: Some("api-server".to_string()),
        operation_name: None,
        metric_name: None,
        min_duration_ms: None,
    };
    assert_eq!(query_spans(&spans, from, to, &by_service), vec![0]);
    let slow = TelemetryFilter { service_name: None, operation_name: None, metric_name: None, min_duration_ms: Some(150) };
    assert_eq!(query_spans(&spans, from, to, &slow), vec![1]);
}

#[test]
fn empty_query_returns_empty() {
    let spans: Vec<SpanFacts> = vec![];
    assert!(query_spans(&spans, (NOW - 60, 0), (NOW + 60, 0), &TelemetryFilter::unconstrained()).is_empty());
}

#[test]
fn range_bounds_are_inclusive() {
    let spans = vec![span("s", "o", NOW, 1), span("s", "o", NOW + 61, 1)];
    assert_eq!(query_spans(&spans, (NOW, 0), (NOW + 60, 999_999_999), &TelemetryFilter::unconstrained()), vec![0]);
}

#[test]
fn metrics_query_by_name() {
    let metrics = vec![
        MetricFacts { name: "http_latency_ms".to_string(), service_name: "api-server".to_string(), timestamp: (NOW, 0) },
        MetricFacts { name: "cpu".to_string(), service_name: "api-server".to_string(), timestamp: (NOW, 0) },
    ];
    let f = TelemetryFilter {
        service_name: None,
        operation_name: None,
        metric_name: Some("http_latency_ms".to_string()),
        min_duration_ms: None,
    };
    assert_eq!(query_metrics(&metrics, (NOW - 60, 0), (NOW + 60, 0), &f), vec![0]);
}

#[test]
fn partition_keys_by_hour() {
    assert_eq!(jsonl_partition_key((NOW + 125, 0)).as_deref(), Some("2026-04-07-14"));
    assert_eq!(parquet_partition_key((NOW + 3_599, 0)).as_deref(), Some("2026-04-07T14"));
}

#[test]
fn hours_cover_range_from_hour_of_start() {
    assert_eq!(hours_in_range((NOW + 10, 0), (NOW + 7_200, 0)), vec![NOW, NOW + 3_600, NOW + 7_200]);
    assert_eq!(hours_in_range((NOW + 10, 0), (NOW - 1, 0)), Vec::<i64>::new());
    assert_eq!(hours_in_range((-1, 0), (0, 0)), vec![-3_600, 0]);
}

#[test]
fn retention_compares_partition_names() {
    assert!(is_expired_jsonl_file("2026-04-07-13.jsonl", "2026-04-07-14"));
    assert!(!is_expired_jsonl_file("2026-04-07-14.jsonl", "2026-04-07-14"));
    assert!(is_expired_partition("2026-04-07T13", "2026-04-07T14"));
    assert!(partition_in_range("2026-04-07T14", "2026-04-07T13", "2026-04-07T14"));
    assert!(!partition_in_range("2026-04-07T15", "2026-04-07T13", "2026-04-07T14"));
}

#[test]
fn part_file_names_are_zero_padded() {
    assert_eq!(part_file_name(7), "part-0007.parquet");
    assert_eq!(part_file_name(12345), "part-12345.parquet");
}

#[test]
fn writes_split_by_partition_in_first_occurrence_order() {
    let keys: Vec<String> = ["2025-07-01T01", "2025-07-01T00", "2025-07-01T01", "2025-07-01T02", "2025-07-01T00"]
        .iter()
        .map(|k| k.to_string())
        .collect();
    let groups = group_by_partition(&keys);
    let got: Vec<(String, Vec<usize>)> = groups.into_iter().map(|g| (g.key, g.members)).collect();
    assert_eq!(
        got,
        vec![
            ("2025-07-01T01".to_string(), vec![0, 2]),
            ("2025-07-01T00".to_string(), vec![1, 4]),
            ("2025-07-01T02".to_string(), vec![3]),
        ]
    );
    assert!(group_by_partition(&Vec::new()).is_empty());
}

#[test]
fn unreadable_instants_fall_back_to_now() {
    assert_eq!(instant_or_now("2025-07-01T12:00:00Z", (5, 6)), (1751371200, 0));
    assert_eq!(instant_or_now("not a time", (5, 6)), (5, 6));
}

// The civil date of a day count, as the partition key's contract states it.
fn civil_from_days(z: i64) -> (i64, i64, i64) {
    let z2 = z + 719468;
    let era = z2.div_euclid(146097);
    let doe = z2 - era * 146097;
    let yoe = (doe - doe / 1460 + doe / 36524 - doe / 146096) / 365;
    let doy = doe - (365 * yoe + yoe / 4 - yoe / 100);
    let mp = (5 * doy + 2) / 153;
    let d = doy - (153 * mp + 2) / 5 + 1;
    let m = if mp < 10 { mp + 3 } else { mp - 9 };
    (yoe + era * 400 + if m <= 2 { 1 } else { 0 }, m, d)
}

#[test]
fn partition_keys_are_civil_date_and_hour() {
    let mut secs: i64 = 0;
    while secs < 253402300800 {
        let (y, m, d) = civil_from_days(secs.div_euclid(86400));
        let h = secs.rem_euclid(86400) / 3600;
        assert_eq!(jsonl_partition_key((secs, 0)).unwrap(), format!("{y:04}-{m:02}-{d:02}-{h:02}"));
        assert_eq!(parquet_partition_key((secs, 999_999_999)).unwrap(), format!("{y:04}-{m:02}-{d:02}T{h:02}"));
        secs += 86_399 * 37 + 3_601;
    }
    assert_eq!(jsonl_partition_key((951_782_400, 0)).unwrap(), "2000-02-29-00");
    assert_eq!(parquet_partition_key((253_402_300_799, 0)).unwrap(), "9999-12-31T23");
}
