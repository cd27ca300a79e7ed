use picloud_http::otel::{
    OtelArrival, OtelWindow,
    group_metrics, spans_of_resource, text_less, OtelCounters, OtelKind, OtlpAttribute, OtlpResourceSpans,
    OtlpSpanInput, OtlpTime,
};

fn attr(k: &str, v: &str) -> OtlpAttribute {
    OtlpAttribute { key: Some(k.to_string()), string_value: Some(v.to_string()) }
}

fn pairs(records: &[(&str, &str)]) -> Vec<(String, String)> {
    records.iter().map(|(n, u)| (n.to_string(), u.to_string())).collect()
}

#[test]
fn group_metrics_single_metric() {
    let gs = group_metrics(&pairs(&[("http_request_duration_ms", "ms")]));
    assert_eq!(gs.len(), 1);
    assert_eq!(gs[0].name, "http_request_duration_ms");
    assert_eq!(gs[0].members, vec![0]);
    assert_eq!(gs[0].unit, "ms");
}

#[test]
fn group_metrics_collects_every_record_of_a_name() {
    let gs = group_metrics(&pairs(&[("cpu_usage", "percent"), ("cpu_usage", "percent"), ("cpu_usage", "percent")]));
    assert_eq!(gs.len(), 1);
    assert_eq!(gs[0].name, "cpu_usage");
    assert_eq!(gs[0].members, vec![0, 1, 2]);
}

#[test]
fn group_metrics_multiple_names() {
    let gs = group_metrics(&pairs(&[("alpha", "ms"), ("beta", "count")]));
    assert_eq!(gs.len(), 2);
    assert_eq!(gs[0].name, "alpha");
    assert_eq!(gs[1].name, "beta");
}

#[test]
fn group_metrics_empty() {
    assert!(group_metrics(&vec![]).is_empty());
}

#[test]
fn groups_sorted_with_first_unit() {
    let pairs = vec![
        ("zeta".to_string(), "ms".to_string()),
        ("alpha".to_string(), "s".to_string()),
        ("zeta".to_string(), "us".to_string()),
    ];
    let gs = group_metrics(&pairs);
    assert_eq!(gs.len(), 2);
    assert_eq!(gs[0].name, "alpha");
    assert_eq!(gs[1].name, "zeta");
    assert_eq!(gs[1].unit, "ms");
    assert_eq!(gs[1].members, vec![0, 2]);
}

#[test]
fn text_order_is_lexicographic() {
    assert!(text_less("alpha", "beta"));
    assert!(text_less("ab", "abc"));
    assert!(!text_less("abc", "ab"));
    assert!(!text_less("same", "same"));
    assert!(text_less("Zeta", "alpha"));
}

#[test]
fn resource_spans_carry_service_and_times() {
    let rs = OtlpResourceSpans {
        resource_attributes: vec![
            OtlpAttribute { key: Some("service.name".to_string()), string_value: None },
            attr("service.name", "checkout"),
            attr("picloud.platform_version", "0.9.0"),
        ],
        scope_spans: vec![
            vec![OtlpSpanInput {
                trace_id: Some("t1".to_string()),
                span_id: Some("s1".to_string()),
                parent_span_id: None,
                name: Some("GET /cart".to_string()),
                start: OtlpTime::Text("1000000000".to_string()),
                end: OtlpTime::Number(1_250_000_000),
                attributes: vec![attr("http.method", "GET"), attr("http.method", "POST")],
            }],
            vec![OtlpSpanInput {
                trace_id: None,
                span_id: None,
                parent_span_id: Some("p".to_string()),
                name: None,
                start: OtlpTime::Other,
                end: OtlpTime::Text("12x".to_string()),
                attributes: vec![],
            }],
        ],
    };
    let spans = spans_of_resource(&rs);
    assert_eq!(spans.len(), 2);
    let a = &spans[0];
    assert_eq!(a.service_name, "checkout");
    assert_eq!(a.operation_name, "GET /cart");
    assert_eq!((a.start_ns, a.end_ns, a.duration_ms), (1_000_000_000, 1_250_000_000, 250));
    assert_eq!(a.status, "OK");
    let mut attrs = a.attributes.clone();
    attrs.sort();
    assert_eq!(
        attrs,
        vec![
            ("http.method".to_string(), "POST".to_string()),
            ("picloud.platform_version".to_string(), "0.9.0".to_string())
        ]
    );
    let b = &spans[1];
    assert_eq!((b.trace_id.as_str(), b.start_ns, b.end_ns, b.duration_ms), ("", 0, 0, 0));
    assert_eq!(b.parent_span_id.as_deref(), Some("p"));
}

#[test]
fn resource_without_service_name_is_unknown() {
    let rs = OtlpResourceSpans {
        resource_attributes: vec![],
        scope_spans: vec![vec![OtlpSpanInput {
            trace_id: None,
            span_id: None,
            parent_span_id: None,
            name: None,
            start: OtlpTime::Number(5_000_000),
            end: OtlpTime::Absent,
            attributes: vec![],
        }]],
    };
    let spans = spans_of_resource(&rs);
    assert_eq!(spans[0].service_name, "unknown");
    assert_eq!(spans[0].duration_ms, 0);
    assert!(spans[0].attributes.is_empty());
}

#[test]
fn counters_count_and_reset() {
    let mut c = OtelCounters::new();
    assert!(!c.summary_due());
    c.record(OtelKind::Span);
    c.record(OtelKind::Span);
    c.record(OtelKind::Log);
    assert!(c.summary_due());
    let w = c.take();
    assert_eq!((w.spans, w.metrics, w.logs), (2, 0, 1));
    assert!(!c.summary_due());
}

fn metric(name: &str, unit: &str) -> OtelArrival {
    OtelArrival::Metric { name: name.to_string(), unit: unit.to_string() }
}

#[test]
fn aggregation_tick_reports_the_window() {
    let mut w = OtelWindow::new();
    let t = w.tick();
    assert!(t.metric_groups.is_none());
    assert!(t.summary.is_none());

    w.receive(OtelArrival::Span);
    w.receive(metric("cpu", "%"));
    w.receive(OtelArrival::Log);
    w.receive(metric("mem", "MB"));
    w.receive(metric("cpu", "%"));
    let t = w.tick();
    let groups = t.metric_groups.unwrap();
    let got: Vec<(String, Vec<usize>)> = groups.into_iter().map(|g| (g.name, g.members)).collect();
    assert_eq!(got, vec![("cpu".to_string(), vec![0, 2]), ("mem".to_string(), vec![1])]);
    let c = t.summary.unwrap();
    assert_eq!((c.spans, c.metrics, c.logs), (1, 3, 1));

    w.receive(OtelArrival::Log);
    let t = w.tick();
    assert!(t.metric_groups.is_none());
    let c = t.summary.unwrap();
    assert_eq!((c.spans, c.metrics, c.logs), (0, 0, 1));
}
