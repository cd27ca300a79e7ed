use picloud_http::telemetry_files::{
    metrics_file, metrics_from_parquet, metrics_of_table, read_back_metrics, read_back_spans, spans_file,
    spans_from_parquet, spans_of_table, MetricRow, ParquetText, SpanRow,
};

const NOW: (i64, u32) = (42, 7);

fn text(cells: &[Option<&str>]) -> Vec<Option<String>> {
    cells.iter().map(|c| c.map(|s| s.to_string())).collect()
}

fn span_types() -> Vec<String> {
    ["Utf8", "Utf8", "Utf8", "Utf8", "Utf8", "Utf8", "Utf8", "UInt64", "Utf8", "Utf8"].iter().map(|s| s.to_string()).collect()
}

fn span_row(parent: Option<&str>, start: &str, attributes: &str) -> SpanRow {
    SpanRow {
        trace_id: "t1".to_string(),
        span_id: "s1".to_string(),
        parent_span_id: parent.map(|p| p.to_string()),
        operation_name: "GET /".to_string(),
        service_name: "web".to_string(),
        start_time: start.to_string(),
        end_time: "2025-07-01T12:00:01+00:00".to_string(),
        duration_ms: 1000,
        status: "ok".to_string(),
        attributes: attributes.to_string(),
    }
}

#[test]
fn trace_file_round_trip() {
    let spans = read_back_spans(&vec![span_row(Some("p0"), "2025-07-01T12:00:00+00:00", "{\"k\":1}")], NOW)
        .unwrap()
        .unwrap()
        .unwrap();
    assert_eq!(spans.len(), 1);
    let s = &spans[0];
    assert_eq!(s.trace_id, "t1");
    assert_eq!(s.parent_span_id.as_deref(), Some("p0"));
    assert_eq!(s.start_time, (1751371200, 0));
    assert_eq!(s.end_time, (1751371201, 0));
    assert_eq!(s.duration_ms, 1000);
    assert_eq!(s.attributes, "{\"k\":1}");
}

#[test]
fn trace_file_fallbacks() {
    let bytes = spans_file(&vec![span_row(None, "not a time", "not json")]).unwrap();
    let s = &spans_from_parquet(&bytes, NOW).unwrap().unwrap()[0];
    assert_eq!(s.parent_span_id, None);
    assert_eq!(s.start_time, NOW);
    assert_eq!(s.attributes, "{}");
}

#[test]
fn empty_files_read_back_empty() {
    assert!(read_back_spans(&vec![], NOW).unwrap().unwrap().unwrap().is_empty());
    assert!(read_back_metrics(&vec![], NOW).unwrap().unwrap().unwrap().is_empty());
}

#[test]
fn wrong_column_type_is_refused() {
    let mut types = span_types();
    types[7] = "Utf8".to_string();
    let t = ParquetText { column_types: types, rows: vec![text(&[Some("a"); 10])] };
    assert_eq!(spans_of_table(&t, NOW).unwrap_err(), "duration_ms column is not UInt64");
    let t = ParquetText { column_types: vec!["Int64".to_string()], rows: vec![] };
    assert!(spans_of_table(&t, NOW).unwrap().is_empty());
}

#[test]
fn metric_rows_keep_value_text() {
    let types: Vec<String> =
        ["Utf8", "Float64", "Utf8", "Utf8", "Utf8", "Utf8", "Utf8"].iter().map(|s| s.to_string()).collect();
    let row = text(&[Some("cpu"), Some("1.5"), Some("%"), Some("gauge"), Some("node"), Some("bad"), None]);
    let t = ParquetText { column_types: types, rows: vec![row] };
    let m = &metrics_of_table(&t, NOW).unwrap()[0];
    assert_eq!(m.name, "cpu");
    assert_eq!(m.value_text, "1.5");
    assert_eq!(m.timestamp, NOW);
    assert_eq!(m.attributes, "{}");
}

fn metric_row(value_text: &str) -> MetricRow {
    MetricRow {
        name: "cpu".to_string(),
        value_text: value_text.to_string(),
        unit: "%".to_string(),
        metric_type: "gauge".to_string(),
        service_name: "node".to_string(),
        timestamp: "2025-07-01T12:00:00+00:00".to_string(),
        attributes: "{}".to_string(),
    }
}

#[test]
fn metric_file_round_trip() {
    let bytes = metrics_file(&vec![metric_row("2.25")]).unwrap();
    let m = &metrics_from_parquet(&bytes, NOW).unwrap().unwrap()[0];
    assert_eq!(m.value_text.parse::<f64>().unwrap(), 2.25);
    assert_eq!(m.timestamp, (1751371200, 0));
}

#[test]
fn unreadable_value_cannot_be_written() {
    // A value that is no number is cast to null, which the non-null value
    // column refuses.
    assert!(metrics_file(&vec![metric_row("lots")]).is_err());
}
