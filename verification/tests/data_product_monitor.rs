use picloud_http::data_product_monitor::{
    age_seconds, max_age_form, refreshed_at, whole_max_age_seconds, FreshnessRow, MaxAgeForm, SloAction, SloTracker,
};

// Every declaration below has whole-number components, so the library gives
// its seconds without floating point.
fn parse_max_age_seconds(max_age: &str) -> Option<u64> {
    whole_max_age_seconds(max_age).expect("whole-number declaration")
}

#[test]
fn parse_iso_duration_hours() {
    assert_eq!(parse_max_age_seconds("PT1H"), Some(3600));
}

#[test]
fn parse_iso_duration_minutes() {
    assert_eq!(parse_max_age_seconds("PT30M"), Some(1800));
}

#[test]
fn parse_iso_duration_seconds() {
    assert_eq!(parse_max_age_seconds("PT3600S"), Some(3600));
}

#[test]
fn parse_iso_duration_combined() {
    assert_eq!(parse_max_age_seconds("PT1H30M"), Some(5400));
}

#[test]
fn parse_raw_seconds() {
    assert_eq!(parse_max_age_seconds("300"), Some(300));
}

#[test]
fn parse_invalid_returns_none() {
    assert_eq!(parse_max_age_seconds("invalid"), None);
}

#[test]
fn max_age_forms() {
    assert_eq!(max_age_form("  PT1H30M "), MaxAgeForm::Components(vec![("1".to_string(), 'H'), ("30".to_string(), 'M')]));
    assert_eq!(max_age_form("pt1.5h"), MaxAgeForm::Components(vec![("1.5".to_string(), 'h')]));
    assert_eq!(max_age_form("PT1X"), MaxAgeForm::Invalid);
    assert_eq!(max_age_form("PT5"), MaxAgeForm::Components(vec![]));
    assert_eq!(max_age_form("42"), MaxAgeForm::RawSeconds(Some(42)));
}

#[test]
fn age_in_whole_seconds_never_negative() {
    assert_eq!(age_seconds((100, 500_000_000), (40, 900_000_000)), 59);
    assert_eq!(age_seconds((10, 0), (20, 0)), 0);
}

#[test]
fn breach_reported_once_then_restored_once() {
    let mut t = SloTracker::new();
    let dp = "https://picloud.local/products/a/data-products/orders";
    match t.observe(dp, 7200, 3600, (1, 0)) {
        Some(SloAction::Breach { data_product_iri, actual_age_seconds }) => {
            assert_eq!(data_product_iri, dp);
            assert_eq!(actual_age_seconds, 7200);
        }
        other => panic!("expected a breach, got {other:?}"),
    }
    assert_eq!(t.observe(dp, 7300, 3600, (1, 0)), None);
    match t.observe(dp, 10, 3600, (5, 7)) {
        Some(SloAction::Restore { data_product_iri, refreshed_secs, refreshed_nanos }) => {
            assert_eq!(data_product_iri, dp);
            assert_eq!((refreshed_secs, refreshed_nanos), (5, 7));
        }
        other => panic!("expected a restore, got {other:?}"),
    }
    assert_eq!(t.observe(dp, 10, 3600, (5, 7)), None);
}

#[test]
fn refreshed_at_reads_rfc3339_instants() {
    assert_eq!(refreshed_at("2025-07-01T12:00:00Z"), Some((1751371200, 0)));
    assert_eq!(refreshed_at("2025-07-01T14:00:00.5+02:00"), Some((1751371200, 500_000_000)));
    assert_eq!(refreshed_at("yesterday"), None);
}

#[test]
fn whole_max_age_defers_fractions_and_empty_numbers() {
    assert_eq!(whole_max_age_seconds("pt1.5h"), None);
    assert_eq!(whole_max_age_seconds("PTH"), None);
    assert_eq!(whole_max_age_seconds("PT1234567890123S"), None);
    assert_eq!(whole_max_age_seconds("PT1X"), Some(None));
    assert_eq!(whole_max_age_seconds("PT0S"), Some(None));
    assert_eq!(whole_max_age_seconds(" PT2h1m5s "), Some(Some(7265)));
}

fn row(dp: Option<&str>, last: Option<&str>, max: Option<u64>) -> FreshnessRow {
    FreshnessRow {
        data_product: dp.map(|s| s.to_string()),
        last_refreshed: last.map(|s| s.to_string()),
        max_age_seconds: max,
    }
}

#[test]
fn check_freshness_skips_incomplete_rows_and_reports_changes() {
    let mut t = SloTracker::new();
    // 2025-07-01T12:00:00Z is 1751371200.
    let now = (1751371200 + 7200, 0);
    let rows = vec![
        row(Some("dp-old"), Some("2025-07-01T12:00:00Z"), Some(3600)),
        row(Some("dp-fresh"), Some("2025-07-01T12:00:00Z"), Some(86400)),
        row(None, Some("2025-07-01T12:00:00Z"), Some(1)),
        row(Some("dp-bad-time"), Some("yesterday"), Some(1)),
        row(Some("dp-no-max"), Some("2025-07-01T12:00:00Z"), None),
    ];
    let actions = t.check_freshness(&rows, now);
    assert_eq!(actions, vec![SloAction::Breach { data_product_iri: "dp-old".to_string(), actual_age_seconds: 7200 }]);
    assert_eq!(t.check_freshness(&rows, now), vec![]);
    let later = vec![row(Some("dp-old"), Some("2025-07-01T14:00:00Z"), Some(3600))];
    assert_eq!(
        t.check_freshness(&later, now),
        vec![SloAction::Restore { data_product_iri: "dp-old".to_string(), refreshed_secs: 1751378400, refreshed_nanos: 0 }]
    );
}
