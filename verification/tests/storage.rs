use picloud_http::storage::{
    decode_sync_file, directory_error_message, enroll_plan, write_error_message, EnrollPlan,
    SyncReport,
};

#[test]
fn sync_file_decodes_base64_content() {
    let r = decode_sync_file("dir/file.txt", "aGVsbG8gd29ybGQ=");
    assert_eq!(r, Ok(b"hello world".to_vec()));
}

#[test]
fn sync_file_reports_bad_base64_with_its_path() {
    let r = decode_sync_file("a.bin", "not base64!!");
    let msg = r.unwrap_err();
    assert!(msg.starts_with("a.bin: base64 decode error: "));
    assert!(msg.len() > "a.bin: base64 decode error: ".len());
}

#[test]
fn sync_error_messages_name_the_path() {
    assert_eq!(directory_error_message("x/y", "denied"), "x/y: denied");
    assert_eq!(write_error_message("x/y", "disk full"), "x/y: write error: disk full");
}

#[test]
fn sync_report_status_is_ok_or_multi_status() {
    let mut report = SyncReport::new();
    report.record_written();
    report.record_written();
    assert_eq!(report.synced, 2);
    assert_eq!(report.status(), 200);
    report.record_error("b: write error: full".to_string());
    assert_eq!(report.synced, 2);
    assert_eq!(report.errors, vec!["b: write error: full".to_string()]);
    assert_eq!(report.status(), 207);
}

#[test]
fn enroll_without_csr_issues_a_token() {
    match enroll_plan(None, None, false, None, None) {
        EnrollPlan::IssueToken { ttl_seconds } => assert_eq!(ttl_seconds, 3600),
        other => panic!("unexpected {:?}", other),
    }
    match enroll_plan(None, Some(60), true, None, None) {
        EnrollPlan::IssueToken { ttl_seconds } => assert_eq!(ttl_seconds, 60),
        other => panic!("unexpected {:?}", other),
    }
}

#[test]
fn enroll_with_csr_needs_an_authority() {
    assert!(matches!(
        enroll_plan(Some("aGVsbG8="), None, false, None, None),
        EnrollPlan::NoAuthority
    ));
}

#[test]
fn enroll_rejects_bad_csr_encoding() {
    match enroll_plan(Some("%%%"), None, true, None, None) {
        EnrollPlan::InvalidCsr(m) => assert!(m.starts_with("invalid CSR encoding: ")),
        other => panic!("unexpected {:?}", other),
    }
}

#[test]
fn enroll_signs_decoded_csr_with_defaults() {
    match enroll_plan(Some("aGVsbG8="), None, true, None, None) {
        EnrollPlan::SignCsr { csr_der, node_name, node_ip } => {
            assert_eq!(csr_der, b"hello".to_vec());
            assert_eq!(node_name, "unknown");
            assert_eq!(node_ip, "0.0.0.0");
        }
        other => panic!("unexpected {:?}", other),
    }
    match enroll_plan(Some("aGVsbG8="), Some(5), true, Some("pi-4"), Some("10.0.0.4")) {
        EnrollPlan::SignCsr { node_name, node_ip, .. } => {
            assert_eq!(node_name, "pi-4");
            assert_eq!(node_ip, "10.0.0.4");
        }
        other => panic!("unexpected {:?}", other),
    }
}
