use bmpwatch::event::max_exit_code;
use bmpwatch::lint::{finding_duplicate_peer_up, finding_parse_error, finding_timestamp_regression};
use bmpwatch::report::{
    compute_buckets, compute_lifecycle, count_rule, interpret, severity_counts, sorted_peers, top_peers, FindingsBuckets, Health,
    Interpretation,
};
use bmpwatch::obmp_reader::{ContainerStats, OpenBmpMetadata};
use bmpwatch::report::container_report;
use bmpwatch::rolling::RollingSummary;
use bmpwatch::state::{DoctorState, Finding, PeerKey, PeerState, Severity};

fn finding(severity: Severity, rule: &str) -> Finding {
    Finding { severity, rule: rule.to_string(), offset: None, peer: None, message: "test".to_string() }
}

fn state() -> DoctorState {
    DoctorState::new("t.rawbmp".to_string(), 100, "raw BMP frames".to_string())
}

fn key(asn: u32, ip: &str) -> PeerKey {
    PeerKey { peer_asn: Some(asn), peer_ip: Some(ip.to_string()), peer_distinguisher: None }
}

// ── buckets and health ──

#[test]
fn test_buckets_mixed_findings() {
    let findings = vec![
        finding(Severity::Error, "parse_error"),
        finding(Severity::Warn, "route_monitoring_before_peer_up"),
        finding(Severity::Error, "invalid_bmp_version"),
        finding(Severity::Warn, "timestamp_regression"),
        finding(Severity::Info, "custom_info"),
    ];
    let buckets = compute_buckets(&findings);
    assert_eq!(buckets.parse_errors, 2);
    assert_eq!(buckets.stream_order_warnings, 2);
    assert_eq!(buckets.other_findings, 1);
}

#[test]
fn test_buckets_all_zero() {
    let buckets = compute_buckets(&[]);
    assert_eq!(buckets.parse_errors, 0);
    assert_eq!(buckets.stream_order_warnings, 0);
    assert_eq!(buckets.other_findings, 0);
}

#[test]
fn test_buckets_parse_errors() {
    for rule in &["invalid_bmp_version", "truncated_frame", "unknown_bmp_type", "parse_error"] {
        let buckets = compute_buckets(&[finding(Severity::Error, rule)]);
        assert_eq!(buckets.parse_errors, 1, "rule '{rule}' should be parse_errors");
        assert_eq!(buckets.stream_order_warnings, 0);
        assert_eq!(buckets.other_findings, 0);
    }
}

#[test]
fn test_buckets_stream_order_warnings() {
    for rule in &["route_monitoring_before_peer_up", "duplicate_peer_up", "peer_down_without_peer_up", "timestamp_regression"] {
        let buckets = compute_buckets(&[finding(Severity::Warn, rule)]);
        assert_eq!(buckets.stream_order_warnings, 1, "rule '{rule}' should be stream_order_warnings");
        assert_eq!(buckets.parse_errors, 0);
        assert_eq!(buckets.other_findings, 0);
    }
}

#[test]
fn test_health_ok() {
    let mut st = state();
    st.total_messages = 10;
    let buckets = compute_buckets(&st.findings);
    assert_eq!(buckets.parse_errors, 0);
    assert_eq!(buckets.stream_order_warnings, 0);
    assert_eq!(st.malformed_messages, 0);
    let h = Health::classify(st.malformed_messages, &buckets);
    assert_eq!(h, Health::Clean);
    assert_eq!(h.as_str(), "OK");
}

#[test]
fn test_health_ok_with_stream_warnings() {
    let mut st = state();
    st.total_messages = 100;
    st.findings = vec![
        finding(Severity::Warn, "route_monitoring_before_peer_up"),
        finding(Severity::Warn, "timestamp_regression"),
    ];
    let buckets = compute_buckets(&st.findings);
    assert_eq!(st.malformed_messages, 0);
    assert_eq!(buckets.parse_errors, 0);
    assert_eq!(buckets.stream_order_warnings, 2);
    let h = Health::classify(st.malformed_messages, &buckets);
    assert_eq!(h, Health::Warnings);
    assert_eq!(h.as_str(), "OK_WITH_STREAM_WARNINGS");
}

#[test]
fn test_health_issues() {
    let mut st = state();
    st.total_messages = 3;
    st.malformed_messages = 1;
    st.findings = vec![finding(Severity::Error, "parse_error")];
    let buckets = compute_buckets(&st.findings);
    assert!(st.malformed_messages > 0);
    assert!(buckets.parse_errors > 0);
    let h = Health::classify(st.malformed_messages, &buckets);
    assert_eq!(h, Health::Issues);
    assert_eq!(h.as_str(), "ISSUES");
}

#[test]
fn test_lifecycle_rm_warnings_subset_of_stream_warnings() {
    let mut st = state();
    st.findings = vec![
        finding(Severity::Warn, "route_monitoring_before_peer_up"),
        finding(Severity::Warn, "route_monitoring_before_peer_up"),
        finding(Severity::Warn, "timestamp_regression"),
    ];
    let lifecycle = compute_lifecycle(&st);
    let buckets = compute_buckets(&st.findings);
    assert_eq!(lifecycle.rm_before_peer_up_warnings, 2);
    assert!(lifecycle.rm_before_peer_up_warnings <= buckets.stream_order_warnings);
}

#[test]
fn test_lifecycle_counts_peers_and_types() {
    let mut st = state();
    st.by_type.insert(0, 7);
    st.by_type.insert(3, 2);
    let mut a = PeerState::default();
    a.active = true;
    st.peers.push((key(100, "10.0.0.1"), a));
    st.peers.push((key(200, "10.0.0.2"), PeerState::default()));
    let l = compute_lifecycle(&st);
    assert_eq!(l.peers_observed, 2);
    assert_eq!(l.active_peers, 1);
    assert_eq!(l.route_monitoring_messages, 7);
    assert_eq!(l.peer_up_messages, 2);
    assert_eq!(l.peer_down_messages, 0);
}

#[test]
fn test_severity_counts_and_exit_code() {
    let findings = vec![
        finding(Severity::Info, "a"),
        finding(Severity::Warn, "b"),
        finding(Severity::Warn, "c"),
    ];
    assert_eq!(severity_counts(&findings), (1, 2, 0));
    assert_eq!(max_exit_code(&findings), 1);
    assert_eq!(max_exit_code(&[]), 0);
    assert_eq!(max_exit_code(&[finding(Severity::Error, "x")]), 2);
    assert_eq!(count_rule(&findings, "b"), 1);
    assert_eq!(Severity::Error.as_str(), "ERR");
}

#[test]
fn test_json_peers_array_sorted_by_rm() {
    let mut p1 = PeerState::default();
    p1.route_monitoring_count = 5;
    let mut p2 = PeerState::default();
    p2.route_monitoring_count = 10;
    let peers = vec![(key(100, "10.0.0.1"), p1), (key(200, "10.0.0.2"), p2)];
    let ranked = sorted_peers(&peers, true);
    assert_eq!(ranked[0].0.peer_asn, Some(200));
    assert_eq!(ranked[1].0.peer_asn, Some(100));
}

#[test]
fn test_peers_sorted_by_key() {
    let peers = vec![
        (key(300, "10.0.0.3"), PeerState::default()),
        (PeerKey { peer_asn: None, peer_ip: Some("1.1.1.1".to_string()), peer_distinguisher: None }, PeerState::default()),
        (key(100, "10.0.0.9"), PeerState::default()),
        (key(100, "10.0.0.10"), PeerState::default()),
    ];
    let sorted = sorted_peers(&peers, false);
    let asns: Vec<Option<u32>> = sorted.iter().map(|p| p.0.peer_asn).collect();
    assert_eq!(asns, vec![None, Some(100), Some(100), Some(300)]);
    // Addresses compare as text.
    assert_eq!(sorted[1].0.peer_ip.as_deref(), Some("10.0.0.10"));
}

#[test]
fn test_finding_messages() {
    let k = key(65000, "10.0.0.1");
    let f = finding_duplicate_peer_up(42, k.clone());
    assert_eq!(f.rule, "duplicate_peer_up");
    assert_eq!(f.offset, Some(42));
    let f = finding_parse_error(7, None, "boom".to_string());
    assert_eq!(f.severity, Severity::Error);
    assert!(f.message.contains("boom"));
    let f = finding_timestamp_regression(9, k, 200, 0, 100, 5);
    assert_eq!(f.rule, "timestamp_regression");
    assert_eq!(k_display(), "AS65000 10.0.0.1");
}

fn k_display() -> String {
    key(65000, "10.0.0.1").display()
}

// ── rolling window ──

#[test]
fn test_empty_summary() {
    let rs = RollingSummary::new(10);
    assert_eq!(rs.total_seen(), 0);
    assert_eq!(rs.window_seen(), 0);
    assert_eq!(rs.malformed_messages(), 0);
    assert!(rs.by_type().is_empty());
    assert_eq!(rs.findings_buckets().parse_errors, 0);
}

#[test]
fn test_below_window() {
    let mut rs = RollingSummary::new(10);
    rs.push(0, false, vec![], None);
    rs.push(3, false, vec![], None);
    rs.push(0, false, vec![], None);
    assert_eq!(rs.total_seen(), 3);
    assert_eq!(rs.window_seen(), 3);
    assert_eq!(*rs.by_type().get(&0).unwrap_or(&0), 2);
    assert_eq!(*rs.by_type().get(&3).unwrap_or(&0), 1);
}

#[test]
fn test_rolls_off_old_entries() {
    let mut rs = RollingSummary::new(3);
    rs.push(0, false, vec![], None);
    rs.push(0, false, vec![], None);
    rs.push(3, false, vec![], None);
    assert_eq!(rs.window_seen(), 3);
    assert_eq!(*rs.by_type().get(&3).unwrap_or(&0), 1);
    rs.push(4, false, vec![], None);
    assert_eq!(rs.window_seen(), 3);
    assert_eq!(rs.total_seen(), 4);
    assert_eq!(*rs.by_type().get(&0).unwrap_or(&0), 1);
    assert_eq!(*rs.by_type().get(&3).unwrap_or(&0), 1);
    assert_eq!(*rs.by_type().get(&4).unwrap_or(&0), 1);
}

#[test]
fn test_malformed_rolls_off() {
    let mut rs = RollingSummary::new(2);
    rs.push(0, true, vec![], None);
    rs.push(0, false, vec![], None);
    assert_eq!(rs.malformed_messages(), 1);
    rs.push(0, false, vec![], None);
    assert_eq!(rs.malformed_messages(), 0);
}

#[test]
fn test_window_size_zero() {
    let mut rs = RollingSummary::new(0);
    rs.push(0, false, vec![], None);
    assert_eq!(rs.total_seen(), 1);
    assert_eq!(rs.window_seen(), 0);
    assert!(rs.by_type().is_empty());
}

#[test]
fn test_findings_roll_off() {
    let mut rs = RollingSummary::new(2);
    rs.push(0, false, vec![finding(Severity::Warn, "test_rule")], None);
    assert_eq!(rs.findings_buckets().other_findings, 1);
    rs.push(0, false, vec![finding(Severity::Warn, "test_rule")], None);
    assert_eq!(rs.findings_buckets().other_findings, 2);
    rs.push(0, false, vec![], None);
    assert_eq!(rs.findings_buckets().other_findings, 1);
}

#[test]
fn test_peer_tracking() {
    let pk_a = key(64501, "10.0.0.1");
    let pk_b = key(64502, "10.0.0.2");
    let pk_c = key(64503, "10.0.0.3");
    let mut rs = RollingSummary::new(3);
    rs.push(0, false, vec![], Some(pk_a));
    rs.push(0, false, vec![], Some(pk_b.clone()));
    rs.push(0, false, vec![], Some(pk_c));
    assert_eq!(rs.peers_observed(), 3);
    rs.push(0, false, vec![], Some(pk_b));
    assert_eq!(rs.peers_observed(), 2);
}

#[test]
fn test_rolling_window_size_and_metadata() {
    let mut rs = RollingSummary::new(7);
    assert_eq!(rs.window_messages(), 7);
    assert!(rs.metadata().is_none());
    let meta = bmpwatch::obmp_reader::OpenBmpMetadata {
        collector: Some("bmp-01".to_string()),
        router: None,
        router_ip: None,
    };
    rs.set_metadata(meta);
    assert_eq!(rs.metadata().as_ref().unwrap().collector.as_deref(), Some("bmp-01"));
}

#[test]
fn test_interpretation_of_lifecycle() {
    let b = |parse_errors: u64, stream_order_warnings: u64| FindingsBuckets {
        parse_errors,
        stream_order_warnings,
        other_findings: 0,
    };
    assert_eq!(interpret(0, &b(0, 3), 2), Interpretation::MidStreamCapture);
    assert_eq!(interpret(1, &b(0, 3), 2), Interpretation::ParseIssues);
    assert_eq!(interpret(0, &b(1, 0), 0), Interpretation::ParseIssues);
    assert_eq!(interpret(0, &b(0, 3), 0), Interpretation::Unremarkable);
    assert_eq!(interpret(0, &b(0, 0), 0), Interpretation::Unremarkable);
}

#[test]
fn test_top_peers_cut_and_omitted() {
    let mut p1 = PeerState::default();
    p1.route_monitoring_count = 5;
    let mut p2 = PeerState::default();
    p2.route_monitoring_count = 10;
    let mut p3 = PeerState::default();
    p3.route_monitoring_count = 7;
    let peers = vec![(key(100, "10.0.0.1"), p1), (key(200, "10.0.0.2"), p2), (key(300, "10.0.0.3"), p3)];
    let top = top_peers(&peers, 2).unwrap();
    let asns: Vec<Option<u32>> = top.iter().map(|p| p.0.peer_asn).collect();
    assert_eq!(asns, vec![Some(200), Some(300)]);
    assert_eq!(top_peers(&peers, 10).unwrap().len(), 3);
    assert!(top_peers(&peers, 0).is_none());
    assert!(top_peers(&Vec::new(), 5).is_none());
}

#[test]
fn test_container_report_shows_only_what_is_set() {
    let mut cs = ContainerStats::default();
    assert!(container_report(&cs).is_none());
    cs.container_records = 3;
    cs.raw_bmp_payloads = 2;
    cs.unrecognized_payloads = 1;
    cs.openbmp_metadata = Some(OpenBmpMetadata { collector: None, router: None, router_ip: None });
    let r = container_report(&cs).unwrap();
    assert_eq!(r.container_records, 3);
    assert_eq!(r.raw_bmp_payloads, Some(2));
    assert_eq!(r.openbmp_wrapped_payloads, None);
    assert_eq!(r.unrecognized_payloads, Some(1));
    assert_eq!(r.openbmp_unwrap_errors, None);
    assert_eq!(r.inner_bmp_parse_errors, None);
    assert!(r.openbmp_metadata.is_none());
    cs.openbmp_metadata = Some(OpenBmpMetadata { collector: Some("rv2".to_string()), router: None, router_ip: None });
    let r = container_report(&cs).unwrap();
    assert_eq!(r.openbmp_metadata.unwrap().collector.as_deref(), Some("rv2"));
}
