use bmpwatch::cli::{plan, resolve_format, Cli, Command, RunPlan};
use bmpwatch::input::{detect_format_from_bytes, format_label, InputFormat};
use bmpwatch::kafka::{apply_filters, select_topics, sort_topics};
use bmpwatch::peering::{filter_active_topics, normalize_collector, parse_peering_status};

fn strings(v: &[&str]) -> Vec<String> {
    v.iter().map(|s| s.to_string()).collect()
}

fn has(active: &[(String, u32)], c: &str, a: u32) -> bool {
    active.iter().any(|(x, y)| x == c && *y == a)
}

// ── peering status ──

#[test]
fn test_normalize_collector_strips_routeviews_org() {
    assert_eq!(normalize_collector("amsix.ams.routeviews.org"), "amsix.ams");
    assert_eq!(normalize_collector("route-views.linx.routeviews.org"), "route-views.linx");
    assert_eq!(normalize_collector("route-views3.routeviews.org"), "route-views3");
}

#[test]
fn test_normalize_collector_passthrough() {
    assert_eq!(normalize_collector("amsix.ams"), "amsix.ams");
    assert_eq!(normalize_collector("some.other.host"), "some.other.host");
}

#[test]
fn test_parse_peering_status_basic() {
    let sample = "\
ROUTEVIEWS COLLECTOR | AS NUMBER | PEERING ADDRESS | PREFIXES | CC | REGION | ASNAME
===========================================
amsix.ams.routeviews.org    29075  80.249.208.27   522 | FR | ripencc | IELO IELO Main Network, FR
amsix.ams.routeviews.org    1103  80.249.208.34  1044754 | NL | ripencc | SURFNET-NL SURFnet, The Netherlands, NL
";
    let active = parse_peering_status(sample);
    assert!(has(&active, "amsix.ams", 29075));
    assert!(has(&active, "amsix.ams", 1103));
    assert_eq!(active.len(), 2);
}

#[test]
fn test_parse_excludes_zero_prefixes() {
    let sample = "\
amsix.ams.routeviews.org    29075  80.249.208.27   0 | FR | ripencc | IELO
amsix.ams.routeviews.org    1103  80.249.208.34  1044754 | NL | ripencc | SURFNET-NL
";
    let active = parse_peering_status(sample);
    assert!(!has(&active, "amsix.ams", 29075));
    assert!(has(&active, "amsix.ams", 1103));
    assert_eq!(active.len(), 1);
}

#[test]
fn test_parse_skips_headers_and_separators() {
    let sample = "\
ROUTEVIEWS COLLECTOR | AS NUMBER | PEERING ADDRESS | PREFIXES | CC | REGION | ASNAME
===========================================
---
";
    assert!(parse_peering_status(sample).is_empty());
}

#[test]
fn test_parse_empty_input() {
    assert!(parse_peering_status("").is_empty());
}

#[test]
fn test_parse_multiple_peers_same_collector_asn() {
    let sample = "\
amsix.ams.routeviews.org    6777  80.249.208.255  104878 | NL | ripencc | AMS-IX-RS, NL
amsix.ams.routeviews.org    6777  80.249.209.0    104847 | NL | ripencc | AMS-IX-RS, NL
";
    let active = parse_peering_status(sample);
    assert_eq!(active.len(), 1);
    assert!(has(&active, "amsix.ams", 6777));
}

#[test]
fn test_parse_ipv4_ipv6_distinct() {
    let sample = "\
route-views3.routeviews.org    29479  192.0.2.1  952511 | NO | ripencc | Transdata AS
route-views3.routeviews.org    29479  2001:db8::1      2 | NO | ripencc | Transdata AS
";
    let active = parse_peering_status(sample);
    assert!(has(&active, "route-views3", 29479));
    assert_eq!(active.len(), 1);
}

#[test]
fn test_filter_active_topics_keeps_valid() {
    let active = vec![("amsix.ams".to_string(), 29075), ("route-views.linx".to_string(), 6939)];
    let topics = strings(&["routeviews.amsix.ams.29075.bmp_raw", "routeviews.route-views.linx.6939.bmp_raw"]);
    assert_eq!(filter_active_topics(&topics, &active).len(), 2);
}

#[test]
fn test_filter_active_topics_hides_inactive() {
    let active = vec![("amsix.ams".to_string(), 29075)];
    let topics = strings(&["routeviews.amsix.ams.29075.bmp_raw", "routeviews.amsix.ams.99999.bmp_raw"]);
    let filtered = filter_active_topics(&topics, &active);
    assert_eq!(filtered.len(), 1);
    assert!(filtered[0].contains("29075"));
}

#[test]
fn test_filter_active_topics_hides_as0() {
    let active = vec![("bdix".to_string(), 29075)];
    let topics = strings(&["routeviews.bdix.0.bmp_raw", "routeviews.bdix.29075.bmp_raw"]);
    let filtered = filter_active_topics(&topics, &active);
    assert_eq!(filtered.len(), 1);
    assert!(filtered[0].contains("29075"));
}

#[test]
fn test_filter_active_topics_hides_unparseable() {
    let active = vec![("foobar".to_string(), 12345)];
    let topics = strings(&["not-a-valid-topic", "routeviews.foobar.12345.bmp_raw"]);
    let filtered = filter_active_topics(&topics, &active);
    assert_eq!(filtered.len(), 1);
    assert!(filtered[0].contains("12345"));
}

#[test]
fn test_filter_active_topics_empty_active_set_hides_all() {
    let active: Vec<(String, u32)> = Vec::new();
    let topics = strings(&["routeviews.amsix.ams.29075.bmp_raw", "routeviews.route-views.linx.6939.bmp_raw"]);
    assert_eq!(filter_active_topics(&topics, &active).len(), 0);
}

// ── Kafka topics ──

#[test]
fn test_select_topics_sorted_matches() {
    let names = strings(&["routeviews.linx.2.bmp_raw", "other", "routeviews.amsix.1.bmp_raw"]);
    let r = select_topics(names, "^routeviews.*\\.bmp_raw$").unwrap();
    assert_eq!(r, strings(&["routeviews.amsix.1.bmp_raw", "routeviews.linx.2.bmp_raw"]));
}

#[test]
fn test_select_topics_bad_pattern() {
    let r = select_topics(strings(&["a"]), "(");
    assert_eq!(r, Err("Invalid topic regex: (".to_string()));
}

#[test]
fn test_apply_filters_collector_and_asn() {
    let topics = strings(&[
        "routeviews.route-views.LINX.6939.bmp_raw",
        "routeviews.amsix.ams.6939.bmp_raw",
        "routeviews.route-views.linx.174.bmp_raw",
    ]);
    let r = apply_filters(topics.clone(), Some("linx"), Some("6939"));
    assert_eq!(r, strings(&["routeviews.route-views.LINX.6939.bmp_raw"]));
    assert_eq!(apply_filters(topics.clone(), None, None), topics);
}

#[test]
fn test_sort_topics_undefined_last() {
    let v = strings(&["routeviews.UNDEFINED_ROUTER_GROUP.1.bmp_raw", "routeviews.b.2.bmp_raw", "routeviews.a.3.bmp_raw"]);
    assert_eq!(
        sort_topics(v, true),
        strings(&["routeviews.a.3.bmp_raw", "routeviews.b.2.bmp_raw", "routeviews.UNDEFINED_ROUTER_GROUP.1.bmp_raw"])
    );
}

#[test]
fn test_collector_filter_ignores_unicode_case() {
    let v = strings(&["routeviews.malmö.1.bmp_raw", "routeviews.linx.2.bmp_raw"]);
    assert_eq!(apply_filters(v, Some("MALMÖ"), None), strings(&["routeviews.malmö.1.bmp_raw"]));
}

// ── formats and the command line ──

#[test]
fn test_format_parse_and_detect() {
    assert_eq!(InputFormat::parse("auto"), Ok(InputFormat::Auto));
    assert_eq!(InputFormat::parse("raw-bmp"), Ok(InputFormat::RawBmp));
    assert_eq!("bmpd".parse::<InputFormat>(), Ok(InputFormat::Bmpd));
    assert_eq!(
        InputFormat::parse("pcap"),
        Err("unknown format 'pcap'. Expected 'auto', 'raw-bmp' or 'bmpd'".to_string())
    );
    assert_eq!(detect_format_from_bytes(b"BMPDOPENBMP1\nrest"), InputFormat::Bmpd);
    assert_eq!(detect_format_from_bytes(&[3, 0, 0, 0, 6, 4]), InputFormat::RawBmp);
    assert_eq!(format_label("x.bmpd", InputFormat::Bmpd), "BMPWatch container");
    assert_eq!(format_label("x.gz", InputFormat::RawBmp), "BMP compressed (gzip)");
    assert_eq!(format_label("x.rawbmp", InputFormat::RawBmp), "raw BMP frames");
}

fn cli(command: Option<Command>, file: Option<&str>) -> Cli {
    Cli {
        file: file.map(|s| s.to_string()),
        window_messages: 10,
        interval_ms: 1000,
        format: InputFormat::Auto,
        broker: "stream.routeviews.org:9092".to_string(),
        topic: None,
        collector: None,
        asn: None,
        command,
    }
}

#[test]
fn test_plan_defaults() {
    assert!(matches!(plan(cli(None, None)), RunPlan::Dashboard { window_messages: 100, .. }));
    assert!(matches!(plan(cli(None, Some("a.bmpd"))), RunPlan::Replay { window_messages: 10, interval_ms: 1000, .. }));
    let lint = Command::Lint { file: "f".to_string(), max_findings: 0, format: InputFormat::RawBmp };
    assert!(matches!(plan(cli(Some(lint), None)), RunPlan::Lint { max_findings: 1, .. }));
    let dump = Command::Dump {
        file: "f".to_string(),
        jsonl: false,
        max_findings: 5,
        format: InputFormat::Auto,
        max_events: 100000,
    };
    assert!(matches!(plan(cli(Some(dump), None)), RunPlan::DumpWithoutJsonl));
    assert_eq!(resolve_format(InputFormat::Auto, None), InputFormat::RawBmp);
    assert_eq!(resolve_format(InputFormat::Auto, Some(InputFormat::Bmpd)), InputFormat::Bmpd);
    assert_eq!(resolve_format(InputFormat::RawBmp, Some(InputFormat::Bmpd)), InputFormat::RawBmp);
}

#[test]
fn test_sanitize_text_replaces_control_characters() {
    assert_eq!(bmpwatch::text::sanitize_text("a\u{1b}[31mb\u{9b}c\td\u{7f}z"), "a?[31mb?c?d?z");
    assert_eq!(bmpwatch::text::sanitize_text("rtr-01 é"), "rtr-01 é");
}

#[test]
fn test_format_label_by_extension() {
    let raw = bmpwatch::input::InputFormat::RawBmp;
    assert_eq!(bmpwatch::input::format_label("dir/x.bz2", raw), "BMP compressed (bz2)");
    assert_eq!(bmpwatch::input::format_label("a.gz/", raw), "BMP compressed (gzip)");
    assert_eq!(bmpwatch::input::format_label("dir/.gz", raw), "raw BMP frames");
    assert_eq!(bmpwatch::input::format_label("x.bmpr/.", raw), "BMP replay format");
    assert_eq!(bmpwatch::input::format_label("x.gz/..", raw), "raw BMP frames");
    assert_eq!(bmpwatch::input::format_label("capture", raw), "raw BMP frames");
}

#[test]
fn test_topic_choice() {
    assert_eq!(bmpwatch::topics::choose_topic(0), bmpwatch::topics::TopicChoice::NoTopics);
    assert_eq!(bmpwatch::topics::choose_topic(1), bmpwatch::topics::TopicChoice::OnlyOne);
    assert_eq!(bmpwatch::topics::choose_topic(5), bmpwatch::topics::TopicChoice::Browse);
    assert!(bmpwatch::topics::no_topics_message(true).starts_with("No topics matched filters"));
    assert_eq!(bmpwatch::topics::no_topics_message(false), "No RouteViews topics found on this broker.");
}
