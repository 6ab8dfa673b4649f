use std::collections::BTreeMap;

use bmpwatch::dashboard::{
    compact_path, display_name, extract_prefixes, msg_type_color, msg_type_label, short_name, strip_known_prefix,
    time_of_day, Dashboard, DashKey, TypeColor,
};
use bmpwatch::flaps::{origin_groups, FlapRow};
use bmpwatch::names::{
    normalize_cymru_name, parse_name_table, parse_routeviews_peers, routeviews_asn_fallback, routeviews_peer_name,
    routeviews_prefix_count, NameBook, RouteViewsPeer,
};
use bmpwatch::dashboard::{stream_status, StreamStatus};
use bmpwatch::report::FindingsBuckets;
use bmpwatch::panels::{log_lines, origin_rows, rpki_hint, Tint};
use bmpwatch::rpki::{RPKICache, RPKIDetail, Status};
use bmpwatch::topics::parse_topic;

// ── frames ──

fn per_peer_header(peer_asn: u32, ip: [u8; 4], ts_sec: u32) -> Vec<u8> {
    let mut buf = vec![0u8; 42];
    buf[20] = 0xff;
    buf[21] = 0xff;
    buf[22..26].copy_from_slice(&ip);
    buf[26..30].copy_from_slice(&peer_asn.to_be_bytes());
    buf[34..38].copy_from_slice(&ts_sec.to_be_bytes());
    buf
}

fn bmp_frame(msg_type: u8, payload: &[u8]) -> Vec<u8> {
    let mut f = vec![3];
    f.extend_from_slice(&((6 + payload.len()) as u32).to_be_bytes());
    f.push(msg_type);
    f.extend_from_slice(payload);
    f
}

/// A BGP UPDATE announcing `nlri` (a /24 given by three octets) with the
/// AS path `path` (4-byte ASNs) and the given communities.
fn bgp_update(path: &[u32], nlri: Option<[u8; 3]>, communities: &[(u16, u16)]) -> Vec<u8> {
    let mut attrs = vec![0x40, 0x01, 0x01, 0x00];
    let seg_len = 2 + 4 * path.len();
    attrs.extend_from_slice(&[0x40, 0x02, seg_len as u8, 0x02, path.len() as u8]);
    for a in path {
        attrs.extend_from_slice(&a.to_be_bytes());
    }
    attrs.extend_from_slice(&[0x40, 0x03, 0x04, 10, 0, 0, 1]);
    if !communities.is_empty() {
        attrs.extend_from_slice(&[0xC0, 0x08, (4 * communities.len()) as u8]);
        for (a, v) in communities {
            attrs.extend_from_slice(&a.to_be_bytes());
            attrs.extend_from_slice(&v.to_be_bytes());
        }
    }
    let mut bgp = vec![0xFF; 16];
    bgp.extend_from_slice(&[0x00, 0x00, 0x02, 0x00, 0x00]);
    bgp.extend_from_slice(&(attrs.len() as u16).to_be_bytes());
    bgp.extend_from_slice(&attrs);
    if let Some(n) = nlri {
        bgp.extend_from_slice(&[24, n[0], n[1], n[2]]);
    }
    let total = bgp.len() as u16;
    bgp[16..18].copy_from_slice(&total.to_be_bytes());
    bgp
}

fn rm_frame(peer_asn: u32, bgp: &[u8]) -> Vec<u8> {
    let mut payload = per_peer_header(peer_asn, [10, 0, 0, 1], 1000);
    payload.extend_from_slice(bgp);
    bmp_frame(0, &payload)
}

// ── strip_known_prefix ──

#[test]
fn test_strip_known_prefix_strips_6447_and_peer_asn() {
    let dash = Dashboard::new("routeviews.route-views2.2152.bmp_raw", 10);
    assert_eq!(strip_known_prefix(&[6447, 2152, 3356, 16509], &dash), vec![3356, 16509]);
}

#[test]
fn test_strip_known_prefix_strips_only_collector_peer_topology() {
    let dash = Dashboard::new("routeviews.linx.11537.bmp_raw", 10);
    assert_eq!(strip_known_prefix(&[6447, 11537, 16509], &dash), vec![16509]);
}

#[test]
fn test_strip_known_prefix_no_collector_prefix_preserves_path() {
    let dash = Dashboard::new("routeviews.route-views2.2152.bmp_raw", 10);
    assert_eq!(strip_known_prefix(&[3356, 16509], &dash), vec![3356, 16509]);
}

#[test]
fn test_strip_known_prefix_peer_without_collector() {
    let dash = Dashboard::new("routeviews.route-views2.2152.bmp_raw", 10);
    assert_eq!(strip_known_prefix(&[2152, 3356], &dash), vec![3356]);
    assert_eq!(strip_known_prefix(&[], &dash), Vec::<u32>::new());
}

// ── extract_prefixes ──

#[test]
fn test_extract_prefixes_does_not_panic() {
    let mut payload = per_peer_header(13335, [10, 0, 0, 1], 1000);
    payload.extend_from_slice(&[0x00, 0x00, 0x00, 0x00]);
    let _ = extract_prefixes(&bmp_frame(0, &payload));
}

#[test]
fn test_extract_prefixes_with_proper_bgp_update() {
    let full_data = rm_frame(13335, &bgp_update(&[6447, 13335], Some([10, 0, 0]), &[]));
    let pc = extract_prefixes(&full_data).expect("valid RM frame should parse to Some");
    assert!(!pc.announced.is_empty());
    assert_eq!(pc.announced[0].0, "10.0.0.0/24");
    assert_eq!(pc.announced[0].1, 13335);
    assert_eq!(pc.as_path, vec![6447, 13335]);
    assert!(pc.withdrawn.is_empty());
    assert_eq!(pc.rpki, None);
}

#[test]
fn test_extract_prefixes_communities_sorted_dedup() {
    let full_data = rm_frame(13335, &bgp_update(&[64500, 64501], Some([10, 1, 0]), &[(65000, 2), (65000, 10), (65000, 2), (65535, 65281)]));
    let pc = extract_prefixes(&full_data).unwrap();
    assert_eq!(pc.communities, vec!["65000:10".to_string(), "65000:2".to_string(), "NO_EXPORT".to_string()]);
    assert_eq!(pc.announced[0].1, 64501);
}

#[test]
fn test_extract_prefixes_non_update_is_none() {
    let payload = [0x00, 0x00, 0x00, 0x04, b'r', b't', b'r', b'1'];
    assert!(extract_prefixes(&bmp_frame(4, &payload)).is_none());
}

// ── names ──

fn book() -> NameBook {
    let seed = parse_name_table("# curated\n13335|Cloudflare\n15169|Google\n", false);
    let cymru_seed =
        parse_name_table("11537|US|arin|1998-10-15|INTERNET2-RESEARCH-EDU - Internet2, US\n", true);
    NameBook::new(seed, BTreeMap::new(), cymru_seed, BTreeMap::new())
}

#[test]
fn test_as_name_resolve_known_asn_returns_seed_name() {
    let mut b = book();
    assert_eq!(b.as_name_resolve(13335), "Cloudflare");
}

#[test]
fn test_as_name_resolve_unknown_returns_raw_asn() {
    let mut b = book();
    assert_eq!(b.as_name_resolve(999_999), "AS999999");
    // The miss is remembered and still answers the same way.
    assert_eq!(b.as_name_resolve(999_999), "AS999999");
}

#[test]
fn test_as_name_resolve_global_cache_shared() {
    let mut b = book();
    assert_eq!(b.as_name_resolve(13335), "Cloudflare");
    assert_eq!(b.as_name_resolve(13335), "Cloudflare");
    assert_eq!(b.as_name("13335"), "Cloudflare");
    assert_eq!(b.name_of("13335"), "Cloudflare");
}

#[test]
fn test_as_name_cymru_seed_resolves_unknown() {
    let mut b = book();
    let name = b.as_name_resolve(11537);
    assert!(!name.starts_with("AS"), "AS11537 should resolve from Cymru seed, got {name}");
    assert_eq!(name, "Internet2, US");
}

#[test]
fn test_as_name_of_non_number_is_empty() {
    let mut b = book();
    assert_eq!(b.as_name("-"), "");
    assert_eq!(b.name_of("abc"), "");
}

// ── parse_topic ──

#[test]
fn test_parse_topic_normal() {
    let pt = parse_topic("routeviews.chicago.13335.bmp_raw").expect("expected parse success");
    assert_eq!(pt.collector, "chicago");
    assert_eq!(pt.asn_str, "13335");
    assert_eq!(pt.full, "routeviews.chicago.13335.bmp_raw");
}

#[test]
fn test_parse_topic_collector_with_dashes() {
    let pt = parse_topic("routeviews.route-views2.2152.bmp_raw").unwrap();
    assert_eq!(pt.collector, "route-views2");
    assert_eq!(pt.asn_str, "2152");
}

#[test]
fn test_parse_topic_not_a_valid_topic() {
    assert!(parse_topic("not.a.valid.topic").is_none());
}

#[test]
fn test_parse_topic_no_asn_component() {
    let pt = parse_topic("routeviews.chicago.bmp_raw").expect("edge case should still parse");
    assert_eq!(pt.collector, "chicago");
    assert_eq!(pt.asn_str, "-");
}

// ── labels and colours ──

#[test]
fn test_msg_type_label_all_known_types() {
    let cases: [(u8, &str); 7] =
        [(0, "PFX"), (1, "STATS"), (2, "PEER_DN"), (3, "PEER_UP"), (4, "INIT"), (5, "TERM"), (6, "MIRROR")];
    for (t, expected) in &cases {
        assert_eq!(msg_type_label(*t), *expected, "type {}", t);
    }
}

#[test]
fn test_msg_type_label_unknown_types_fallback() {
    assert_eq!(msg_type_label(7), "?");
    assert_eq!(msg_type_label(255), "?");
}

#[test]
fn test_msg_type_color_all_known_types() {
    assert_eq!(msg_type_color(0), TypeColor::Cyan);
    assert_eq!(msg_type_color(1), TypeColor::Blue);
    assert_eq!(msg_type_color(2), TypeColor::Red);
    assert_eq!(msg_type_color(3), TypeColor::Green);
    assert_eq!(msg_type_color(4), TypeColor::Yellow);
    assert_eq!(msg_type_color(5), TypeColor::Yellow);
    assert_eq!(msg_type_color(6), TypeColor::Magenta);
}

#[test]
fn test_msg_type_color_unknown_types_fallback() {
    assert_eq!(msg_type_color(7), TypeColor::Gray);
    assert_eq!(msg_type_color(255), TypeColor::Gray);
}

#[test]
fn test_compact_path_short_and_long() {
    assert_eq!(compact_path(&[]), "");
    assert_eq!(compact_path(&[6447, 2152, 2152, 2152, 3356]), "AS6447 → AS2152×3 → AS3356");
    assert_eq!(compact_path(&[1, 2, 3, 4]), "AS1 → AS2 → AS3 → AS4");
    assert_eq!(compact_path(&[1, 2, 3, 4, 5, 5]), "AS1 → … → AS5×2");
}

// ── the model ──

#[test]
fn test_keepalive_count_starts_zero() {
    let dash = Dashboard::new("test", 10);
    assert_eq!(dash.keepalive_count, 0);
    assert_eq!(dash.throughput_history.len(), 60);
    assert_eq!(dash.max_log_lines, 500);
}

#[test]
fn test_render_no_keepalive_text() {
    let mut dash = Dashboard::new("test", 10);
    let full_data = rm_frame(13335, &bgp_update(&[6447, 13335], None, &[]));
    dash.process_message(&full_data);
    assert_eq!(dash.keepalive_count, 1);
    assert!(dash.message_log.is_empty());
    assert_eq!(dash.total_messages, 1);
    assert_eq!(dash.rolling.total_seen(), 1);
}

#[test]
fn test_process_message_tracks_update() {
    let mut dash = Dashboard::new("routeviews.linx.13335.bmp_raw", 10);
    let full_data = rm_frame(13335, &bgp_update(&[6447, 13335, 64500], Some([10, 0, 0]), &[]));
    dash.process_message(&full_data);
    dash.process_message(&full_data);
    assert_eq!(dash.total_messages, 2);
    assert_eq!(dash.current_tick_count, 2);
    assert_eq!(dash.message_log.len(), 2);
    let line = &dash.message_log[0];
    assert_eq!(line.msg_type, 0);
    assert_eq!(line.asn, Some(13335));
    assert_eq!(line.ip_short.as_deref(), Some("10.0.0.1"));
    assert_eq!(line.ts_sec, 1000);
    assert_eq!(dash.churn_counts, vec![("10.0.0.0/24".to_string(), 2)]);
    assert_eq!(dash.prefix_origins, vec![("10.0.0.0/24".to_string(), 64500)]);
    assert_eq!(dash.prefix_last_path, vec![("10.0.0.0/24".to_string(), vec![6447, 13335, 64500])]);
    assert_eq!(dash.as_frequency.len(), 3);
    assert_eq!(dash.as_frequency[&6447], 2);
    assert_eq!(dash.as_frequency[&13335], 2);
    assert_eq!(dash.as_frequency[&64500], 2);
    assert_eq!(dash.as_adjacency.len(), 2);
    assert_eq!(dash.as_adjacency[&((6447u64 << 32) | 13335)], 2);
    assert_eq!(dash.as_adjacency[&((13335u64 << 32) | 64500)], 2);
    assert_eq!(dash.peer_msg_counts.len(), 1);
    assert_eq!(dash.peer_msg_counts[0].1, 2);
    assert!(dash.peer_warnings.is_empty());
}

#[test]
fn test_process_message_rpki_worst_status() {
    let mut dash = Dashboard::new("t", 10);
    // 10.0.0.0/24 is authorized for AS64501 only.
    dash.rpki = Some(RPKICache::from_vrps(vec![(0x0A00_0000, 24, 24, 64501)], vec![]));
    let full_data = rm_frame(13335, &bgp_update(&[13335, 64500], Some([10, 0, 0]), &[]));
    dash.process_message(&full_data);
    let pc = dash.message_log[0].prefixes.as_ref().unwrap();
    assert_eq!(pc.rpki, Some(Status::InvalidWrongAsn));
    assert_eq!(pc.rpki_detail.unwrap().expected_asn, Some(64501));
    assert_eq!(dash.rpki.as_ref().unwrap().invalid_count(), 1);
}

#[test]
fn test_process_message_malformed_payload() {
    let mut dash = Dashboard::new("t", 10);
    dash.process_message(&[0x01, 0x02]);
    assert_eq!(dash.total_messages, 1);
    assert_eq!(dash.rolling.malformed_messages(), 1);
    assert!(dash.message_log.is_empty());
}

#[test]
fn test_process_message_invalid_version_warns_peer() {
    let mut dash = Dashboard::new("t", 10);
    let mut f = rm_frame(13335, &bgp_update(&[13335], Some([10, 0, 0]), &[]));
    f[0] = 2;
    dash.process_message(&f);
    assert_eq!(dash.peer_warnings.len(), 1);
    assert_eq!(dash.peer_warnings[0].1, 1);
    assert_eq!(dash.rolling.findings_buckets().parse_errors, 1);
}

#[test]
fn test_message_log_bounded() {
    let mut dash = Dashboard::new("t", 10);
    dash.max_log_lines = 3;
    let init = bmp_frame(4, &[0x00, 0x00, 0x00, 0x01, b'r']);
    for _ in 0..5 {
        dash.process_message(&init);
    }
    assert_eq!(dash.message_log.len(), 3);
    assert_eq!(dash.total_messages, 5);
}

#[test]
fn test_keys_and_ticks() {
    let mut dash = Dashboard::new("t", 10);
    dash.handle_key(DashKey::Char('p'), false);
    assert!(dash.paused);
    dash.handle_key(DashKey::Char('c'), false);
    assert!(dash.show_communities);
    assert!(!dash.exit);
    dash.handle_key(DashKey::Char('b'), false);
    assert!(dash.browse && dash.exit);
    let mut d2 = Dashboard::new("t", 10);
    d2.handle_key(DashKey::Char('c'), true);
    assert!(d2.exit && !d2.show_communities);
    d2.current_tick_count = 7;
    d2.tick(false);
    assert_eq!(d2.current_rate(), 0);
    d2.tick(true);
    assert_eq!(d2.current_rate(), 7);
    assert_eq!(d2.current_tick_count, 0);
    assert_eq!(d2.throughput_history.len(), 60);
}

// ── Team Cymru names ──

#[test]
fn test_normalize_cymru_strips_asn_prefix() {
    assert_eq!(normalize_cymru_name(1916, "AS1916 - Rede Nacional..."), "Rede Nacional...");
    assert_eq!(normalize_cymru_name(1916, "AS1916 Rede Nacional..."), "Rede Nacional...");
}

#[test]
fn test_normalize_cymru_strips_handle_prefix() {
    assert_eq!(
        normalize_cymru_name(174, "COGENT-174 - Cogent Communications, LLC, US"),
        "Cogent Communications, LLC, US"
    );
}

#[test]
fn test_normalize_cymru_preserves_nonmatching() {
    assert_eq!(normalize_cymru_name(1916, "Rede Nacional..."), "Rede Nacional...");
}

// ── RouteViews peer metadata ──

fn peers() -> Vec<RouteViewsPeer> {
    let tsv = "\
amsix.ams\t1103\t80.249.208.34\t1044754\tNL\tripencc\tSURFNET-NL SURFnet, The Netherlands, NL
amsix.ams\t29075\t80.249.208.27\t522\tFR\tripencc\tIELO IELO Main Network, FR
route-views3\t29479\t192.0.2.1\t952511\tNO\tripencc\tTransdata AS
route-views3\t29479\t2001:db8::1\t2\tNO\tripencc\tTransdata IPv6
route-views.linx\t29479\t195.66.224.1\t12\tNO\tripencc\tOther Name
";
    parse_routeviews_peers(tsv)
}

#[test]
fn test_routeviews_prefix_count_known() {
    let p = peers();
    let pfx = routeviews_prefix_count(&p, "amsix.ams", 1103);
    assert!(pfx.is_some());
    assert!(pfx.unwrap() > 100_000);
}

#[test]
fn test_routeviews_prefix_count_unknown() {
    assert_eq!(routeviews_prefix_count(&peers(), "nonexistent", 99999), None);
}

#[test]
fn test_routeviews_peer_name_lookup() {
    let name = routeviews_peer_name(&peers(), "amsix.ams", 1103);
    assert!(name.unwrap().to_lowercase().contains("surf"));
}

#[test]
fn test_routeviews_asn_fallback() {
    assert!(routeviews_asn_fallback(&peers()).contains_key(&1103));
}

#[test]
fn test_duplicate_peer_rows_keep_max_prefixes() {
    let pfx = routeviews_prefix_count(&peers(), "route-views3", 29479);
    assert!(pfx.unwrap() >= 900_000, "should keep max-prefix row (952511), got: {:?}", pfx);
}

#[test]
fn test_as29479_name_not_overwritten_by_ipv6() {
    let n = routeviews_peer_name(&peers(), "route-views3", 29479).unwrap().to_lowercase();
    assert!(n.contains("transdata"));
    assert!(!n.contains("ipv6"));
}

#[test]
fn test_asn_fallback_keeps_max_prefix_name() {
    let fallback = routeviews_asn_fallback(&peers());
    let name = &fallback.get(&29479).expect("AS29479 should be in fallback").0;
    assert!(name.to_lowercase().contains("transdata"));
    assert_eq!(fallback.get(&29479).unwrap().1, 952511);
}

// ── RPKI table loaded after messages, Prefix Flaps panel ──

#[test]
fn test_attach_rpki_revalidates_logged_lines() {
    let mut dash = Dashboard::new("t", 10);
    let full_data = rm_frame(13335, &bgp_update(&[13335, 64500], Some([10, 0, 0]), &[]));
    dash.process_message(&full_data);
    assert_eq!(dash.message_log[0].prefixes.as_ref().unwrap().rpki, None);
    dash.attach_rpki(RPKICache::from_vrps(vec![(0x0A00_0000, 24, 24, 64501)], vec![]));
    let pc = dash.message_log[0].prefixes.as_ref().unwrap();
    assert_eq!(pc.rpki, Some(Status::InvalidWrongAsn));
    assert_eq!(pc.rpki_detail.unwrap().expected_asn, Some(64501));
    let cache = dash.rpki.as_ref().unwrap();
    assert_eq!(cache.invalid_count(), 1);
    assert_eq!(cache.valid_count(), 0);
    // Later messages are validated against the same table.
    let valid = rm_frame(13335, &bgp_update(&[13335, 64501], Some([10, 0, 0]), &[]));
    dash.process_message(&valid);
    assert_eq!(dash.message_log[1].prefixes.as_ref().unwrap().rpki, Some(Status::Valid));
    assert_eq!(dash.rpki.as_ref().unwrap().valid_count(), 1);
}

#[test]
fn test_attach_rpki_leaves_lines_without_prefixes() {
    let mut dash = Dashboard::new("t", 10);
    dash.process_message(&bmp_frame(4, &[0x00, 0x00, 0x00, 0x01, b'r']));
    dash.attach_rpki(RPKICache::from_vrps(vec![], vec![]));
    assert_eq!(dash.message_log.len(), 1);
    assert!(dash.message_log[0].prefixes.is_none());
    assert_eq!(dash.rpki.as_ref().unwrap().not_found_count(), 0);
}

#[test]
fn test_last_path_of_withdrawn_prefix() {
    let mut dash = Dashboard::new("t", 10);
    dash.process_message(&rm_frame(13335, &bgp_update(&[13335, 64500], Some([10, 0, 0]), &[])));
    assert_eq!(dash.last_path("10.0.0.0/24"), Some(vec![13335, 64500]));
    assert_eq!(dash.last_path("10.9.9.0/24"), None);
}

#[test]
fn test_prefix_flaps_order() {
    let mut dash = Dashboard::new("t", 10);
    // AS64500: 10.0.0.0/24 three times, 10.0.1.0/24 once.
    for _ in 0..3 {
        dash.process_message(&rm_frame(13335, &bgp_update(&[13335, 64500], Some([10, 0, 0]), &[])));
    }
    dash.process_message(&rm_frame(13335, &bgp_update(&[13335, 64500], Some([10, 0, 1]), &[])));
    // AS64400: 10.0.2.0/24 three times — ties with AS64500's top, lower ASN first.
    for _ in 0..3 {
        dash.process_message(&rm_frame(13335, &bgp_update(&[13335, 64400], Some([10, 0, 2]), &[])));
    }
    // AS64600: 10.0.3.0/24 once.
    dash.process_message(&rm_frame(13335, &bgp_update(&[13335, 64600], Some([10, 0, 3]), &[])));
    let rows = bmpwatch::flaps::prefix_flaps(&dash);
    let got: Vec<(String, u32, u64, u64)> = rows.iter().map(|r| (r.prefix.clone(), r.origin, r.churn, r.top)).collect();
    assert_eq!(
        got,
        vec![
            ("10.0.2.0/24".to_string(), 64400, 3, 3),
            ("10.0.0.0/24".to_string(), 64500, 3, 3),
            ("10.0.1.0/24".to_string(), 64500, 1, 3),
            ("10.0.3.0/24".to_string(), 64600, 1, 1),
        ]
    );
}

#[test]
fn test_prefix_flaps_empty() {
    let dash = Dashboard::new("t", 10);
    assert!(bmpwatch::flaps::prefix_flaps(&dash).is_empty());
}

#[test]
fn test_stream_status_order() {
    let b = |parse_errors: u64, stream_order_warnings: u64| FindingsBuckets {
        parse_errors,
        stream_order_warnings,
        other_findings: 0,
    };
    assert_eq!(stream_status(&b(1, 1), 0, 5, false), StreamStatus::Errors);
    assert_eq!(stream_status(&b(0, 1), 2, 5, false), StreamStatus::Errors);
    assert_eq!(stream_status(&b(0, 1), 0, 5, false), StreamStatus::Warnings);
    assert_eq!(stream_status(&b(0, 0), 0, 5, false), StreamStatus::Healthy);
    assert_eq!(stream_status(&b(0, 0), 0, 0, true), StreamStatus::Quiet);
    assert_eq!(stream_status(&b(0, 0), 0, 0, false), StreamStatus::Connecting);
}

/// A BGP UPDATE announcing 10.0.0.0/24 with an AS path too long for a
/// one-byte attribute length.
fn long_path_update(path: &[u32]) -> Vec<u8> {
    let mut attrs = vec![0x40, 0x01, 0x01, 0x00];
    let seg_len = (2 + 4 * path.len()) as u16;
    attrs.extend_from_slice(&[0x50, 0x02]);
    attrs.extend_from_slice(&seg_len.to_be_bytes());
    attrs.extend_from_slice(&[0x02, path.len() as u8]);
    for a in path {
        attrs.extend_from_slice(&a.to_be_bytes());
    }
    attrs.extend_from_slice(&[0x40, 0x03, 0x04, 10, 0, 0, 1]);
    let mut bgp = vec![0xFF; 16];
    bgp.extend_from_slice(&[0x00, 0x00, 0x02, 0x00, 0x00]);
    bgp.extend_from_slice(&(attrs.len() as u16).to_be_bytes());
    bgp.extend_from_slice(&attrs);
    bgp.extend_from_slice(&[24, 10, 0, 0]);
    let total = bgp.len() as u16;
    bgp[16..18].copy_from_slice(&total.to_be_bytes());
    bgp
}

#[test]
fn test_stored_path_cut_at_64_asns() {
    let mut dash = Dashboard::new("t", 10);
    let path: Vec<u32> = (1..=70).map(|i| 64000 + i).collect();
    dash.process_message(&rm_frame(13335, &long_path_update(&path)));
    assert_eq!(dash.prefix_last_path.len(), 1);
    assert_eq!(dash.prefix_last_path[0].1, path[..64].to_vec());
    assert_eq!(dash.last_path("10.0.0.0/24").unwrap().len(), 64);
    assert_eq!(dash.as_frequency.len(), 70);
}

#[test]
fn test_oversized_payload_counted_malformed() {
    let mut dash = Dashboard::new("t", 10);
    let mut big = rm_frame(13335, &bgp_update(&[13335], Some([10, 0, 0]), &[]));
    big.resize(67_108_865, 0);
    dash.process_message(&big);
    assert_eq!(dash.total_messages, 1);
    assert_eq!(dash.rolling.malformed_messages(), 1);
    assert!(dash.message_log.is_empty());
    assert!(dash.churn_counts.is_empty());
}

#[test]
fn test_time_of_day() {
    assert_eq!(time_of_day(0), "--:--:--");
    assert_eq!(time_of_day(3661), "01:01:01");
    assert_eq!(time_of_day(86400 + 59), "00:00:59");
    assert_eq!(time_of_day(1_700_000_000), "22:13:20");
}

#[test]
fn test_display_and_short_names() {
    let b = book();
    assert_eq!(display_name(&b, 13335), "Cloudflare");
    assert_eq!(display_name(&b, 999_999), "");
    assert_eq!(short_name("Cloudflare"), "Cloudflare");
    assert_eq!(short_name("abcdefghijklmnopqrstuvwxyz"), "abcdefghijklmnopqrstu…");
    assert_eq!(short_name("abcdefghijklmnopqrstuv"), "abcdefghijklmnopqrstuv");
    // 20 ASCII letters and two two-byte letters: 24 bytes, cut on a
    // character boundary within 21 bytes.
    assert_eq!(short_name("abcdefghijklmnopqrstéé"), "abcdefghijklmnopqrst…");
    // 22 characters but 23 bytes: cut.
    assert_eq!(short_name("abcdefghijklmnopqrstué"), "abcdefghijklmnopqrstu…");
    // 11 two-byte letters: 22 bytes, kept whole.
    assert_eq!(short_name("ééééééééééé"), "ééééééééééé");
    assert_eq!(short_name("éééééééééééé"), "éééééééééé…");
}

fn flap_row(origin: u32) -> FlapRow {
    FlapRow { prefix: format!("p{origin}"), origin, churn: 1, top: 1 }
}

#[test]
fn test_origin_groups_are_runs() {
    let rows = vec![flap_row(1), flap_row(1), flap_row(2), flap_row(1), flap_row(1), flap_row(1)];
    assert_eq!(origin_groups(&rows), vec![(0, 2), (2, 3), (3, 6)]);
    assert!(origin_groups(&Vec::new()).is_empty());
}

fn line_text(l: &[bmpwatch::panels::Piece]) -> String {
    l.iter().map(|p| p.text.as_str()).collect::<Vec<&str>>().concat()
}

#[test]
fn test_rpki_hint_text() {
    let b = book();
    let d = RPKIDetail { expected_asn: Some(64496), max_prefix_len: None };
    assert_eq!(rpki_hint(&d, &b), "should be AS64496");
    let d = RPKIDetail { expected_asn: Some(13335), max_prefix_len: Some(24) };
    assert_eq!(rpki_hint(&d, &b), "should be AS13335 Cloudflare, max /24");
    let d = RPKIDetail { expected_asn: None, max_prefix_len: Some(24) };
    assert_eq!(rpki_hint(&d, &b), "max /24");
}

#[test]
fn test_log_lines_show_rpki_hint() {
    let mut dash = Dashboard::new("t", 10);
    dash.rpki = Some(RPKICache::from_vrps(vec![(0x0A00_0000, 24, 24, 64501)], vec![]));
    let full_data = rm_frame(13335, &bgp_update(&[13335, 64500], Some([10, 0, 0]), &[]));
    dash.process_message(&full_data);
    let lines = log_lines(&dash, &book(), 10);
    assert_eq!(lines.len(), 1);
    assert_eq!(
        line_text(&lines[0]),
        "00:16:40 ASN PFX      +10.0.0.0/24  AS13335 → AS64500  (should be AS64501)"
    );
    assert_eq!(lines[0][1].tint, Tint::Red);
    assert_eq!(lines[0][4].tint, Tint::Green);
    assert_eq!(lines[0][6].text, "AS64500");
    assert_eq!(lines[0][6].tint, Tint::Yellow);
    assert_eq!(lines[0][7].tint, Tint::Yellow);
    assert!(log_lines(&dash, &book(), 0).is_empty());
}

#[test]
fn test_origin_rows_panel() {
    let mut dash = Dashboard::new("t", 10);
    let waiting = origin_rows(&dash, &book(), 10);
    assert_eq!(waiting.len(), 1);
    assert_eq!(line_text(&waiting[0]), " waiting for AS path data...");
    dash.process_message(&rm_frame(13335, &bgp_update(&[13335, 64500], Some([10, 0, 0]), &[])));
    let rows = origin_rows(&dash, &book(), 10);
    assert_eq!(rows.len(), 2);
    assert_eq!(
        line_text(&rows[0]),
        format!("  {:<24} ─{:─>20}→ AS64500 (1)", "10.0.0.0/24", "")
    );
    assert!(rows[1].is_empty());
}
