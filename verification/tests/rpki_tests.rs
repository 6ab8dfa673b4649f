use bmpwatch::prefix::{parse_ipv4_prefix, parse_ipv6_prefix};
use bmpwatch::rpki::{pdu_body_len, reset_query, RPKICache, RtrSession, RtrStep, Status};

fn v6_cache() -> RPKICache {
    RPKICache::from_vrps(vec![], vec![(0x20010DB8000000000000000000000000, 32, 48, 65000)])
}

fn v4_cache() -> RPKICache {
    RPKICache::from_vrps(vec![(0xC0000200, 24, 24, 64496), (0x0A000000, 8, 16, 65000)], vec![])
}

#[test]
fn test_parse_ipv4_prefix() {
    assert_eq!(parse_ipv4_prefix("192.0.2.0/24"), Some((0xC0000200, 24)));
    assert_eq!(parse_ipv4_prefix("10.0.0.0/8"), Some((0x0A000000, 8)));
    assert_eq!(parse_ipv4_prefix("0.0.0.0/0"), Some((0, 0)));
    assert_eq!(parse_ipv4_prefix("not/a/prefix"), None);
    assert_eq!(parse_ipv4_prefix("192.0.2.0/33"), None);
    assert_eq!(parse_ipv4_prefix("1.2.3.4.5/24"), None);
}

#[test]
fn test_parse_ipv6_prefix() {
    assert!(parse_ipv6_prefix("2001:db8::/32").is_some());
    assert!(parse_ipv6_prefix("::1/128").is_some());
    assert!(parse_ipv6_prefix("::/0").is_some());
    assert_eq!(parse_ipv6_prefix("not/an/ipv6"), None);
    assert_eq!(parse_ipv6_prefix("2001:db8::/129"), None);
    assert_eq!(parse_ipv6_prefix("2001:db8::/32"), Some((0x20010DB8000000000000000000000000, 32)));
    assert_eq!(parse_ipv6_prefix("::1/128"), Some((1, 128)));
}

#[test]
fn test_validate_ipv6() {
    let mut cache = v6_cache();
    assert_eq!(cache.validate("2001:db8::/32", 65000).0, Status::Valid);
    assert_eq!(cache.validate("2001:db8:1234::/48", 65000).0, Status::Valid);
    assert_eq!(cache.validate("2001:db8::/32", 64496).0, Status::InvalidWrongAsn);
    assert_eq!(cache.validate("2001:db8:1234:5678::/64", 65000).0, Status::InvalidTooLong);
    assert_eq!(cache.validate("2001:db9::/32", 65000).0, Status::NotFound);
    assert_eq!(cache.valid_count(), 2);
    assert_eq!(cache.invalid_count(), 2);
    assert_eq!(cache.not_found_count(), 1);
}

#[test]
fn test_validate_v4_still_works() {
    let mut cache = v4_cache();
    assert_eq!(cache.validate("192.0.2.0/24", 64496).0, Status::Valid);
    let (s, d) = cache.validate("192.0.2.0/24", 65000);
    assert_eq!(s, Status::InvalidWrongAsn);
    assert_eq!(d.expected_asn, Some(64496));
}

#[test]
fn test_validate_too_long_detail() {
    let mut cache = v4_cache();
    let (s, d) = cache.validate("10.1.2.0/24", 65000);
    assert_eq!(s, Status::InvalidTooLong);
    assert_eq!(d.max_prefix_len, Some(16));
    assert_eq!(cache.validate("10.1.0.0/16", 65000).0, Status::Valid);
    assert_eq!(cache.validate("garbage", 65000).0, Status::NotFound);
    assert_eq!(Status::InvalidTooLong.as_str(), "LEN");
    assert_eq!(Status::NotFound.as_str(), "NF ");
}

#[test]
fn test_cache_file_round_trip() {
    let cache = RPKICache::from_vrps(
        vec![(0xC0000200, 24, 24, 64496), (0x0A000000, 8, 16, 65000)],
        vec![(0x20010DB8000000000000000000000000, 32, 48, 65000)],
    );
    let bytes = cache.encode();
    assert_eq!(bytes.len(), 4 + 2 * 10 + 4 + 22);
    let mut back = RPKICache::decode(&bytes).unwrap();
    assert_eq!(back.vrp_count(), 3);
    assert_eq!(back.validate("192.0.2.0/24", 64496).0, Status::Valid);
    assert_eq!(back.validate("2001:db8::/32", 65000).0, Status::Valid);
    assert_eq!(back.encode(), bytes);
}

#[test]
fn test_cache_file_too_short() {
    assert_eq!(RPKICache::decode(&[0, 0, 0]).err(), Some("cache too short".to_string()));
}

#[test]
fn test_rtr_session_builds_table() {
    assert_eq!(reset_query(), vec![0, 2, 0, 0, 0, 0, 0, 8]);
    assert_eq!(pdu_body_len(&[1, 4, 0, 0, 0, 0, 0, 20]), Ok(12));
    assert_eq!(pdu_body_len(&[1, 4, 0, 0, 0, 0, 0, 7]), Err("RTR: bad PDU length 7".to_string()));
    let mut s = RtrSession::new();
    let mut v4 = vec![1u8, 24, 24, 0];
    v4.extend_from_slice(&0xC0000200u32.to_be_bytes());
    v4.extend_from_slice(&64496u32.to_be_bytes());
    assert!(matches!(s.handle_pdu(4, &v4), RtrStep::Continue));
    assert!(matches!(s.handle_pdu(7, &[]), RtrStep::Done));
    let mut cache = s.finish();
    assert_eq!(cache.vrp_count(), 1);
    assert_eq!(cache.validate("192.0.2.0/24", 64496).0, Status::Valid);
}

#[test]
fn test_rtr_error_report() {
    let mut s = RtrSession::new();
    match s.handle_pdu(10, b"no data") {
        RtrStep::Failed(m) => assert_eq!(m, "RTR error report: no data"),
        _ => panic!("expected failure"),
    }
}

#[test]
fn test_rpki_outcome_meaning() {
    // 10.0.0.0/16 up to /24 for AS64500.
    let mut c = RPKICache::from_vrps(vec![(0x0A00_0000, 16, 24, 64500)], vec![]);
    let (s, d) = c.validate("10.0.5.0/24", 64500);
    assert_eq!(s, Status::Valid);
    assert_eq!((d.expected_asn, d.max_prefix_len), (None, None));
    let (s, d) = c.validate("10.0.5.0/24", 64501);
    assert_eq!(s, Status::InvalidWrongAsn);
    assert_eq!(d.expected_asn, Some(64500));
    let (s, d) = c.validate("10.0.5.0/25", 64500);
    assert_eq!(s, Status::InvalidTooLong);
    assert_eq!(d.max_prefix_len, Some(24));
    // No VRP covers 11.0.0.0/8, nor 10.0.0.0/8 (the VRP is longer).
    assert_eq!(c.validate("11.0.0.0/8", 64500).0, Status::NotFound);
    assert_eq!(c.validate("10.0.0.0/8", 64500).0, Status::NotFound);
    assert_eq!((c.valid_count(), c.invalid_count(), c.not_found_count()), (1, 2, 2));
}

#[test]
fn test_validate_any_covering_vrp() {
    // 10.0.0.0/8 up to /24 for AS65000; 10.0.0.0/16 exactly for AS64496.
    let mut c = RPKICache::from_vrps(vec![(0x0A00_0000, 8, 24, 65000), (0x0A00_0000, 16, 16, 64496)], vec![]);
    assert_eq!(c.validate("10.0.0.0/16", 65000).0, Status::Valid);
    assert_eq!(c.validate("10.0.0.0/16", 64496).0, Status::Valid);
    let (s, d) = c.validate("10.0.0.0/16", 1);
    assert_eq!(s, Status::InvalidWrongAsn);
    assert_eq!(d.expected_asn, Some(64496));
    // /20 is allowed only by the /8 (up to /24).
    assert_eq!(c.validate("10.0.0.0/20", 65000).0, Status::Valid);
    let (s, d) = c.validate("10.0.0.0/25", 65000);
    assert_eq!(s, Status::InvalidTooLong);
    assert_eq!(d.max_prefix_len, Some(16));
}

#[test]
fn test_rtr_caps() {
    let mut h = [0u8, 4, 0, 0, 0, 0, 0, 0];
    h[4..8].copy_from_slice(&65537u32.to_be_bytes());
    assert_eq!(pdu_body_len(&h), Err("RTR: PDU length 65537 exceeds 65536".to_string()));
    h[4..8].copy_from_slice(&65536u32.to_be_bytes());
    assert_eq!(pdu_body_len(&h), Ok(65528));
}
