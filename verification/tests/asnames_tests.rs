use bmpwatch::asnames::{
    asn_from_topic, dedup_sort_limit, lookup_cached_name, parse_cymru_line, stale_asns, whois_query, AsNameCache,
    AsNameEntry,
};

fn chars(s: &str) -> Vec<char> {
    s.chars().collect()
}

fn entry(name: &str, refreshed_unix: u64) -> AsNameEntry {
    AsNameEntry {
        name: name.to_string(),
        country_code: "US".to_string(),
        registry: "arin".to_string(),
        allocated: "2015-06-01".to_string(),
        refreshed_unix,
    }
}

#[test]
fn test_parse_valid_line() {
    let line = "13335 | US | arin | 2015-06-01 | CLOUDFLARENET - Cloudflare, Inc., US";
    let r = parse_cymru_line(&chars(line));
    let (asn, name, cc, registry, allocated) = r.unwrap().unwrap();
    assert_eq!(asn, 13335);
    assert_eq!(cc, "US");
    assert_eq!(registry, "arin");
    assert_eq!(allocated, "2015-06-01");
    assert!(name.contains("Cloudflare"));
}

#[test]
fn test_parse_skips_header() {
    let header = "Bulk mode; whois.cymru.com";
    assert!(parse_cymru_line(&chars(header)).is_none());
}

#[test]
fn test_stale_cache_still_used() {
    let mut cache = AsNameCache::new();
    let now: u64 = 2_000_000_000;
    let old = now - 91 * 86400;
    cache.insert(13335, entry("Cloudflare", old));
    // A stale entry still answers lookups ...
    assert!(cache.get(13335).is_some());
    assert_eq!(lookup_cached_name(&cache, 13335), Some("Cloudflare".to_string()));
    // ... and is due for a refresh.
    assert_eq!(stale_asns(&cache, now), vec![13335]);
}

#[test]
fn test_cache_miss_returns_none() {
    let cache = AsNameCache::new();
    assert!(cache.get(99999).is_none());
    assert_eq!(lookup_cached_name(&cache, 99999), None);
}

#[test]
fn test_dedup_asns() {
    let input = vec![13335, 6939, 13335];
    let (deduped, distinct) = dedup_sort_limit(&input, 100);
    assert_eq!(distinct, 2);
    assert_eq!(deduped, vec![6939, 13335]);
}

#[test]
fn test_extract_asn_from_topic() {
    let topics = [
        "routeviews.chicago.13335.bmp_raw",
        "routeviews.linx.6939.bmp_raw",
        "routeviews.nwax.714.bmp_raw",
    ];
    let asns: Vec<u32> = topics.iter().filter_map(|t| asn_from_topic(t)).collect();
    assert_eq!(asns, vec![13335, 6939, 714]);
}

#[test]
fn test_parse_malformed_line_skipped() {
    let line = "13335 | US | arin";
    assert_eq!(parse_cymru_line(&chars(line)), Some(None));
}

#[test]
fn test_parse_empty_name_skipped() {
    let line = "13335 | US | arin | 2015-06-01 | ";
    assert_eq!(parse_cymru_line(&chars(line)), Some(None));
}

#[test]
fn test_fresh_entry_not_stale() {
    let mut cache = AsNameCache::new();
    let now: u64 = 2_000_000_000;
    cache.insert(6939, entry("Hurricane", now - 89 * 86400));
    cache.insert(13335, entry("Cloudflare", now - 90 * 86400));
    assert_eq!(stale_asns(&cache, now), vec![13335]);
}

#[test]
fn test_insert_replaces_entry() {
    let mut cache = AsNameCache::new();
    cache.insert(13335, entry("Old", 1));
    cache.insert(13335, entry("New", 2));
    assert_eq!(cache.entries().len(), 1);
    assert_eq!(cache.get(13335).unwrap().name, "New");
}

#[test]
fn test_dedup_sort_limit_caps() {
    let input = vec![5, 3, 9, 3, 1];
    let (first, distinct) = dedup_sort_limit(&input, 2);
    assert_eq!(distinct, 4);
    assert_eq!(first, vec![1, 3]);
}

#[test]
fn test_apply_cymru_response_counts() {
    let mut cache = AsNameCache::new();
    let response = "Bulk mode; whois.cymru.com [2024-01-01 00:00:00 +0000]\n\
                    13335 | US | arin | 2010-07-14 | CLOUDFLARENET - Cloudflare, Inc., US\n\
                    6939 | US | arin\n\
                    \n";
    let (stored, bad) = cache.apply_cymru_response(response, 42);
    assert_eq!(stored, 1);
    assert_eq!(bad, 1);
    let e = cache.get(13335).unwrap();
    assert_eq!(e.refreshed_unix, 42);
    assert_eq!(e.country_code, "US");
}

#[test]
fn test_whois_query_frames_asns() {
    let q = whois_query(&vec![13335, 6939]);
    assert_eq!(q, "begin\r\nverbose\r\nas13335\r\nas6939\r\nend\r\n");
}
