use bmpwatch::doctor::Doctor;
use bmpwatch::input::InputFormat;
use bmpwatch::obmp_reader::{parse_record_payload, ObmpReader, PayloadKind};
use bmpwatch::obmp_writer::{encode_record, magic_vec, ObmpEncoder, MAGIC};
use bmpwatch::raw_bmp::{
    parse_frame_from_bytes, peer_down_reason_name, termination_reason_name, BmpMessageType, PerPeerHeader,
    RawBmpFrame, RawBmpIterator, BMP_COMMON_HEADER_SIZE, BMP_EXPECTED_VERSION, BMP_PER_PEER_HEADER_SIZE,
};
use bmpwatch::error::DoctorError;

// ── Frame builders ──

fn make_common_header(msg_type: u8, payload_len: u32) -> Vec<u8> {
    let msg_len = BMP_COMMON_HEADER_SIZE as u32 + payload_len;
    let mut buf = Vec::new();
    buf.push(BMP_EXPECTED_VERSION);
    buf.extend_from_slice(&msg_len.to_be_bytes());
    buf.push(msg_type);
    buf
}

fn make_per_peer_header(peer_asn: u32, ip_octets: [u8; 4], ts_sec: u32, ts_us: u32) -> Vec<u8> {
    let mut buf = vec![0u8; BMP_PER_PEER_HEADER_SIZE];
    buf[20] = 0xff;
    buf[21] = 0xff;
    buf[22..26].copy_from_slice(&ip_octets);
    buf[26..30].copy_from_slice(&peer_asn.to_be_bytes());
    buf[34..38].copy_from_slice(&ts_sec.to_be_bytes());
    buf[38..42].copy_from_slice(&ts_us.to_be_bytes());
    buf
}

fn frame(msg_type: u8, payload: &[u8]) -> Vec<u8> {
    let mut f = make_common_header(msg_type, payload.len() as u32);
    f.extend_from_slice(payload);
    f
}

fn make_peer_up_frame(peer_asn: u32, ip_octets: [u8; 4], ts_sec: u32, ts_us: u32) -> Vec<u8> {
    let mut open = vec![0x04];
    open.extend_from_slice(&(peer_asn as u16).to_be_bytes());
    open.extend_from_slice(&0xB4u16.to_be_bytes());
    open.extend_from_slice(&ip_octets);
    open.push(0x00);
    let mut payload = make_per_peer_header(peer_asn, ip_octets, ts_sec, ts_us);
    payload.extend_from_slice(&[0u8; 16]);
    payload.extend_from_slice(&0u16.to_be_bytes());
    payload.extend_from_slice(&179u16.to_be_bytes());
    payload.extend_from_slice(&open);
    frame(3, &payload)
}

fn make_peer_down_frame(peer_asn: u32, ip_octets: [u8; 4], ts_sec: u32, ts_us: u32, reason: u8) -> Vec<u8> {
    let mut payload = make_per_peer_header(peer_asn, ip_octets, ts_sec, ts_us);
    payload.push(reason);
    frame(2, &payload)
}

fn make_route_monitoring_frame(peer_asn: u32, ip_octets: [u8; 4], ts_sec: u32, ts_us: u32) -> Vec<u8> {
    let mut payload = make_per_peer_header(peer_asn, ip_octets, ts_sec, ts_us);
    payload.extend_from_slice(&[0x00, 0x00, 0x00, 0x00]);
    frame(0, &payload)
}

fn make_tlv(t: u16, value: &[u8]) -> Vec<u8> {
    let mut buf = Vec::new();
    buf.extend_from_slice(&t.to_be_bytes());
    buf.extend_from_slice(&(value.len() as u16).to_be_bytes());
    buf.extend_from_slice(value);
    buf
}

fn make_initiation_frame(sys_name: &str) -> Vec<u8> {
    frame(4, &make_tlv(0, sys_name.as_bytes()))
}

fn make_invalid_version_frame() -> Vec<u8> {
    let mut buf = vec![0xFF];
    buf.extend_from_slice(&10u32.to_be_bytes());
    buf.push(0);
    buf.extend_from_slice(&[0u8; 4]);
    buf
}

fn make_truncated_frame() -> Vec<u8> {
    let mut buf = vec![BMP_EXPECTED_VERSION];
    buf.extend_from_slice(&1000u32.to_be_bytes());
    buf.push(0);
    buf.extend_from_slice(&[0u8; 4]);
    buf
}

fn make_invalid_length_frame() -> Vec<u8> {
    let mut buf = vec![BMP_EXPECTED_VERSION];
    buf.extend_from_slice(&4u32.to_be_bytes());
    buf.push(0);
    buf
}

fn concat(frames: &[Vec<u8>]) -> Vec<u8> {
    frames.concat()
}

fn make_valid_obmp(payloads: &[Vec<u8>]) -> Vec<u8> {
    let mut buf = MAGIC.to_vec();
    for p in payloads {
        buf.extend_from_slice(&(p.len() as u32).to_be_bytes());
        buf.extend_from_slice(p);
    }
    buf
}

fn make_stats_entry(t: u16, value: &[u8]) -> Vec<u8> {
    make_tlv(t, value)
}

fn all_frames(data: Vec<u8>) -> Vec<Result<RawBmpFrame, DoctorError>> {
    let mut it = RawBmpIterator::from_bytes(data);
    let mut out = Vec::new();
    while let Some(r) = it.next_frame() {
        out.push(r);
    }
    out
}

fn all_records(reader: &mut ObmpReader) -> Vec<Result<RawBmpFrame, DoctorError>> {
    let mut out = Vec::new();
    while let Some(r) = reader.next_record() {
        out.push(r);
    }
    out
}

fn run_doctor(data: Vec<u8>, max_findings: usize, format: InputFormat, collect: bool) -> (Doctor, Result<(), DoctorError>) {
    let size = data.len() as u64;
    let mut d = Doctor::with_max_findings("capture.rawbmp", size, max_findings, format);
    let r = d.process(data, collect);
    (d, r)
}

fn doctor_raw(data: Vec<u8>) -> Doctor {
    let (d, r) = run_doctor(data, 1000, InputFormat::RawBmp, false);
    r.unwrap();
    d
}

fn has_rule(d: &Doctor, rule: &str) -> bool {
    d.state.findings.iter().any(|f| f.rule == rule)
}

fn count_of(d: &Doctor, t: u8) -> u64 {
    *d.state.by_type.get(&t).unwrap_or(&0)
}

fn init_term_frames() -> Vec<Vec<u8>> {
    let init = frame(4, &[make_tlv(1, b"FRRouting"), make_tlv(2, b"bmp-speaker")].concat());
    let term = frame(5, &make_tlv(1, &2u16.to_be_bytes()));
    vec![init, term]
}

// ── raw_bmp ──

#[test]
fn test_common_header_generation() {
    let header = make_common_header(0, 10);
    assert_eq!(header.len(), BMP_COMMON_HEADER_SIZE);
    assert_eq!(header[0], BMP_EXPECTED_VERSION);
    assert_eq!(u32::from_be_bytes([header[1], header[2], header[3], header[4]]), 16);
    assert_eq!(header[5], 0);
    let f = parse_frame_from_bytes(&frame(0, &[0u8; 10]), 0);
    assert_eq!(f.unwrap().msg_len, 16);
}

#[test]
fn test_per_peer_header_parsing() {
    let pph_bytes = make_per_peer_header(65000, [10, 0, 0, 1], 1000, 500);
    assert_eq!(pph_bytes.len(), BMP_PER_PEER_HEADER_SIZE);
    let pph = PerPeerHeader::parse(&pph_bytes).expect("Should parse per-peer header");
    assert_eq!(pph.peer_asn, 65000);
    assert_eq!(pph.timestamp_seconds, 1000);
    assert_eq!(pph.timestamp_microseconds, 500);
    assert_eq!(pph.peer_ip(), "10.0.0.1");
}

#[test]
fn test_raw_bmp_iterator_valid_frames() {
    let data = concat(&[
        make_peer_up_frame(65000, [10, 0, 0, 1], 100, 0),
        make_route_monitoring_frame(65000, [10, 0, 0, 1], 200, 0),
        make_peer_down_frame(65000, [10, 0, 0, 1], 300, 0, 3),
    ]);
    let frames: Vec<RawBmpFrame> = all_frames(data).into_iter().collect::<Result<Vec<_>, _>>().unwrap();
    assert_eq!(frames.len(), 3);
    assert_eq!(frames[0].msg_type, Some(BmpMessageType::PeerUpNotification));
    assert_eq!(frames[1].msg_type, Some(BmpMessageType::RouteMonitoring));
    assert_eq!(frames[2].msg_type, Some(BmpMessageType::PeerDownNotification));
}

#[test]
fn test_raw_bmp_iterator_invalid_version() {
    let frames = all_frames(make_invalid_version_frame());
    assert_eq!(frames.len(), 1);
    let f = frames[0].as_ref().unwrap();
    assert_eq!(f.version, 0xFF);
    assert_eq!(f.msg_type, Some(BmpMessageType::RouteMonitoring));
}

#[test]
fn test_raw_bmp_iterator_truncated_frame() {
    let frames = all_frames(make_truncated_frame());
    assert_eq!(frames.len(), 1);
    assert!(frames[0].is_err());
}

#[test]
fn test_raw_bmp_iterator_invalid_length() {
    let frames = all_frames(make_invalid_length_frame());
    assert_eq!(frames.len(), 1);
    assert!(frames[0].is_err());
}

#[test]
fn test_raw_bmp_iterator_initiation() {
    let frames: Vec<RawBmpFrame> =
        all_frames(make_initiation_frame("test-router")).into_iter().collect::<Result<Vec<_>, _>>().unwrap();
    assert_eq!(frames.len(), 1);
    assert_eq!(frames[0].msg_type, Some(BmpMessageType::InitiationMessage));
    assert!(frames[0].per_peer_header.is_none());
}

#[test]
fn test_parse_initiation_tlvs() {
    let payload = [make_tlv(1, b"FRRouting 8.5.1"), make_tlv(2, b"bmp-speaker")].concat();
    let f = parse_frame_from_bytes(&frame(4, &payload), 0).unwrap();
    assert_eq!(f.msg_type, Some(BmpMessageType::InitiationMessage));
    let tlv = f.tlv_info.as_ref().unwrap();
    assert_eq!(tlv.strings.len(), 2);
    assert_eq!(tlv.strings[0].tlv_type, 1);
    assert_eq!(tlv.strings[0].value, "FRRouting 8.5.1");
    assert_eq!(tlv.strings[1].tlv_type, 2);
    assert_eq!(tlv.strings[1].value, "bmp-speaker");
}

#[test]
fn test_parse_termination_tlv_reason() {
    let f = parse_frame_from_bytes(&frame(5, &make_tlv(1, &2u16.to_be_bytes())), 0).unwrap();
    let tlv = f.tlv_info.as_ref().unwrap();
    assert_eq!(tlv.termination_reason, Some(2));
    assert!(tlv.strings.is_empty());
}

#[test]
fn test_termination_reason_names() {
    assert_eq!(termination_reason_name(1), "Administratively prohibited");
    assert_eq!(termination_reason_name(2), "Administratively closed");
    assert_eq!(termination_reason_name(999), "Unknown");
}

#[test]
fn test_peer_down_reason_names() {
    assert_eq!(peer_down_reason_name(1), "Local system closed, NOTIFICATION sent");
    assert_eq!(peer_down_reason_name(2), "Local system closed, no NOTIFICATION");
    assert_eq!(peer_down_reason_name(5), "Peer de-configured");
    assert_eq!(peer_down_reason_name(255), "Unknown");
}

#[test]
fn test_parse_tlvs_truncated() {
    let mut payload = vec![0u8; 8];
    payload[0..2].copy_from_slice(&1u16.to_be_bytes());
    payload[2..4].copy_from_slice(&100u16.to_be_bytes());
    let f = parse_frame_from_bytes(&frame(4, &payload), 0).unwrap();
    assert!(f.tlv_info.is_none());
}

#[test]
fn test_parse_tlvs_unknown_type() {
    let f = parse_frame_from_bytes(&frame(4, &make_tlv(99, b"unknown data")), 0).unwrap();
    let tlv = f.tlv_info.as_ref().unwrap();
    assert_eq!(tlv.strings.len(), 1);
    assert_eq!(tlv.strings[0].tlv_type_name, "Unknown");
    assert_eq!(tlv.strings[0].tlv_type, 99);
}

#[test]
fn test_parse_stats_report() {
    let pph = make_per_peer_header(65000, [10, 0, 0, 1], 100, 0);
    let mut payload = 2u32.to_be_bytes().to_vec();
    payload.extend_from_slice(&make_stats_entry(7, &42u32.to_be_bytes()));
    payload.extend_from_slice(&make_stats_entry(8, &10u32.to_be_bytes()));
    let total = [pph.as_slice(), payload.as_slice()].concat();
    let f = parse_frame_from_bytes(&frame(1, &total), 0).unwrap();
    let stats = f.stats_info.as_ref().unwrap();
    assert_eq!(stats.entries.len(), 2);
    assert_eq!(stats.entries[0].stat_type, 7);
    assert_eq!(stats.entries[0].stat_value, 42);
    assert!(stats.entries[0].stat_name.contains("Adj-RIBs-In"));
    assert_eq!(stats.entries[1].stat_type, 8);
    assert_eq!(stats.entries[1].stat_value, 10);
}

#[test]
fn test_parse_stats_unknown_type() {
    let pph = make_per_peer_header(65000, [10, 0, 0, 1], 100, 0);
    let payload = [1u32.to_be_bytes().as_slice(), make_stats_entry(99, &1u32.to_be_bytes()).as_slice()].concat();
    let total = [pph.as_slice(), payload.as_slice()].concat();
    let stats = parse_frame_from_bytes(&frame(1, &total), 0).unwrap().stats_info.unwrap();
    assert_eq!(stats.entries[0].stat_name, "Unknown");
}

#[test]
fn test_parse_stats_truncated() {
    let pph = make_per_peer_header(65000, [10, 0, 0, 1], 100, 0);
    let mut payload = 99u32.to_be_bytes().to_vec();
    payload.extend_from_slice(&make_stats_entry(7, &42u32.to_be_bytes()));
    let total = [pph.as_slice(), payload.as_slice()].concat();
    let stats = parse_frame_from_bytes(&frame(1, &total), 0).unwrap().stats_info.unwrap();
    assert_eq!(stats.entries.len(), 1);
}

#[test]
fn test_short_statistics_report_no_panic() {
    let f: [u8; 8] = [0x03, 0x00, 0x00, 0x00, 0x08, 0x01, 0xFF, 0xFF];
    let result = parse_frame_from_bytes(&f, 0).unwrap();
    assert_eq!(result.msg_type, Some(BmpMessageType::StatisticsReport));
    assert!(result.stats_info.is_none());
}

#[test]
fn test_short_statistics_report_iterator_no_panic() {
    let f = vec![0x03, 0x00, 0x00, 0x00, 0x08, 0x01, 0xFF, 0xFF];
    let frames: Vec<RawBmpFrame> = all_frames(f).into_iter().collect::<Result<Vec<_>, _>>().unwrap();
    assert_eq!(frames.len(), 1);
    assert_eq!(frames[0].msg_type, Some(BmpMessageType::StatisticsReport));
    assert!(frames[0].stats_info.is_none());
}

#[test]
fn test_peer_down_reason_decoded() {
    let f = parse_frame_from_bytes(&make_peer_down_frame(65000, [10, 0, 0, 1], 5, 0, 2), 7).unwrap();
    assert_eq!(f.offset, 7);
    let pd = f.peer_down_info.unwrap();
    assert_eq!(pd.reason_code, 2);
    assert_eq!(pd.reason_name, "Local system closed, no NOTIFICATION");
}

#[test]
fn test_message_type_codes() {
    assert_eq!(BmpMessageType::from_u8(0), Some(BmpMessageType::RouteMonitoring));
    assert_eq!(BmpMessageType::from_u8(6), Some(BmpMessageType::RouteMirroringMessage));
    assert_eq!(BmpMessageType::from_u8(7), None);
    assert!(BmpMessageType::RouteMonitoring.has_per_peer_header());
    assert!(!BmpMessageType::InitiationMessage.has_per_peer_header());
}

// ── doctor ──

#[test]
fn test_doctor_process_valid_session() {
    let d = doctor_raw(concat(&[
        make_peer_up_frame(65000, [10, 0, 0, 1], 100, 0),
        make_route_monitoring_frame(65000, [10, 0, 0, 1], 200, 0),
        make_peer_down_frame(65000, [10, 0, 0, 1], 300, 0, 3),
    ]));
    assert_eq!(d.state.total_messages, 3);
    assert_eq!(count_of(&d, 0), 1);
    assert_eq!(count_of(&d, 3), 1);
    assert_eq!(count_of(&d, 2), 1);
    assert_eq!(d.state.malformed_messages, 0);
    assert_eq!(d.state.peers.len(), 1);
    let peer = &d.state.peers[0].1;
    assert_eq!(peer.peer_up_count, 1);
    assert_eq!(peer.route_monitoring_count, 1);
    assert_eq!(peer.peer_down_count, 1);
    assert!(!peer.active);
    for rule in ["route_monitoring_before_peer_up", "duplicate_peer_up", "peer_down_without_peer_up", "timestamp_regression"] {
        assert!(!has_rule(&d, rule), "unexpected {rule}");
    }
}

#[test]
fn test_doctor_route_monitoring_before_peer_up() {
    let d = doctor_raw(concat(&[
        make_route_monitoring_frame(65000, [10, 0, 0, 1], 100, 0),
        make_peer_up_frame(65000, [10, 0, 0, 1], 200, 0),
    ]));
    assert_eq!(d.state.total_messages, 2);
    assert!(!d.state.findings.is_empty());
    assert!(has_rule(&d, "route_monitoring_before_peer_up"));
}

#[test]
fn test_doctor_duplicate_peer_up() {
    let d = doctor_raw(concat(&[
        make_peer_up_frame(65000, [10, 0, 0, 1], 100, 0),
        make_peer_up_frame(65000, [10, 0, 0, 1], 200, 0),
    ]));
    assert_eq!(d.state.total_messages, 2);
    assert!(has_rule(&d, "duplicate_peer_up"));
}

#[test]
fn test_doctor_peer_down_without_up() {
    let d = doctor_raw(make_peer_down_frame(65000, [10, 0, 0, 1], 100, 0, 3));
    assert_eq!(d.state.total_messages, 1);
    assert!(has_rule(&d, "peer_down_without_peer_up"));
}

#[test]
fn test_doctor_timestamp_regression() {
    let d = doctor_raw(concat(&[
        make_peer_up_frame(65000, [10, 0, 0, 1], 300, 0),
        make_route_monitoring_frame(65000, [10, 0, 0, 1], 200, 0),
    ]));
    assert_eq!(d.state.total_messages, 2);
    assert!(has_rule(&d, "timestamp_regression"));
}

#[test]
fn test_doctor_invalid_version() {
    let d = doctor_raw(make_invalid_version_frame());
    assert!(has_rule(&d, "invalid_bmp_version"));
}

#[test]
fn test_doctor_malformed_frame() {
    let d = doctor_raw(make_truncated_frame());
    assert_eq!(d.state.malformed_messages, 1);
    assert!(has_rule(&d, "truncated_frame"));
}

#[test]
fn test_doctor_dump_jsonl() {
    let data = concat(&[
        make_peer_up_frame(65000, [10, 0, 0, 1], 100, 0),
        make_route_monitoring_frame(65000, [10, 0, 0, 1], 200, 0),
    ]);
    let (d, r) = run_doctor(data, 1000, InputFormat::RawBmp, true);
    r.unwrap();
    assert_eq!(d.events.len(), 2);
    assert_eq!(d.events[0].bmp_type_id, 3);
    assert_eq!(d.events[1].bmp_type_id, 0);
    assert_eq!(d.events[0].peer_asn, Some(65000));
    assert_eq!(d.events[0].peer_ip.as_deref(), Some("10.0.0.1"));
}

#[test]
fn test_doctor_multiple_peers() {
    let d = doctor_raw(concat(&[
        make_peer_up_frame(65000, [10, 0, 0, 1], 100, 0),
        make_peer_up_frame(65001, [10, 0, 0, 2], 200, 0),
        make_route_monitoring_frame(65000, [10, 0, 0, 1], 300, 0),
        make_route_monitoring_frame(65001, [10, 0, 0, 2], 400, 0),
    ]));
    assert_eq!(d.state.total_messages, 4);
    assert_eq!(d.state.peers.len(), 2);
    assert_eq!(d.state.peers.iter().filter(|p| p.1.active).count(), 2);
}

#[test]
fn test_doctor_initiation_message() {
    let d = doctor_raw(make_initiation_frame("test-router"));
    assert_eq!(d.state.total_messages, 1);
    assert_eq!(count_of(&d, 4), 1);
    assert_eq!(d.state.peers.len(), 0);
}

#[test]
fn test_multi_frame_two_valid() {
    let d = doctor_raw(concat(&[
        make_peer_up_frame(65000, [10, 0, 0, 1], 100, 0),
        make_route_monitoring_frame(65000, [10, 0, 0, 1], 200, 0),
    ]));
    assert_eq!(d.state.total_messages, 2);
    assert_eq!(d.state.peers.len(), 1);
    assert_eq!(d.state.malformed_messages, 0);
}

#[test]
fn test_multi_frame_valid_then_truncated() {
    let d = doctor_raw(concat(&[make_peer_up_frame(65000, [10, 0, 0, 1], 100, 0), make_truncated_frame()]));
    assert_eq!(d.state.total_messages, 1);
    assert_eq!(d.state.malformed_messages, 1);
    assert_eq!(d.state.peers.len(), 1);
}

#[test]
fn test_multi_frame_malformed_then_extra_bytes() {
    let d = doctor_raw(concat(&[make_invalid_length_frame(), vec![0x00, 0x01, 0x02, 0x03]]));
    assert_eq!(d.state.malformed_messages, 1);
    assert!(has_rule(&d, "truncated_frame"));
}

#[test]
fn test_route_monitoring_before_any_peer_up() {
    let d = doctor_raw(concat(&[
        make_route_monitoring_frame(65000, [10, 0, 0, 1], 100, 0),
        make_route_monitoring_frame(65000, [10, 0, 0, 1], 200, 0),
        make_peer_up_frame(65000, [10, 0, 0, 1], 300, 0),
    ]));
    assert_eq!(d.state.total_messages, 3);
    let n = d.state.findings.iter().filter(|f| f.rule == "route_monitoring_before_peer_up").count();
    assert_eq!(n, 2);
    let peer = &d.state.peers[0].1;
    assert_eq!(peer.update_before_peer_up_count, 2);
    assert!(peer.active);
}

#[test]
fn test_max_findings_cap() {
    let data = concat(&[make_invalid_version_frame(), make_invalid_version_frame(), make_invalid_version_frame()]);
    let (d, r) = run_doctor(data, 2, InputFormat::RawBmp, false);
    r.unwrap();
    assert_eq!(d.state.findings.len(), 2);
    assert!(d.was_truncated());
    assert_eq!(d.state.findings_dropped, 1);
}

#[test]
fn test_max_findings_cap_zero() {
    let (d, r) = run_doctor(make_invalid_version_frame(), 0, InputFormat::RawBmp, false);
    r.unwrap();
    assert_eq!(d.state.findings.len(), 0);
    assert!(d.was_truncated());
    assert_eq!(d.state.findings_dropped, 1);
}

#[test]
fn test_override_raw_bmp_on_obmp_file() {
    let inner = make_peer_up_frame(65000, [10, 0, 0, 1], 100, 0);
    let data = make_valid_obmp(&[inner]);
    let (d, r) = run_doctor(data, 1000, InputFormat::RawBmp, false);
    r.unwrap();
    assert!(d.state.malformed_messages >= 1);
    assert_eq!(d.state.peers.len(), 0);
}

#[test]
fn test_override_openbmp_len_on_raw_bmp_file() {
    let data = make_peer_up_frame(65000, [10, 0, 0, 1], 100, 0);
    let (_, r) = run_doctor(data, 1000, InputFormat::Bmpd, false);
    assert!(r.is_err());
}

#[test]
fn test_init_term_tlv_fixture() {
    let data = make_valid_obmp(&init_term_frames());
    let (d, r) = run_doctor(data, 1000, InputFormat::Bmpd, false);
    r.unwrap();
    assert_eq!(d.state.total_messages, 2);
    assert_eq!(d.state.malformed_messages, 0);
    assert_eq!(count_of(&d, 4), 1);
    assert_eq!(count_of(&d, 5), 1);
    let init = d.state.initiation_info.as_ref().unwrap();
    assert_eq!(init.strings.len(), 2);
    assert_eq!(init.strings[0].value, "FRRouting");
    assert_eq!(init.strings[1].value, "bmp-speaker");
    let term = d.state.termination_info.as_ref().unwrap();
    assert_eq!(term.termination_reason, Some(2));
    assert!(termination_reason_name(2).contains("closed"));
}

#[test]
fn test_init_term_tlv_rawbmp_fixture() {
    let d = doctor_raw(concat(&init_term_frames()));
    assert_eq!(d.state.total_messages, 2);
    assert_eq!(d.state.malformed_messages, 0);
    let init = d.state.initiation_info.as_ref().unwrap();
    assert_eq!(init.strings[0].value, "FRRouting");
    assert_eq!(init.strings[1].value, "bmp-speaker");
    let term = d.state.termination_info.as_ref().unwrap();
    assert_eq!(term.termination_reason, Some(2));
}

#[test]
fn test_peer_up_down_rawbmp_fixture() {
    let d = doctor_raw(concat(&[
        make_peer_up_frame(65000, [10, 0, 0, 1], 100, 0),
        make_peer_down_frame(65000, [10, 0, 0, 1], 200, 0, 2),
    ]));
    assert_eq!(d.state.total_messages, 2);
    assert_eq!(d.state.malformed_messages, 0);
    assert_eq!(d.state.peers.len(), 1);
    let peer = &d.state.peers[0].1;
    assert_eq!(peer.peer_up_count, 1);
    assert_eq!(peer.peer_down_count, 1);
    assert!(!peer.active);
    assert!(peer.peer_up_seen);
    assert_eq!(peer.last_peer_down_reason, Some(2));
    assert!(!has_rule(&d, "peer_down_without_peer_up"));
}

#[test]
fn test_doctor_format_label_and_container_stats() {
    let data = make_valid_obmp(&[make_peer_up_frame(65000, [10, 0, 0, 1], 100, 0), vec![0x01, 0x02]]);
    let (d, r) = run_doctor(data, 1000, InputFormat::Bmpd, false);
    r.unwrap();
    assert_eq!(d.state.container_stats.container_records, 2);
    assert_eq!(d.state.container_stats.raw_bmp_payloads, 1);
    assert_eq!(d.state.container_stats.unrecognized_payloads, 1);
    assert_eq!(d.state.malformed_messages, 1);
}

// ── .bmpd container ──

#[test]
fn test_empty_obmp_magic_only() {
    let mut reader = ObmpReader::from_bytes(MAGIC.to_vec()).unwrap();
    let frames = all_records(&mut reader);
    assert_eq!(frames.len(), 1);
    assert!(frames[0].is_err());
}

#[test]
fn test_one_valid_bmp_frame() {
    let data = make_valid_obmp(&[make_peer_up_frame(65000, [10, 0, 0, 1], 100, 0)]);
    let mut reader = ObmpReader::from_bytes(data).unwrap();
    let frames: Vec<RawBmpFrame> = all_records(&mut reader).into_iter().collect::<Result<Vec<_>, _>>().unwrap();
    assert_eq!(frames.len(), 1);
    assert_eq!(frames[0].msg_type_raw, 3);
    assert_eq!(frames[0].per_peer_header.as_ref().unwrap().peer_asn, 65000);
}

#[test]
fn test_multiple_valid_bmp_frames() {
    let data = make_valid_obmp(&[
        make_peer_up_frame(65000, [10, 0, 0, 1], 100, 0),
        make_route_monitoring_frame(65000, [10, 0, 0, 1], 200, 0),
    ]);
    let mut reader = ObmpReader::from_bytes(data).unwrap();
    let frames: Vec<RawBmpFrame> = all_records(&mut reader).into_iter().collect::<Result<Vec<_>, _>>().unwrap();
    assert_eq!(frames.len(), 2);
    assert_eq!(frames[0].msg_type_raw, 3);
    assert_eq!(frames[1].msg_type_raw, 0);
}

#[test]
fn test_invalid_magic() {
    let result = ObmpReader::from_bytes(b"INVALIDHEADERX".to_vec());
    assert!(result.is_err());
    let err = result.err().unwrap().message();
    assert!(err.contains("Invalid .obmp magic"));
}

#[test]
fn test_truncated_length_prefix() {
    let mut data = MAGIC.to_vec();
    data.extend_from_slice(&[0x00, 0x00]);
    let mut reader = ObmpReader::from_bytes(data).unwrap();
    let frames = all_records(&mut reader);
    assert_eq!(frames.len(), 1);
    let err = frames[0].as_ref().err().unwrap().message();
    assert!(err.contains("Truncated length prefix"));
}

#[test]
fn test_declared_length_exceeds_file() {
    let mut data = MAGIC.to_vec();
    data.extend_from_slice(&100u32.to_be_bytes());
    data.extend_from_slice(b"short");
    let mut reader = ObmpReader::from_bytes(data).unwrap();
    let frames = all_records(&mut reader);
    assert_eq!(frames.len(), 1);
    let err = frames[0].as_ref().err().unwrap().message();
    assert!(err.contains("Truncated payload"));
}

#[test]
fn test_zero_length_payload() {
    let mut reader = ObmpReader::from_bytes(make_valid_obmp(&[vec![]])).unwrap();
    let frames = all_records(&mut reader);
    assert_eq!(frames.len(), 1);
    assert!(frames[0].is_err());
}

#[test]
fn test_valid_container_malformed_bmp() {
    let malformed = vec![0xFF, 0x00, 0x00, 0x00, 0x0A, 0x00, 1, 2, 3, 4];
    let mut reader = ObmpReader::from_bytes(make_valid_obmp(&[malformed])).unwrap();
    let frames = all_records(&mut reader);
    assert_eq!(frames.len(), 1);
    let f = frames[0].as_ref().unwrap();
    assert_eq!(f.version, 0xFF);
    assert_eq!(f.msg_type_raw, 0);
}

#[test]
fn test_obmp_with_initiation_frame() {
    let mut reader = ObmpReader::from_bytes(make_valid_obmp(&[make_initiation_frame("test-router")])).unwrap();
    let frames: Vec<RawBmpFrame> = all_records(&mut reader).into_iter().collect::<Result<Vec<_>, _>>().unwrap();
    assert_eq!(frames.len(), 1);
    assert_eq!(frames[0].msg_type_raw, 4);
    assert!(frames[0].per_peer_header.is_none());
}

#[test]
fn test_record_payload_kinds() {
    let raw = parse_record_payload(&make_initiation_frame("r"), 0, 0);
    assert!(raw.frame.is_ok());
    assert_eq!(raw.kind, PayloadKind::RawBmp);
    let junk = parse_record_payload(&[0x07, 0x00], 40, 2);
    assert_eq!(junk.kind, PayloadKind::Unrecognized);
    let msg = junk.frame.err().unwrap().message();
    assert!(msg.starts_with("Frame error: .obmp frame 2 at offset 40: "));
}

// ── writer ──

#[test]
fn test_magic_constant() {
    assert_eq!(MAGIC.len(), 13);
    assert_eq!(&MAGIC, b"BMPDOPENBMP1\n");
    assert_eq!(magic_vec(), MAGIC.to_vec());
}

#[test]
fn test_write_single_frame() {
    let payload = b"hello world";
    let rec = encode_record(payload);
    assert_eq!(u32::from_be_bytes([rec[0], rec[1], rec[2], rec[3]]), 11);
    assert_eq!(&rec[4..], payload);
}

#[test]
fn test_write_multiple_frames() {
    let mut w = ObmpEncoder::new();
    let mut data = magic_vec();
    data.extend_from_slice(&w.encode_frame(b"first"));
    data.extend_from_slice(&w.encode_frame(b"second"));
    let mut reader = ObmpReader::from_bytes(data.clone()).unwrap();
    assert_eq!(all_records(&mut reader).len(), 2);
    assert_eq!(u32::from_be_bytes([data[13], data[14], data[15], data[16]]), 5);
    assert_eq!(&data[17..22], b"first");
    assert_eq!(u32::from_be_bytes([data[22], data[23], data[24], data[25]]), 6);
    assert_eq!(&data[26..32], b"second");
}

#[test]
fn test_counts() {
    let mut w = ObmpEncoder::new();
    assert_eq!(w.messages_written(), 0);
    assert_eq!(w.bytes_written(), 13);
    w.encode_frame(b"abc");
    w.encode_frame(b"de");
    assert_eq!(w.messages_written(), 2);
    assert_eq!(w.bytes_written(), 13 + 4 + 3 + 4 + 2);
}

#[test]
fn test_empty_payload() {
    let rec = encode_record(&[]);
    assert_eq!(rec, vec![0, 0, 0, 0]);
}

#[test]
fn test_written_container_reads_back() {
    let frames = vec![
        make_peer_up_frame(65000, [10, 0, 0, 1], 100, 0),
        make_route_monitoring_frame(65000, [10, 0, 0, 1], 200, 0),
    ];
    let mut w = ObmpEncoder::new();
    let mut data = magic_vec();
    for f in &frames {
        data.extend_from_slice(&w.encode_frame(f));
    }
    let mut reader = ObmpReader::from_bytes(data).unwrap();
    let back: Vec<RawBmpFrame> = all_records(&mut reader).into_iter().collect::<Result<Vec<_>, _>>().unwrap();
    assert_eq!(back.len(), 2);
    assert_eq!(back[0].full_data, frames[0]);
    assert_eq!(back[1].full_data, frames[1]);
}

// ── OpenBMP-wrapped records and peer distinguishers ──

/// An OpenBMP v1.7 router-message header (IPv4 router) before `bmp`.
fn make_openbmp_wrapped(collector: &str, router_ip: [u8; 4], group: &str, bmp: &[u8]) -> Vec<u8> {
    let mut h = b"OBMP".to_vec();
    h.extend_from_slice(&[1, 7]);
    h.extend_from_slice(&0u16.to_be_bytes()); // header length (not read)
    h.extend_from_slice(&(bmp.len() as u32).to_be_bytes());
    h.push(0x80); // router message, IPv4
    h.push(12); // object type: BMP raw
    h.extend_from_slice(&0u32.to_be_bytes());
    h.extend_from_slice(&0u32.to_be_bytes());
    h.extend_from_slice(&[0u8; 16]); // collector hash
    h.extend_from_slice(&(collector.len() as u16).to_be_bytes());
    h.extend_from_slice(collector.as_bytes());
    h.extend_from_slice(&[0u8; 16]); // router hash
    h.extend_from_slice(&router_ip);
    h.extend_from_slice(&[0u8; 12]);
    h.extend_from_slice(&(group.len() as u16).to_be_bytes());
    h.extend_from_slice(group.as_bytes());
    h.extend_from_slice(&1u32.to_be_bytes()); // row count
    h.extend_from_slice(bmp);
    h
}

#[test]
fn test_openbmp_wrapped_record_metadata() {
    let inner = make_initiation_frame("r1");
    let payload = make_openbmp_wrapped("bmp-01", [185, 33, 111, 234], "namex.fco", &inner);
    let rec = parse_record_payload(&payload, 17, 0);
    assert!(matches!(rec.kind, PayloadKind::OpenBmpWrapped));
    assert!(!rec.unwrap_error && !rec.inner_error);
    let meta = rec.metadata.expect("metadata");
    assert_eq!(meta.collector.as_deref(), Some("bmp-01"));
    assert_eq!(meta.router.as_deref(), Some("namex.fco"));
    assert_eq!(meta.router_ip.as_deref(), Some("185.33.111.234"));
    let frame = rec.frame.expect("inner frame");
    assert_eq!(frame.msg_type, Some(BmpMessageType::InitiationMessage));
    assert_eq!(frame.full_data, inner);
}

#[test]
fn test_openbmp_header_error_is_unwrap_error() {
    // OBMP magic with an unsupported version.
    let mut payload = make_openbmp_wrapped("c", [10, 0, 0, 1], "", &make_initiation_frame("r"));
    payload[5] = 8;
    let rec = parse_record_payload(&payload, 0, 0);
    assert!(rec.unwrap_error);
    assert!(rec.frame.is_err());
}

#[test]
fn test_peer_distinguisher_hex() {
    let mut f = make_peer_down_frame(65000, [10, 0, 0, 1], 1, 0, 2);
    // Per-peer header: peer type 1 (RD instance), distinguisher 0x00000001_000000ab.
    f[6] = 1;
    f[8..16].copy_from_slice(&[0, 0, 0, 1, 0, 0, 0, 0xab]);
    let mut doctor = Doctor::with_max_findings("t.rawbmp", f.len() as u64, 10, InputFormat::RawBmp);
    doctor.process(f, false).unwrap();
    assert_eq!(doctor.state.peers.len(), 1);
    assert_eq!(doctor.state.peers[0].0.peer_distinguisher.as_deref(), Some("00000001000000ab"));
}

#[test]
fn test_container_counters_classify_each_record() {
    let wrapped = make_openbmp_wrapped("c", [10, 0, 0, 1], "g", &make_initiation_frame("r"));
    let mut bad = wrapped.clone();
    bad[5] = 8;
    let data = make_valid_obmp(&[make_initiation_frame("a"), wrapped, vec![0x09, 0x00], bad]);
    let mut reader = ObmpReader::from_bytes(data).unwrap();
    let recs = all_records(&mut reader);
    assert_eq!(recs.len(), 4);
    let s = reader.stats();
    assert_eq!(s.container_records, 4);
    assert_eq!(s.raw_bmp_payloads, 1);
    assert_eq!(s.openbmp_wrapped_payloads, 2);
    assert_eq!(s.unrecognized_payloads, 1);
    assert_eq!(s.openbmp_unwrap_errors, 1);
    assert_eq!(s.inner_bmp_parse_errors, 0);
    assert_eq!(
        s.container_records,
        s.raw_bmp_payloads + s.openbmp_wrapped_payloads + s.unrecognized_payloads
    );
}

#[test]
fn test_frame_length_cap() {
    let mut data = vec![BMP_EXPECTED_VERSION];
    data.extend_from_slice(&67_108_865u32.to_be_bytes());
    data.push(0);
    data.extend_from_slice(&[0u8; 10]);
    let frames = all_frames(data);
    assert_eq!(frames.len(), 1);
    match &frames[0] {
        Err(DoctorError::Frame(m)) => assert_eq!(m, "BMP message length 67108865 at offset 0 exceeds 67108864"),
        _ => panic!("expected a frame error"),
    }
}

#[test]
fn test_record_length_cap() {
    let mut data = MAGIC.to_vec();
    data.extend_from_slice(&67_108_865u32.to_be_bytes());
    data.extend_from_slice(&[0u8; 10]);
    let mut reader = ObmpReader::from_bytes(data).unwrap();
    let recs = all_records(&mut reader);
    assert_eq!(recs.len(), 1);
    match &recs[0] {
        Err(DoctorError::Frame(m)) => assert_eq!(m, "Record length 67108865 at .obmp offset 17 exceeds 67108864"),
        _ => panic!("expected a record error"),
    }
}

#[test]
fn test_event_cap() {
    let data = concat(&[
        make_route_monitoring_frame(65000, [10, 0, 0, 1], 100, 0),
        make_route_monitoring_frame(65000, [10, 0, 0, 1], 101, 0),
        make_route_monitoring_frame(65000, [10, 0, 0, 1], 102, 0),
    ]);
    let mut d = Doctor::with_max_findings("capture.rawbmp", data.len() as u64, 1000, InputFormat::RawBmp);
    d.set_max_events(2);
    d.process(data, true).unwrap();
    assert_eq!(d.events().len(), 2);
    assert_eq!(d.state().total_messages, 3);
}

#[test]
fn test_truncated_peer_down_reports_missing_reason() {
    let up = make_peer_up_frame(65000, [10, 0, 0, 1], 100, 0);
    let down = frame(2, &make_per_peer_header(65000, [10, 0, 0, 1], 200, 0));
    let down_offset = up.len() as u64;
    let d = doctor_raw(concat(&[up, down]));
    assert_eq!(d.state().total_messages, 2);
    let f = d
        .state()
        .findings
        .iter()
        .find(|f| f.message.ends_with("Peer Down Notification is missing its reason byte"))
        .expect("missing reason finding");
    assert_eq!(f.rule, "parse_error");
    assert_eq!(f.offset, Some(down_offset));
    assert_eq!(
        f.message,
        format!("Parse error at offset {down_offset}: Peer Down Notification is missing its reason byte")
    );
}

#[test]
fn test_peer_up_not_decoded() {
    let mut payload = make_per_peer_header(65000, [10, 0, 0, 1], 100, 0);
    payload.extend_from_slice(&[0xde, 0xad]);
    let d = doctor_raw(frame(3, &payload));
    assert_eq!(d.state().total_messages, 1);
    assert!(!has_rule(&d, "parse_error"));
    assert_eq!(d.state().bgp_elem_count, 0);
}

#[test]
fn test_event_details_only_for_their_types() {
    let tlv = bmpwatch::raw_bmp::TlvInfo { strings: Vec::new(), termination_reason: Some(2) };
    let down = bmpwatch::raw_bmp::PeerDownInfo { reason_code: 1, reason_name: "x".to_string() };
    let e = bmpwatch::event::JsonlEvent::from_frame(
        7,
        Some(BmpMessageType::RouteMonitoring),
        0,
        None,
        None,
        6,
        "ok",
        0,
        Some(&tlv),
        None,
        Some(&down),
        &[],
    );
    assert!(e.tlv_info.is_none());
    assert!(e.peer_down_info.is_none());
    let e = bmpwatch::event::JsonlEvent::from_frame(
        7,
        Some(BmpMessageType::TerminationMessage),
        5,
        None,
        None,
        6,
        "ok",
        0,
        Some(&tlv),
        None,
        Some(&down),
        &[],
    );
    assert_eq!(e.tlv_info.unwrap().termination_reason, Some(2));
    assert!(e.peer_down_info.is_none());
}

#[test]
fn test_inspect_summary_of_session() {
    let data = concat(&[
        make_peer_up_frame(65000, [10, 0, 0, 1], 100, 0),
        make_route_monitoring_frame(65000, [10, 0, 0, 1], 200, 0),
        make_peer_down_frame(65000, [10, 0, 0, 1], 300, 0, 3),
    ]);
    let d = doctor_raw(data);
    let s = bmpwatch::report::inspect_summary(d.state(), false, 10);
    assert_eq!(s.total_messages, 3);
    assert_eq!(
        s.by_type,
        vec![
            ("RouteMonitoring".to_string(), 1),
            ("PeerDownNotification".to_string(), 1),
            ("PeerUpNotification".to_string(), 1),
        ]
    );
    assert_eq!(s.peers_observed, 1);
    assert_eq!(s.active_peers, 0);
    let peers = s.peers.unwrap();
    assert_eq!(peers.len(), 1);
    assert_eq!(peers[0].peer_asn, Some(65000));
    assert_eq!(peers[0].rm_count, 1);
    assert!(s.container.is_none());
    assert!(bmpwatch::report::inspect_summary(d.state(), false, 0).peers.is_none());
}

#[test]
fn test_inspect_lines_of_session() {
    let data = concat(&[
        make_peer_up_frame(65000, [10, 0, 0, 1], 100, 0),
        make_route_monitoring_frame(65000, [10, 0, 0, 1], 200, 0),
        make_peer_down_frame(65000, [10, 0, 0, 1], 300, 0, 3),
    ]);
    let d = doctor_raw(data);
    let lines = bmpwatch::inspect::inspect_lines(d.state(), false, 10, "123 B");
    assert_eq!(lines[0], "=== BMPDoctor Inspect ===");
    assert!(lines[1].starts_with("Health: "));
    assert!(lines[1].ends_with(", 1 peer"));
    assert!(lines.contains(&"Size:        123 B".to_string()));
    assert!(lines.contains(&"Messages:    3".to_string()));
    let by_type = lines.iter().position(|l| l == "Message counts by type:").unwrap();
    assert_eq!(lines[by_type + 1], format!("  {:<30} 1", "RouteMonitoring"));
    assert!(lines.contains(&"Peers observed: 1".to_string()));
    assert!(lines.contains(&"Top peers by route-monitoring messages:".to_string()));
    assert!(lines.contains(&"Peer Down info:".to_string()));
    assert!(lines.contains(&"Findings summary:".to_string()));
    let no_peers = bmpwatch::inspect::inspect_lines(d.state(), false, 0, "123 B");
    assert!(!no_peers.contains(&"Top peers by route-monitoring messages:".to_string()));
    assert!(no_peers.contains(&"Peers observed: 1".to_string()));
}
