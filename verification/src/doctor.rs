//! The diagnostic engine: reads every frame of a capture, counts message
//! types, tracks each peer's session (Peer Up / Route Monitoring / Peer
//! Down) and timestamps, runs the lint rules and keeps per-message records.

use std::collections::BTreeMap;
use vstd::prelude::*;

use crate::bgp::{bmp_decode_of, decode_bmp};
use crate::error::{DoctorError, DoctorErrorV};
use crate::event::{event_of, JsonlEvent, JsonlEventV};
use crate::input::{format_label, format_label_of, InputFormat};
use crate::lint::{
    down_without_up_finding, duplicate_up_finding, finding_duplicate_peer_up, finding_invalid_version,
    finding_parse_error, finding_peer_down_without_peer_up, finding_route_monitoring_before_peer_up,
    finding_timestamp_regression, finding_unknown_type, invalid_version_finding, parse_error_finding,
    regression_finding, rm_before_up_finding, unknown_type_finding, RULE_TRUNCATED_FRAME,
};
use crate::obmp_reader::{open_error, obmp_step, stats_after, stats_empty, ContainerStatsV, ObmpCursor, ObmpReader};
use crate::raw_bmp::{
    peer_ip_text, raw_step, BmpMessageType, PerPeerHeader, PerPeerHeaderV, RawBmpFrame, RawBmpFrameV,
    RawBmpIterator, BMP_EXPECTED_VERSION, BMP_PER_PEER_HEADER_SIZE,
};
use crate::state::{
    clone_opt_key, findings_view, fresh_peer, fresh_state, opt_key, peers_view, DoctorState, DoctorStateV,
    Finding, FindingV, PeerKey, PeerKeyV, PeerState, Severity,
};
use crate::text::hex_str;

verus! {

// ───────────────────────── outside calls ─────────────────────────

/// The outcome of decoding a complete frame, reduced to what the doctor
/// counts: for a Route Monitoring UPDATE, its numbers of announced and
/// withdrawn prefixes; `None` for any other message; or the error's text.
pub open spec fn bmp_parse_outcome(data: Seq<u8>) -> Result<Option<(usize, usize)>, Seq<char>> {
    match bmp_decode_of(data) {
        Ok(Some(u)) => Ok(Some((u.announced.len() as usize, u.withdrawn.len() as usize))),
        Ok(None) => Ok(None),
        Err(e) => Err(e),
    }
}

/// Renders bytes with `hex::encode`: two lower-case hexadecimal digits per
/// byte, in order.
#[verifier::external_body]
fn hex_encode(bytes: &[u8; 8]) -> (r: String)
    ensures
        r@ == hex_str(bytes@),
{
    hex::encode(bytes)
}

// ───────────────────────── counters ─────────────────────────

/// `a + b`, held at `u64::MAX` instead of overflowing.
pub open spec fn sat_add(a: u64, b: int) -> u64 {
    if a + b >= u64::MAX {
        u64::MAX
    } else {
        (a + b) as u64
    }
}

pub(crate) fn add_sat(a: u64, b: u64) -> (r: u64)
    ensures
        r == sat_add(a, b as int),
{
    if b >= u64::MAX - a {
        u64::MAX
    } else {
        a + b
    }
}

/// The type counters with one more message of raw type `t`.
pub open spec fn bump_type(m: Map<u8, u64>, t: u8) -> Map<u8, u64> {
    m.insert(t, sat_add(if m.contains_key(t) { m[t] } else { 0 }, 1))
}

fn count_type(m: &mut BTreeMap<u8, u64>, t: u8)
    ensures
        final(m)@ == bump_type(old(m)@, t),
{
    let cur: u64 = match m.get(&t) {
        Some(v) => *v,
        None => 0,
    };
    m.insert(t, add_sat(cur, 1));
}

// ───────────────────────── peers ─────────────────────────

/// The identity of the peer a Per-Peer Header describes.
pub open spec fn peer_key_of(h: PerPeerHeaderV) -> PeerKeyV {
    PeerKeyV {
        peer_asn: Some(h.peer_asn),
        peer_ip: Some(peer_ip_text(h)),
        peer_distinguisher: if h.peer_type != 0 {
            Some(hex_str(h.peer_distinguisher))
        } else {
            None
        },
    }
}

pub(crate) fn peer_key_from_pph(pph: &PerPeerHeader) -> (r: PeerKey)
    ensures
        r@ == peer_key_of(pph@),
{
    let ip = pph.peer_ip();
    PeerKey {
        peer_asn: Some(pph.peer_asn),
        peer_ip: Some(ip),
        peer_distinguisher: if pph.peer_type != 0 {
            Some(hex_encode(&pph.peer_distinguisher))
        } else {
            None
        },
    }
}

/// `i` is the first entry of the peer table for key `k`.
pub open spec fn is_first_slot(ps: Seq<(PeerKeyV, PeerState)>, k: PeerKeyV, i: int) -> bool {
    &&& 0 <= i < ps.len()
    &&& ps[i].0 == k
    &&& forall|j: int| 0 <= j < i ==> ps[j].0 != k
}

/// The peer table has an entry for `k`.
pub open spec fn has_peer(ps: Seq<(PeerKeyV, PeerState)>, k: PeerKeyV) -> bool {
    exists|i: int| 0 <= i < ps.len() && ps[i].0 == k
}

/// The first entry for `k`.
pub open spec fn slot_of(ps: Seq<(PeerKeyV, PeerState)>, k: PeerKeyV) -> int {
    choose|i: int| is_first_slot(ps, k, i)
}

/// The session state recorded for `k`, or that of a peer not seen before.
pub open spec fn state_of(ps: Seq<(PeerKeyV, PeerState)>, k: PeerKeyV) -> PeerState {
    if has_peer(ps, k) {
        ps[slot_of(ps, k)].1
    } else {
        fresh_peer()
    }
}

/// The table with `p` recorded for `k`: in place of its entry, or appended.
pub open spec fn with_peer(ps: Seq<(PeerKeyV, PeerState)>, k: PeerKeyV, p: PeerState) -> Seq<(PeerKeyV, PeerState)> {
    if has_peer(ps, k) {
        ps.update(slot_of(ps, k), (k, p))
    } else {
        ps.push((k, p))
    }
}

proof fn lemma_first_slot(ps: Seq<(PeerKeyV, PeerState)>, k: PeerKeyV, i: int)
    requires
        is_first_slot(ps, k, i),
    ensures
        has_peer(ps, k),
        slot_of(ps, k) == i,
{
    let c = slot_of(ps, k);
    assert(is_first_slot(ps, k, c));
    if c < i {
        assert(ps[c].0 != k);
    } else if i < c {
        assert(ps[i].0 != k);
    }
}

fn find_peer(peers: &Vec<(PeerKey, PeerState)>, k: &PeerKey) -> (r: Option<usize>)
    ensures
        match r {
            Some(i) => is_first_slot(peers_view(peers@), k@, i as int),
            None => !has_peer(peers_view(peers@), k@),
        },
{
    let ghost ps = peers_view(peers@);
    let mut i: usize = 0;
    while i < peers.len()
        invariant
            i <= peers@.len(),
            ps == peers_view(peers@),
            forall|j: int| 0 <= j < i ==> ps[j].0 != k@,
        decreases peers@.len() - i,
    {
        if peers[i].0.same_peer(k) {
            return Some(i);
        }
        i = i + 1;
    }
    None
}

/// Whether timestamp `a` is earlier than `b` (seconds, then microseconds).
pub open spec fn ts_before(a: (u32, u32), b: (u32, u32)) -> bool {
    a.0 < b.0 || (a.0 == b.0 && a.1 < b.1)
}

fn is_timestamp_before(a: (u32, u32), b: (u32, u32)) -> (r: bool)
    ensures
        r == ts_before(a, b),
{
    a.0 < b.0 || (a.0 == b.0 && a.1 < b.1)
}

/// The reason code of a Peer Down: the byte after the Per-Peer Header, 0
/// when the payload ends before it.
pub open spec fn down_reason(payload: Seq<u8>) -> u8 {
    if payload.len() > 42 {
        payload[42]
    } else {
        0
    }
}

/// The timestamp of a header.
pub open spec fn header_ts(h: PerPeerHeaderV) -> (u32, u32) {
    (h.timestamp_seconds, h.timestamp_microseconds)
}

/// The peer's state after its timestamp is checked and recorded, and the
/// regression finding if the timestamp went backwards.
pub open spec fn after_timestamp(p: PeerState, k: PeerKeyV, h: PerPeerHeaderV, off: u64) -> (PeerState, Seq<FindingV>) {
    let curr = header_ts(h);
    let (count, fs) = match p.last_timestamp {
        Some(last) => if ts_before(curr, last) {
            (
                sat_add(p.timestamp_regression_count, 1),
                seq![regression_finding(off, k, last.0, last.1, curr.0, curr.1)],
            )
        } else {
            (p.timestamp_regression_count, Seq::empty())
        },
        None => (p.timestamp_regression_count, Seq::empty()),
    };
    (
        PeerState {
            timestamp_regression_count: count,
            last_timestamp: Some(curr),
            first_timestamp: if p.first_timestamp is None {
                Some(curr)
            } else {
                p.first_timestamp
            },
            ..p
        },
        fs,
    )
}

/// The peer's state after a message of type `mt`, and the lifecycle finding
/// it raises (route monitoring before Peer Up, duplicate Peer Up, Peer Down
/// without Peer Up).
pub open spec fn after_lifecycle(p: PeerState, k: PeerKeyV, mt: BmpMessageType, off: u64, payload: Seq<u8>) -> (PeerState, Seq<FindingV>) {
    match mt {
        BmpMessageType::RouteMonitoring | BmpMessageType::RouteMirroringMessage => {
            if !p.peer_up_seen {
                (
                    PeerState {
                        route_monitoring_count: sat_add(p.route_monitoring_count, 1),
                        update_before_peer_up_count: sat_add(p.update_before_peer_up_count, 1),
                        ..p
                    },
                    seq![rm_before_up_finding(off, k)],
                )
            } else {
                (PeerState { route_monitoring_count: sat_add(p.route_monitoring_count, 1), ..p }, Seq::empty())
            }
        },
        BmpMessageType::PeerUpNotification => {
            if p.active {
                (PeerState { peer_up_count: sat_add(p.peer_up_count, 1), ..p }, seq![duplicate_up_finding(off, k)])
            } else {
                (
                    PeerState { peer_up_count: sat_add(p.peer_up_count, 1), peer_up_seen: true, active: true, ..p },
                    Seq::empty(),
                )
            }
        },
        BmpMessageType::PeerDownNotification => {
            let reason = down_reason(payload);
            if !p.active {
                (
                    PeerState {
                        peer_down_count: sat_add(p.peer_down_count, 1),
                        last_peer_down_reason: Some(reason),
                        ..p
                    },
                    seq![down_without_up_finding(off, k, reason)],
                )
            } else {
                (
                    PeerState {
                        peer_down_count: sat_add(p.peer_down_count, 1),
                        last_peer_down_reason: Some(reason),
                        active: false,
                        ..p
                    },
                    Seq::empty(),
                )
            }
        },
        _ => (PeerState { other_message_count: sat_add(p.other_message_count, 1), ..p }, Seq::empty()),
    }
}

/// A peer's state after one of its messages, and the findings raised.
pub open spec fn peer_after(p: PeerState, k: PeerKeyV, h: PerPeerHeaderV, mt: BmpMessageType, off: u64, payload: Seq<u8>) -> (PeerState, Seq<FindingV>) {
    let (p1, f1) = after_timestamp(p, k, h, off);
    let (p2, f2) = after_lifecycle(p1, k, mt, off, payload);
    (p2, f1 + f2)
}

fn advance_timestamp(p: PeerState, k: &PeerKey, h: &PerPeerHeader, off: u64) -> (r: (PeerState, Vec<Finding>))
    ensures
        r.0 == after_timestamp(p, k@, h@, off).0,
        findings_view(r.1@) == after_timestamp(p, k@, h@, off).1,
{
    let curr = (h.timestamp_seconds, h.timestamp_microseconds);
    let mut fs: Vec<Finding> = Vec::new();
    let mut q = p;
    match p.last_timestamp {
        Some(last) => {
            if is_timestamp_before(curr, last) {
                q.timestamp_regression_count = add_sat(p.timestamp_regression_count, 1);
                fs.push(finding_timestamp_regression(off, k.duplicate(), last.0, last.1, curr.0, curr.1));
            }
        },
        None => {},
    }
    q.last_timestamp = Some(curr);
    if p.first_timestamp.is_none() {
        q.first_timestamp = Some(curr);
    }
    proof {
        assert(findings_view(fs@) =~= after_timestamp(p, k@, h@, off).1);
    }
    (q, fs)
}

fn advance_lifecycle(p: PeerState, k: &PeerKey, mt: BmpMessageType, off: u64, payload: &[u8]) -> (r: (PeerState, Vec<Finding>))
    ensures
        r.0 == after_lifecycle(p, k@, mt, off, payload@).0,
        findings_view(r.1@) == after_lifecycle(p, k@, mt, off, payload@).1,
{
    let mut fs: Vec<Finding> = Vec::new();
    let mut q = p;
    match mt {
        BmpMessageType::RouteMonitoring | BmpMessageType::RouteMirroringMessage => {
            q.route_monitoring_count = add_sat(p.route_monitoring_count, 1);
            if !p.peer_up_seen {
                q.update_before_peer_up_count = add_sat(p.update_before_peer_up_count, 1);
                fs.push(finding_route_monitoring_before_peer_up(off, k.duplicate()));
            }
        },
        BmpMessageType::PeerUpNotification => {
            q.peer_up_count = add_sat(p.peer_up_count, 1);
            if p.active {
                fs.push(finding_duplicate_peer_up(off, k.duplicate()));
            } else {
                q.peer_up_seen = true;
                q.active = true;
            }
        },
        BmpMessageType::PeerDownNotification => {
            q.peer_down_count = add_sat(p.peer_down_count, 1);
            let reason: u8 = if payload.len() > BMP_PER_PEER_HEADER_SIZE {
                payload[BMP_PER_PEER_HEADER_SIZE]
            } else {
                0
            };
            q.last_peer_down_reason = Some(reason);
            if !p.active {
                fs.push(finding_peer_down_without_peer_up(off, k.duplicate(), reason));
            } else {
                q.active = false;
            }
        },
        _ => {
            q.other_message_count = add_sat(p.other_message_count, 1);
        },
    }
    proof {
        assert(findings_view(fs@) =~= after_lifecycle(p, k@, mt, off, payload@).1);
    }
    (q, fs)
}

/// Records one message of peer `k` in the table and gives the findings it raises.
fn update_peer(
    peers: &mut Vec<(PeerKey, PeerState)>,
    k: &PeerKey,
    h: &PerPeerHeader,
    mt: BmpMessageType,
    off: u64,
    payload: &[u8],
) -> (fs: Vec<Finding>)
    ensures
        peers_view(final(peers)@) == with_peer(
            peers_view(old(peers)@),
            k@,
            peer_after(state_of(peers_view(old(peers)@), k@), k@, h@, mt, off, payload@).0,
        ),
        findings_view(fs@) == peer_after(state_of(peers_view(old(peers)@), k@), k@, h@, mt, off, payload@).1,
{
    let ghost ps = peers_view(peers@);
    let slot = find_peer(peers, k);
    let p: PeerState = match slot {
        Some(i) => {
            proof {
                lemma_first_slot(ps, k@, i as int);
            }
            peers[i].1
        },
        None => PeerState::default(),
    };
    let (p1, mut f1) = advance_timestamp(p, k, h, off);
    let (p2, mut f2) = advance_lifecycle(p1, k, mt, off, payload);
    let ghost g1 = f1@;
    let ghost g2 = f2@;
    f1.append(&mut f2);
    proof {
        assert(findings_view(f1@) =~= findings_view(g1) + findings_view(g2));
    }
    match slot {
        Some(i) => {
            peers.set(i, (k.duplicate(), p2));
            proof {
                assert(peers_view(peers@) =~= ps.update(i as int, (k@, p2)));
            }
        },
        None => {
            peers.push((k.duplicate(), p2));
            proof {
                assert(peers_view(peers@) =~= ps.push((k@, p2)));
            }
        },
    }
    f1
}

// ───────────────────────── one frame ─────────────────────────

/// The findings of the common header: a version other than 3, a type
/// outside 0–6.
pub open spec fn header_findings(fr: RawBmpFrameV) -> Seq<FindingV> {
    (if fr.version != 3 {
        seq![invalid_version_finding(fr.offset, fr.version)]
    } else {
        Seq::empty()
    }) + (if fr.msg_type is None {
        seq![unknown_type_finding(fr.offset, fr.msg_type_raw)]
    } else {
        Seq::empty()
    })
}

/// The peer a frame belongs to, when it has a Per-Peer Header.
pub open spec fn frame_key(fr: RawBmpFrameV) -> Option<PeerKeyV> {
    match fr.per_peer_header {
        Some(h) => Some(peer_key_of(h)),
        None => None,
    }
}

/// Messages that carry routes: Route Monitoring and Route Mirroring.
pub open spec fn route_bearing(mt: Option<BmpMessageType>) -> bool {
    mt == Some(BmpMessageType::RouteMonitoring) || mt == Some(BmpMessageType::RouteMirroringMessage)
}

/// The BGP content is decoded only for a version-3 route-bearing frame.
pub open spec fn parse_attempted(fr: RawBmpFrameV) -> bool {
    fr.version == 3 && route_bearing(fr.msg_type)
}

/// A Peer Down Notification whose payload ends before its mandatory
/// reason byte (the byte after the 42-byte Per-Peer Header).
pub open spec fn down_truncated(fr: RawBmpFrameV) -> bool {
    fr.msg_type == Some(BmpMessageType::PeerDownNotification) && fr.payload.len() <= 42
}

/// The text of the finding for a Peer Down without its reason byte.
pub open spec fn missing_reason_text() -> Seq<char> {
    "Peer Down Notification is missing its reason byte"@
}

/// The finding a truncated Peer Down raises, if the frame is one.
pub open spec fn down_findings(fr: RawBmpFrameV) -> Seq<FindingV> {
    if down_truncated(fr) {
        seq![parse_error_finding(fr.offset, frame_key(fr), missing_reason_text())]
    } else {
        Seq::empty()
    }
}

/// The decoder's error text, when decoding was attempted and failed.
pub open spec fn parse_failure(fr: RawBmpFrameV) -> Option<Seq<char>> {
    if parse_attempted(fr) {
        match bmp_parse_outcome(fr.full_data) {
            Err(e) => Some(e),
            Ok(_) => None,
        }
    } else {
        None
    }
}

/// BGP elements of a decoded message: announced plus withdrawn prefixes of
/// a Route Monitoring UPDATE, none otherwise.
pub open spec fn elems_of(c: Option<(usize, usize)>) -> u64 {
    match c {
        Some((a, w)) => sat_add(a as u64, w as int),
        None => 0,
    }
}

/// BGP elements counted for a frame.
pub open spec fn frame_elems(fr: RawBmpFrameV) -> u64 {
    if parse_attempted(fr) {
        match bmp_parse_outcome(fr.full_data) {
            Ok(c) => elems_of(c),
            Err(_) => 0,
        }
    } else {
        0
    }
}

/// The peer table after a frame, and the peer findings it raises; only a
/// frame of a known type with a Per-Peer Header touches the table.
pub open spec fn peer_effect(ps: Seq<(PeerKeyV, PeerState)>, fr: RawBmpFrameV) -> (Seq<(PeerKeyV, PeerState)>, Seq<FindingV>) {
    match (fr.per_peer_header, fr.msg_type) {
        (Some(h), Some(mt)) => {
            let k = peer_key_of(h);
            let (p, fs) = peer_after(state_of(ps, k), k, h, mt, fr.offset, fr.payload);
            (with_peer(ps, k, p), fs)
        },
        _ => (ps, Seq::empty()),
    }
}

/// All findings of a frame, in order: header, decoding, a missing Peer
/// Down reason, peer.
pub open spec fn frame_findings(ps: Seq<(PeerKeyV, PeerState)>, fr: RawBmpFrameV) -> Seq<FindingV> {
    header_findings(fr) + (match parse_failure(fr) {
        Some(e) => seq![parse_error_finding(fr.offset, frame_key(fr), e)],
        None => Seq::empty(),
    }) + down_findings(fr) + peer_effect(ps, fr).1
}

/// The timestamp of a frame with a Per-Peer Header.
pub open spec fn frame_ts(fr: RawBmpFrameV) -> Option<(u32, u32)> {
    match fr.per_peer_header {
        Some(h) => Some(header_ts(h)),
        None => None,
    }
}

/// The record of a frame for `dump --jsonl`.
pub open spec fn frame_event(ps: Seq<(PeerKeyV, PeerState)>, fr: RawBmpFrameV) -> JsonlEventV {
    event_of(
        fr.offset,
        fr.msg_type,
        fr.msg_type_raw,
        frame_key(fr),
        frame_ts(fr),
        fr.msg_len,
        if parse_failure(fr) is Some {
            "error"@
        } else {
            "ok"@
        },
        frame_elems(fr),
        fr.tlv_info,
        fr.stats_info,
        fr.peer_down_info,
        frame_findings(ps, fr),
    )
}

/// Findings kept under a cap of `cap`: each new finding is kept while fewer
/// than `cap` are held, otherwise dropped, counted and the run marked as
/// truncated.
pub open spec fn push_capped(fs: Seq<FindingV>, dropped: u64, trunc: bool, new: Seq<FindingV>, cap: nat) -> (Seq<FindingV>, u64, bool)
    decreases new.len(),
{
    if new.len() == 0 {
        (fs, dropped, trunc)
    } else {
        let (fs1, d1, t1) = push_capped(fs, dropped, trunc, new.drop_last(), cap);
        if fs1.len() >= cap {
            (fs1, sat_add(d1, 1), true)
        } else {
            (fs1.push(new.last()), d1, t1)
        }
    }
}

/// Abstract value of a [`Doctor`].
pub struct DoctorV {
    pub state: DoctorStateV,
    pub events: Seq<JsonlEventV>,
    pub max_findings: nat,
    pub max_events: nat,
    pub truncated: bool,
    pub format: InputFormat,
}

/// The run after one well-framed message.
#[verifier::opaque]
pub open spec fn after_frame(d: DoctorV, fr: RawBmpFrameV, collect: bool) -> DoctorV {
    let st = d.state;
    let fs = frame_findings(st.peers, fr);
    let (kept, dropped, trunc) = push_capped(st.findings, st.findings_dropped, d.truncated, fs, d.max_findings);
    DoctorV {
        state: DoctorStateV {
            total_messages: sat_add(st.total_messages, 1),
            by_type: bump_type(st.by_type, fr.msg_type_raw),
            peers: peer_effect(st.peers, fr).0,
            findings: kept,
            bgp_elem_count: sat_add(st.bgp_elem_count, frame_elems(fr) as int),
            findings_dropped: dropped,
            initiation_info: if fr.tlv_info is Some && fr.msg_type == Some(BmpMessageType::InitiationMessage)
                && st.initiation_info is None {
                fr.tlv_info
            } else {
                st.initiation_info
            },
            termination_info: if fr.tlv_info is Some && fr.msg_type == Some(BmpMessageType::TerminationMessage)
                && st.termination_info is None {
                fr.tlv_info
            } else {
                st.termination_info
            },
            stats_info: match fr.stats_info {
                Some(e) => if st.stats_info is None && e.len() > 0 {
                    fr.stats_info
                } else {
                    st.stats_info
                },
                None => st.stats_info,
            },
            ..st
        },
        events: if collect && d.events.len() < d.max_events {
            d.events.push(frame_event(st.peers, fr))
        } else {
            d.events
        },
        truncated: trunc,
        ..d
    }
}

/// The finding of a frame or record that could not be read.
pub open spec fn malformed_finding(m: Seq<char>) -> FindingV {
    FindingV { severity: Severity::Error, rule: "truncated_frame"@, offset: None, peer: None, message: m }
}

/// The run after input that could not be read as a frame.
#[verifier::opaque]
pub open spec fn after_malformed(d: DoctorV, m: Seq<char>, collect: bool) -> DoctorV {
    let st = d.state;
    let f = malformed_finding(m);
    let (kept, dropped, trunc) = push_capped(st.findings, st.findings_dropped, d.truncated, seq![f], d.max_findings);
    DoctorV {
        state: DoctorStateV {
            malformed_messages: sat_add(st.malformed_messages, 1),
            findings: kept,
            findings_dropped: dropped,
            ..st
        },
        events: if collect && d.events.len() < d.max_events {
            d.events.push(
                event_of(st.total_messages, None, 0, None, None, 0, "malformed"@, 0, None, None, None, seq![f]),
            )
        } else {
            d.events
        },
        truncated: trunc,
        ..d
    }
}

// ───────────────────────── whole captures ─────────────────────────

/// The run after one outcome of a frame source: a frame is linted, input
/// that is not a frame is counted as malformed, any other error stops the run.
pub open spec fn outcome_effect(d: DoctorV, o: Result<RawBmpFrameV, DoctorErrorV>, collect: bool) -> Result<DoctorV, DoctorErrorV> {
    match o {
        Ok(fr) => Ok(after_frame(d, fr, collect)),
        Err(DoctorErrorV::Frame(m)) => Ok(after_malformed(d, m, collect)),
        Err(e) => Err(e),
    }
}

/// The run over concatenated raw frames from byte `pos` (next frame offset
/// `off`): the final state and the error that stopped it, if any.
pub open spec fn run_raw(data: Seq<u8>, pos: nat, off: nat, d: DoctorV, collect: bool) -> (DoctorV, Option<DoctorErrorV>)
    decreases data.len() - pos, (if off == 0 { 1int } else { 0int }),
{
    if pos > data.len() {
        (d, None)
    } else {
        let (out, p2, o2) = raw_step(data, pos, off);
        match out {
            None => (d, None),
            Some(o) => match outcome_effect(d, o, collect) {
                Ok(d2) => run_raw(data, p2, o2, d2, collect),
                Err(e) => (d, Some(e)),
            },
        }
    }
}

/// The run over the records of a container from cursor `c`, with counters
/// `stats`: the final state, the final counters and the error that
/// stopped it, if any.
pub open spec fn run_obmp(data: Seq<u8>, c: ObmpCursor, stats: ContainerStatsV, d: DoctorV, collect: bool) -> (DoctorV, ContainerStatsV, Option<DoctorErrorV>)
    decreases data.len() - c.pos, (if c.eof { 0int } else { 1int }),
{
    if c.pos > data.len() {
        (d, stats, None)
    } else {
        let (out, rec, c2) = obmp_step(data, c);
        let stats2 = match rec {
            Some(x) => stats_after(stats, x),
            None => stats,
        };
        match out {
            None => (d, stats2, None),
            Some(o) => match outcome_effect(d, o, collect) {
                Ok(d2) => run_obmp(data, c2, stats2, d2, collect),
                Err(e) => (d, stats2, Some(e)),
            },
        }
    }
}

/// The run over a whole capture in the run's format: the final state and
/// the error returned, if any. For a container, the counters of its
/// records are kept when every record was read.
pub open spec fn processed(d: DoctorV, data: Seq<u8>, collect: bool) -> (DoctorV, Option<DoctorErrorV>) {
    match d.format {
        InputFormat::Bmpd => match open_error(data) {
            Some(e) => (d, Some(e)),
            None => {
                let (d2, st, err) = run_obmp(data, ObmpCursor { pos: 13, index: 0, eof: false }, stats_empty(), d, collect);
                match err {
                    None => (DoctorV { state: DoctorStateV { container_stats: st, ..d2.state }, ..d2 }, None),
                    Some(e) => (d2, Some(e)),
                }
            },
        },
        _ => run_raw(data, 0, 0, d, collect),
    }
}

/// Decodes a frame's BGP content and counts its elements; the error's
/// text on failure.
fn try_bgpkit_parse(frame_data: &[u8]) -> (r: Result<u64, String>)
    ensures
        match (r, bmp_parse_outcome(frame_data@)) {
            (Ok(n), Ok(c)) => n == elems_of(c),
            (Err(e), Err(m)) => e@ == m,
            _ => false,
        },
{
    match decode_bmp(frame_data) {
        Ok(Some(u)) => Ok(count_bgp_elems(Some((u.announced.len(), u.withdrawn.len())))),
        Ok(None) => Ok(count_bgp_elems(None)),
        Err(e) => Err(e),
    }
}

/// Announced plus withdrawn prefixes of an UPDATE; 0 for other messages.
fn count_bgp_elems(c: Option<(usize, usize)>) -> (r: u64)
    ensures
        r == elems_of(c),
{
    match c {
        Some((a, w)) => add_sat(a as u64, w as u64),
        None => 0,
    }
}

/// Lints one frame against the peer table: gives its findings, its BGP
/// element count, whether decoding succeeded and its peer.
fn missing_reason() -> (r: String)
    ensures
        r@ == missing_reason_text(),
{
    String::from_str("Peer Down Notification is missing its reason byte")
}

fn analyze(peers: &mut Vec<(PeerKey, PeerState)>, frame: &RawBmpFrame) -> (r: (Vec<Finding>, u64, bool, Option<PeerKey>))
    ensures
        findings_view(r.0@) == frame_findings(peers_view(old(peers)@), frame@),
        r.1 == frame_elems(frame@),
        r.2 == (parse_failure(frame@) is None),
        opt_key(r.3) == frame_key(frame@),
        peers_view(final(peers)@) == peer_effect(peers_view(old(peers)@), frame@).0,
{
    let ghost fr = frame@;
    let ghost ps = peers_view(peers@);
    let mut frame_findings: Vec<Finding> = Vec::new();
    if frame.version != BMP_EXPECTED_VERSION {
        frame_findings.push(finding_invalid_version(frame.offset, frame.version));
    }
    if frame.msg_type.is_none() {
        frame_findings.push(finding_unknown_type(frame.offset, frame.msg_type_raw));
    }
    proof {
        assert(findings_view(frame_findings@) =~= header_findings(fr));
    }
    let ghost g0 = frame_findings@;
    let peer_key: Option<PeerKey> = match &frame.per_peer_header {
        Some(h) => Some(peer_key_from_pph(h)),
        None => None,
    };
    let mut elems: u64 = 0;
    let mut parse_ok = true;
    let routes = match frame.msg_type {
        Some(BmpMessageType::RouteMonitoring) | Some(BmpMessageType::RouteMirroringMessage) => true,
        _ => false,
    };
    if frame_findings.len() == 0 && routes {
        match try_bgpkit_parse(frame.full_data.as_slice()) {
            Ok(count) => {
                elems = count;
            },
            Err(err_msg) => {
                parse_ok = false;
                frame_findings.push(finding_parse_error(frame.offset, clone_opt_key(&peer_key), err_msg));
            },
        }
    }
    proof {
        assert(findings_view(frame_findings@) =~= header_findings(fr) + (match parse_failure(fr) {
            Some(e) => seq![parse_error_finding(fr.offset, frame_key(fr), e)],
            None => Seq::empty(),
        }));
    }
    let down = match frame.msg_type {
        Some(BmpMessageType::PeerDownNotification) => frame.payload.len() <= 42,
        _ => false,
    };
    if down {
        frame_findings.push(finding_parse_error(frame.offset, clone_opt_key(&peer_key), missing_reason()));
    }
    proof {
        assert(findings_view(frame_findings@) =~= header_findings(fr) + (match parse_failure(fr) {
            Some(e) => seq![parse_error_finding(fr.offset, frame_key(fr), e)],
            None => Seq::empty(),
        }) + down_findings(fr));
    }
    let ghost g1 = frame_findings@;
    match (&peer_key, &frame.per_peer_header, frame.msg_type) {
        (Some(pk), Some(h), Some(mt)) => {
            let mut pf = update_peer(peers, pk, h, mt, frame.offset, frame.payload.as_slice());
            let ghost gp = pf@;
            frame_findings.append(&mut pf);
            proof {
                assert(findings_view(frame_findings@) =~= findings_view(g1) + findings_view(gp));
            }
        },
        _ => {
            proof {
                assert(findings_view(frame_findings@) =~= findings_view(g1) + Seq::<FindingV>::empty());
            }
        },
    }
    (frame_findings, elems, parse_ok, peer_key)
}

/// Per-message diagnostics over a capture.
pub struct Doctor {
    pub state: DoctorState,
    /// Records of the messages read, when requested.
    pub events: Vec<JsonlEvent>,
    max_findings: usize,
    max_events: usize,
    findings_truncated: bool,
    format: InputFormat,
}

/// Findings kept by default before the rest are only counted.
pub const DEFAULT_MAX_FINDINGS: usize = 1000;

/// Records kept by default when events are collected; later messages are
/// still counted and linted but give no record.
pub const DEFAULT_MAX_EVENTS: usize = 100000;

/// The abstract values of a list of records.
pub open spec fn events_view(es: Seq<JsonlEvent>) -> Seq<JsonlEventV> {
    es.map_values(|e: JsonlEvent| e@)
}

impl View for Doctor {
    type V = DoctorV;

    closed spec fn view(&self) -> DoctorV {
        DoctorV {
            state: self.state@,
            events: events_view(self.events@),
            max_findings: self.max_findings as nat,
            max_events: self.max_events as nat,
            truncated: self.findings_truncated,
            format: self.format,
        }
    }
}

/// A run over an input not yet read.
pub open spec fn fresh_doctor(file_path: Seq<char>, file_size: u64, max_findings: nat, format: InputFormat) -> DoctorV {
    DoctorV {
        state: fresh_state(file_path, file_size, format_label_of(file_path, format)),
        events: Seq::empty(),
        max_findings,
        max_events: DEFAULT_MAX_EVENTS as nat,
        truncated: false,
        format,
    }
}

impl Doctor {
    /// A run over raw frames with the default cap on findings.
    pub fn new(file_path: &str, file_size: u64) -> (r: Self)
        ensures
            r@ == fresh_doctor(file_path@, file_size, DEFAULT_MAX_FINDINGS as nat, InputFormat::RawBmp),
    {
        Self::with_max_findings(file_path, file_size, DEFAULT_MAX_FINDINGS, InputFormat::RawBmp)
    }

    /// A run over the capture at `file_path` (of `file_size` bytes) in
    /// `format`, keeping at most `max_findings` findings.
    pub fn with_max_findings(file_path: &str, file_size: u64, max_findings: usize, format: InputFormat) -> (r: Self)
        requires
            format != InputFormat::Auto,
        ensures
            r@ == fresh_doctor(file_path@, file_size, max_findings as nat, format),
    {
        let label = format_label(file_path, format);
        let state = DoctorState::new(String::from_str(file_path), file_size, label);
        let r = Doctor {
            state,
            events: Vec::new(),
            max_findings,
            max_events: DEFAULT_MAX_EVENTS,
            findings_truncated: false,
            format,
        };
        proof {
            assert(events_view(r.events@) =~= Seq::empty());
        }
        r
    }

    /// Keeps at most `max_events` records when events are collected.
    pub fn set_max_events(&mut self, max_events: usize)
        ensures
            final(self)@ == (DoctorV { max_events: max_events as nat, ..old(self)@ }),
    {
        self.max_events = max_events;
    }

    /// Whether findings beyond the cap were dropped.
    pub fn was_truncated(&self) -> (r: bool)
        ensures
            r == self@.truncated,
    {
        self.findings_truncated
    }

    /// The counters, peers and findings of the run so far.
    pub fn state(&self) -> (r: &DoctorState)
        ensures
            r@ == self@.state,
    {
        &self.state
    }

    /// The records of the messages read so far.
    pub fn events(&self) -> (r: &Vec<JsonlEvent>)
        ensures
            events_view(r@) == self@.events,
    {
        &self.events
    }

    /// Keeps `fs` under the cap, in order.
    fn push_findings(&mut self, fs: &Vec<Finding>)
        ensures
            ({
                let (k, dr, t) = push_capped(
                    old(self)@.state.findings,
                    old(self)@.state.findings_dropped,
                    old(self)@.truncated,
                    findings_view(fs@),
                    old(self)@.max_findings,
                );
                final(self)@ == DoctorV {
                    state: DoctorStateV { findings: k, findings_dropped: dr, ..old(self)@.state },
                    truncated: t,
                    ..old(self)@
                }
            }),
    {
        let ghost d0 = self@;
        let mut i: usize = 0;
        while i < fs.len()
            invariant
                i <= fs@.len(),
                ({
                    let (k, dr, t) = push_capped(
                        d0.state.findings,
                        d0.state.findings_dropped,
                        d0.truncated,
                        findings_view(fs@.subrange(0, i as int)),
                        d0.max_findings,
                    );
                    self@ == DoctorV {
                        state: DoctorStateV { findings: k, findings_dropped: dr, ..d0.state },
                        truncated: t,
                        ..d0
                    }
                }),
            decreases fs@.len() - i,
        {
            proof {
                assert(findings_view(fs@.subrange(0, i + 1)).drop_last() =~= findings_view(fs@.subrange(0, i as int)));
                assert(findings_view(fs@.subrange(0, i + 1)).last() == fs@[i as int]@);
            }
            let ghost fbefore = findings_view(self.state.findings@);
            if self.state.findings.len() >= self.max_findings {
                self.findings_truncated = true;
                self.state.findings_dropped = add_sat(self.state.findings_dropped, 1);
            } else {
                self.state.findings.push(fs[i].duplicate());
                proof {
                    assert(findings_view(self.state.findings@) =~= fbefore.push(fs@[i as int]@));
                }
            }
            i = i + 1;
        }
        proof {
            assert(fs@.subrange(0, fs@.len() as int) =~= fs@);
        }
    }

    /// Counts and lints one well-framed message.
    fn process_frame(&mut self, frame: RawBmpFrame, collect_events: bool)
        ensures
            final(self)@ == after_frame(old(self)@, frame@, collect_events),
    {
        let ghost d0 = self@;
        let ghost fr = frame@;
        self.state.total_messages = add_sat(self.state.total_messages, 1);
        count_type(&mut self.state.by_type, frame.msg_type_raw);
        let (frame_findings, bgp_elems_count, parse_ok, peer_key) = analyze(&mut self.state.peers, &frame);
        self.state.bgp_elem_count = add_sat(self.state.bgp_elem_count, bgp_elems_count);
        match &frame.tlv_info {
            Some(tlv) => match frame.msg_type {
                Some(BmpMessageType::InitiationMessage) => {
                    if self.state.initiation_info.is_none() {
                        self.state.initiation_info = Some(tlv.duplicate());
                    }
                },
                Some(BmpMessageType::TerminationMessage) => {
                    if self.state.termination_info.is_none() {
                        self.state.termination_info = Some(tlv.duplicate());
                    }
                },
                _ => {},
            },
            None => {},
        }
        match &frame.stats_info {
            Some(stats) => {
                if self.state.stats_info.is_none() && stats.entries.len() > 0 {
                    self.state.stats_info = Some(stats.duplicate());
                }
            },
            None => {},
        }
        self.push_findings(&frame_findings);
        if collect_events && self.events.len() < self.max_events {
            let parse_status = if parse_ok { "ok" } else { "error" };
            let ts = match &frame.per_peer_header {
                Some(h) => Some((h.timestamp_seconds, h.timestamp_microseconds)),
                None => None,
            };
            let pk: Option<&PeerKey> = match &peer_key {
                Some(k) => Some(k),
                None => None,
            };
            let event = JsonlEvent::from_frame(
                frame.offset,
                frame.msg_type,
                frame.msg_type_raw,
                pk,
                ts,
                frame.msg_len,
                parse_status,
                bgp_elems_count,
                frame.tlv_info.as_ref(),
                frame.stats_info.as_ref(),
                frame.peer_down_info.as_ref(),
                frame_findings.as_slice(),
            );
            let ghost eb = self.events@;
            self.events.push(event);
            proof {
                reveal_strlit("ok");
                reveal_strlit("error");
                assert(events_view(self.events@) =~= events_view(eb).push(event@));
            }
        }
        proof {
            reveal(after_frame);
            let a = after_frame(d0, fr, collect_events);
            assert(self@.state.peers == a.state.peers);
            assert(self@.state.findings == a.state.findings);
            assert(self@.state == a.state);
            assert(self@.events == a.events);
        }
    }

    /// Counts input that could not be read as a frame.
    fn process_malformed(&mut self, msg: String, collect_events: bool)
        ensures
            final(self)@ == after_malformed(old(self)@, msg@, collect_events),
    {
        let ghost d0 = self@;
        self.state.malformed_messages = add_sat(self.state.malformed_messages, 1);
        let finding = Finding {
            severity: Severity::Error,
            rule: String::from_str(RULE_TRUNCATED_FRAME),
            offset: None,
            peer: None,
            message: msg,
        };
        let mut fs: Vec<Finding> = Vec::new();
        fs.push(finding);
        proof {
            reveal_strlit("truncated_frame");
            assert(findings_view(fs@) =~= seq![malformed_finding(msg@)]);
        }
        self.push_findings(&fs);
        if collect_events && self.events.len() < self.max_events {
            let event = JsonlEvent::from_frame(
                self.state.total_messages,
                None,
                0,
                None,
                None,
                0,
                "malformed",
                0,
                None,
                None,
                None,
                fs.as_slice(),
            );
            let ghost eb = self.events@;
            self.events.push(event);
            proof {
                assert(events_view(self.events@) =~= events_view(eb).push(event@));
            }
        }
        proof {
            reveal(after_malformed);
            let a = after_malformed(d0, msg@, collect_events);
            assert(self@.state == a.state);
            assert(self@.events == a.events);
        }
    }
    /// Runs the frames of a raw capture through the doctor.
    fn run_raw_frames(&mut self, source: RawBmpIterator, collect_events: bool) -> (r: Result<(), DoctorError>)
        requires
            source.wf(),
        ensures
            ({
                let (d2, err) = run_raw(source.bytes(), source.position(), source.next_offset(), old(self)@, collect_events);
                &&& final(self)@ == d2
                &&& match r {
                    Ok(_) => err is None,
                    Err(e) => err == Some(e@),
                }
            }),
    {
        let ghost d0 = self@;
        let ghost bytes = source.bytes();
        let ghost goal = run_raw(source.bytes(), source.position(), source.next_offset(), d0, collect_events);
        let mut iter = source;
        let mut result: Result<(), DoctorError> = Ok(());
        loop
            invariant_except_break
                result is Ok,
                iter.wf(),
                iter.bytes() == bytes,
                run_raw(bytes, iter.position(), iter.next_offset(), self@, collect_events) == goal,
            ensures
                self@ == goal.0,
                match result {
                    Ok(_) => goal.1 is None,
                    Err(e) => goal.1 == Some(e@),
                },
            decreases bytes.len() - iter.position(), (if iter.next_offset() == 0 { 1int } else { 0int }),
        {
            proof {
                iter.lemma_position();
            }
            let ghost p0 = iter.position();
            let ghost o0 = iter.next_offset();
            let next = iter.next_frame();
            match next {
                None => {
                    proof {
                        assert(run_raw(bytes, p0, o0, self@, collect_events) == (self@, None::<DoctorErrorV>));
                    }
                    break;
                },
                Some(Ok(frame)) => {
                    self.process_frame(frame, collect_events);
                },
                Some(Err(DoctorError::Frame(msg))) => {
                    self.process_malformed(msg, collect_events);
                },
                Some(Err(e)) => {
                    result = Err(e);
                    break;
                },
            }
        }
        result
    }

    /// Runs the records of a container through the doctor.
    fn run_container(&mut self, reader: &mut ObmpReader, collect_events: bool) -> (r: Result<(), DoctorError>)
        requires
            old(reader).wf(),
        ensures
            final(reader).wf(),
            ({
                let (d2, st, err) = run_obmp(
                    old(reader).bytes(),
                    old(reader).cursor(),
                    old(reader).stats_view(),
                    old(self)@,
                    collect_events,
                );
                &&& final(self)@ == d2
                &&& final(reader).stats_view() == st
                &&& match r {
                    Ok(_) => err is None,
                    Err(e) => err == Some(e@),
                }
            }),
    {
        let ghost bytes = reader.bytes();
        let ghost goal = run_obmp(reader.bytes(), reader.cursor(), reader.stats_view(), self@, collect_events);
        let mut result: Result<(), DoctorError> = Ok(());
        loop
            invariant_except_break
                result is Ok,
                reader.wf(),
                reader.bytes() == bytes,
                run_obmp(bytes, reader.cursor(), reader.stats_view(), self@, collect_events) == goal,
            ensures
                reader.wf(),
                self@ == goal.0,
                reader.stats_view() == goal.1,
                match result {
                    Ok(_) => goal.2 is None,
                    Err(e) => goal.2 == Some(e@),
                },
            decreases bytes.len() - reader.cursor().pos, (if reader.cursor().eof { 0int } else { 1int }),
        {
            proof {
                reader.lemma_position();
            }
            let ghost c0 = reader.cursor();
            let ghost s0 = reader.stats_view();
            let next = reader.next_record();
            match next {
                None => {
                    proof {
                        let (d2, st, err) = run_obmp(bytes, c0, s0, self@, collect_events);
                        assert(d2 == self@ && err is None && st == reader.stats_view());
                    }
                    break;
                },
                Some(Ok(frame)) => {
                    self.process_frame(frame, collect_events);
                },
                Some(Err(DoctorError::Frame(msg))) => {
                    self.process_malformed(msg, collect_events);
                },
                Some(Err(e)) => {
                    result = Err(e);
                    break;
                },
            }
        }
        result
    }

    /// Reads every frame of `data` (the bytes of the capture), counting,
    /// tracking peers and linting; with `collect_events`, keeps a record of
    /// each message. Input that is not a frame is counted as malformed and
    /// reading goes on; a container whose magic is wrong is an error.
    pub fn process(&mut self, data: Vec<u8>, collect_events: bool) -> (r: Result<(), DoctorError>)
        requires
            old(self)@.format != InputFormat::Auto,
        ensures
            ({
                let (d2, err) = processed(old(self)@, data@, collect_events);
                &&& final(self)@ == d2
                &&& match r {
                    Ok(_) => err is None,
                    Err(e) => err == Some(e@),
                }
            }),
    {
        let ghost d0 = self@;
        let ghost bytes = data@;
        match self.format {
            InputFormat::Bmpd => {
                let mut reader = match ObmpReader::from_bytes(data) {
                    Ok(rd) => rd,
                    Err(e) => {
                        return Err(e);
                    },
                };
                let r = self.run_container(&mut reader, collect_events);
                match r {
                    Ok(()) => {
                        let stats = reader.stats().duplicate();
                        self.state.container_stats = stats;
                        proof {
                            let (d2, st, err) = run_obmp(
                                bytes,
                                ObmpCursor { pos: 13, index: 0, eof: false },
                                stats_empty(),
                                d0,
                                collect_events,
                            );
                            assert(self@.state == DoctorStateV { container_stats: st, ..d2.state });
                        }
                        Ok(())
                    },
                    Err(e) => Err(e),
                }
            },
            _ => {
                let iter = RawBmpIterator::from_bytes(data);
                self.run_raw_frames(iter, collect_events)
            },
        }
    }
}

} // verus!
verus! {

// ───────────────────────── laws ─────────────────────────

proof fn lemma_push_capped_within(fs: Seq<FindingV>, dropped: u64, trunc: bool, new: Seq<FindingV>, cap: nat)
    requires
        fs.len() <= cap,
    ensures
        push_capped(fs, dropped, trunc, new, cap).0.len() <= cap,
        push_capped(fs, dropped, trunc, new, cap).0.len() >= fs.len(),
        push_capped(fs, dropped, trunc, new, cap).0.subrange(0, fs.len() as int) == fs,
        trunc ==> push_capped(fs, dropped, trunc, new, cap).2,
    decreases new.len(),
{
    if new.len() > 0 {
        lemma_push_capped_within(fs, dropped, trunc, new.drop_last(), cap);
        let (fs1, d1, t1) = push_capped(fs, dropped, trunc, new.drop_last(), cap);
        if fs1.len() < cap {
            assert(fs1.push(new.last()).subrange(0, fs.len() as int) =~= fs1.subrange(0, fs.len() as int));
        }
    }
}

/// Capping keeps exactly the first `cap` findings of all that were raised
/// (those held, then the new ones, in order), counts every other one as
/// dropped (the count held at `u64::MAX`), and marks the run as truncated
/// exactly when one was dropped (or it already was).
pub proof fn law_findings_first_cap(fs: Seq<FindingV>, dropped: u64, trunc: bool, new: Seq<FindingV>, cap: nat)
    requires
        fs.len() <= cap,
    ensures
        ({
            let all = fs + new;
            let kept_len = if all.len() <= cap {
                all.len()
            } else {
                cap
            };
            let (k, d, t) = push_capped(fs, dropped, trunc, new, cap);
            &&& k == all.subrange(0, kept_len as int)
            &&& d == sat_add(dropped, all.len() - kept_len)
            &&& t == (trunc || all.len() > cap)
        }),
    decreases new.len(),
{
    if new.len() == 0 {
        assert(fs + new =~= fs);
        assert(fs.subrange(0, fs.len() as int) =~= fs);
    } else {
        law_findings_first_cap(fs, dropped, trunc, new.drop_last(), cap);
        let all0 = fs + new.drop_last();
        let all = fs + new;
        assert(all.drop_last() =~= all0);
        let (fs1, d1, t1) = push_capped(fs, dropped, trunc, new.drop_last(), cap);
        if fs1.len() < cap {
            assert(fs1.push(new.last()) =~= all.subrange(0, all.len() as int));
            assert(all.subrange(0, all.len() as int) =~= all);
        } else {
            assert(all.subrange(0, cap as int) =~= all0.subrange(0, cap as int));
        }
    }
}

/// What one outcome keeps: the cap, the format, the findings already held
/// (in place, in order) and a raised truncation flag.
pub open spec fn keeps(d: DoctorV, d2: DoctorV) -> bool {
    &&& d2.max_findings == d.max_findings
    &&& d2.max_events == d.max_events
    &&& d2.events.len() >= d.events.len()
    &&& d2.events.subrange(0, d.events.len() as int) == d.events
    &&& d2.events.len() <= d2.max_events
    &&& d2.format == d.format
    &&& d2.state.findings.len() >= d.state.findings.len()
    &&& d2.state.findings.subrange(0, d.state.findings.len() as int) == d.state.findings
    &&& (d.truncated ==> d2.truncated)
    &&& d2.state.findings.len() <= d2.max_findings
}

proof fn lemma_step_keeps(d: DoctorV, o: Result<RawBmpFrameV, DoctorErrorV>, collect: bool)
    requires
        d.state.findings.len() <= d.max_findings,
        d.events.len() <= d.max_events,
    ensures
        outcome_effect(d, o, collect) matches Ok(d2) ==> keeps(d, d2),
{
    reveal(after_frame);
    reveal(after_malformed);
    match o {
        Ok(fr) => {
            let fs = frame_findings(d.state.peers, fr);
            lemma_push_capped_within(d.state.findings, d.state.findings_dropped, d.truncated, fs, d.max_findings);
            let d2 = after_frame(d, fr, collect);
            assert(d2.events.subrange(0, d.events.len() as int) =~= d.events);
        },
        Err(DoctorErrorV::Frame(m)) => {
            lemma_push_capped_within(
                d.state.findings,
                d.state.findings_dropped,
                d.truncated,
                seq![malformed_finding(m)],
                d.max_findings,
            );
            let d2 = after_malformed(d, m, collect);
            assert(d2.events.subrange(0, d.events.len() as int) =~= d.events);
        },
        Err(_) => {},
    }
}

proof fn lemma_keeps_trans(a: DoctorV, b: DoctorV, c: DoctorV)
    requires
        keeps(a, b),
        keeps(b, c),
    ensures
        keeps(a, c),
{
    assert(c.state.findings.subrange(0, a.state.findings.len() as int) =~= c.state.findings.subrange(
        0,
        b.state.findings.len() as int,
    ).subrange(0, a.state.findings.len() as int));
    assert(c.events.subrange(0, a.events.len() as int) =~= c.events.subrange(0, b.events.len() as int).subrange(
        0,
        a.events.len() as int,
    ));
}

proof fn lemma_keeps_refl(a: DoctorV)
    requires
        a.state.findings.len() <= a.max_findings,
        a.events.len() <= a.max_events,
    ensures
        keeps(a, a),
{
    assert(a.state.findings.subrange(0, a.state.findings.len() as int) =~= a.state.findings);
    assert(a.events.subrange(0, a.events.len() as int) =~= a.events);
}

proof fn lemma_run_raw_keeps(data: Seq<u8>, pos: nat, off: nat, d: DoctorV, collect: bool)
    requires
        d.state.findings.len() <= d.max_findings,
        d.events.len() <= d.max_events,
    ensures
        keeps(d, run_raw(data, pos, off, d, collect).0),
    decreases data.len() - pos, (if off == 0 { 1int } else { 0int }),
{
    lemma_keeps_refl(d);
    if pos <= data.len() {
        let (out, p2, o2) = raw_step(data, pos, off);
        if let Some(o) = out {
            lemma_step_keeps(d, o, collect);
            if let Ok(d2) = outcome_effect(d, o, collect) {
                lemma_run_raw_keeps(data, p2, o2, d2, collect);
                lemma_keeps_trans(d, d2, run_raw(data, p2, o2, d2, collect).0);
            }
        }
    }
}

proof fn lemma_run_obmp_keeps(data: Seq<u8>, c: ObmpCursor, stats: ContainerStatsV, d: DoctorV, collect: bool)
    requires
        d.state.findings.len() <= d.max_findings,
        d.events.len() <= d.max_events,
    ensures
        keeps(d, run_obmp(data, c, stats, d, collect).0),
    decreases data.len() - c.pos, (if c.eof { 0int } else { 1int }),
{
    lemma_keeps_refl(d);
    if c.pos <= data.len() {
        let (out, rec, c2) = obmp_step(data, c);
        let stats2 = match rec {
            Some(x) => stats_after(stats, x),
            None => stats,
        };
        if let Some(o) = out {
            lemma_step_keeps(d, o, collect);
            if let Ok(d2) = outcome_effect(d, o, collect) {
                lemma_run_obmp_keeps(data, c2, stats2, d2, collect);
                lemma_keeps_trans(d, d2, run_obmp(data, c2, stats2, d2, collect).0);
            }
        }
    }
}

/// Reading a capture never holds more findings than the finding cap nor
/// more records than the event cap, never changes or reorders the findings
/// and records already held, and never clears the truncation flag.
pub proof fn law_findings_within_cap(d: DoctorV, data: Seq<u8>, collect: bool)
    requires
        d.state.findings.len() <= d.max_findings,
        d.events.len() <= d.max_events,
    ensures
        keeps(d, processed(d, data, collect).0),
{
    lemma_keeps_refl(d);
    match d.format {
        InputFormat::Bmpd => {
            if open_error(data) is None {
                lemma_run_obmp_keeps(data, ObmpCursor { pos: 13, index: 0, eof: false }, stats_empty(), d, collect);
            }
        },
        _ => {
            lemma_run_raw_keeps(data, 0, 0, d, collect);
        },
    }
}

/// The findings one outcome raises, before the cap: a frame's findings
/// against the peer table, or one finding for input that is not a frame.
pub open spec fn raised(d: DoctorV, o: Result<RawBmpFrameV, DoctorErrorV>) -> Seq<FindingV> {
    match o {
        Ok(fr) => frame_findings(d.state.peers, fr),
        Err(DoctorErrorV::Frame(m)) => seq![malformed_finding(m)],
        Err(_) => Seq::empty(),
    }
}

/// The findings raised, in order, over raw frames from byte `pos`.
pub open spec fn raw_raised(data: Seq<u8>, pos: nat, off: nat, d: DoctorV, collect: bool) -> Seq<FindingV>
    decreases data.len() - pos, (if off == 0 { 1int } else { 0int }),
{
    if pos > data.len() {
        Seq::empty()
    } else {
        let (out, p2, o2) = raw_step(data, pos, off);
        match out {
            None => Seq::empty(),
            Some(o) => match outcome_effect(d, o, collect) {
                Ok(d2) => raised(d, o) + raw_raised(data, p2, o2, d2, collect),
                Err(_) => Seq::empty(),
            },
        }
    }
}

/// The findings raised, in order, over the records of a container from
/// cursor `c`.
pub open spec fn obmp_raised(data: Seq<u8>, c: ObmpCursor, d: DoctorV, collect: bool) -> Seq<FindingV>
    decreases data.len() - c.pos, (if c.eof { 0int } else { 1int }),
{
    if c.pos > data.len() {
        Seq::empty()
    } else {
        let (out, rec, c2) = obmp_step(data, c);
        match out {
            None => Seq::empty(),
            Some(o) => match outcome_effect(d, o, collect) {
                Ok(d2) => raised(d, o) + obmp_raised(data, c2, d2, collect),
                Err(_) => Seq::empty(),
            },
        }
    }
}

/// The findings raised, in order, over a whole capture.
pub open spec fn run_raised(d: DoctorV, data: Seq<u8>, collect: bool) -> Seq<FindingV> {
    match d.format {
        InputFormat::Bmpd => match open_error(data) {
            Some(_) => Seq::empty(),
            None => obmp_raised(data, ObmpCursor { pos: 13, index: 0, eof: false }, d, collect),
        },
        _ => raw_raised(data, 0, 0, d, collect),
    }
}

/// `d2` holds the first `cap` of the findings `d` held followed by those
/// raised (`g`), counts the rest as dropped (held at `u64::MAX`), and is
/// truncated exactly when `d` was or some finding was dropped.
pub open spec fn capped_after(d: DoctorV, d2: DoctorV, g: Seq<FindingV>) -> bool {
    let all = d.state.findings + g;
    let k = if all.len() <= d.max_findings {
        all.len()
    } else {
        d.max_findings
    };
    &&& d2.max_findings == d.max_findings
    &&& d2.state.findings == all.subrange(0, k as int)
    &&& d2.state.findings_dropped == sat_add(d.state.findings_dropped, all.len() - k)
    &&& d2.truncated == (d.truncated || all.len() > d.max_findings)
}

proof fn lemma_capped_refl(d: DoctorV)
    requires
        d.state.findings.len() <= d.max_findings,
    ensures
        capped_after(d, d, Seq::empty()),
{
    assert(d.state.findings + Seq::<FindingV>::empty() =~= d.state.findings);
    assert(d.state.findings.subrange(0, d.state.findings.len() as int) =~= d.state.findings);
}

proof fn lemma_capped_step(d: DoctorV, o: Result<RawBmpFrameV, DoctorErrorV>, collect: bool)
    requires
        d.state.findings.len() <= d.max_findings,
    ensures
        outcome_effect(d, o, collect) matches Ok(d2) ==> capped_after(d, d2, raised(d, o)),
{
    reveal(after_frame);
    reveal(after_malformed);
    law_findings_first_cap(d.state.findings, d.state.findings_dropped, d.truncated, raised(d, o), d.max_findings);
}

proof fn lemma_capped_trans(a: DoctorV, b: DoctorV, c: DoctorV, g1: Seq<FindingV>, g2: Seq<FindingV>)
    requires
        a.state.findings.len() <= a.max_findings,
        capped_after(a, b, g1),
        capped_after(b, c, g2),
    ensures
        capped_after(a, c, g1 + g2),
{
    let cap = a.max_findings;
    let all1 = a.state.findings + g1;
    let all = a.state.findings + (g1 + g2);
    assert(all =~= all1 + g2);
    if all1.len() <= cap {
        assert(b.state.findings =~= all1.subrange(0, all1.len() as int));
        assert(all1.subrange(0, all1.len() as int) =~= all1);
    } else {
        assert(all.subrange(0, cap as int) =~= all1.subrange(0, cap as int));
        assert((b.state.findings + g2).subrange(0, cap as int) =~= b.state.findings);
    }
}

proof fn lemma_raw_capped(data: Seq<u8>, pos: nat, off: nat, d: DoctorV, collect: bool)
    requires
        d.state.findings.len() <= d.max_findings,
    ensures
        capped_after(d, run_raw(data, pos, off, d, collect).0, raw_raised(data, pos, off, d, collect)),
    decreases data.len() - pos, (if off == 0 { 1int } else { 0int }),
{
    lemma_capped_refl(d);
    if pos <= data.len() {
        let (out, p2, o2) = raw_step(data, pos, off);
        if let Some(o) = out {
            lemma_capped_step(d, o, collect);
            lemma_step_keeps_findings(d, o, collect);
            if let Ok(d2) = outcome_effect(d, o, collect) {
                lemma_raw_capped(data, p2, o2, d2, collect);
                lemma_capped_trans(
                    d,
                    d2,
                    run_raw(data, p2, o2, d2, collect).0,
                    raised(d, o),
                    raw_raised(data, p2, o2, d2, collect),
                );
            }
        }
    }
}

proof fn lemma_obmp_capped(data: Seq<u8>, c: ObmpCursor, stats: ContainerStatsV, d: DoctorV, collect: bool)
    requires
        d.state.findings.len() <= d.max_findings,
    ensures
        capped_after(d, run_obmp(data, c, stats, d, collect).0, obmp_raised(data, c, d, collect)),
    decreases data.len() - c.pos, (if c.eof { 0int } else { 1int }),
{
    lemma_capped_refl(d);
    if c.pos <= data.len() {
        let (out, rec, c2) = obmp_step(data, c);
        let stats2 = match rec {
            Some(x) => stats_after(stats, x),
            None => stats,
        };
        if let Some(o) = out {
            lemma_capped_step(d, o, collect);
            lemma_step_keeps_findings(d, o, collect);
            if let Ok(d2) = outcome_effect(d, o, collect) {
                lemma_obmp_capped(data, c2, stats2, d2, collect);
                lemma_capped_trans(
                    d,
                    d2,
                    run_obmp(data, c2, stats2, d2, collect).0,
                    raised(d, o),
                    obmp_raised(data, c2, d2, collect),
                );
            }
        }
    }
}

proof fn lemma_step_keeps_findings(d: DoctorV, o: Result<RawBmpFrameV, DoctorErrorV>, collect: bool)
    requires
        d.state.findings.len() <= d.max_findings,
    ensures
        outcome_effect(d, o, collect) matches Ok(d2) ==> d2.state.findings.len() <= d2.max_findings,
{
    lemma_capped_step(d, o, collect);
}

/// Over a whole capture, the findings kept are exactly the first `cap` of
/// all that were held and raised, in order; every other one is counted as
/// dropped (held at `u64::MAX`), and the run is truncated exactly when one
/// was dropped (or it already was).
pub proof fn law_run_findings_first_cap(d: DoctorV, data: Seq<u8>, collect: bool)
    requires
        d.state.findings.len() <= d.max_findings,
    ensures
        capped_after(d, processed(d, data, collect).0, run_raised(d, data, collect)),
{
    lemma_capped_refl(d);
    match d.format {
        InputFormat::Bmpd => {
            if open_error(data) is None {
                lemma_obmp_capped(data, ObmpCursor { pos: 13, index: 0, eof: false }, stats_empty(), d, collect);
            }
        },
        _ => {
            lemma_raw_capped(data, 0, 0, d, collect);
        },
    }
}

/// A fresh run over any capture never holds more than its finding cap nor
/// more than the default event cap of records.
pub proof fn law_fresh_run_within_caps(
    file_path: Seq<char>,
    file_size: u64,
    max_findings: nat,
    format: InputFormat,
    data: Seq<u8>,
    collect: bool,
)
    ensures
        ({
            let d2 = processed(fresh_doctor(file_path, file_size, max_findings, format), data, collect).0;
            &&& d2.state.findings.len() <= max_findings
            &&& d2.events.len() <= DEFAULT_MAX_EVENTS
        }),
{
    let d = fresh_doctor(file_path, file_size, max_findings, format);
    law_findings_within_cap(d, data, collect);
}

/// Every message read counts once and, when events are collected and the
/// event cap is not yet reached, gives one event: a frame counts as a
/// message, input that is not a frame as a malformed message (each counter
/// held at `u64::MAX`); otherwise no event is added.
pub proof fn law_one_event_per_message(d: DoctorV, o: Result<RawBmpFrameV, DoctorErrorV>, collect: bool)
    ensures
        outcome_effect(d, o, collect) matches Ok(d2) ==> {
            &&& d2.events.len() == d.events.len() + if collect && d.events.len() < d.max_events {
                1int
            } else {
                0int
            }
            &&& d2.events.subrange(0, d.events.len() as int) == d.events
            &&& o is Ok ==> d2.state.total_messages == sat_add(d.state.total_messages, 1)
                && d2.state.malformed_messages == d.state.malformed_messages
            &&& o is Err ==> d2.state.malformed_messages == sat_add(d.state.malformed_messages, 1)
                && d2.state.total_messages == d.state.total_messages
        },
        outcome_effect(d, o, collect) is Err <==> (o is Err && !(o->Err_0 is Frame)),
{
    reveal(after_frame);
    reveal(after_malformed);
    if let Ok(d2) = outcome_effect(d, o, collect) {
        assert(d2.events.subrange(0, d.events.len() as int) =~= d.events);
    }
}

proof fn lemma_has_first_slot(ps: Seq<(PeerKeyV, PeerState)>, k: PeerKeyV)
    requires
        has_peer(ps, k),
    ensures
        is_first_slot(ps, k, slot_of(ps, k)),
    decreases ps.len(),
{
    let q = ps.drop_last();
    if has_peer(q, k) {
        lemma_has_first_slot(q, k);
        let i = slot_of(q, k);
        assert forall|j: int| 0 <= j < i implies ps[j].0 != k by {
            assert(ps[j] == q[j]);
        }
        assert(ps[i] == q[i]);
        assert(is_first_slot(ps, k, i));
        lemma_first_slot(ps, k, i);
    } else {
        let w = choose|i: int| 0 <= i < ps.len() && ps[i].0 == k;
        assert forall|j: int| 0 <= j < ps.len() - 1 implies ps[j].0 != k by {
            assert(ps[j] == q[j]);
        }
        assert(w == ps.len() - 1);
        assert(is_first_slot(ps, k, ps.len() - 1));
        lemma_first_slot(ps, k, ps.len() - 1);
    }
}

proof fn lemma_with_peer_state(ps: Seq<(PeerKeyV, PeerState)>, k: PeerKeyV, p: PeerState, k2: PeerKeyV)
    ensures
        state_of(with_peer(ps, k, p), k) == p,
        k2 != k ==> state_of(with_peer(ps, k, p), k2) == state_of(ps, k2),
{
    let n = with_peer(ps, k, p);
    if has_peer(ps, k) {
        lemma_has_first_slot(ps, k);
        let i = slot_of(ps, k);
        assert(is_first_slot(n, k, i));
        lemma_first_slot(n, k, i);
    } else {
        assert(is_first_slot(n, k, ps.len() as int));
        lemma_first_slot(n, k, ps.len() as int);
    }
    if k2 != k {
        if has_peer(ps, k2) {
            lemma_has_first_slot(ps, k2);
            let j = slot_of(ps, k2);
            assert(is_first_slot(n, k2, j));
            lemma_first_slot(n, k2, j);
        } else {
            assert forall|j: int| 0 <= j < n.len() implies n[j].0 != k2 by {
                if j < ps.len() {
                    assert(ps[j].0 != k2 || n[j].0 == k);
                }
            }
        }
    }
}

/// A frame with a Per-Peer Header and a known type changes the session
/// state of its own peer only, as the timestamp and lifecycle rules say,
/// and raises exactly the findings of those rules for the peer.
pub proof fn law_frame_touches_one_peer(ps: Seq<(PeerKeyV, PeerState)>, fr: RawBmpFrameV, other: PeerKeyV)
    requires
        fr.per_peer_header is Some,
        fr.msg_type is Some,
    ensures
        ({
            let h = fr.per_peer_header.unwrap();
            let k = peer_key_of(h);
            let (p2, fs) = peer_after(state_of(ps, k), k, h, fr.msg_type.unwrap(), fr.offset, fr.payload);
            &&& state_of(peer_effect(ps, fr).0, k) == p2
            &&& peer_effect(ps, fr).1 == fs
            &&& other != k ==> state_of(peer_effect(ps, fr).0, other) == state_of(ps, other)
        }),
{
    let h = fr.per_peer_header.unwrap();
    let k = peer_key_of(h);
    let (p2, fs) = peer_after(state_of(ps, k), k, h, fr.msg_type.unwrap(), fr.offset, fr.payload);
    lemma_with_peer_state(ps, k, p2, other);
}

/// A Peer Down Notification that ends before its reason byte raises a
/// `parse_error` finding at its offset saying the reason byte is missing;
/// a frame that carries no routes is never decoded, so it raises no
/// decoding finding.
pub proof fn law_frame_decoding_findings(ps: Seq<(PeerKeyV, PeerState)>, fr: RawBmpFrameV)
    ensures
        down_truncated(fr) ==> frame_findings(ps, fr).contains(
            parse_error_finding(fr.offset, frame_key(fr), missing_reason_text()),
        ),
        !route_bearing(fr.msg_type) ==> parse_failure(fr) is None && frame_elems(fr) == 0,
{
    if down_truncated(fr) {
        let pre = header_findings(fr) + (match parse_failure(fr) {
            Some(e) => seq![parse_error_finding(fr.offset, frame_key(fr), e)],
            None => Seq::empty(),
        });
        let f = parse_error_finding(fr.offset, frame_key(fr), missing_reason_text());
        assert(frame_findings(ps, fr)[pre.len() as int] == f);
    }
}

/// A Peer Up makes a peer active, and raises a finding exactly when the
/// peer was already active.
pub proof fn law_peer_up(p: PeerState, k: PeerKeyV, off: u64, payload: Seq<u8>)
    ensures
        after_lifecycle(p, k, BmpMessageType::PeerUpNotification, off, payload).0.active,
        after_lifecycle(p, k, BmpMessageType::PeerUpNotification, off, payload).0.peer_up_seen == (p.peer_up_seen || !p.active),
        after_lifecycle(p, k, BmpMessageType::PeerUpNotification, off, payload).1 == if p.active {
            seq![duplicate_up_finding(off, k)]
        } else {
            Seq::empty()
        },
{
}

/// A Peer Down leaves a peer inactive, records its reason, and raises a
/// finding exactly when the peer was not active.
pub proof fn law_peer_down(p: PeerState, k: PeerKeyV, off: u64, payload: Seq<u8>)
    ensures
        !after_lifecycle(p, k, BmpMessageType::PeerDownNotification, off, payload).0.active,
        after_lifecycle(p, k, BmpMessageType::PeerDownNotification, off, payload).0.last_peer_down_reason
            == Some(down_reason(payload)),
        after_lifecycle(p, k, BmpMessageType::PeerDownNotification, off, payload).1 == if p.active {
            Seq::empty()
        } else {
            seq![down_without_up_finding(off, k, down_reason(payload))]
        },
{
}

/// Route monitoring raises a finding exactly when the peer has never sent
/// a Peer Up, and does not change whether the peer is active.
pub proof fn law_route_monitoring(p: PeerState, k: PeerKeyV, off: u64, payload: Seq<u8>)
    ensures
        after_lifecycle(p, k, BmpMessageType::RouteMonitoring, off, payload).0.active == p.active,
        after_lifecycle(p, k, BmpMessageType::RouteMonitoring, off, payload).1 == if p.peer_up_seen {
            Seq::empty()
        } else {
            seq![rm_before_up_finding(off, k)]
        },
{
}

/// Timestamps are ordered strictly, seconds first and then microseconds: no
/// timestamp is before itself, of two different timestamps exactly one is
/// before the other, and the order is transitive.
pub proof fn law_timestamp_order_is_strict(a: (u32, u32), b: (u32, u32), c: (u32, u32))
    ensures
        !ts_before(a, a),
        ts_before(a, b) ==> !ts_before(b, a),
        a != b ==> (ts_before(a, b) || ts_before(b, a)),
        ts_before(a, b) && ts_before(b, c) ==> ts_before(a, c),
        a.0 < b.0 ==> ts_before(a, b),
        a.0 == b.0 ==> (ts_before(a, b) <==> a.1 < b.1),
{
}

/// A message stamped with the same timestamp as the peer's previous one is
/// no regression: it raises no finding and leaves the regression count as
/// it was.
pub proof fn law_equal_timestamp_no_regression(p: PeerState, k: PeerKeyV, h: PerPeerHeaderV, off: u64)
    requires
        p.last_timestamp == Some(header_ts(h)),
    ensures
        after_timestamp(p, k, h, off).1.len() == 0,
        after_timestamp(p, k, h, off).0.timestamp_regression_count == p.timestamp_regression_count,
{
    law_timestamp_order_is_strict(header_ts(h), header_ts(h), header_ts(h));
}

/// A timestamp regression is reported exactly when a peer's message is
/// stamped earlier than its previous one, and the latest timestamp is
/// always the one just seen.
pub proof fn law_timestamp_regression(p: PeerState, k: PeerKeyV, h: PerPeerHeaderV, off: u64)
    ensures
        after_timestamp(p, k, h, off).0.last_timestamp == Some(header_ts(h)),
        after_timestamp(p, k, h, off).1.len() > 0 <==> (p.last_timestamp matches Some(last) && ts_before(
            header_ts(h),
            last,
        )),
{
}

} // verus!
