//! Lint rules and the findings they produce. Rule names are stable
//! snake_case identifiers (RFC 7854 requirements):
//! `invalid_bmp_version` (Section 9: version must be 3), `truncated_frame`
//! (Section 3.1: declared length beyond available data), `unknown_bmp_type`
//! (type outside the IANA registry), `parse_error` (the BGP content could
//! not be decoded), `route_monitoring_before_peer_up` (Section 3.3),
//! `duplicate_peer_up` (Section 3.6), `peer_down_without_peer_up`
//! (Section 3.5) and `timestamp_regression` (Section 3.2).

use vstd::prelude::*;

use crate::state::{opt_key, peer_display, Finding, FindingV, PeerKey, Severity};
use crate::text::{append_decimal, dec_str, push_char};

verus! {

pub const RULE_INVALID_BMP_VERSION: &'static str = "invalid_bmp_version";
pub const RULE_TRUNCATED_FRAME: &'static str = "truncated_frame";
pub const RULE_UNKNOWN_BMP_TYPE: &'static str = "unknown_bmp_type";
pub const RULE_PARSE_ERROR: &'static str = "parse_error";
pub const RULE_ROUTE_MONITORING_BEFORE_PEER_UP: &'static str = "route_monitoring_before_peer_up";
pub const RULE_DUPLICATE_PEER_UP: &'static str = "duplicate_peer_up";
pub const RULE_PEER_DOWN_WITHOUT_PEER_UP: &'static str = "peer_down_without_peer_up";
pub const RULE_TIMESTAMP_REGRESSION: &'static str = "timestamp_regression";

/// `n` in decimal, left-padded with zeros to at least six digits.
pub open spec fn pad6(n: nat) -> Seq<char> {
    let d = dec_str(n);
    if d.len() >= 6 {
        d
    } else {
        Seq::new((6 - d.len()) as nat, |i: int| '0') + d
    }
}

/// Finding for a BMP version other than 3.
pub open spec fn invalid_version_finding(offset: u64, version: u8) -> FindingV {
    FindingV {
        severity: Severity::Error,
        rule: "invalid_bmp_version"@,
        offset: Some(offset),
        peer: None,
        message: "Unsupported BMP version "@ + dec_str(version as nat) + " at offset "@ + dec_str(offset as nat)
            + " (expected 3)"@,
    }
}

/// Finding for a message type outside 0–6.
pub open spec fn unknown_type_finding(offset: u64, t: u8) -> FindingV {
    FindingV {
        severity: Severity::Warn,
        rule: "unknown_bmp_type"@,
        offset: Some(offset),
        peer: None,
        message: "Unknown BMP message type "@ + dec_str(t as nat) + " at offset "@ + dec_str(offset as nat),
    }
}

/// Finding for content that could not be decoded.
pub open spec fn parse_error_finding(offset: u64, peer: Option<crate::state::PeerKeyV>, detail: Seq<char>) -> FindingV {
    FindingV {
        severity: Severity::Error,
        rule: "parse_error"@,
        offset: Some(offset),
        peer,
        message: "Parse error at offset "@ + dec_str(offset as nat) + ": "@ + detail,
    }
}

/// Finding for route monitoring before any Peer Up of the peer.
pub open spec fn rm_before_up_finding(offset: u64, peer: crate::state::PeerKeyV) -> FindingV {
    FindingV {
        severity: Severity::Warn,
        rule: "route_monitoring_before_peer_up"@,
        offset: Some(offset),
        peer: Some(peer),
        message: "Route monitoring message for peer "@ + peer_display(peer) + " at offset "@ + dec_str(offset as nat)
            + " before any Peer Up notification"@,
    }
}

/// Finding for a Peer Up of an already active peer.
pub open spec fn duplicate_up_finding(offset: u64, peer: crate::state::PeerKeyV) -> FindingV {
    FindingV {
        severity: Severity::Warn,
        rule: "duplicate_peer_up"@,
        offset: Some(offset),
        peer: Some(peer),
        message: "Duplicate Peer Up notification for peer "@ + peer_display(peer) + " at offset "@ + dec_str(
            offset as nat,
        ) + " (already active)"@,
    }
}

/// Finding for a Peer Down of a peer that is not active.
pub open spec fn down_without_up_finding(offset: u64, peer: crate::state::PeerKeyV, reason: u8) -> FindingV {
    FindingV {
        severity: Severity::Warn,
        rule: "peer_down_without_peer_up"@,
        offset: Some(offset),
        peer: Some(peer),
        message: "Peer Down notification (reason "@ + dec_str(reason as nat) + ") for peer "@ + peer_display(peer)
            + " at offset "@ + dec_str(offset as nat) + " without prior Peer Up"@,
    }
}

/// Finding for a timestamp earlier than the peer's previous one.
pub open spec fn regression_finding(
    offset: u64,
    peer: crate::state::PeerKeyV,
    prev_secs: u32,
    prev_us: u32,
    curr_secs: u32,
    curr_us: u32,
) -> FindingV {
    FindingV {
        severity: Severity::Warn,
        rule: "timestamp_regression"@,
        offset: Some(offset),
        peer: Some(peer),
        message: "Timestamp regression for peer "@ + peer_display(peer) + " at offset "@ + dec_str(offset as nat)
            + ": previous "@ + dec_str(prev_secs as nat) + "."@ + pad6(prev_us as nat) + "s, current "@
            + dec_str(curr_secs as nat) + "."@ + pad6(curr_us as nat) + "s"@,
    }
}

/// Appends `n` in decimal, zero-padded to six digits.
fn append_pad6(s: &mut String, n: u32)
    ensures
        final(s)@ == old(s)@ + pad6(n as nat),
{
    let d = crate::text::decimal(n as u64);
    let len = d.as_str().unicode_len();
    let zeros: usize = if len >= 6 { 0 } else { 6 - len };
    let ghost base = s@;
    let mut k: usize = 0;
    while k < zeros
        invariant
            k <= zeros,
            s@ == base + Seq::new(k as nat, |i: int| '0'),
        decreases zeros - k,
    {
        push_char(s, '0');
        proof {
            assert(Seq::new((k + 1) as nat, |i: int| '0') =~= Seq::new(k as nat, |i: int| '0').push('0'));
        }
        k = k + 1;
    }
    s.append(d.as_str());
    proof {
        let dd = dec_str(n as nat);
        if dd.len() >= 6 {
            assert(Seq::new(0nat, |i: int| '0') =~= Seq::<char>::empty());
            assert(base + Seq::<char>::empty() =~= base);
        }
        assert(final(s)@ =~= base + pad6(n as nat));
    }
}

/// Finding for a BMP version other than 3.
pub fn finding_invalid_version(offset: u64, version: u8) -> (r: Finding)
    ensures
        r@ == invalid_version_finding(offset, version),
{
    let mut m = String::from_str("Unsupported BMP version ");
    append_decimal(&mut m, version as u64);
    m.append(" at offset ");
    append_decimal(&mut m, offset);
    m.append(" (expected 3)");
    Finding {
        severity: Severity::Error,
        rule: String::from_str(RULE_INVALID_BMP_VERSION),
        offset: Some(offset),
        peer: None,
        message: m,
    }
}

/// Finding for a message type outside 0–6.
pub fn finding_unknown_type(offset: u64, msg_type_raw: u8) -> (r: Finding)
    ensures
        r@ == unknown_type_finding(offset, msg_type_raw),
{
    let mut m = String::from_str("Unknown BMP message type ");
    append_decimal(&mut m, msg_type_raw as u64);
    m.append(" at offset ");
    append_decimal(&mut m, offset);
    Finding {
        severity: Severity::Warn,
        rule: String::from_str(RULE_UNKNOWN_BMP_TYPE),
        offset: Some(offset),
        peer: None,
        message: m,
    }
}

/// Finding for content that could not be decoded.
pub fn finding_parse_error(offset: u64, peer: Option<PeerKey>, detail: String) -> (r: Finding)
    ensures
        r@ == parse_error_finding(offset, opt_key(peer), detail@),
{
    let mut m = String::from_str("Parse error at offset ");
    append_decimal(&mut m, offset);
    m.append(": ");
    m.append(detail.as_str());
    Finding { severity: Severity::Error, rule: String::from_str(RULE_PARSE_ERROR), offset: Some(offset), peer, message: m }
}

/// Finding for route monitoring before any Peer Up of the peer.
pub fn finding_route_monitoring_before_peer_up(offset: u64, peer: PeerKey) -> (r: Finding)
    ensures
        r@ == rm_before_up_finding(offset, peer@),
{
    let mut m = String::from_str("Route monitoring message for peer ");
    let d = peer.display();
    m.append(d.as_str());
    m.append(" at offset ");
    append_decimal(&mut m, offset);
    m.append(" before any Peer Up notification");
    Finding {
        severity: Severity::Warn,
        rule: String::from_str(RULE_ROUTE_MONITORING_BEFORE_PEER_UP),
        offset: Some(offset),
        peer: Some(peer),
        message: m,
    }
}

/// Finding for a Peer Up of an already active peer.
pub fn finding_duplicate_peer_up(offset: u64, peer: PeerKey) -> (r: Finding)
    ensures
        r@ == duplicate_up_finding(offset, peer@),
{
    let mut m = String::from_str("Duplicate Peer Up notification for peer ");
    let d = peer.display();
    m.append(d.as_str());
    m.append(" at offset ");
    append_decimal(&mut m, offset);
    m.append(" (already active)");
    Finding {
        severity: Severity::Warn,
        rule: String::from_str(RULE_DUPLICATE_PEER_UP),
        offset: Some(offset),
        peer: Some(peer),
        message: m,
    }
}

/// Finding for a Peer Down of a peer that is not active.
pub fn finding_peer_down_without_peer_up(offset: u64, peer: PeerKey, reason: u8) -> (r: Finding)
    ensures
        r@ == down_without_up_finding(offset, peer@, reason),
{
    let mut m = String::from_str("Peer Down notification (reason ");
    append_decimal(&mut m, reason as u64);
    m.append(") for peer ");
    let d = peer.display();
    m.append(d.as_str());
    m.append(" at offset ");
    append_decimal(&mut m, offset);
    m.append(" without prior Peer Up");
    Finding {
        severity: Severity::Warn,
        rule: String::from_str(RULE_PEER_DOWN_WITHOUT_PEER_UP),
        offset: Some(offset),
        peer: Some(peer),
        message: m,
    }
}

/// Finding for a timestamp earlier than the peer's previous one.
pub fn finding_timestamp_regression(
    offset: u64,
    peer: PeerKey,
    prev_secs: u32,
    prev_us: u32,
    curr_secs: u32,
    curr_us: u32,
) -> (r: Finding)
    ensures
        r@ == regression_finding(offset, peer@, prev_secs, prev_us, curr_secs, curr_us),
{
    let mut m = String::from_str("Timestamp regression for peer ");
    let d = peer.display();
    m.append(d.as_str());
    m.append(" at offset ");
    append_decimal(&mut m, offset);
    m.append(": previous ");
    append_decimal(&mut m, prev_secs as u64);
    m.append(".");
    append_pad6(&mut m, prev_us);
    m.append("s, current ");
    append_decimal(&mut m, curr_secs as u64);
    m.append(".");
    append_pad6(&mut m, curr_us);
    m.append("s");
    Finding {
        severity: Severity::Warn,
        rule: String::from_str(RULE_TIMESTAMP_REGRESSION),
        offset: Some(offset),
        peer: Some(peer),
        message: m,
    }
}

} // verus!
