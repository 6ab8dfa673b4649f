//! Diagnostic state: peer identities, severities, findings, per-peer
//! session state and the accumulated state of a whole input.

use std::collections::BTreeMap;
use vstd::prelude::*;

use crate::obmp_reader::{opt_str, ContainerStats, ContainerStatsV};
use crate::raw_bmp::{StatsEntryV, StatsInfo, TlvInfo, TlvInfoV};
use crate::text::{append_decimal, dec_str};

verus! {

/// Identity of a BGP peer: ASN, address text and (for non-global peers)
/// the hex Peer Distinguisher.
#[derive(Debug, Clone, PartialEq, Eq, PartialOrd, Ord, Hash)]
pub struct PeerKey {
    pub peer_asn: Option<u32>,
    pub peer_ip: Option<String>,
    pub peer_distinguisher: Option<String>,
}

/// Abstract value of a [`PeerKey`].
pub struct PeerKeyV {
    pub peer_asn: Option<u32>,
    pub peer_ip: Option<Seq<char>>,
    pub peer_distinguisher: Option<Seq<char>>,
}

impl View for PeerKey {
    type V = PeerKeyV;

    open spec fn view(&self) -> PeerKeyV {
        PeerKeyV {
            peer_asn: self.peer_asn,
            peer_ip: opt_str(self.peer_ip),
            peer_distinguisher: opt_str(self.peer_distinguisher),
        }
    }
}

/// The abstract value of an optional peer key.
pub open spec fn opt_key(k: Option<PeerKey>) -> Option<PeerKeyV> {
    match k {
        Some(x) => Some(x@),
        None => None,
    }
}

/// Short text naming a peer: `AS<asn> <ip>`, the address, `AS<asn>` or `unknown`.
pub open spec fn peer_display(k: PeerKeyV) -> Seq<char> {
    match (k.peer_ip, k.peer_asn) {
        (Some(ip), Some(asn)) => "AS"@ + dec_str(asn as nat) + " "@ + ip,
        (Some(ip), None) => ip,
        (None, Some(asn)) => "AS"@ + dec_str(asn as nat),
        (None, None) => "unknown"@,
    }
}

fn opt_string_eq(a: &Option<String>, b: &Option<String>) -> (r: bool)
    ensures
        r == (opt_str(*a) == opt_str(*b)),
{
    match (a, b) {
        (Some(x), Some(y)) => *x == *y,
        (None, None) => true,
        _ => false,
    }
}

impl PeerKey {
    /// Short text naming this peer.
    pub fn display(&self) -> (r: String)
        ensures
            r@ == peer_display(self@),
    {
        match (&self.peer_ip, self.peer_asn) {
            (Some(ip), Some(asn)) => {
                let mut s = String::from_str("AS");
                append_decimal(&mut s, asn as u64);
                s.append(" ");
                s.append(ip.as_str());
                s
            },
            (Some(ip), None) => ip.clone(),
            (None, Some(asn)) => {
                let mut s = String::from_str("AS");
                append_decimal(&mut s, asn as u64);
                s
            },
            (None, None) => String::from_str("unknown"),
        }
    }

    /// Whether two keys name the same peer.
    pub fn same_peer(&self, other: &PeerKey) -> (r: bool)
        ensures
            r == (self@ == other@),
    {
        self.peer_asn == other.peer_asn && opt_string_eq(&self.peer_ip, &other.peer_ip)
            && opt_string_eq(&self.peer_distinguisher, &other.peer_distinguisher)
    }

    /// A copy of this key.
    pub fn duplicate(&self) -> (r: PeerKey)
        ensures
            r@ == self@,
    {
        PeerKey {
            peer_asn: self.peer_asn,
            peer_ip: crate::obmp_reader::clone_opt_string(&self.peer_ip),
            peer_distinguisher: crate::obmp_reader::clone_opt_string(&self.peer_distinguisher),
        }
    }
}

/// A copy of an optional key.
pub fn clone_opt_key(k: &Option<PeerKey>) -> (r: Option<PeerKey>)
    ensures
        opt_key(r) == opt_key(*k),
{
    match k {
        Some(x) => Some(x.duplicate()),
        None => None,
    }
}

/// Severity of a finding.
#[derive(Debug, Clone, Copy, PartialEq, Eq, Structural, PartialOrd, Ord)]
pub enum Severity {
    Info,
    Warn,
    Error,
}

/// Label of a severity.
pub open spec fn severity_label(s: Severity) -> Seq<char> {
    match s {
        Severity::Info => "INFO"@,
        Severity::Warn => "WARN"@,
        Severity::Error => "ERR"@,
    }
}

/// Process exit code of a severity.
pub open spec fn severity_code(s: Severity) -> i32 {
    match s {
        Severity::Info => 0,
        Severity::Warn => 1,
        Severity::Error => 2,
    }
}

impl Severity {
    /// Label of this severity: `INFO`, `WARN` or `ERR`.
    pub fn as_str(&self) -> (r: &'static str)
        ensures
            r@ == severity_label(*self),
    {
        match self {
            Severity::Info => "INFO",
            Severity::Warn => "WARN",
            Severity::Error => "ERR",
        }
    }

    /// Exit code of this severity: 0, 1 or 2.
    pub fn exit_code(&self) -> (r: i32)
        ensures
            r == severity_code(*self),
    {
        match self {
            Severity::Info => 0,
            Severity::Warn => 1,
            Severity::Error => 2,
        }
    }
}

/// A diagnostic finding.
#[derive(Debug, Clone)]
pub struct Finding {
    pub severity: Severity,
    /// Stable snake_case rule name.
    pub rule: String,
    pub offset: Option<u64>,
    pub peer: Option<PeerKey>,
    pub message: String,
}

/// Abstract value of a [`Finding`].
pub struct FindingV {
    pub severity: Severity,
    pub rule: Seq<char>,
    pub offset: Option<u64>,
    pub peer: Option<PeerKeyV>,
    pub message: Seq<char>,
}

impl View for Finding {
    type V = FindingV;

    open spec fn view(&self) -> FindingV {
        FindingV {
            severity: self.severity,
            rule: self.rule@,
            offset: self.offset,
            peer: opt_key(self.peer),
            message: self.message@,
        }
    }
}

/// The abstract values of a list of findings.
pub open spec fn findings_view(fs: Seq<Finding>) -> Seq<FindingV> {
    fs.map_values(|f: Finding| f@)
}

impl Finding {
    /// A copy of this finding.
    pub fn duplicate(&self) -> (r: Finding)
        ensures
            r@ == self@,
    {
        Finding {
            severity: self.severity,
            rule: self.rule.clone(),
            offset: self.offset,
            peer: clone_opt_key(&self.peer),
            message: self.message.clone(),
        }
    }
}

/// Session state of one peer.
#[derive(Debug, Clone, Copy, PartialEq, Eq)]
pub struct PeerState {
    pub peer_up_seen: bool,
    pub active: bool,
    pub peer_up_count: u64,
    pub peer_down_count: u64,
    pub route_monitoring_count: u64,
    pub other_message_count: u64,
    pub last_timestamp: Option<(u32, u32)>,
    pub first_timestamp: Option<(u32, u32)>,
    pub update_before_peer_up_count: u64,
    pub timestamp_regression_count: u64,
    pub last_peer_down_reason: Option<u8>,
}

/// The state of a peer not seen before.
pub open spec fn fresh_peer() -> PeerState {
    PeerState {
        peer_up_seen: false,
        active: false,
        peer_up_count: 0,
        peer_down_count: 0,
        route_monitoring_count: 0,
        other_message_count: 0,
        last_timestamp: None,
        first_timestamp: None,
        update_before_peer_up_count: 0,
        timestamp_regression_count: 0,
        last_peer_down_reason: None,
    }
}

impl Default for PeerState {
    fn default() -> (r: Self)
        ensures
            r == fresh_peer(),
    {
        PeerState {
            peer_up_seen: false,
            active: false,
            peer_up_count: 0,
            peer_down_count: 0,
            route_monitoring_count: 0,
            other_message_count: 0,
            last_timestamp: None,
            first_timestamp: None,
            update_before_peer_up_count: 0,
            timestamp_regression_count: 0,
            last_peer_down_reason: None,
        }
    }
}

/// Everything accumulated over an input.
#[derive(Debug, Clone)]
pub struct DoctorState {
    pub file_path: String,
    pub file_size: u64,
    pub format: String,
    pub total_messages: u64,
    pub malformed_messages: u64,
    /// Message counts by raw type code.
    pub by_type: BTreeMap<u8, u64>,
    /// Peers in the order they were first seen, each once.
    pub peers: Vec<(PeerKey, PeerState)>,
    pub findings: Vec<Finding>,
    pub bgp_elem_count: u64,
    /// Findings beyond the cap, counted but not kept.
    pub findings_dropped: u64,
    pub container_stats: ContainerStats,
    /// TLVs of the first Initiation message.
    pub initiation_info: Option<TlvInfo>,
    /// TLVs of the first Termination message.
    pub termination_info: Option<TlvInfo>,
    /// Entries of the first Stats Report that had any.
    pub stats_info: Option<StatsInfo>,
}

/// Abstract value of a [`DoctorState`].
pub struct DoctorStateV {
    pub file_path: Seq<char>,
    pub file_size: u64,
    pub format: Seq<char>,
    pub total_messages: u64,
    pub malformed_messages: u64,
    pub by_type: Map<u8, u64>,
    pub peers: Seq<(PeerKeyV, PeerState)>,
    pub findings: Seq<FindingV>,
    pub bgp_elem_count: u64,
    pub findings_dropped: u64,
    pub container_stats: ContainerStatsV,
    pub initiation_info: Option<TlvInfoV>,
    pub termination_info: Option<TlvInfoV>,
    pub stats_info: Option<Seq<StatsEntryV>>,
}

/// The abstract values of a peer table.
pub open spec fn peers_view(ps: Seq<(PeerKey, PeerState)>) -> Seq<(PeerKeyV, PeerState)> {
    ps.map_values(|e: (PeerKey, PeerState)| (e.0@, e.1))
}

impl View for DoctorState {
    type V = DoctorStateV;

    open spec fn view(&self) -> DoctorStateV {
        DoctorStateV {
            file_path: self.file_path@,
            file_size: self.file_size,
            format: self.format@,
            total_messages: self.total_messages,
            malformed_messages: self.malformed_messages,
            by_type: self.by_type@,
            peers: peers_view(self.peers@),
            findings: findings_view(self.findings@),
            bgp_elem_count: self.bgp_elem_count,
            findings_dropped: self.findings_dropped,
            container_stats: self.container_stats@,
            initiation_info: match self.initiation_info {
                Some(t) => Some(t@),
                None => None,
            },
            termination_info: match self.termination_info {
                Some(t) => Some(t@),
                None => None,
            },
            stats_info: match self.stats_info {
                Some(st) => Some(st@),
                None => None,
            },
        }
    }
}

impl DoctorState {
    /// The state of an input not yet read: its path, size and format label.
    pub fn new(file_path: String, file_size: u64, format: String) -> (r: Self)
        ensures
            r@ == fresh_state(file_path@, file_size, format@),
    {
        let r = DoctorState {
            file_path,
            file_size,
            format,
            total_messages: 0,
            malformed_messages: 0,
            by_type: BTreeMap::new(),
            peers: Vec::new(),
            findings: Vec::new(),
            bgp_elem_count: 0,
            findings_dropped: 0,
            container_stats: ContainerStats::default(),
            initiation_info: None,
            termination_info: None,
            stats_info: None,
        };
        proof {
            assert(peers_view(r.peers@) =~= Seq::empty());
            assert(findings_view(r.findings@) =~= Seq::empty());
        }
        r
    }
}

/// The state of an input not yet read.
pub open spec fn fresh_state(file_path: Seq<char>, file_size: u64, format: Seq<char>) -> DoctorStateV {
    DoctorStateV {
        file_path,
        file_size,
        format,
        total_messages: 0,
        malformed_messages: 0,
        by_type: Map::empty(),
        peers: Seq::empty(),
        findings: Seq::empty(),
        bgp_elem_count: 0,
        findings_dropped: 0,
        container_stats: crate::obmp_reader::stats_empty(),
        initiation_info: None,
        termination_info: None,
        stats_info: None,
    }
}

} // verus!
