//! RFC 7854 BMP frame decoding: the common header, the per-peer header,
//! Statistics Report entries, Initiation/Termination TLVs, Peer Down
//! reasons, and a cursor over concatenated frames.

use vstd::prelude::*;
use vstd::utf8::*;

use crate::error::{DoctorError, DoctorErrorV};
use crate::obmp_reader::utf8_or_none;
use crate::prefix::{lemma_octet_reads_back, lemma_quad_text_pieces, law_quad_text_reads_back, quad_text, split_on, v4_octet, v4_quad};
use crate::text::{append_decimal, append_hex2, dec_str, hex2, push_char};

verus! {

/// BMP Common Header size (RFC 7854, Section 3.1).
pub const BMP_COMMON_HEADER_SIZE: usize = 6;

/// BMP Per-Peer Header size (RFC 7854, Section 3.2).
pub const BMP_PER_PEER_HEADER_SIZE: usize = 42;

/// The only defined BMP version (RFC 7854, Section 9).
pub const BMP_EXPECTED_VERSION: u8 = 3;

// ───────────────────────── byte-level readings ─────────────────────────

/// Big-endian 16-bit value at `i`.
pub open spec fn be16(s: Seq<u8>, i: int) -> nat {
    s[i] as nat * 256 + s[i + 1] as nat
}

/// Big-endian 32-bit value at `i`.
pub open spec fn be32(s: Seq<u8>, i: int) -> nat {
    s[i] as nat * 16777216 + s[i + 1] as nat * 65536 + s[i + 2] as nat * 256 + s[i + 3] as nat
}

/// Big-endian 64-bit value at `i`.
pub open spec fn be64(s: Seq<u8>, i: int) -> nat {
    be32(s, i) * 4294967296 + be32(s, i + 4)
}

/// Reads a big-endian u16 at `i`.
pub fn read_be16(s: &[u8], i: usize) -> (r: u16)
    requires
        i + 2 <= s@.len(),
    ensures
        r as nat == be16(s@, i as int),
{
    (s[i] as u16) * 256 + (s[i + 1] as u16)
}

/// Reads a big-endian u32 at `i`.
pub fn read_be32(s: &[u8], i: usize) -> (r: u32)
    requires
        i + 4 <= s@.len(),
    ensures
        r as nat == be32(s@, i as int),
{
    (s[i] as u32) * 16777216 + (s[i + 1] as u32) * 65536 + (s[i + 2] as u32) * 256 + (
    s[i + 3] as u32)
}

/// Reads a big-endian u64 at `i`.
pub fn read_be64(s: &[u8], i: usize) -> (r: u64)
    requires
        i + 8 <= s@.len(),
    ensures
        r as nat == be64(s@, i as int),
{
    let _n = s.len();
    let hi = read_be32(s, i);
    let lo = read_be32(s, i + 4);
    (hi as u64) * 4294967296 + (lo as u64)
}

// ───────────────────────── message types ─────────────────────────

/// BMP message types (RFC 7854 Sections 3.3–3.8 and 8).
#[derive(Debug, Clone, Copy, PartialEq, Eq, Structural)]
pub enum BmpMessageType {
    RouteMonitoring,
    StatisticsReport,
    PeerDownNotification,
    PeerUpNotification,
    InitiationMessage,
    TerminationMessage,
    RouteMirroringMessage,
}

/// The message type registered under a type code, if any.
pub open spec fn type_of_code(v: u8) -> Option<BmpMessageType> {
    if v == 0 {
        Some(BmpMessageType::RouteMonitoring)
    } else if v == 1 {
        Some(BmpMessageType::StatisticsReport)
    } else if v == 2 {
        Some(BmpMessageType::PeerDownNotification)
    } else if v == 3 {
        Some(BmpMessageType::PeerUpNotification)
    } else if v == 4 {
        Some(BmpMessageType::InitiationMessage)
    } else if v == 5 {
        Some(BmpMessageType::TerminationMessage)
    } else if v == 6 {
        Some(BmpMessageType::RouteMirroringMessage)
    } else {
        None
    }
}

/// The type code of a message type.
pub open spec fn code_of_type(t: BmpMessageType) -> u8 {
    match t {
        BmpMessageType::RouteMonitoring => 0,
        BmpMessageType::StatisticsReport => 1,
        BmpMessageType::PeerDownNotification => 2,
        BmpMessageType::PeerUpNotification => 3,
        BmpMessageType::InitiationMessage => 4,
        BmpMessageType::TerminationMessage => 5,
        BmpMessageType::RouteMirroringMessage => 6,
    }
}

/// The display name of a message type.
pub open spec fn message_type_name(t: BmpMessageType) -> Seq<char> {
    match t {
        BmpMessageType::RouteMonitoring => "RouteMonitoring"@,
        BmpMessageType::StatisticsReport => "StatisticsReport"@,
        BmpMessageType::PeerDownNotification => "PeerDownNotification"@,
        BmpMessageType::PeerUpNotification => "PeerUpNotification"@,
        BmpMessageType::InitiationMessage => "InitiationMessage"@,
        BmpMessageType::TerminationMessage => "TerminationMessage"@,
        BmpMessageType::RouteMirroringMessage => "RouteMirroringMessage"@,
    }
}

/// Whether a message of this type carries a Per-Peer Header (RFC 7854, Section 4.2).
pub open spec fn carries_per_peer_header(t: BmpMessageType) -> bool {
    !(t is InitiationMessage || t is TerminationMessage)
}

impl BmpMessageType {
    /// The message type registered under `v`, or `None` for codes outside 0–6.
    pub fn from_u8(v: u8) -> (r: Option<Self>)
        ensures
            r == type_of_code(v),
            r matches Some(t) ==> code_of_type(t) == v,
    {
        match v {
            0 => Some(BmpMessageType::RouteMonitoring),
            1 => Some(BmpMessageType::StatisticsReport),
            2 => Some(BmpMessageType::PeerDownNotification),
            3 => Some(BmpMessageType::PeerUpNotification),
            4 => Some(BmpMessageType::InitiationMessage),
            5 => Some(BmpMessageType::TerminationMessage),
            6 => Some(BmpMessageType::RouteMirroringMessage),
            _ => None,
        }
    }

    /// The display name of this type.
    pub fn as_str(&self) -> (r: &'static str)
        ensures
            r@ == message_type_name(*self),
    {
        match self {
            BmpMessageType::RouteMonitoring => "RouteMonitoring",
            BmpMessageType::StatisticsReport => "StatisticsReport",
            BmpMessageType::PeerDownNotification => "PeerDownNotification",
            BmpMessageType::PeerUpNotification => "PeerUpNotification",
            BmpMessageType::InitiationMessage => "InitiationMessage",
            BmpMessageType::TerminationMessage => "TerminationMessage",
            BmpMessageType::RouteMirroringMessage => "RouteMirroringMessage",
        }
    }

    /// Whether messages of this type carry a Per-Peer Header.
    pub fn has_per_peer_header(self) -> (r: bool)
        ensures
            r == carries_per_peer_header(self),
    {
        match self {
            BmpMessageType::InitiationMessage | BmpMessageType::TerminationMessage => false,
            _ => true,
        }
    }
}

// ───────────────────────── per-peer header ─────────────────────────

/// Per-Peer Header fields (RFC 7854, Section 3.2).
#[derive(Debug, Clone)]
pub struct PerPeerHeader {
    /// 0 = Global Instance, 1 = RD Instance, 2 = Local Instance.
    pub peer_type: u8,
    /// Bit 7 (0x80): the peer address is IPv6.
    pub peer_flags: u8,
    pub peer_distinguisher: [u8; 8],
    /// IPv4 addresses sit in the last four bytes.
    pub peer_address: [u8; 16],
    pub peer_asn: u32,
    pub peer_bgp_id: [u8; 4],
    pub timestamp_seconds: u32,
    pub timestamp_microseconds: u32,
}

/// Abstract value of a [`PerPeerHeader`].
pub struct PerPeerHeaderV {
    pub peer_type: u8,
    pub peer_flags: u8,
    pub peer_distinguisher: Seq<u8>,
    pub peer_address: Seq<u8>,
    pub peer_asn: u32,
    pub peer_bgp_id: Seq<u8>,
    pub timestamp_seconds: u32,
    pub timestamp_microseconds: u32,
}

impl View for PerPeerHeader {
    type V = PerPeerHeaderV;

    open spec fn view(&self) -> PerPeerHeaderV {
        PerPeerHeaderV {
            peer_type: self.peer_type,
            peer_flags: self.peer_flags,
            peer_distinguisher: self.peer_distinguisher@,
            peer_address: self.peer_address@,
            peer_asn: self.peer_asn,
            peer_bgp_id: self.peer_bgp_id@,
            timestamp_seconds: self.timestamp_seconds,
            timestamp_microseconds: self.timestamp_microseconds,
        }
    }
}

/// The Per-Peer Header at the start of `s`, if `s` is long enough to hold one.
pub open spec fn spec_pph(s: Seq<u8>) -> Option<PerPeerHeaderV> {
    if s.len() < 42 {
        None
    } else {
        Some(
            PerPeerHeaderV {
                peer_type: s[0],
                peer_flags: s[1],
                peer_distinguisher: s.subrange(2, 10),
                peer_address: s.subrange(10, 26),
                peer_asn: be32(s, 26) as u32,
                peer_bgp_id: s.subrange(30, 34),
                timestamp_seconds: be32(s, 34) as u32,
                timestamp_microseconds: be32(s, 38) as u32,
            },
        )
    }
}

/// The V flag of the peer flags: the address is IPv6.
pub open spec fn is_v6_flags(flags: u8) -> bool {
    flags & 0x80u8 != 0
}

/// Text of a 16-byte IPv6 address: eight colon-separated groups of four
/// lower-case hex digits.
pub open spec fn ipv6_text(a: Seq<u8>) -> Seq<char> {
    hex2(a[0]) + hex2(a[1]) + ":"@ + hex2(a[2]) + hex2(a[3]) + ":"@ + hex2(a[4]) + hex2(a[5])
        + ":"@ + hex2(a[6]) + hex2(a[7]) + ":"@ + hex2(a[8]) + hex2(a[9]) + ":"@ + hex2(a[10])
        + hex2(a[11]) + ":"@ + hex2(a[12]) + hex2(a[13]) + ":"@ + hex2(a[14]) + hex2(a[15])
}

/// Dotted-quad text of the IPv4 address held in bytes 12–15.
pub open spec fn ipv4_text(a: Seq<u8>) -> Seq<char> {
    dec_str(a[12] as nat) + "."@ + dec_str(a[13] as nat) + "."@ + dec_str(a[14] as nat) + "."@
        + dec_str(a[15] as nat)
}

/// Text of the peer address.
pub open spec fn peer_ip_text(h: PerPeerHeaderV) -> Seq<char> {
    if is_v6_flags(h.peer_flags) {
        ipv6_text(h.peer_address)
    } else {
        ipv4_text(h.peer_address)
    }
}

/// The text of an IPv4 peer reads back, as a dotted quad, as the address
/// held in bytes 12 to 15 of the peer address, in that order: its four
/// fields are those four bytes, written in decimal.
pub proof fn law_ipv4_peer_text_reads_back(h: PerPeerHeaderV)
    requires
        !is_v6_flags(h.peer_flags),
    ensures
        v4_quad(peer_ip_text(h)) == Some(
            (h.peer_address[12] * 16777216 + h.peer_address[13] * 65536 + h.peer_address[14] * 256
                + h.peer_address[15]) as u32,
        ),
        split_on(peer_ip_text(h), '.').len() == 4,
        forall|i: int|
            0 <= i < 4 ==> v4_octet(#[trigger] split_on(peer_ip_text(h), '.')[i]) == Some(h.peer_address[12 + i]),
{
    reveal_strlit(".");
    let a = h.peer_address;
    assert(peer_ip_text(h) =~= quad_text(a[12], a[13], a[14], a[15]));
    law_quad_text_reads_back(a[12], a[13], a[14], a[15]);
    lemma_quad_text_pieces(a[12], a[13], a[14], a[15]);
    lemma_octet_reads_back(a[12]);
    lemma_octet_reads_back(a[13]);
    lemma_octet_reads_back(a[14]);
    lemma_octet_reads_back(a[15]);
}

impl PerPeerHeader {
    /// Decodes the 42-byte Per-Peer Header at the start of `data`; `None`
    /// when fewer than 42 bytes are given.
    pub fn parse(data: &[u8]) -> (r: Option<Self>)
        ensures
            match r {
                Some(h) => spec_pph(data@) == Some(h@),
                None => spec_pph(data@) is None,
            },
    {
        if data.len() < BMP_PER_PEER_HEADER_SIZE {
            return None;
        }
        let peer_distinguisher = [
            data[2],
            data[3],
            data[4],
            data[5],
            data[6],
            data[7],
            data[8],
            data[9],
        ];
        let peer_address = [
            data[10],
            data[11],
            data[12],
            data[13],
            data[14],
            data[15],
            data[16],
            data[17],
            data[18],
            data[19],
            data[20],
            data[21],
            data[22],
            data[23],
            data[24],
            data[25],
        ];
        let peer_bgp_id = [data[30], data[31], data[32], data[33]];
        let h = PerPeerHeader {
            peer_type: data[0],
            peer_flags: data[1],
            peer_distinguisher,
            peer_address,
            peer_asn: read_be32(data, 26),
            peer_bgp_id,
            timestamp_seconds: read_be32(data, 34),
            timestamp_microseconds: read_be32(data, 38),
        };
        proof {
            assert(h@.peer_distinguisher =~= data@.subrange(2, 10));
            assert(h@.peer_address =~= data@.subrange(10, 26));
            assert(h@.peer_bgp_id =~= data@.subrange(30, 34));
        }
        Some(h)
    }

    /// Whether the peer address is IPv6 (V flag, bit 7 of the peer flags).
    pub fn is_ipv6(&self) -> (r: bool)
        ensures
            r == is_v6_flags(self.peer_flags),
    {
        (self.peer_flags & 0x80) != 0
    }

    /// Text of the peer address: eight hex groups for IPv6, a dotted quad
    /// of the last four bytes for IPv4.
    pub fn peer_ip(&self) -> (r: String)
        ensures
            r@ == peer_ip_text(self@),
    {
        let a = &self.peer_address;
        let mut s = String::new();
        if self.is_ipv6() {
            let mut i: usize = 0;
            while i < 8
                invariant
                    i <= 8,
                    a@.len() == 16,
                    s@ == ipv6_prefix(a@, i as nat),
                decreases 8 - i,
            {
                let ghost before = s@;
                if i > 0 {
                    push_char(&mut s, ':');
                }
                append_hex2(&mut s, a[2 * i]);
                append_hex2(&mut s, a[2 * i + 1]);
                proof {
                    reveal_strlit(":");
                    if i > 0 {
                        assert(s@ =~= ipv6_prefix(a@, (i + 1) as nat));
                    } else {
                        assert(s@ =~= ipv6_prefix(a@, (i + 1) as nat));
                    }
                }
                i = i + 1;
            }
            proof {
                reveal_strlit(":");
                reveal_with_fuel(ipv6_prefix, 9);
                assert(s@ =~= ipv6_text(a@));
            }
        } else {
            append_decimal(&mut s, a[12] as u64);
            push_char(&mut s, '.');
            append_decimal(&mut s, a[13] as u64);
            push_char(&mut s, '.');
            append_decimal(&mut s, a[14] as u64);
            push_char(&mut s, '.');
            append_decimal(&mut s, a[15] as u64);
            proof {
                reveal_strlit(".");
                assert(s@ =~= ipv4_text(a@));
            }
        }
        s
    }
}

/// The first `k` groups of the IPv6 text.
pub open spec fn ipv6_prefix(a: Seq<u8>, k: nat) -> Seq<char>
    decreases k,
{
    if k == 0 {
        Seq::empty()
    } else if k == 1 {
        hex2(a[0]) + hex2(a[1])
    } else {
        ipv6_prefix(a, (k - 1) as nat) + ":"@ + hex2(a[2 * (k - 1)]) + hex2(a[2 * (k - 1) + 1])
    }
}


// ───────────────────────── reason and type names ─────────────────────────

/// Known Stats Report stat type names (RFC 7854 + IANA BMP Parameters).
pub open spec fn stat_name_of(t: u16) -> Seq<char> {
    if t == 0 { "Prefixes rejected by inbound policy"@ }
    else if t == 1 { "Duplicate prefix advertisements received"@ }
    else if t == 2 { "Duplicate withdraws received"@ }
    else if t == 3 { "Updates invalidated due to CLUSTER_LIST loop"@ }
    else if t == 4 { "Updates invalidated due to AS_PATH loop detection"@ }
    else if t == 5 { "Updates invalidated due to ORIGINATOR_ID"@ }
    else if t == 6 { "Updates invalidated due to AS_CONFED loop detection"@ }
    else if t == 7 { "Routes in Adj-RIBs-In"@ }
    else if t == 8 { "Routes in Loc-RIB"@ }
    else if t == 9 { "Routes in per-AFI/SAFI Adj-RIB-In"@ }
    else if t == 10 { "Routes in per-AFI/SAFI Loc-RIB"@ }
    else if t == 11 { "Updates subjected to AS_PATH update treatment"@ }
    else if t == 12 { "Prefixes subjected to AS_PATH update treatment"@ }
    else if t == 13 { "Duplicate updates"@ }
    else { "Unknown"@ }
}

fn stat_type_name(t: u16) -> (r: &'static str)
    ensures
        r@ == stat_name_of(t),
{
    match t {
        0 => "Prefixes rejected by inbound policy",
        1 => "Duplicate prefix advertisements received",
        2 => "Duplicate withdraws received",
        3 => "Updates invalidated due to CLUSTER_LIST loop",
        4 => "Updates invalidated due to AS_PATH loop detection",
        5 => "Updates invalidated due to ORIGINATOR_ID",
        6 => "Updates invalidated due to AS_CONFED loop detection",
        7 => "Routes in Adj-RIBs-In",
        8 => "Routes in Loc-RIB",
        9 => "Routes in per-AFI/SAFI Adj-RIB-In",
        10 => "Routes in per-AFI/SAFI Loc-RIB",
        11 => "Updates subjected to AS_PATH update treatment",
        12 => "Prefixes subjected to AS_PATH update treatment",
        13 => "Duplicate updates",
        _ => "Unknown",
    }
}

/// Known Initiation TLV type names.
pub open spec fn init_tlv_name_of(t: u16) -> Seq<char> {
    if t == 0 { "String"@ }
    else if t == 1 { "sysDescr"@ }
    else if t == 2 { "sysName"@ }
    else { "Unknown"@ }
}

fn init_tlv_name(t: u16) -> (r: &'static str)
    ensures
        r@ == init_tlv_name_of(t),
{
    match t {
        0 => "String",
        1 => "sysDescr",
        2 => "sysName",
        _ => "Unknown",
    }
}

/// Peer Down reason code names (RFC 7854 Section 3.5 + IANA BMP Parameters).
pub open spec fn peer_down_reason_of(code: u8) -> Seq<char> {
    if code == 0 { "Reserved"@ }
    else if code == 1 { "Local system closed, NOTIFICATION sent"@ }
    else if code == 2 { "Local system closed, no NOTIFICATION"@ }
    else if code == 3 { "Remote system closed, NOTIFICATION received"@ }
    else if code == 4 { "Remote system closed, no data"@ }
    else if code == 5 { "Peer de-configured"@ }
    else if code == 6 { "Local system closed, session termination (NOTIFICATION sent)"@ }
    else if code == 7 { "Local system closed, session termination (no NOTIFICATION)"@ }
    else { "Unknown"@ }
}

/// The name of a Peer Down reason code; "Unknown" outside the registry.
pub fn peer_down_reason_name(code: u8) -> (r: &'static str)
    ensures
        r@ == peer_down_reason_of(code),
{
    match code {
        0 => "Reserved",
        1 => "Local system closed, NOTIFICATION sent",
        2 => "Local system closed, no NOTIFICATION",
        3 => "Remote system closed, NOTIFICATION received",
        4 => "Remote system closed, no data",
        5 => "Peer de-configured",
        6 => "Local system closed, session termination (NOTIFICATION sent)",
        7 => "Local system closed, session termination (no NOTIFICATION)",
        _ => "Unknown",
    }
}

/// Termination reason code names (RFC 7854 Section 3.8 + IANA BMP Parameters).
pub open spec fn termination_reason_of(code: u16) -> Seq<char> {
    if code == 0 { "Reserved"@ }
    else if code == 1 { "Administratively prohibited"@ }
    else if code == 2 { "Administratively closed"@ }
    else if code == 3 { "Unspecified"@ }
    else if code == 4 { "Out of resources"@ }
    else if code == 5 { "Redundant connection"@ }
    else if code == 6 { "Permanently administratively prohibited"@ }
    else { "Unknown"@ }
}

/// The name of a Termination reason code; "Unknown" outside the registry.
pub fn termination_reason_name(code: u16) -> (r: &'static str)
    ensures
        r@ == termination_reason_of(code),
{
    match code {
        0 => "Reserved",
        1 => "Administratively prohibited",
        2 => "Administratively closed",
        3 => "Unspecified",
        4 => "Out of resources",
        5 => "Redundant connection",
        6 => "Permanently administratively prohibited",
        _ => "Unknown",
    }
}

// ───────────────────────── Statistics Report ─────────────────────────

/// Peer Down Notification reason (RFC 7854, Section 3.5).
#[derive(Debug, Clone)]
pub struct PeerDownInfo {
    pub reason_code: u8,
    pub reason_name: String,
}

/// Abstract value of a [`PeerDownInfo`].
pub struct PeerDownInfoV {
    pub reason_code: u8,
    pub reason_name: Seq<char>,
}

impl View for PeerDownInfo {
    type V = PeerDownInfoV;

    open spec fn view(&self) -> PeerDownInfoV {
        PeerDownInfoV { reason_code: self.reason_code, reason_name: self.reason_name@ }
    }
}

/// A single statistic entry from a Stats Report message.
#[derive(Debug, Clone)]
pub struct StatsEntry {
    pub stat_type: u16,
    pub stat_name: String,
    pub stat_value: u64,
}

/// Abstract value of a [`StatsEntry`].
pub struct StatsEntryV {
    pub stat_type: u16,
    pub stat_name: Seq<char>,
    pub stat_value: u64,
}

impl View for StatsEntry {
    type V = StatsEntryV;

    open spec fn view(&self) -> StatsEntryV {
        StatsEntryV { stat_type: self.stat_type, stat_name: self.stat_name@, stat_value: self.stat_value }
    }
}

/// Stats Report information (RFC 7854, Section 3.4).
#[derive(Debug, Clone)]
pub struct StatsInfo {
    pub entries: Vec<StatsEntry>,
}

impl View for StatsInfo {
    type V = Seq<StatsEntryV>;

    open spec fn view(&self) -> Seq<StatsEntryV> {
        self.entries@.map_values(|e: StatsEntry| e@)
    }
}

/// The value of a statistic: a 4- or 8-byte big-endian counter, otherwise
/// the length of the value field.
pub open spec fn stat_value_of(v: Seq<u8>) -> u64 {
    if v.len() == 4 {
        be32(v, 0) as u64
    } else if v.len() == 8 {
        be64(v, 0) as u64
    } else {
        v.len() as u64
    }
}

/// Entries of a Stats Report body from byte `pos`, reading at most `count`
/// entries and stopping at the first one that does not fit.
pub open spec fn stats_from(p: Seq<u8>, pos: int, count: nat) -> Seq<StatsEntryV>
    decreases count,
{
    if count == 0 || pos < 0 || pos + 4 > p.len() {
        Seq::empty()
    } else {
        let t = be16(p, pos);
        let l = be16(p, pos + 2);
        if pos + 4 + l > p.len() {
            Seq::empty()
        } else {
            seq![
                StatsEntryV {
                    stat_type: t as u16,
                    stat_name: stat_name_of(t as u16),
                    stat_value: stat_value_of(p.subrange(pos + 4, pos + 4 + l)),
                },
            ] + stats_from(p, pos + 4 + l, (count - 1) as nat)
        }
    }
}

/// The decoded Stats Report body (after the Per-Peer Header): `None` when
/// shorter than the 4-byte count or when no entry could be read.
pub open spec fn spec_stats(p: Seq<u8>) -> Option<Seq<StatsEntryV>> {
    if p.len() < 4 {
        None
    } else {
        let e = stats_from(p, 4, be32(p, 0));
        if e.len() == 0 {
            None
        } else {
            Some(e)
        }
    }
}

proof fn lemma_stats_from_step(p: Seq<u8>, pos: int, count: nat)
    requires
        count > 0,
        0 <= pos,
        pos + 4 <= p.len(),
        pos + 4 + be16(p, pos + 2) <= p.len(),
    ensures
        stats_from(p, pos, count) == seq![
            StatsEntryV {
                stat_type: be16(p, pos) as u16,
                stat_name: stat_name_of(be16(p, pos) as u16),
                stat_value: stat_value_of(p.subrange(pos + 4, pos + 4 + be16(p, pos + 2))),
            },
        ] + stats_from(p, pos + 4 + be16(p, pos + 2), (count - 1) as nat),
{
}

fn stat_value(v: &[u8]) -> (r: u64)
    ensures
        r == stat_value_of(v@),
{
    if v.len() == 4 {
        read_be32(v, 0) as u64
    } else if v.len() == 8 {
        read_be64(v, 0)
    } else {
        v.len() as u64
    }
}

/// Decodes a Stats Report body: Stats Count (4) then entries of Stat Type (2),
/// Stat Len (2) and value.
fn parse_stats(payload: &[u8]) -> (r: Option<StatsInfo>)
    ensures
        match r {
            Some(info) => spec_stats(payload@) == Some(info@),
            None => spec_stats(payload@) is None,
        },
{
    let n = payload.len();
    if n < 4 {
        return None;
    }
    let stats_count = read_be32(payload, 0);
    let mut entries: Vec<StatsEntry> = Vec::new();
    let mut pos: usize = 4;
    let mut k: u32 = 0;
    let ghost total = stats_from(payload@, 4, stats_count as nat);
    while k < stats_count
        invariant_except_break
            n == payload@.len(),
            4 <= pos <= n,
            k <= stats_count,
            total == stats_from(payload@, 4, stats_count as nat),
            total == entries@.map_values(|e: StatsEntry| e@) + stats_from(payload@, pos as int, (stats_count - k) as nat),
        ensures
            total == entries@.map_values(|e: StatsEntry| e@),
        decreases stats_count - k,
    {
        if n - pos < 4 {
            proof {
                assert(entries@.map_values(|e: StatsEntry| e@) + Seq::<StatsEntryV>::empty() =~= entries@.map_values(|e: StatsEntry| e@));
            }
            break;
        }
        let stat_type = read_be16(payload, pos);
        let stat_len = read_be16(payload, pos + 2) as usize;
        if stat_len > n - pos - 4 {
            proof {
                assert(entries@.map_values(|e: StatsEntry| e@) + Seq::<StatsEntryV>::empty() =~= entries@.map_values(|e: StatsEntry| e@));
            }
            break;
        }
        let data = vstd::slice::slice_subrange(payload, pos + 4, pos + 4 + stat_len);
        let value = stat_value(data);
        let name = stat_type_name(stat_type);
        let entry = StatsEntry { stat_type, stat_name: String::from_str(name), stat_value: value };
        proof {
            lemma_stats_from_step(payload@, pos as int, (stats_count - k) as nat);
        }
        let ghost before = entries@;
        entries.push(entry);
        proof {
            assert(entries@.map_values(|e: StatsEntry| e@) =~= before.map_values(|e: StatsEntry| e@).push(entry@));
            assert((stats_count - k - 1) as nat == (stats_count - (k + 1)) as nat);
        }
        pos = pos + 4 + stat_len;
        k = k + 1;
    }
    if entries.len() == 0 {
        None
    } else {
        let info = StatsInfo { entries };
        Some(info)
    }
}


// ───────────────────────── Information TLVs ─────────────────────────

/// `s` without its trailing NUL characters.
pub open spec fn trim_nul_end(s: Seq<char>) -> Seq<char>
    decreases s.len(),
{
    if s.len() > 0 && s.last() == '\0' {
        trim_nul_end(s.drop_last())
    } else {
        s
    }
}

proof fn lemma_trim_nul_end(s: Seq<char>, k: int)
    requires
        0 <= k <= s.len(),
        forall|j: int| k <= j < s.len() ==> s[j] == '\0',
        k == 0 || s[k - 1] != '\0',
    ensures
        trim_nul_end(s) == s.subrange(0, k),
    decreases s.len(),
{
    if s.len() > k {
        lemma_trim_nul_end(s.drop_last(), k);
    } else {
        assert(s.subrange(0, k) =~= s);
    }
}

/// Removes trailing NUL characters.
fn trim_nul(s: String) -> (r: String)
    ensures
        r@ == trim_nul_end(s@),
{
    let n = s.as_str().unicode_len();
    let mut k = n;
    while k > 0 && s.as_str().get_char(k - 1) == '\0'
        invariant
            n == s@.len(),
            k <= n,
            forall|j: int| k <= j < n ==> s@[j] == '\0',
        decreases k,
    {
        k = k - 1;
    }
    proof {
        lemma_trim_nul_end(s@, k as int);
    }
    String::from_str(s.as_str().substring_char(0, k))
}

/// An information string from an Initiation or Termination TLV.
#[derive(Debug, Clone)]
pub struct TlvString {
    pub tlv_type: u16,
    pub tlv_type_name: String,
    pub value: String,
}

/// Abstract value of a [`TlvString`].
pub struct TlvStringV {
    pub tlv_type: u16,
    pub tlv_type_name: Seq<char>,
    pub value: Seq<char>,
}

impl View for TlvString {
    type V = TlvStringV;

    open spec fn view(&self) -> TlvStringV {
        TlvStringV { tlv_type: self.tlv_type, tlv_type_name: self.tlv_type_name@, value: self.value@ }
    }
}

/// BMP Information TLVs of an Initiation or Termination message
/// (RFC 7854, Sections 3.7–3.8).
#[derive(Debug, Clone)]
pub struct TlvInfo {
    /// Information strings (sysDescr, sysName, ...).
    pub strings: Vec<TlvString>,
    /// Termination reason code (type 1, 2-byte value), if present.
    pub termination_reason: Option<u16>,
}

/// Abstract value of a [`TlvInfo`].
pub struct TlvInfoV {
    pub strings: Seq<TlvStringV>,
    pub termination_reason: Option<u16>,
}

impl View for TlvInfo {
    type V = TlvInfoV;

    open spec fn view(&self) -> TlvInfoV {
        TlvInfoV {
            strings: self.strings@.map_values(|t: TlvString| t@),
            termination_reason: self.termination_reason,
        }
    }
}

/// Text shown for an Initiation TLV value that is not UTF-8.
pub open spec fn non_utf8_text(len: nat) -> Seq<char> {
    "(non-UTF8, "@ + dec_str(len) + " bytes)"@
}

/// What one TLV of type `t` with value `v` contributes: information strings
/// and a termination reason.
pub open spec fn tlv_item(t: u16, v: Seq<u8>, initiation: bool) -> (Seq<TlvStringV>, Option<u16>) {
    if initiation {
        (
            seq![
                TlvStringV {
                    tlv_type: t,
                    tlv_type_name: init_tlv_name_of(t),
                    value: if valid_utf8(v) {
                        trim_nul_end(decode_utf8(v))
                    } else {
                        non_utf8_text(v.len())
                    },
                },
            ],
            None,
        )
    } else if t == 1 && v.len() >= 2 {
        (Seq::empty(), Some(be16(v, 0) as u16))
    } else if valid_utf8(v) {
        (
            seq![
                TlvStringV {
                    tlv_type: t,
                    tlv_type_name: if t == 0 { "String"@ } else { "Unknown"@ },
                    value: trim_nul_end(decode_utf8(v)),
                },
            ],
            None,
        )
    } else {
        (Seq::empty(), None)
    }
}

/// The TLVs of `p` from byte `pos` on, stopping at the first truncated one;
/// a later termination reason replaces an earlier one.
pub open spec fn tlv_from(p: Seq<u8>, pos: int, initiation: bool) -> (Seq<TlvStringV>, Option<u16>)
    decreases p.len() - pos,
{
    if pos < 0 || pos + 4 > p.len() {
        (Seq::empty(), None)
    } else {
        let t = be16(p, pos) as u16;
        let l = be16(p, pos + 2);
        if pos + 4 + l > p.len() {
            (Seq::empty(), None)
        } else {
            let here = tlv_item(t, p.subrange(pos + 4, pos + 4 + l), initiation);
            let rest = tlv_from(p, pos + 4 + l, initiation);
            (here.0 + rest.0, if rest.1 is Some { rest.1 } else { here.1 })
        }
    }
}

/// The decoded TLVs of an Initiation (`initiation`) or Termination message
/// body: `None` when shorter than one TLV header or when nothing was found.
pub open spec fn spec_tlvs(p: Seq<u8>, initiation: bool) -> Option<TlvInfoV> {
    if p.len() < 4 {
        None
    } else {
        let r = tlv_from(p, 0, initiation);
        if r.0.len() == 0 && r.1 is None {
            None
        } else {
            Some(TlvInfoV { strings: r.0, termination_reason: r.1 })
        }
    }
}

fn tlv_entry(t: u16, v: &[u8], initiation: bool) -> (r: (Option<TlvString>, Option<u16>))
    ensures
        ({
            let item = tlv_item(t, v@, initiation);
            &&& (match r.0 {
                Some(ts) => item.0 == seq![ts@],
                None => item.0.len() == 0,
            })
            &&& r.1 == item.1
        }),
{
    if initiation {
        let tlv_type_name = String::from_str(init_tlv_name(t));
        let value = match utf8_or_none(v) {
            Some(text) => trim_nul(text),
            None => {
                let mut m = String::from_str("(non-UTF8, ");
                append_decimal(&mut m, v.len() as u64);
                m.append(" bytes)");
                m
            },
        };
        (Some(TlvString { tlv_type: t, tlv_type_name, value }), None)
    } else if t == 1 && v.len() >= 2 {
        (None, Some(read_be16(v, 0)))
    } else {
        match utf8_or_none(v) {
            Some(text) => {
                let tlv_type_name = if t == 0 {
                    String::from_str("String")
                } else {
                    String::from_str("Unknown")
                };
                (Some(TlvString { tlv_type: t, tlv_type_name, value: trim_nul(text) }), None)
            },
            None => (None, None),
        }
    }
}

/// Decodes Information TLVs: Type (2) + Length (2) + Value, for Initiation
/// and Termination messages.
fn parse_tlvs(payload: &[u8], msg_type: BmpMessageType) -> (r: Option<TlvInfo>)
    requires
        msg_type is InitiationMessage || msg_type is TerminationMessage,
    ensures
        match r {
            Some(info) => spec_tlvs(payload@, msg_type is InitiationMessage) == Some(info@),
            None => spec_tlvs(payload@, msg_type is InitiationMessage) is None,
        },
{
    let n = payload.len();
    if n < 4 {
        return None;
    }
    let initiation = match msg_type {
        BmpMessageType::InitiationMessage => true,
        _ => false,
    };
    let mut strings: Vec<TlvString> = Vec::new();
    let mut termination_reason: Option<u16> = None;
    let mut pos: usize = 0;
    let ghost total = tlv_from(payload@, 0, initiation);
    loop
        invariant_except_break
            n == payload@.len(),
            pos <= n,
            total == tlv_from(payload@, 0, initiation),
            ({
                let rest = tlv_from(payload@, pos as int, initiation);
                &&& total.0 == strings@.map_values(|t: TlvString| t@) + rest.0
                &&& total.1 == (if rest.1 is Some { rest.1 } else { termination_reason })
            }),
        ensures
            total.0 == strings@.map_values(|t: TlvString| t@),
            total.1 == termination_reason,
        decreases n - pos,
    {
        if n - pos < 4 {
            proof {
                assert(strings@.map_values(|t: TlvString| t@) + Seq::<TlvStringV>::empty() =~= strings@.map_values(|t: TlvString| t@));
            }
            break;
        }
        let tlv_type = read_be16(payload, pos);
        let tlv_len = read_be16(payload, pos + 2) as usize;
        if tlv_len > n - pos - 4 {
            proof {
                assert(strings@.map_values(|t: TlvString| t@) + Seq::<TlvStringV>::empty() =~= strings@.map_values(|t: TlvString| t@));
            }
            break;
        }
        let value = vstd::slice::slice_subrange(payload, pos + 4, pos + 4 + tlv_len);
        let (entry, reason) = tlv_entry(tlv_type, value, initiation);
        let ghost before = strings@;
        match entry {
            Some(ts) => {
                strings.push(ts);
            },
            None => {},
        }
        if reason.is_some() {
            termination_reason = reason;
        }
        proof {
            let item = tlv_item(tlv_type, payload@.subrange(pos + 4, pos + 4 + tlv_len), initiation);
            assert(strings@.map_values(|t: TlvString| t@) =~= before.map_values(|t: TlvString| t@) + item.0);
        }
        pos = pos + 4 + tlv_len;
    }
    if strings.len() == 0 && termination_reason.is_none() {
        None
    } else {
        Some(TlvInfo { strings, termination_reason })
    }
}


// ───────────────────────── frames ─────────────────────────

/// A decoded BMP message.
#[derive(Debug, Clone)]
pub struct RawBmpFrame {
    /// Byte offset of the frame in its source.
    pub offset: u64,
    pub version: u8,
    pub msg_len: u32,
    pub msg_type_raw: u8,
    pub msg_type: Option<BmpMessageType>,
    pub per_peer_header: Option<PerPeerHeader>,
    /// The bytes after the common header.
    pub payload: Vec<u8>,
    /// The whole frame, common header included.
    pub full_data: Vec<u8>,
    /// Information TLVs, for Initiation and Termination messages.
    pub tlv_info: Option<TlvInfo>,
    /// Stats Report entries, for Statistics Report messages.
    pub stats_info: Option<StatsInfo>,
    /// Peer Down reason, for Peer Down Notifications.
    pub peer_down_info: Option<PeerDownInfo>,
}

/// Abstract value of a [`RawBmpFrame`].
pub struct RawBmpFrameV {
    pub offset: u64,
    pub version: u8,
    pub msg_len: u32,
    pub msg_type_raw: u8,
    pub msg_type: Option<BmpMessageType>,
    pub per_peer_header: Option<PerPeerHeaderV>,
    pub payload: Seq<u8>,
    pub full_data: Seq<u8>,
    pub tlv_info: Option<TlvInfoV>,
    pub stats_info: Option<Seq<StatsEntryV>>,
    pub peer_down_info: Option<PeerDownInfoV>,
}

impl View for RawBmpFrame {
    type V = RawBmpFrameV;

    open spec fn view(&self) -> RawBmpFrameV {
        RawBmpFrameV {
            offset: self.offset,
            version: self.version,
            msg_len: self.msg_len,
            msg_type_raw: self.msg_type_raw,
            msg_type: self.msg_type,
            per_peer_header: match self.per_peer_header {
                Some(h) => Some(h@),
                None => None,
            },
            payload: self.payload@,
            full_data: self.full_data@,
            tlv_info: match self.tlv_info {
                Some(t) => Some(t@),
                None => None,
            },
            stats_info: match self.stats_info {
                Some(st) => Some(st@),
                None => None,
            },
            peer_down_info: match self.peer_down_info {
                Some(pd) => Some(pd@),
                None => None,
            },
        }
    }
}

/// The frame whose complete bytes (common header included) are `fb`, read
/// at source offset `off`.
pub open spec fn frame_of(fb: Seq<u8>, off: u64) -> RawBmpFrameV {
    let mt = type_of_code(fb[5]);
    let payload = fb.subrange(6, fb.len() as int);
    RawBmpFrameV {
        offset: off,
        version: fb[0],
        msg_len: be32(fb, 1) as u32,
        msg_type_raw: fb[5],
        msg_type: mt,
        per_peer_header: match mt {
            Some(t) => if carries_per_peer_header(t) { spec_pph(payload) } else { None },
            None => None,
        },
        payload,
        full_data: fb,
        tlv_info: match mt {
            Some(BmpMessageType::InitiationMessage) => spec_tlvs(payload, true),
            Some(BmpMessageType::TerminationMessage) => spec_tlvs(payload, false),
            _ => None,
        },
        stats_info: match mt {
            Some(BmpMessageType::StatisticsReport) => if payload.len() >= 42 {
                spec_stats(payload.subrange(42, payload.len() as int))
            } else {
                None
            },
            _ => None,
        },
        peer_down_info: match mt {
            Some(BmpMessageType::PeerDownNotification) => if payload.len() > 42 {
                Some(PeerDownInfoV { reason_code: payload[42], reason_name: peer_down_reason_of(payload[42]) })
            } else {
                None
            },
            _ => None,
        },
    }
}

/// Decoding of the frame at the start of `data`, read at source offset `off`.
pub open spec fn spec_frame(data: Seq<u8>, off: u64) -> Result<RawBmpFrameV, DoctorErrorV> {
    if data.len() < 6 {
        Err(DoctorErrorV::Frame(
            "Incomplete BMP common header at offset "@ + dec_str(off as nat) + ": need 6 bytes, have "@
                + dec_str(data.len()),
        ))
    } else if be32(data, 1) < 6 {
        Err(DoctorErrorV::Frame(
            "Invalid BMP message length "@ + dec_str(be32(data, 1)) + " at offset "@ + dec_str(off as nat)
                + ": must be >= 6"@,
        ))
    } else if data.len() < be32(data, 1) {
        Err(DoctorErrorV::Frame(
            "Truncated BMP frame at offset "@ + dec_str(off as nat) + ": declared length "@ + dec_str(
                be32(data, 1),
            ) + " exceeds available "@ + dec_str(data.len()) + " bytes"@,
        ))
    } else {
        Ok(frame_of(data.subrange(0, be32(data, 1) as int), off))
    }
}

/// Decodes the complete frame `fb` (its declared length is its length).
fn frame_from_complete(fb: &[u8], off: u64) -> (r: RawBmpFrame)
    requires
        fb@.len() >= 6,
        be32(fb@, 1) == fb@.len(),
    ensures
        r@ == frame_of(fb@, off),
{
    let total = fb.len();
    let version = fb[0];
    let msg_len = read_be32(fb, 1);
    let msg_type_raw = fb[5];
    let msg_type = BmpMessageType::from_u8(msg_type_raw);
    let payload = vstd::slice::slice_subrange(fb, BMP_COMMON_HEADER_SIZE, total);
    let per_peer_header = match msg_type {
        Some(mt) => if mt.has_per_peer_header() {
            PerPeerHeader::parse(payload)
        } else {
            None
        },
        None => None,
    };
    let tlv_info = match msg_type {
        Some(BmpMessageType::InitiationMessage) => parse_tlvs(payload, BmpMessageType::InitiationMessage),
        Some(BmpMessageType::TerminationMessage) => parse_tlvs(payload, BmpMessageType::TerminationMessage),
        _ => None,
    };
    let stats_info = match msg_type {
        Some(BmpMessageType::StatisticsReport) => if payload.len() >= BMP_PER_PEER_HEADER_SIZE {
            parse_stats(vstd::slice::slice_subrange(payload, BMP_PER_PEER_HEADER_SIZE, payload.len()))
        } else {
            None
        },
        _ => None,
    };
    let peer_down_info = match msg_type {
        Some(BmpMessageType::PeerDownNotification) => if payload.len() > BMP_PER_PEER_HEADER_SIZE {
            let code = payload[BMP_PER_PEER_HEADER_SIZE];
            Some(PeerDownInfo { reason_code: code, reason_name: String::from_str(peer_down_reason_name(code)) })
        } else {
            None
        },
        _ => None,
    };
    let frame = RawBmpFrame {
        offset: off,
        version,
        msg_len,
        msg_type_raw,
        msg_type,
        per_peer_header,
        payload: vstd::slice::slice_to_vec(payload),
        full_data: vstd::slice::slice_to_vec(fb),
        tlv_info,
        stats_info,
        peer_down_info,
    };
    proof {
        assert(frame@.per_peer_header == frame_of(fb@, off).per_peer_header);
        assert(frame@.tlv_info == frame_of(fb@, off).tlv_info);
        assert(frame@.stats_info == frame_of(fb@, off).stats_info);
        assert(frame@.peer_down_info == frame_of(fb@, off).peer_down_info);
    }
    frame
}

/// Decodes the BMP frame at the start of `data`; `file_offset` is where the
/// frame begins in its source. Bytes after the declared length are ignored.
pub fn parse_frame_from_bytes(data: &[u8], file_offset: u64) -> (r: Result<RawBmpFrame, DoctorError>)
    ensures
        match r {
            Ok(f) => spec_frame(data@, file_offset) == Ok::<RawBmpFrameV, DoctorErrorV>(f@),
            Err(e) => spec_frame(data@, file_offset) == Err::<RawBmpFrameV, DoctorErrorV>(e@),
        },
{
    let n = data.len();
    if n < BMP_COMMON_HEADER_SIZE {
        let mut m = String::from_str("Incomplete BMP common header at offset ");
        append_decimal(&mut m, file_offset);
        m.append(": need 6 bytes, have ");
        append_decimal(&mut m, n as u64);
        return Err(DoctorError::Frame(m));
    }
    let msg_len = read_be32(data, 1);
    if msg_len < 6 {
        let mut m = String::from_str("Invalid BMP message length ");
        append_decimal(&mut m, msg_len as u64);
        m.append(" at offset ");
        append_decimal(&mut m, file_offset);
        m.append(": must be >= 6");
        return Err(DoctorError::Frame(m));
    }
    let total = msg_len as usize;
    if n < total {
        let mut m = String::from_str("Truncated BMP frame at offset ");
        append_decimal(&mut m, file_offset);
        m.append(": declared length ");
        append_decimal(&mut m, msg_len as u64);
        m.append(" exceeds available ");
        append_decimal(&mut m, n as u64);
        m.append(" bytes");
        return Err(DoctorError::Frame(m));
    }
    let fb = vstd::slice::slice_subrange(data, 0, total);
    Ok(frame_from_complete(fb, file_offset))
}


// ───────────────────────── concatenated frames ─────────────────────────

/// Text of the failure of a read past the end of the input.
pub open spec fn eof_text() -> Seq<char> {
    "failed to fill whole buffer"@
}

/// Maps a decoding outcome to its abstract value.
pub open spec fn outcome_view(r: Option<Result<RawBmpFrame, DoctorError>>) -> Option<Result<RawBmpFrameV, DoctorErrorV>> {
    match r {
        Some(Ok(f)) => Some(Ok(f@)),
        Some(Err(e)) => Some(Err(e@)),
        None => None,
    }
}

/// One step over concatenated raw frames: from byte `pos` of `data`, with
/// `off` the offset reported for the next frame, gives the outcome, the new
/// position and the new offset.
pub open spec fn raw_step(data: Seq<u8>, pos: nat, off: nat) -> (Option<Result<RawBmpFrameV, DoctorErrorV>>, nat, nat) {
    if pos + 6 > data.len() {
        if off == 0 {
            (Some(Err(DoctorErrorV::Frame("File appears empty or truncated"@))), pos, 1)
        } else {
            (None, pos, off)
        }
    } else {
        let msg_len = be32(data, pos as int + 1);
        if msg_len < 6 {
            (
                Some(Err(DoctorErrorV::Frame(
                    "Invalid BMP message length "@ + dec_str(msg_len) + " at offset "@ + dec_str(off)
                        + ": must be >= 6"@,
                ))),
                pos + 6,
                off + 6,
            )
        } else if msg_len > MAX_FRAME_LEN {
            (Some(Err(DoctorErrorV::Frame(oversized_frame_message(msg_len, off)))), data.len(), off + 6)
        } else if pos + msg_len > data.len() {
            (
                Some(Err(DoctorErrorV::Frame(
                    "Truncated frame at offset "@ + dec_str(off) + ": declared length "@ + dec_str(msg_len)
                        + " exceeds available data: "@ + eof_text(),
                ))),
                data.len(),
                off + 6,
            )
        } else {
            (
                Some(Ok(frame_of(data.subrange(pos as int, (pos + msg_len) as int), off as u64))),
                pos + msg_len,
                off + msg_len,
            )
        }
    }
}

/// Longest BMP message accepted: a declared length above 64 MiB is
/// rejected before anything of that size is read.
pub const MAX_FRAME_LEN: u32 = 67108864;

/// The message for a frame whose declared length exceeds [`MAX_FRAME_LEN`].
pub open spec fn oversized_frame_message(len: nat, off: nat) -> Seq<char> {
    "BMP message length "@ + dec_str(len) + " at offset "@ + dec_str(off) + " exceeds 67108864"@
}

/// A cursor over concatenated raw RFC 7854 frames (a `.rawbmp` capture).
pub struct RawBmpIterator {
    data: Vec<u8>,
    pos: usize,
    offset: u64,
}

impl RawBmpIterator {
    /// The bytes being read.
    pub closed spec fn bytes(&self) -> Seq<u8> {
        self.data@
    }

    /// Position of the next unread byte.
    pub closed spec fn position(&self) -> nat {
        self.pos as nat
    }

    /// Offset reported for the next frame.
    pub closed spec fn next_offset(&self) -> nat {
        self.offset as nat
    }

    /// The cursor's invariant.
    pub closed spec fn wf(&self) -> bool {
        &&& self.pos <= self.data@.len()
        &&& (self.offset <= self.pos || (self.pos == 0 && self.offset == 1 && self.data@.len() < 6))
    }

    /// A well-formed cursor is within its bytes.
    pub proof fn lemma_position(&self)
        requires
            self.wf(),
        ensures
            self.position() <= self.bytes().len(),
    {
    }

    /// A cursor at the start of `data`.
    pub fn from_bytes(data: Vec<u8>) -> (r: Self)
        ensures
            r.wf(),
            r.bytes() == data@,
            r.position() == 0,
            r.next_offset() == 0,
    {
        RawBmpIterator { data, pos: 0, offset: 0 }
    }

    /// Reads the next frame: `None` once the input is exhausted (a tail
    /// shorter than a common header is ignored, except in an input that
    /// yields no frame at all, which gives one error).
    pub fn next_frame(&mut self) -> (r: Option<Result<RawBmpFrame, DoctorError>>)
        requires
            old(self).wf(),
        ensures
            final(self).wf(),
            final(self).bytes() == old(self).bytes(),
            raw_step(old(self).bytes(), old(self).position(), old(self).next_offset()) == (
                outcome_view(r),
                final(self).position(),
                final(self).next_offset(),
            ),
    {
        let n = self.data.len();
        if n - self.pos < BMP_COMMON_HEADER_SIZE {
            if self.offset == 0 {
                self.offset = 1;
                return Some(Err(DoctorError::Frame(String::from_str("File appears empty or truncated"))));
            }
            return None;
        }
        let frame_offset = self.offset;
        let msg_len = read_be32(self.data.as_slice(), self.pos + 1);
        if msg_len < 6 {
            self.pos = self.pos + BMP_COMMON_HEADER_SIZE;
            self.offset = frame_offset + 6;
            let mut m = String::from_str("Invalid BMP message length ");
            append_decimal(&mut m, msg_len as u64);
            m.append(" at offset ");
            append_decimal(&mut m, frame_offset);
            m.append(": must be >= 6");
            return Some(Err(DoctorError::Frame(m)));
        }
        if msg_len > MAX_FRAME_LEN {
            self.pos = n;
            self.offset = frame_offset + 6;
            let mut m = String::from_str("BMP message length ");
            append_decimal(&mut m, msg_len as u64);
            m.append(" at offset ");
            append_decimal(&mut m, frame_offset);
            m.append(" exceeds 67108864");
            proof {
                reveal_strlit(" exceeds 67108864");
                reveal_strlit(" at offset ");
                reveal_strlit("BMP message length ");
            }
            return Some(Err(DoctorError::Frame(m)));
        }
        let total = msg_len as usize;
        if total > n - self.pos {
            self.pos = n;
            self.offset = frame_offset + 6;
            let mut m = String::from_str("Truncated frame at offset ");
            append_decimal(&mut m, frame_offset);
            m.append(": declared length ");
            append_decimal(&mut m, msg_len as u64);
            m.append(" exceeds available data: failed to fill whole buffer");
            proof {
                reveal_strlit(" exceeds available data: failed to fill whole buffer");
                reveal_strlit(" exceeds available data: ");
                reveal_strlit("failed to fill whole buffer");
                assert(" exceeds available data: failed to fill whole buffer"@ =~= " exceeds available data: "@ + eof_text());
                assert(m@ =~= "Truncated frame at offset "@ + dec_str(frame_offset as nat) + ": declared length "@
                    + dec_str(msg_len as nat) + " exceeds available data: "@ + eof_text());
            }
            return Some(Err(DoctorError::Frame(m)));
        }
        let fb = vstd::slice::slice_subrange(self.data.as_slice(), self.pos, self.pos + total);
        let frame = frame_from_complete(fb, frame_offset);
        self.pos = self.pos + total;
        self.offset = frame_offset + msg_len as u64;
        Some(Ok(frame))
    }
}


// ───────────────────────── copies ─────────────────────────

impl PeerDownInfo {
    /// A copy with the same fields.
    pub fn duplicate(&self) -> (r: Self)
        ensures
            r@ == self@,
    {
        PeerDownInfo { reason_code: self.reason_code, reason_name: self.reason_name.clone() }
    }
}

impl StatsInfo {
    /// A copy with the same entries.
    pub fn duplicate(&self) -> (r: Self)
        ensures
            r@ == self@,
    {
        let mut entries: Vec<StatsEntry> = Vec::new();
        let mut i: usize = 0;
        while i < self.entries.len()
            invariant
                i <= self.entries@.len(),
                entries@.map_values(|e: StatsEntry| e@) == self.entries@.subrange(0, i as int).map_values(|e: StatsEntry| e@),
            decreases self.entries@.len() - i,
        {
            let e = &self.entries[i];
            let ne = StatsEntry { stat_type: e.stat_type, stat_name: e.stat_name.clone(), stat_value: e.stat_value };
            let ghost before = entries@;
            entries.push(ne);
            proof {
                assert(entries@.map_values(|e: StatsEntry| e@) =~= before.map_values(|e: StatsEntry| e@).push(ne@));
                assert(ne@ == self.entries@[i as int]@);
                assert(self.entries@.subrange(0, i + 1) =~= self.entries@.subrange(0, i as int).push(self.entries@[i as int]));
                assert(entries@.map_values(|e: StatsEntry| e@) =~= self.entries@.subrange(0, i + 1).map_values(|e: StatsEntry| e@));
            }
            i = i + 1;
        }
        proof {
            assert(self.entries@.subrange(0, self.entries@.len() as int) =~= self.entries@);
        }
        StatsInfo { entries }
    }
}

impl TlvInfo {
    /// A copy with the same strings and reason.
    pub fn duplicate(&self) -> (r: Self)
        ensures
            r@ == self@,
    {
        let mut strings: Vec<TlvString> = Vec::new();
        let mut i: usize = 0;
        while i < self.strings.len()
            invariant
                i <= self.strings@.len(),
                strings@.map_values(|t: TlvString| t@) == self.strings@.subrange(0, i as int).map_values(|t: TlvString| t@),
            decreases self.strings@.len() - i,
        {
            let t = &self.strings[i];
            let nt = TlvString { tlv_type: t.tlv_type, tlv_type_name: t.tlv_type_name.clone(), value: t.value.clone() };
            let ghost before = strings@;
            strings.push(nt);
            proof {
                assert(strings@.map_values(|t: TlvString| t@) =~= before.map_values(|t: TlvString| t@).push(nt@));
                assert(nt@ == self.strings@[i as int]@);
                assert(self.strings@.subrange(0, i + 1) =~= self.strings@.subrange(0, i as int).push(self.strings@[i as int]));
                assert(strings@.map_values(|t: TlvString| t@) =~= self.strings@.subrange(0, i + 1).map_values(|t: TlvString| t@));
            }
            i = i + 1;
        }
        proof {
            assert(self.strings@.subrange(0, self.strings@.len() as int) =~= self.strings@);
        }
        TlvInfo { strings, termination_reason: self.termination_reason }
    }
}


// ───────────────────────── reading frames back ─────────────────────────

/// Frames laid end to end, as in a `.rawbmp` capture.
pub open spec fn frames_bytes(fs: Seq<Seq<u8>>) -> Seq<u8>
    decreases fs.len(),
{
    if fs.len() == 0 {
        Seq::empty()
    } else {
        frames_bytes(fs.drop_last()) + fs.last()
    }
}

/// Position (and offset) of frame `k` in frames laid end to end.
pub open spec fn frame_pos(fs: Seq<Seq<u8>>, k: int) -> nat {
    frames_bytes(fs.take(k)).len()
}

/// A frame whose common header declares its own length, at most
/// [`MAX_FRAME_LEN`].
pub open spec fn self_delimited(f: Seq<u8>) -> bool {
    f.len() >= 6 && be32(f, 1) == f.len() && f.len() <= MAX_FRAME_LEN
}

proof fn lemma_frames_take_step(fs: Seq<Seq<u8>>, k: int)
    requires
        0 <= k < fs.len(),
    ensures
        frames_bytes(fs.take(k + 1)) == frames_bytes(fs.take(k)) + fs[k],
{
    assert(fs.take(k + 1).drop_last() =~= fs.take(k));
    assert(fs.take(k + 1).last() == fs[k]);
}

proof fn lemma_frames_prefix(fs: Seq<Seq<u8>>, j: int)
    requires
        0 <= j <= fs.len(),
    ensures
        frames_bytes(fs.take(j)).len() <= frames_bytes(fs).len(),
        frames_bytes(fs).subrange(0, frames_bytes(fs.take(j)).len() as int) == frames_bytes(fs.take(j)),
    decreases fs.len(),
{
    if j == fs.len() {
        assert(fs.take(j) =~= fs);
        assert(frames_bytes(fs).subrange(0, frames_bytes(fs).len() as int) =~= frames_bytes(fs));
    } else {
        let q = fs.drop_last();
        assert(q.take(j) =~= fs.take(j));
        lemma_frames_prefix(q, j);
        let a = frames_bytes(q);
        let b = fs.last();
        assert(frames_bytes(fs) == a + b);
        assert((a + b).subrange(0, frames_bytes(fs.take(j)).len() as int) =~= a.subrange(
            0,
            frames_bytes(fs.take(j)).len() as int,
        ));
    }
}

/// Reading back frames laid end to end, one frame: when every frame's
/// common header declares its own length, the cursor at frame `k` reads
/// exactly frame `k`, reported at its own position, and moves to frame
/// `k + 1`.
pub proof fn law_raw_frame_roundtrip(fs: Seq<Seq<u8>>, k: int)
    requires
        forall|i: int| 0 <= i < fs.len() ==> self_delimited(#[trigger] fs[i]),
        0 <= k < fs.len(),
        frames_bytes(fs).len() <= u64::MAX,
    ensures
        raw_step(frames_bytes(fs), frame_pos(fs, k), frame_pos(fs, k)) == (
            Some(Ok::<RawBmpFrameV, DoctorErrorV>(frame_of(fs[k], frame_pos(fs, k) as u64))),
            frame_pos(fs, k + 1),
            frame_pos(fs, k + 1),
        ),
{
    let data = frames_bytes(fs);
    let fk = fs[k];
    let p: int = frame_pos(fs, k) as int;
    let e: int = p + fk.len();
    assert(self_delimited(fk));
    lemma_frames_take_step(fs, k);
    lemma_frames_prefix(fs, k + 1);
    let pre = frames_bytes(fs.take(k));
    assert(data.subrange(0, (pre + fk).len() as int) == pre + fk);
    assert(data.subrange(p, e) =~= fk) by {
        assert forall|i: int| 0 <= i < fk.len() implies #[trigger] data.subrange(p, e)[i] == fk[i] by {
            assert(data[p + i] == data.subrange(0, (pre + fk).len() as int)[p + i]);
            assert((pre + fk)[pre.len() + i] == fk[i]);
        }
    }
    assert(be32(data, p + 1) == be32(fk, 1)) by {
        assert(data.subrange(p, e)[1] == data[p + 1]);
        assert(data.subrange(p, e)[2] == data[p + 2]);
        assert(data.subrange(p, e)[3] == data[p + 3]);
        assert(data.subrange(p, e)[4] == data[p + 4]);
    }
    assert(frame_pos(fs, k + 1) == e);
}

/// Reading back frames laid end to end, the end: once the last of them is
/// read the cursor reports nothing more; with no frame at all it reports
/// one error.
pub proof fn law_raw_frames_end(fs: Seq<Seq<u8>>)
    requires
        forall|i: int| 0 <= i < fs.len() ==> self_delimited(#[trigger] fs[i]),
    ensures
        fs.len() > 0 ==> raw_step(frames_bytes(fs), frame_pos(fs, fs.len() as int), frame_pos(fs, fs.len() as int)) == (
            None::<Result<RawBmpFrameV, DoctorErrorV>>,
            frame_pos(fs, fs.len() as int),
            frame_pos(fs, fs.len() as int),
        ),
        fs.len() == 0 ==> raw_step(frames_bytes(fs), 0, 0) == (
            Some(Err::<RawBmpFrameV, DoctorErrorV>(DoctorErrorV::Frame("File appears empty or truncated"@))),
            0nat,
            1nat,
        ),
{
    assert(fs.take(fs.len() as int) =~= fs);
    if fs.len() > 0 {
        assert(self_delimited(fs.last()));
        assert(frames_bytes(fs) == frames_bytes(fs.drop_last()) + fs.last());
    }
}

} // verus!
