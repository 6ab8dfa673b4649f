//! Per-message records for `dump --jsonl`, and the exit code of a set of findings.

use vstd::prelude::*;

use crate::obmp_reader::{clone_opt_string, opt_str};
use crate::raw_bmp::{message_type_name, BmpMessageType, PeerDownInfo, PeerDownInfoV, StatsEntryV, StatsInfo, TlvInfo, TlvInfoV};
use crate::state::{findings_view, severity_code, severity_label, Finding, FindingV, PeerKey, PeerKeyV};

verus! {

/// A finding as shown in a JSONL record.
#[derive(Debug, Clone)]
pub struct JsonlFinding {
    pub severity: String,
    pub rule: String,
    pub message: String,
}

/// Abstract value of a [`JsonlFinding`].
pub struct JsonlFindingV {
    pub severity: Seq<char>,
    pub rule: Seq<char>,
    pub message: Seq<char>,
}

impl View for JsonlFinding {
    type V = JsonlFindingV;

    open spec fn view(&self) -> JsonlFindingV {
        JsonlFindingV { severity: self.severity@, rule: self.rule@, message: self.message@ }
    }
}

/// One observed BMP message, as emitted by `dump --jsonl`.
#[derive(Debug, Clone)]
pub struct JsonlEvent {
    pub offset: u64,
    pub bmp_type: Option<String>,
    pub bmp_type_id: u8,
    pub peer_asn: Option<u32>,
    pub peer_ip: Option<String>,
    pub peer_distinguisher: Option<String>,
    pub timestamp_seconds: Option<u32>,
    pub timestamp_microseconds: Option<u32>,
    pub message_length: u32,
    pub parse_status: String,
    pub bgp_elems_count: u64,
    pub tlv_info: Option<TlvInfo>,
    pub stats_info: Option<StatsInfo>,
    pub peer_down_info: Option<PeerDownInfo>,
    pub findings: Vec<JsonlFinding>,
}

/// Abstract value of a [`JsonlEvent`].
pub struct JsonlEventV {
    pub offset: u64,
    pub bmp_type: Option<Seq<char>>,
    pub bmp_type_id: u8,
    pub peer_asn: Option<u32>,
    pub peer_ip: Option<Seq<char>>,
    pub peer_distinguisher: Option<Seq<char>>,
    pub timestamp_seconds: Option<u32>,
    pub timestamp_microseconds: Option<u32>,
    pub message_length: u32,
    pub parse_status: Seq<char>,
    pub bgp_elems_count: u64,
    pub tlv_info: Option<TlvInfoV>,
    pub stats_info: Option<Seq<StatsEntryV>>,
    pub peer_down_info: Option<PeerDownInfoV>,
    pub findings: Seq<JsonlFindingV>,
}

impl View for JsonlEvent {
    type V = JsonlEventV;

    open spec fn view(&self) -> JsonlEventV {
        JsonlEventV {
            offset: self.offset,
            bmp_type: opt_str(self.bmp_type),
            bmp_type_id: self.bmp_type_id,
            peer_asn: self.peer_asn,
            peer_ip: opt_str(self.peer_ip),
            peer_distinguisher: opt_str(self.peer_distinguisher),
            timestamp_seconds: self.timestamp_seconds,
            timestamp_microseconds: self.timestamp_microseconds,
            message_length: self.message_length,
            parse_status: self.parse_status@,
            bgp_elems_count: self.bgp_elems_count,
            tlv_info: match self.tlv_info {
                Some(t) => Some(t@),
                None => None,
            },
            stats_info: match self.stats_info {
                Some(st) => Some(st@),
                None => None,
            },
            peer_down_info: match self.peer_down_info {
                Some(p) => Some(p@),
                None => None,
            },
            findings: self.findings@.map_values(|f: JsonlFinding| f@),
        }
    }
}

/// A finding as shown in a JSONL record.
pub open spec fn jsonl_finding_of(f: FindingV) -> JsonlFindingV {
    JsonlFindingV { severity: severity_label(f.severity), rule: f.rule, message: f.message }
}

/// The JSONL record of a message: TLV details only for Initiation and
/// Termination, statistics only for a Statistics Report, and the Peer Down
/// reason only for a Peer Down Notification.
pub open spec fn event_of(
    offset: u64,
    msg_type: Option<BmpMessageType>,
    msg_type_raw: u8,
    peer: Option<PeerKeyV>,
    timestamp: Option<(u32, u32)>,
    msg_len: u32,
    parse_status: Seq<char>,
    bgp_elems_count: u64,
    tlv_info: Option<TlvInfoV>,
    stats_info: Option<Seq<StatsEntryV>>,
    peer_down_info: Option<PeerDownInfoV>,
    findings: Seq<FindingV>,
) -> JsonlEventV {
    JsonlEventV {
        offset,
        bmp_type: match msg_type {
            Some(t) => Some(message_type_name(t)),
            None => None,
        },
        bmp_type_id: msg_type_raw,
        peer_asn: match peer {
            Some(p) => p.peer_asn,
            None => None,
        },
        peer_ip: match peer {
            Some(p) => p.peer_ip,
            None => None,
        },
        peer_distinguisher: match peer {
            Some(p) => p.peer_distinguisher,
            None => None,
        },
        timestamp_seconds: match timestamp {
            Some(t) => Some(t.0),
            None => None,
        },
        timestamp_microseconds: match timestamp {
            Some(t) => Some(t.1),
            None => None,
        },
        message_length: msg_len,
        parse_status,
        bgp_elems_count,
        tlv_info: if carries_tlvs(msg_type) {
            tlv_info
        } else {
            None
        },
        stats_info: if msg_type == Some(BmpMessageType::StatisticsReport) {
            stats_info
        } else {
            None
        },
        peer_down_info: if msg_type == Some(BmpMessageType::PeerDownNotification) {
            peer_down_info
        } else {
            None
        },
        findings: findings.map_values(|f: FindingV| jsonl_finding_of(f)),
    }
}

/// Message types whose records show TLV information: Initiation and
/// Termination.
pub open spec fn carries_tlvs(msg_type: Option<BmpMessageType>) -> bool {
    msg_type == Some(BmpMessageType::InitiationMessage) || msg_type == Some(BmpMessageType::TerminationMessage)
}

impl JsonlEvent {
    /// Builds the record of one message.
    pub fn from_frame(
        offset: u64,
        msg_type: Option<BmpMessageType>,
        msg_type_raw: u8,
        peer: Option<&PeerKey>,
        timestamp: Option<(u32, u32)>,
        msg_len: u32,
        parse_status: &str,
        bgp_elems_count: u64,
        tlv_info: Option<&TlvInfo>,
        stats_info: Option<&StatsInfo>,
        peer_down_info: Option<&PeerDownInfo>,
        findings: &[Finding],
    ) -> (r: Self)
        ensures
            r@ == event_of(
                offset,
                msg_type,
                msg_type_raw,
                match peer {
                    Some(p) => Some(p@),
                    None => None,
                },
                timestamp,
                msg_len,
                parse_status@,
                bgp_elems_count,
                match tlv_info {
                    Some(t) => Some(t@),
                    None => None,
                },
                match stats_info {
                    Some(st) => Some(st@),
                    None => None,
                },
                match peer_down_info {
                    Some(p) => Some(p@),
                    None => None,
                },
                findings_view(findings@),
            ),
    {
        let mut fs: Vec<JsonlFinding> = Vec::new();
        let mut i: usize = 0;
        while i < findings.len()
            invariant
                i <= findings@.len(),
                fs@.map_values(|f: JsonlFinding| f@) == findings_view(findings@.subrange(0, i as int)).map_values(
                    |f: FindingV| jsonl_finding_of(f),
                ),
            decreases findings@.len() - i,
        {
            let f = &findings[i];
            let jf = JsonlFinding {
                severity: String::from_str(f.severity.as_str()),
                rule: f.rule.clone(),
                message: f.message.clone(),
            };
            let ghost before = fs@;
            fs.push(jf);
            proof {
                assert(findings@.subrange(0, i + 1) =~= findings@.subrange(0, i as int).push(findings@[i as int]));
                assert(fs@.map_values(|f: JsonlFinding| f@) =~= before.map_values(|f: JsonlFinding| f@).push(jf@));
                assert(findings_view(findings@.subrange(0, i + 1)).map_values(|f: FindingV| jsonl_finding_of(f))
                    =~= findings_view(findings@.subrange(0, i as int)).map_values(|f: FindingV| jsonl_finding_of(f)).push(
                    jsonl_finding_of(findings@[i as int]@),
                ));
            }
            i = i + 1;
        }
        proof {
            assert(findings@.subrange(0, findings@.len() as int) =~= findings@);
        }
        let (peer_asn, peer_ip, peer_distinguisher) = match peer {
            Some(p) => (p.peer_asn, clone_opt_string(&p.peer_ip), clone_opt_string(&p.peer_distinguisher)),
            None => (None, None, None),
        };
        let tlv_type = match msg_type {
            Some(BmpMessageType::InitiationMessage) | Some(BmpMessageType::TerminationMessage) => true,
            _ => false,
        };
        let stats_type = match msg_type {
            Some(BmpMessageType::StatisticsReport) => true,
            _ => false,
        };
        let down_type = match msg_type {
            Some(BmpMessageType::PeerDownNotification) => true,
            _ => false,
        };
        JsonlEvent {
            offset,
            bmp_type: match msg_type {
                Some(t) => Some(String::from_str(t.as_str())),
                None => None,
            },
            bmp_type_id: msg_type_raw,
            peer_asn,
            peer_ip,
            peer_distinguisher,
            timestamp_seconds: match timestamp {
                Some(t) => Some(t.0),
                None => None,
            },
            timestamp_microseconds: match timestamp {
                Some(t) => Some(t.1),
                None => None,
            },
            message_length: msg_len,
            parse_status: String::from_str(parse_status),
            bgp_elems_count,
            tlv_info: match tlv_info {
                Some(t) => if tlv_type {
                    Some(t.duplicate())
                } else {
                    None
                },
                None => None,
            },
            stats_info: match stats_info {
                Some(st) => if stats_type {
                    Some(st.duplicate())
                } else {
                    None
                },
                None => None,
            },
            peer_down_info: match peer_down_info {
                Some(p) => if down_type {
                    Some(p.duplicate())
                } else {
                    None
                },
                None => None,
            },
            findings: fs,
        }
    }
}

/// The largest exit code among findings; 0 when there are none.
pub open spec fn max_code(fs: Seq<FindingV>) -> i32
    decreases fs.len(),
{
    if fs.len() == 0 {
        0
    } else {
        let rest = max_code(fs.drop_last());
        let c = severity_code(fs.last().severity);
        if c > rest {
            c
        } else {
            rest
        }
    }
}

/// The exit code of a set of findings is the largest severity code among them:
/// it is at least the code of every finding, it is the code of one of them when
/// there are any, and it is 0 when there are none.
pub proof fn law_exit_code_is_max(fs: Seq<FindingV>)
    ensures
        forall|i: int| 0 <= i < fs.len() ==> max_code(fs) >= severity_code(#[trigger] fs[i].severity),
        fs.len() == 0 ==> max_code(fs) == 0,
        fs.len() > 0 ==> exists|i: int| 0 <= i < fs.len() && max_code(fs) == severity_code(#[trigger] fs[i].severity),
        0 <= max_code(fs) <= 2,
    decreases fs.len(),
{
    if fs.len() > 0 {
        let init = fs.drop_last();
        law_exit_code_is_max(init);
        let last = fs.len() - 1;
        assert forall|i: int| 0 <= i < fs.len() implies max_code(fs) >= severity_code(#[trigger] fs[i].severity) by {
            if i < last {
                assert(fs[i] == init[i]);
            }
        }
        if severity_code(fs.last().severity) > max_code(init) || init.len() == 0 {
            assert(max_code(fs) == severity_code(fs[last].severity));
        } else {
            let j = choose|j: int| 0 <= j < init.len() && max_code(init) == severity_code(#[trigger] init[j].severity);
            assert(fs[j] == init[j]);
            assert(max_code(fs) == severity_code(fs[j].severity));
        }
    }
}

/// Exit code of a lint run: the highest severity code among the findings
/// (0 clean or info only, 1 warnings, 2 errors).
pub fn max_exit_code(findings: &[Finding]) -> (r: i32)
    ensures
        r == max_code(findings_view(findings@)),
{
    let mut max: i32 = 0;
    let mut i: usize = 0;
    while i < findings.len()
        invariant
            i <= findings@.len(),
            max == max_code(findings_view(findings@.subrange(0, i as int))),
        decreases findings@.len() - i,
    {
        let code = findings[i].severity.exit_code();
        proof {
            assert(findings_view(findings@.subrange(0, i + 1)).drop_last() =~= findings_view(findings@.subrange(0, i as int)));
        }
        if code > max {
            max = code;
        }
        i = i + 1;
    }
    proof {
        assert(findings@.subrange(0, findings@.len() as int) =~= findings@);
        assert(findings_view(findings@.subrange(0, 0)) =~= Seq::<FindingV>::empty());
    }
    max
}

} // verus!
