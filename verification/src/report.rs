//! Summaries of a run: findings grouped into buckets, the session
//! lifecycle counters, severity counts and the overall health of a capture.

use vstd::prelude::*;

use crate::doctor::sat_add;
use crate::kafka::{chars_le, lemma_text_le_total, text_le};
use crate::obmp_reader::{
    clone_opt_string, meta_any, opt_str, stats_has_data, ContainerStats, ContainerStatsV, OpenBmpMetadata, OpenBmpMetadataV,
};
use crate::prefix::chars_of;
use crate::state::{
    findings_view, peers_view, DoctorState, DoctorStateV, Finding, FindingV, PeerKey, PeerKeyV, PeerState, Severity,
};
use crate::raw_bmp::{message_type_name, type_of_code, BmpMessageType};
use crate::text::{dec_str, decimal, str_eq};

verus! {

/// The bucket a rule belongs to.
#[derive(Debug, Clone, Copy, PartialEq, Eq, Structural)]
pub enum RuleClass {
    /// Framing and decoding problems.
    Parse,
    /// Protocol and stream-order observations.
    StreamOrder,
    /// Anything else.
    Other,
}

/// The bucket of a rule name.
pub open spec fn rule_class(rule: Seq<char>) -> RuleClass {
    if rule == "invalid_bmp_version"@ || rule == "truncated_frame"@ || rule == "unknown_bmp_type"@
        || rule == "parse_error"@ {
        RuleClass::Parse
    } else if rule == "route_monitoring_before_peer_up"@ || rule == "duplicate_peer_up"@
        || rule == "peer_down_without_peer_up"@ || rule == "timestamp_regression"@ {
        RuleClass::StreamOrder
    } else {
        RuleClass::Other
    }
}

/// Number of findings in bucket `c`.
pub open spec fn class_count(fs: Seq<FindingV>, c: RuleClass) -> nat
    decreases fs.len(),
{
    if fs.len() == 0 {
        0
    } else {
        class_count(fs.drop_last(), c) + if rule_class(fs.last().rule) == c {
            1nat
        } else {
            0nat
        }
    }
}

/// Number of findings with rule `rule`.
pub open spec fn rule_count(fs: Seq<FindingV>, rule: Seq<char>) -> nat
    decreases fs.len(),
{
    if fs.len() == 0 {
        0
    } else {
        rule_count(fs.drop_last(), rule) + if fs.last().rule == rule {
            1nat
        } else {
            0nat
        }
    }
}

/// Number of findings of severity `s`.
pub open spec fn severity_count(fs: Seq<FindingV>, s: Severity) -> nat
    decreases fs.len(),
{
    if fs.len() == 0 {
        0
    } else {
        severity_count(fs.drop_last(), s) + if fs.last().severity == s {
            1nat
        } else {
            0nat
        }
    }
}

proof fn lemma_counts_bounded(fs: Seq<FindingV>)
    ensures
        class_count(fs, RuleClass::Parse) + class_count(fs, RuleClass::StreamOrder) + class_count(
            fs,
            RuleClass::Other,
        ) == fs.len(),
        severity_count(fs, Severity::Info) + severity_count(fs, Severity::Warn) + severity_count(fs, Severity::Error)
            == fs.len(),
    decreases fs.len(),
{
    if fs.len() > 0 {
        lemma_counts_bounded(fs.drop_last());
    }
}

/// Findings grouped by kind.
#[derive(Debug, Clone, Copy, PartialEq, Eq)]
pub struct FindingsBuckets {
    pub parse_errors: u64,
    pub stream_order_warnings: u64,
    pub other_findings: u64,
}

/// The buckets of a list of findings.
pub open spec fn buckets_match(b: FindingsBuckets, fs: Seq<FindingV>) -> bool {
    &&& b.parse_errors == class_count(fs, RuleClass::Parse)
    &&& b.stream_order_warnings == class_count(fs, RuleClass::StreamOrder)
    &&& b.other_findings == class_count(fs, RuleClass::Other)
}

/// The bucket of a rule name.
pub fn classify_rule(rule: &str) -> (r: RuleClass)
    ensures
        r == rule_class(rule@),
{
    if str_eq(rule, "invalid_bmp_version") || str_eq(rule, "truncated_frame") || str_eq(rule, "unknown_bmp_type")
        || str_eq(rule, "parse_error") {
        RuleClass::Parse
    } else if str_eq(rule, "route_monitoring_before_peer_up") || str_eq(rule, "duplicate_peer_up") || str_eq(
        rule,
        "peer_down_without_peer_up",
    ) || str_eq(rule, "timestamp_regression") {
        RuleClass::StreamOrder
    } else {
        RuleClass::Other
    }
}

/// Counts findings per bucket.
pub fn compute_buckets(findings: &[Finding]) -> (r: FindingsBuckets)
    ensures
        buckets_match(r, findings_view(findings@)),
{
    let ghost fv = findings_view(findings@);
    let mut parse_errors: u64 = 0;
    let mut stream_order_warnings: u64 = 0;
    let mut other: u64 = 0;
    let mut i: usize = 0;
    while i < findings.len()
        invariant
            i <= findings@.len(),
            fv == findings_view(findings@),
            parse_errors == class_count(fv.subrange(0, i as int), RuleClass::Parse),
            stream_order_warnings == class_count(fv.subrange(0, i as int), RuleClass::StreamOrder),
            other == class_count(fv.subrange(0, i as int), RuleClass::Other),
        decreases findings@.len() - i,
    {
        proof {
            assert(fv.subrange(0, i + 1).drop_last() =~= fv.subrange(0, i as int));
            lemma_counts_bounded(fv.subrange(0, i as int));
        }
        match classify_rule(findings[i].rule.as_str()) {
            RuleClass::Parse => {
                parse_errors = parse_errors + 1;
            },
            RuleClass::StreamOrder => {
                stream_order_warnings = stream_order_warnings + 1;
            },
            RuleClass::Other => {
                other = other + 1;
            },
        }
        i = i + 1;
    }
    proof {
        assert(fv.subrange(0, findings@.len() as int) =~= fv);
    }
    FindingsBuckets { parse_errors, stream_order_warnings, other_findings: other }
}

/// Number of findings with rule `rule`.
pub fn count_rule(findings: &[Finding], rule: &str) -> (r: u64)
    ensures
        r == rule_count(findings_view(findings@), rule@),
{
    let ghost fv = findings_view(findings@);
    let mut n: u64 = 0;
    let mut i: usize = 0;
    while i < findings.len()
        invariant
            i <= findings@.len(),
            fv == findings_view(findings@),
            n == rule_count(fv.subrange(0, i as int), rule@),
            n <= i,
        decreases findings@.len() - i,
    {
        proof {
            assert(fv.subrange(0, i + 1).drop_last() =~= fv.subrange(0, i as int));
        }
        if str_eq(findings[i].rule.as_str(), rule) {
            n = n + 1;
        }
        i = i + 1;
    }
    proof {
        assert(fv.subrange(0, findings@.len() as int) =~= fv);
    }
    n
}

/// Numbers of INFO, WARN and ERROR findings.
pub fn severity_counts(findings: &[Finding]) -> (r: (usize, usize, usize))
    ensures
        r.0 == severity_count(findings_view(findings@), Severity::Info),
        r.1 == severity_count(findings_view(findings@), Severity::Warn),
        r.2 == severity_count(findings_view(findings@), Severity::Error),
{
    let ghost fv = findings_view(findings@);
    let mut info: usize = 0;
    let mut warn: usize = 0;
    let mut err: usize = 0;
    let mut i: usize = 0;
    while i < findings.len()
        invariant
            i <= findings@.len(),
            fv == findings_view(findings@),
            info == severity_count(fv.subrange(0, i as int), Severity::Info),
            warn == severity_count(fv.subrange(0, i as int), Severity::Warn),
            err == severity_count(fv.subrange(0, i as int), Severity::Error),
        decreases findings@.len() - i,
    {
        proof {
            assert(fv.subrange(0, i + 1).drop_last() =~= fv.subrange(0, i as int));
            lemma_counts_bounded(fv.subrange(0, i as int));
        }
        match findings[i].severity {
            Severity::Info => {
                info = info + 1;
            },
            Severity::Warn => {
                warn = warn + 1;
            },
            Severity::Error => {
                err = err + 1;
            },
        }
        i = i + 1;
    }
    proof {
        assert(fv.subrange(0, findings@.len() as int) =~= fv);
    }
    (info, warn, err)
}

/// Route-monitoring-before-Peer-Up warnings are among the stream-order
/// warnings, so never outnumber them.
pub proof fn law_rm_warnings_within_stream_warnings(fs: Seq<FindingV>)
    ensures
        rule_count(fs, "route_monitoring_before_peer_up"@) <= class_count(fs, RuleClass::StreamOrder),
    decreases fs.len(),
{
    if fs.len() > 0 {
        law_rm_warnings_within_stream_warnings(fs.drop_last());
        reveal_strlit("route_monitoring_before_peer_up");
        reveal_strlit("invalid_bmp_version");
        reveal_strlit("truncated_frame");
        reveal_strlit("unknown_bmp_type");
        reveal_strlit("parse_error");
        let r = "route_monitoring_before_peer_up"@;
        assert(r.len() == 31);
        assert(r != "invalid_bmp_version"@);
        assert(r != "truncated_frame"@);
        assert(r != "unknown_bmp_type"@);
        assert(r != "parse_error"@);
        assert(rule_class(r) == RuleClass::StreamOrder);
    }
}

/// Counters of the peer-session lifecycle.
#[derive(Debug, Clone, Copy, PartialEq, Eq)]
pub struct SessionLifecycle {
    pub peers_observed: usize,
    pub active_peers: usize,
    pub route_monitoring_messages: u64,
    pub peer_up_messages: u64,
    pub peer_down_messages: u64,
    pub rm_before_peer_up_warnings: u64,
}

/// Number of active peers in a table.
pub open spec fn active_count(ps: Seq<(PeerKeyV, PeerState)>) -> nat
    decreases ps.len(),
{
    if ps.len() == 0 {
        0
    } else {
        active_count(ps.drop_last()) + if ps.last().1.active {
            1nat
        } else {
            0nat
        }
    }
}

/// Messages of raw type `t` counted in `m`.
pub open spec fn type_total(m: Map<u8, u64>, t: u8) -> u64 {
    if m.contains_key(t) {
        m[t]
    } else {
        0
    }
}

/// Number of active peers.
pub fn count_active(peers: &Vec<(crate::state::PeerKey, PeerState)>) -> (r: usize)
    ensures
        r == active_count(peers_view(peers@)),
{
    let ghost pv = peers_view(peers@);
    let mut n: usize = 0;
    let mut i: usize = 0;
    while i < peers.len()
        invariant
            i <= peers@.len(),
            pv == peers_view(peers@),
            n == active_count(pv.subrange(0, i as int)),
            n <= i,
        decreases peers@.len() - i,
    {
        proof {
            assert(pv.subrange(0, i + 1).drop_last() =~= pv.subrange(0, i as int));
        }
        if peers[i].1.active {
            n = n + 1;
        }
        i = i + 1;
    }
    proof {
        assert(pv.subrange(0, peers@.len() as int) =~= pv);
    }
    n
}

fn type_total_of(m: &std::collections::BTreeMap<u8, u64>, t: u8) -> (r: u64)
    ensures
        r == type_total(m@, t),
{
    match m.get(&t) {
        Some(v) => *v,
        None => 0,
    }
}

/// The lifecycle counters of a run.
pub open spec fn lifecycle_of(st: DoctorStateV) -> SessionLifecycle {
    SessionLifecycle {
        peers_observed: st.peers.len() as usize,
        active_peers: active_count(st.peers) as usize,
        route_monitoring_messages: type_total(st.by_type, 0),
        peer_up_messages: type_total(st.by_type, 3),
        peer_down_messages: type_total(st.by_type, 2),
        rm_before_peer_up_warnings: rule_count(st.findings, "route_monitoring_before_peer_up"@) as u64,
    }
}

/// The lifecycle counters of a run.
pub fn compute_lifecycle(state: &DoctorState) -> (r: SessionLifecycle)
    ensures
        r == lifecycle_of(state@),
{
    let rm = count_rule(state.findings.as_slice(), "route_monitoring_before_peer_up");
    proof {
        reveal_strlit("route_monitoring_before_peer_up");
    }
    SessionLifecycle {
        peers_observed: state.peers.len(),
        active_peers: count_active(&state.peers),
        route_monitoring_messages: type_total_of(&state.by_type, 0),
        peer_up_messages: type_total_of(&state.by_type, 3),
        peer_down_messages: type_total_of(&state.by_type, 2),
        rm_before_peer_up_warnings: rm,
    }
}

/// Overall health of a capture.
#[derive(Debug, Clone, Copy, PartialEq, Eq, Structural)]
pub enum Health {
    /// Nothing wrong.
    Clean,
    /// Well-formed, with stream-order observations.
    Warnings,
    /// Malformed input or decoding errors.
    Issues,
}

/// The health of a capture: issues when anything is malformed or failed to decode,
/// else stream warnings when there are any, else OK.
pub open spec fn health_of(malformed: u64, b: FindingsBuckets) -> Health {
    if malformed > 0 || b.parse_errors > 0 {
        Health::Issues
    } else if b.stream_order_warnings > 0 {
        Health::Warnings
    } else {
        Health::Clean
    }
}

/// The label of a health class.
pub open spec fn health_label(h: Health) -> Seq<char> {
    match h {
        Health::Clean => "OK"@,
        Health::Warnings => "OK_WITH_STREAM_WARNINGS"@,
        Health::Issues => "ISSUES"@,
    }
}

impl Health {
    /// The health of a run with `malformed` malformed messages and
    /// findings in buckets `b`.
    pub fn classify(malformed: u64, b: &FindingsBuckets) -> (r: Health)
        ensures
            r == health_of(malformed, *b),
    {
        if malformed > 0 || b.parse_errors > 0 {
            Health::Issues
        } else if b.stream_order_warnings > 0 {
            Health::Warnings
        } else {
            Health::Clean
        }
    }

    /// `OK`, `OK_WITH_STREAM_WARNINGS` or `ISSUES`.
    pub fn as_str(&self) -> (r: &'static str)
        ensures
            r@ == health_label(*self),
    {
        match self {
            Health::Clean => "OK",
            Health::Warnings => "OK_WITH_STREAM_WARNINGS",
            Health::Issues => "ISSUES",
        }
    }
}

/// How the inspection report reads a session lifecycle.
#[derive(Debug, Clone, Copy, PartialEq, Eq, Structural)]
pub enum Interpretation {
    /// Route monitoring before Peer Up and nothing malformed: the capture
    /// likely started mid-stream, and stream-order warnings are expected.
    MidStreamCapture,
    /// Malformed messages or parse errors need investigation.
    ParseIssues,
    /// Nothing to remark.
    Unremarkable,
}

/// The reading of a run with `malformed` malformed messages, findings in
/// buckets `b` and `rm_warnings` route-monitoring-before-Peer-Up warnings.
pub open spec fn interpretation_of(malformed: u64, b: FindingsBuckets, rm_warnings: u64) -> Interpretation {
    if rm_warnings > 0 && malformed == 0 && b.parse_errors == 0 {
        Interpretation::MidStreamCapture
    } else if malformed > 0 || b.parse_errors > 0 {
        Interpretation::ParseIssues
    } else {
        Interpretation::Unremarkable
    }
}

/// Reads a run's lifecycle: a likely mid-stream capture when route
/// monitoring came before Peer Up and nothing is malformed, parse issues
/// when anything is malformed or failed to decode, else nothing.
pub fn interpret(malformed: u64, b: &FindingsBuckets, rm_warnings: u64) -> (r: Interpretation)
    ensures
        r == interpretation_of(malformed, *b, rm_warnings),
{
    if rm_warnings > 0 && malformed == 0 && b.parse_errors == 0 {
        Interpretation::MidStreamCapture
    } else if malformed > 0 || b.parse_errors > 0 {
        Interpretation::ParseIssues
    } else {
        Interpretation::Unremarkable
    }
}

/// A mid-stream reading and the health class agree: the capture is then
/// never classed as having issues.
pub proof fn law_mid_stream_is_not_issues(malformed: u64, b: FindingsBuckets, rm_warnings: u64)
    ensures
        interpretation_of(malformed, b, rm_warnings) is MidStreamCapture ==> health_of(malformed, b) != Health::Issues,
        interpretation_of(malformed, b, rm_warnings) is ParseIssues <==> health_of(malformed, b) == Health::Issues,
{
}

// ───────────────────────── peer order ─────────────────────────

/// `None` first, then by value.
pub open spec fn opt_u32_le(a: Option<u32>, b: Option<u32>) -> bool {
    match (a, b) {
        (None, _) => true,
        (Some(_), None) => false,
        (Some(x), Some(y)) => x <= y,
    }
}

/// `None` first, then by text.
pub open spec fn opt_text_le(a: Option<Seq<char>>, b: Option<Seq<char>>) -> bool {
    match (a, b) {
        (None, _) => true,
        (Some(_), None) => false,
        (Some(x), Some(y)) => text_le(x, y),
    }
}

/// The order of peer keys: by ASN, then address, then distinguisher.
pub open spec fn key_le(a: PeerKeyV, b: PeerKeyV) -> bool {
    if a.peer_asn != b.peer_asn {
        opt_u32_le(a.peer_asn, b.peer_asn)
    } else if a.peer_ip != b.peer_ip {
        opt_text_le(a.peer_ip, b.peer_ip)
    } else {
        opt_text_le(a.peer_distinguisher, b.peer_distinguisher)
    }
}

/// The order of the peer ranking: more route-monitoring messages first,
/// then by key.
pub open spec fn rank_le(a: (PeerKeyV, PeerState), b: (PeerKeyV, PeerState)) -> bool {
    a.1.route_monitoring_count > b.1.route_monitoring_count || (a.1.route_monitoring_count
        == b.1.route_monitoring_count && key_le(a.0, b.0))
}

pub open spec fn insert_peer(s: Seq<(PeerKeyV, PeerState)>, x: (PeerKeyV, PeerState), by_rank: bool) -> Seq<
    (PeerKeyV, PeerState),
>
    decreases s.len(),
{
    if s.len() == 0 {
        seq![x]
    } else if (if by_rank {
        rank_le(s.last(), x)
    } else {
        key_le(s.last().0, x.0)
    }) {
        s.push(x)
    } else {
        insert_peer(s.drop_last(), x, by_rank).push(s.last())
    }
}

/// Peers sorted by key (or, `by_rank`, for the ranking), equal ones
/// keeping their order.
pub open spec fn sort_peers(s: Seq<(PeerKeyV, PeerState)>, by_rank: bool) -> Seq<(PeerKeyV, PeerState)>
    decreases s.len(),
{
    if s.len() == 0 {
        s
    } else {
        insert_peer(sort_peers(s.drop_last(), by_rank), s.last(), by_rank)
    }
}

/// The order of a peer listing: by key, or (`by_rank`) for the ranking.
pub open spec fn peer_le(a: (PeerKeyV, PeerState), b: (PeerKeyV, PeerState), by_rank: bool) -> bool {
    if by_rank {
        rank_le(a, b)
    } else {
        key_le(a.0, b.0)
    }
}

/// Each peer is no earlier, in the listing's order, than the one before.
pub open spec fn peers_sorted(s: Seq<(PeerKeyV, PeerState)>, by_rank: bool) -> bool
    decreases s.len(),
{
    if s.len() <= 1 {
        true
    } else {
        peer_le(s[s.len() - 2], s.last(), by_rank) && peers_sorted(s.drop_last(), by_rank)
    }
}

proof fn lemma_opt_text_total(a: Option<Seq<char>>, b: Option<Seq<char>>)
    ensures
        opt_text_le(a, b) || opt_text_le(b, a),
{
    if let (Some(x), Some(y)) = (a, b) {
        lemma_text_le_total(x, y);
    }
}

proof fn lemma_peer_le_total(a: (PeerKeyV, PeerState), b: (PeerKeyV, PeerState), by_rank: bool)
    ensures
        peer_le(a, b, by_rank) || peer_le(b, a, by_rank),
{
    lemma_opt_text_total(a.0.peer_ip, b.0.peer_ip);
    lemma_opt_text_total(a.0.peer_distinguisher, b.0.peer_distinguisher);
}

proof fn lemma_insert_peer_sorted(s: Seq<(PeerKeyV, PeerState)>, x: (PeerKeyV, PeerState), by_rank: bool)
    requires
        peers_sorted(s, by_rank),
    ensures
        peers_sorted(insert_peer(s, x, by_rank), by_rank),
        insert_peer(s, x, by_rank).to_multiset() =~= s.to_multiset().insert(x),
        insert_peer(s, x, by_rank).len() == s.len() + 1,
        insert_peer(s, x, by_rank).last() == x || (s.len() > 0 && insert_peer(s, x, by_rank).last() == s.last()),
    decreases s.len(),
{
    broadcast use vstd::seq_lib::group_to_multiset_ensures;

    if s.len() == 0 {
        assert(seq![x] =~= Seq::<(PeerKeyV, PeerState)>::empty().push(x));
    } else if peer_le(s.last(), x, by_rank) {
        assert(s.push(x).drop_last() =~= s);
    } else {
        let d = s.drop_last();
        let t = insert_peer(d, x, by_rank);
        lemma_insert_peer_sorted(d, x, by_rank);
        assert(d.push(s.last()) =~= s);
        assert(t.push(s.last()).drop_last() =~= t);
        if t.len() >= 1 {
            if t.last() == x {
                lemma_peer_le_total(x, s.last(), by_rank);
            } else {
                assert(s[s.len() - 2] == d.last());
            }
        }
    }
}

/// Peer listings are ordered: sorting keeps the same peers and puts each
/// no earlier than the one before it (by key, or for the ranking: more
/// route-monitoring messages first, then by key).
pub proof fn law_peers_sorted(s: Seq<(PeerKeyV, PeerState)>, by_rank: bool)
    ensures
        peers_sorted(sort_peers(s, by_rank), by_rank),
        sort_peers(s, by_rank).to_multiset() =~= s.to_multiset(),
    decreases s.len(),
{
    broadcast use vstd::seq_lib::group_to_multiset_ensures;

    if s.len() > 0 {
        law_peers_sorted(s.drop_last(), by_rank);
        lemma_insert_peer_sorted(sort_peers(s.drop_last(), by_rank), s.last(), by_rank);
        assert(s.drop_last().push(s.last()) =~= s);
    }
}

fn opt_text_order(a: &Option<String>, b: &Option<String>) -> (r: bool)
    ensures
        r == opt_text_le(opt_str(*a), opt_str(*b)),
{
    match (a, b) {
        (None, _) => true,
        (Some(_), None) => false,
        (Some(x), Some(y)) => {
            let xc = chars_of(x.as_str());
            let yc = chars_of(y.as_str());
            chars_le(xc.as_slice(), yc.as_slice())
        },
    }
}

fn opt_text_same(a: &Option<String>, b: &Option<String>) -> (r: bool)
    ensures
        r == (opt_str(*a) == opt_str(*b)),
{
    match (a, b) {
        (Some(x), Some(y)) => str_eq(x.as_str(), y.as_str()),
        (None, None) => true,
        _ => false,
    }
}

/// Whether key `a` comes no later than key `b`.
pub fn key_order(a: &PeerKey, b: &PeerKey) -> (r: bool)
    ensures
        r == key_le(a@, b@),
{
    if a.peer_asn != b.peer_asn {
        match (a.peer_asn, b.peer_asn) {
            (None, _) => true,
            (Some(_), None) => false,
            (Some(x), Some(y)) => x <= y,
        }
    } else if !opt_text_same(&a.peer_ip, &b.peer_ip) {
        opt_text_order(&a.peer_ip, &b.peer_ip)
    } else {
        opt_text_order(&a.peer_distinguisher, &b.peer_distinguisher)
    }
}

fn peer_order(a: &(PeerKey, PeerState), b: &(PeerKey, PeerState), by_rank: bool) -> (r: bool)
    ensures
        r == (if by_rank {
            rank_le((a.0@, a.1), (b.0@, b.1))
        } else {
            key_le(a.0@, b.0@)
        }),
{
    if by_rank {
        a.1.route_monitoring_count > b.1.route_monitoring_count || (a.1.route_monitoring_count
            == b.1.route_monitoring_count && key_order(&a.0, &b.0))
    } else {
        key_order(&a.0, &b.0)
    }
}

fn insert_peer_vec(v: Vec<(PeerKey, PeerState)>, x: (PeerKey, PeerState), by_rank: bool) -> (r: Vec<
    (PeerKey, PeerState),
>)
    ensures
        peers_view(r@) == insert_peer(peers_view(v@), (x.0@, x.1), by_rank),
    decreases v@.len(),
{
    let ghost tv = peers_view(v@);
    let ghost xv = (x.0@, x.1);
    let mut v = v;
    match v.pop() {
        None => {
            let mut r: Vec<(PeerKey, PeerState)> = Vec::new();
            r.push(x);
            proof {
                assert(peers_view(r@) =~= seq![xv]);
            }
            r
        },
        Some(last) => {
            proof {
                assert(peers_view(v@) =~= tv.drop_last());
            }
            if peer_order(&last, &x, by_rank) {
                v.push(last);
                v.push(x);
                proof {
                    assert(peers_view(v@) =~= tv.push(xv));
                }
                v
            } else {
                let ghost lv = (last.0@, last.1);
                let mut r = insert_peer_vec(v, x, by_rank);
                let ghost rb = r@;
                r.push(last);
                proof {
                    assert(peers_view(r@) =~= peers_view(rb).push(lv));
                }
                r
            }
        },
    }
}

/// The peers a report shows: the first `max_peers` in ranking order; none
/// (no section) when `max_peers` is 0 or no peer was seen.
pub open spec fn top_peers_of(peers: Seq<(PeerKeyV, PeerState)>, max_peers: nat) -> Option<Seq<(PeerKeyV, PeerState)>> {
    if max_peers == 0 || peers.len() == 0 {
        None
    } else {
        let ranked = sort_peers(peers, true);
        Some(
            if ranked.len() > max_peers {
                ranked.subrange(0, max_peers as int)
            } else {
                ranked
            },
        )
    }
}

/// The peers a report shows, ranked; `None` when the peer section is
/// left out.
pub fn top_peers(peers: &Vec<(PeerKey, PeerState)>, max_peers: usize) -> (r: Option<Vec<(PeerKey, PeerState)>>)
    ensures
        match r {
            Some(v) => top_peers_of(peers_view(peers@), max_peers as nat) == Some(peers_view(v@)),
            None => top_peers_of(peers_view(peers@), max_peers as nat) is None,
        },
{
    if max_peers == 0 || peers.len() == 0 {
        return None;
    }
    let ranked = sorted_peers(peers, true);
    let ghost rv = peers_view(ranked@);
    let mut out: Vec<(PeerKey, PeerState)> = Vec::new();
    let mut i: usize = 0;
    while i < ranked.len() && i < max_peers
        invariant
            i <= ranked@.len(),
            i <= max_peers,
            rv == peers_view(ranked@),
            peers_view(out@) == rv.subrange(0, i as int),
        decreases ranked@.len() - i,
    {
        let e = (ranked[i].0.duplicate(), ranked[i].1);
        let ghost before = peers_view(out@);
        out.push(e);
        proof {
            assert(rv[i as int] == (ranked@[i as int].0@, ranked@[i as int].1));
            assert(peers_view(out@) =~= before.push((e.0@, e.1)));
            assert(peers_view(out@) =~= rv.subrange(0, i + 1));
        }
        i = i + 1;
    }
    proof {
        assert(rv.subrange(0, rv.len() as int) =~= rv);
        assert(peers_view(peers@).len() == peers@.len());
    }
    Some(out)
}

/// The peers sorted by key, or, with `by_rank`, for the ranking (more
/// route-monitoring messages first, then by key).
pub fn sorted_peers(peers: &Vec<(PeerKey, PeerState)>, by_rank: bool) -> (r: Vec<(PeerKey, PeerState)>)
    ensures
        peers_view(r@) == sort_peers(peers_view(peers@), by_rank),
{
    let ghost pv = peers_view(peers@);
    let mut out: Vec<(PeerKey, PeerState)> = Vec::new();
    let mut i: usize = 0;
    proof {
        assert(pv.subrange(0, 0) =~= Seq::<(PeerKeyV, PeerState)>::empty());
        assert(peers_view(out@) =~= Seq::<(PeerKeyV, PeerState)>::empty());
    }
    while i < peers.len()
        invariant
            i <= peers@.len(),
            pv == peers_view(peers@),
            peers_view(out@) == sort_peers(pv.subrange(0, i as int), by_rank),
        decreases peers@.len() - i,
    {
        proof {
            assert(pv.subrange(0, i + 1).drop_last() =~= pv.subrange(0, i as int));
            assert(pv.subrange(0, i + 1).last() == (peers@[i as int].0@, peers@[i as int].1));
        }
        let e = (peers[i].0.duplicate(), peers[i].1);
        out = insert_peer_vec(out, e, by_rank);
        i = i + 1;
    }
    proof {
        assert(pv.subrange(0, i as int) =~= pv);
    }
    out
}


/// The container part of a summary: the record count, each payload
/// counter only when it is not zero, and the OpenBMP metadata only when a
/// field of it is set.
pub struct ContainerReport {
    pub container_records: u64,
    pub raw_bmp_payloads: Option<u64>,
    pub openbmp_wrapped_payloads: Option<u64>,
    pub unrecognized_payloads: Option<u64>,
    pub openbmp_unwrap_errors: Option<u64>,
    pub inner_bmp_parse_errors: Option<u64>,
    pub openbmp_metadata: Option<OpenBmpMetadata>,
}

/// A counter shown only when it is not zero.
pub open spec fn nonzero(n: nat) -> Option<nat> {
    if n == 0 {
        None
    } else {
        Some(n)
    }
}

/// Abstract value of a [`ContainerReport`].
pub struct ContainerReportV {
    pub container_records: nat,
    pub raw_bmp_payloads: Option<nat>,
    pub openbmp_wrapped_payloads: Option<nat>,
    pub unrecognized_payloads: Option<nat>,
    pub openbmp_unwrap_errors: Option<nat>,
    pub inner_bmp_parse_errors: Option<nat>,
    pub openbmp_metadata: Option<OpenBmpMetadataV>,
}

pub open spec fn opt_nat(n: Option<u64>) -> Option<nat> {
    match n {
        Some(x) => Some(x as nat),
        None => None,
    }
}

impl View for ContainerReport {
    type V = ContainerReportV;

    open spec fn view(&self) -> ContainerReportV {
        ContainerReportV {
            container_records: self.container_records as nat,
            raw_bmp_payloads: opt_nat(self.raw_bmp_payloads),
            openbmp_wrapped_payloads: opt_nat(self.openbmp_wrapped_payloads),
            unrecognized_payloads: opt_nat(self.unrecognized_payloads),
            openbmp_unwrap_errors: opt_nat(self.openbmp_unwrap_errors),
            inner_bmp_parse_errors: opt_nat(self.inner_bmp_parse_errors),
            openbmp_metadata: match self.openbmp_metadata {
                Some(m) => Some(m@),
                None => None,
            },
        }
    }
}

/// What a summary shows of a container's counters: nothing when no record
/// was read (always so for raw BMP input); otherwise the record count, the
/// counters that are not zero, and the metadata when a field of it is set.
pub open spec fn container_report_of(s: ContainerStatsV) -> Option<ContainerReportV> {
    if !stats_has_data(s) {
        None
    } else {
        Some(
            ContainerReportV {
                container_records: s.container_records,
                raw_bmp_payloads: nonzero(s.raw_bmp_payloads),
                openbmp_wrapped_payloads: nonzero(s.openbmp_wrapped_payloads),
                unrecognized_payloads: nonzero(s.unrecognized_payloads),
                openbmp_unwrap_errors: nonzero(s.openbmp_unwrap_errors),
                inner_bmp_parse_errors: nonzero(s.inner_bmp_parse_errors),
                openbmp_metadata: match s.openbmp_metadata {
                    Some(m) => if meta_any(m) {
                        Some(m)
                    } else {
                        None
                    },
                    None => None,
                },
            },
        )
    }
}

fn nonzero_u64(n: u64) -> (r: Option<u64>)
    ensures
        opt_nat(r) == nonzero(n as nat),
{
    if n == 0 {
        None
    } else {
        Some(n)
    }
}

/// The container part of a summary of `s`.
pub fn container_report(s: &ContainerStats) -> (r: Option<ContainerReport>)
    ensures
        match r {
            Some(c) => container_report_of(s@) == Some(c@),
            None => container_report_of(s@) is None,
        },
{
    if !s.has_data() {
        return None;
    }
    let meta = match &s.openbmp_metadata {
        Some(m) => if m.any() {
            Some(m.duplicate())
        } else {
            None
        },
        None => None,
    };
    let r = ContainerReport {
        container_records: s.container_records,
        raw_bmp_payloads: nonzero_u64(s.raw_bmp_payloads),
        openbmp_wrapped_payloads: nonzero_u64(s.openbmp_wrapped_payloads),
        unrecognized_payloads: nonzero_u64(s.unrecognized_payloads),
        openbmp_unwrap_errors: nonzero_u64(s.openbmp_unwrap_errors),
        inner_bmp_parse_errors: nonzero_u64(s.inner_bmp_parse_errors),
        openbmp_metadata: meta,
    };
    Some(r)
}

// ───────────────────────── the inspection summary ─────────────────────────

/// A peer as the summary lists it.
pub struct PeerRow {
    pub peer_asn: Option<u32>,
    pub peer_ip: Option<String>,
    pub active: bool,
    pub rm_count: u64,
    pub up_count: u64,
    pub down_count: u64,
}

/// Abstract value of a [`PeerRow`].
pub struct PeerRowV {
    pub peer_asn: Option<u32>,
    pub peer_ip: Option<Seq<char>>,
    pub active: bool,
    pub rm_count: u64,
    pub up_count: u64,
    pub down_count: u64,
}

impl View for PeerRow {
    type V = PeerRowV;

    open spec fn view(&self) -> PeerRowV {
        PeerRowV {
            peer_asn: self.peer_asn,
            peer_ip: opt_str(self.peer_ip),
            active: self.active,
            rm_count: self.rm_count,
            up_count: self.up_count,
            down_count: self.down_count,
        }
    }
}

/// The row of a peer of the table.
pub open spec fn peer_row_of(e: (PeerKeyV, PeerState)) -> PeerRowV {
    PeerRowV {
        peer_asn: e.0.peer_asn,
        peer_ip: e.0.peer_ip,
        active: e.1.active,
        rm_count: e.1.route_monitoring_count,
        up_count: e.1.peer_up_count,
        down_count: e.1.peer_down_count,
    }
}

pub open spec fn peer_rows_view(v: Seq<PeerRow>) -> Seq<PeerRowV> {
    v.map_values(|r: PeerRow| r@)
}

/// The name of a type code: the registered type's name, or `Unknown(<n>)`.
pub open spec fn type_name_text(t: u8) -> Seq<char> {
    match type_of_code(t) {
        Some(m) => message_type_name(m),
        None => "Unknown("@ + dec_str(t as nat) + ")"@,
    }
}

/// The counts by type of codes below `n`, in code order, by name.
pub open spec fn type_rows_below(m: Map<u8, u64>, n: nat) -> Seq<(Seq<char>, u64)>
    decreases n,
{
    if n == 0 {
        Seq::empty()
    } else {
        let t = (n - 1) as u8;
        type_rows_below(m, (n - 1) as nat) + if m.contains_key(t) {
            seq![(type_name_text(t), m[t])]
        } else {
            Seq::empty()
        }
    }
}

pub open spec fn named_counts(v: Seq<(String, u64)>) -> Seq<(Seq<char>, u64)> {
    v.map_values(|e: (String, u64)| (e.0@, e.1))
}

/// What `inspect --summary-json` reports of a run.
pub struct InspectSummary {
    pub file: String,
    pub format: String,
    pub size_bytes: u64,
    pub total_messages: u64,
    pub malformed_messages: u64,
    /// Present only when UPDATE elements were counted.
    pub bgp_elem_count: Option<u64>,
    /// Message counts by type name, in type-code order.
    pub by_type: Vec<(String, u64)>,
    pub peers_observed: usize,
    pub active_peers: usize,
    pub info_count: usize,
    pub warn_count: usize,
    pub error_count: usize,
    pub findings_truncated: bool,
    pub findings_dropped_count: u64,
    pub findings_buckets: FindingsBuckets,
    pub session_lifecycle: SessionLifecycle,
    /// The top peers; absent when peers are not shown.
    pub peers: Option<Vec<PeerRow>>,
    /// The container part; absent when no container record was read.
    pub container: Option<ContainerReport>,
}

pub(crate) fn type_name_of(t: u8) -> (r: String)
    ensures
        r@ == type_name_text(t),
{
    match BmpMessageType::from_u8(t) {
        Some(m) => String::from_str(m.as_str()),
        None => {
            proof {
                reveal_strlit("Unknown(");
                reveal_strlit(")");
            }
            let mut s = String::from_str("Unknown(");
            let d = decimal(t as u64);
            s.append(d.as_str());
            s.append(")");
            s
        },
    }
}

/// The summary of a run for `inspect --summary-json`: the run's counters,
/// the message counts by type name, the findings by severity and by
/// bucket, the session lifecycle, the top `max_peers` peers (absent when
/// `max_peers` is 0 or no peer was seen), and the container part (absent
/// when no container record was read).
pub fn inspect_summary(state: &DoctorState, truncated: bool, max_peers: usize) -> (r: InspectSummary)
    ensures
        r.file@ == state@.file_path,
        r.format@ == state@.format,
        r.size_bytes == state@.file_size,
        r.total_messages == state@.total_messages,
        r.malformed_messages == state@.malformed_messages,
        r.bgp_elem_count == if state@.bgp_elem_count > 0 {
            Some(state@.bgp_elem_count)
        } else {
            None
        },
        named_counts(r.by_type@) == type_rows_below(state@.by_type, 256),
        r.peers_observed == state@.peers.len(),
        r.active_peers == active_count(state@.peers),
        r.info_count == severity_count(state@.findings, Severity::Info),
        r.warn_count == severity_count(state@.findings, Severity::Warn),
        r.error_count == severity_count(state@.findings, Severity::Error),
        r.findings_truncated == truncated,
        r.findings_dropped_count == state@.findings_dropped,
        buckets_match(r.findings_buckets, state@.findings),
        r.session_lifecycle == lifecycle_of(state@),
        match r.peers {
            Some(v) => match top_peers_of(state@.peers, max_peers as nat) {
                Some(t) => peer_rows_view(v@) == t.map_values(|e: (PeerKeyV, PeerState)| peer_row_of(e)),
                None => false,
            },
            None => top_peers_of(state@.peers, max_peers as nat) is None,
        },
        match r.container {
            Some(c) => container_report_of(state@.container_stats) == Some(c@),
            None => container_report_of(state@.container_stats) is None,
        },
{
    let mut by_type: Vec<(String, u64)> = Vec::new();
    let mut t: u32 = 0;
    while t < 256
        invariant
            t <= 256,
            named_counts(by_type@) == type_rows_below(state@.by_type, t as nat),
        decreases 256 - t,
    {
        let code = t as u8;
        let ghost before = named_counts(by_type@);
        match state.by_type.get(&code) {
            Some(c) => {
                let name = type_name_of(code);
                by_type.push((name, *c));
                proof {
                    assert(named_counts(by_type@) =~= before + seq![(type_name_text(code), state@.by_type[code])]);
                }
            },
            None => {
                proof {
                    assert(before + Seq::<(Seq<char>, u64)>::empty() =~= before);
                }
            },
        }
        t = t + 1;
    }
    let (info_count, warn_count, error_count) = severity_counts(state.findings.as_slice());
    let peers = match top_peers(&state.peers, max_peers) {
        Some(top) => {
            let ghost tv = peers_view(top@);
            let mut rows: Vec<PeerRow> = Vec::new();
            let mut i: usize = 0;
            while i < top.len()
                invariant
                    i <= top@.len(),
                    tv == peers_view(top@),
                    peer_rows_view(rows@) == tv.subrange(0, i as int).map_values(
                        |e: (PeerKeyV, PeerState)| peer_row_of(e),
                    ),
                decreases top@.len() - i,
            {
                let (pk, ps) = (&top[i].0, &top[i].1);
                let row = PeerRow {
                    peer_asn: pk.peer_asn,
                    peer_ip: clone_opt_string(&pk.peer_ip),
                    active: ps.active,
                    rm_count: ps.route_monitoring_count,
                    up_count: ps.peer_up_count,
                    down_count: ps.peer_down_count,
                };
                let ghost before = peer_rows_view(rows@);
                rows.push(row);
                proof {
                    assert(peer_rows_view(rows@) =~= before.push(peer_row_of(tv[i as int])));
                    assert(tv.subrange(0, i + 1).map_values(|e: (PeerKeyV, PeerState)| peer_row_of(e)) =~= tv.subrange(
                        0,
                        i as int,
                    ).map_values(|e: (PeerKeyV, PeerState)| peer_row_of(e)).push(peer_row_of(tv[i as int])));
                }
                i = i + 1;
            }
            proof {
                assert(tv.subrange(0, tv.len() as int) =~= tv);
            }
            Some(rows)
        },
        None => None,
    };
    InspectSummary {
        file: state.file_path.clone(),
        format: state.format.clone(),
        size_bytes: state.file_size,
        total_messages: state.total_messages,
        malformed_messages: state.malformed_messages,
        bgp_elem_count: if state.bgp_elem_count > 0 {
            Some(state.bgp_elem_count)
        } else {
            None
        },
        by_type,
        peers_observed: state.peers.len(),
        active_peers: count_active(&state.peers),
        info_count,
        warn_count,
        error_count,
        findings_truncated: truncated,
        findings_dropped_count: state.findings_dropped,
        findings_buckets: compute_buckets(state.findings.as_slice()),
        session_lifecycle: compute_lifecycle(state),
        peers,
        container: container_report(&state.container_stats),
    }
}

} // verus!
