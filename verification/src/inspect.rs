//! The text of `inspect`: the report of a run, line by line, as the
//! terminal prints it. Only the file size is formatted outside (it is
//! shown with one decimal place of KB, MB or GB).

use vstd::prelude::*;

use crate::obmp_reader::{meta_any, OpenBmpMetadataV};
use crate::raw_bmp::{peer_down_reason_name, peer_down_reason_of, termination_reason_name, termination_reason_of};
use crate::raw_bmp::{StatsEntryV, TlvInfoV, TlvStringV};
use crate::report::{
    active_count, buckets_match, class_count, compute_buckets, compute_lifecycle, count_active, health_label, health_of,
    interpret, interpretation_of, lifecycle_of, severity_count, severity_counts, top_peers, top_peers_of,
    type_rows_below, FindingsBuckets, Health, Interpretation, RuleClass, SessionLifecycle,
};
use crate::report::type_name_text;
use crate::state::{peer_display, peers_view, severity_label, DoctorState, DoctorStateV, FindingV, PeerKeyV, PeerState};
use crate::text::{dec_str, decimal, sanitize_text, sanitized};
use crate::panels::{pad_left, pad_right, padded};

verus! {

/// The abstract values of lines of text.
pub open spec fn strs(v: Seq<String>) -> Seq<Seq<char>> {
    v.map_values(|s: String| s@)
}

/// The buckets of a list of findings.
pub open spec fn buckets_of(fs: Seq<FindingV>) -> FindingsBuckets {
    FindingsBuckets {
        parse_errors: class_count(fs, RuleClass::Parse) as u64,
        stream_order_warnings: class_count(fs, RuleClass::StreamOrder) as u64,
        other_findings: class_count(fs, RuleClass::Other) as u64,
    }
}

/// A line when `c` holds, nothing otherwise.
pub open spec fn when(c: bool, l: Seq<char>) -> Seq<Seq<char>> {
    if c {
        seq![l]
    } else {
        Seq::empty()
    }
}

pub open spec fn dec(n: nat) -> Seq<char> {
    dec_str(n)
}

/// `message` or `messages`.
pub open spec fn messages_word(n: u64) -> Seq<char> {
    if n == 1 {
        "message"@
    } else {
        "messages"@
    }
}

/// What the health line says after the verdict.
pub open spec fn health_detail(st: DoctorStateV, b: FindingsBuckets) -> Seq<char> {
    match health_of(st.malformed_messages, b) {
        Health::Issues => dec(st.total_messages as nat) + " "@ + messages_word(st.total_messages) + ", "@ + dec(
            st.malformed_messages as nat,
        ) + " malformed"@,
        Health::Warnings => dec(st.total_messages as nat) + " "@ + messages_word(st.total_messages)
            + ", 0 malformed, "@ + dec(b.stream_order_warnings as nat) + " stream warnings"@,
        Health::Clean => dec(st.total_messages as nat) + " "@ + messages_word(st.total_messages) + ", 0 malformed"@,
    }
}

/// The counts by type, one line each, in type-code order.
pub open spec fn type_lines(rows: Seq<(Seq<char>, u64)>) -> Seq<Seq<char>> {
    Seq::new(rows.len(), |i: int| "  "@ + pad_right(rows[i].0, 30) + " "@ + dec(rows[i].1 as nat))
}

/// The heading of the report: health, file, counters and counts by type.
pub open spec fn header_text(st: DoctorStateV, b: FindingsBuckets, size_text: Seq<char>) -> Seq<Seq<char>> {
    seq![
        "=== BMPDoctor Inspect ==="@,
        "Health: "@ + health_label(health_of(st.malformed_messages, b)) + " — "@ + health_detail(st, b) + ", "@ + dec(
            st.peers.len(),
        ) + " peer"@ + (if st.peers.len() == 1 {
            ""@
        } else {
            "s"@
        }),
        ""@,
        "File:        "@ + st.file_path,
        "Format:      "@ + st.format,
        "Size:        "@ + size_text,
        "Messages:    "@ + dec(st.total_messages as nat),
    ] + when(st.malformed_messages > 0, "Malformed:   "@ + dec(st.malformed_messages as nat) + " (frame-level errors)"@)
        + when(st.bgp_elem_count > 0, "BGP Elems:   "@ + dec(st.bgp_elem_count as nat)) + seq![
        ""@,
        "Message counts by type:"@,
    ] + type_lines(type_rows_below(st.by_type, 256))
}

/// The inventory row of a peer.
pub open spec fn peer_table_line(e: (PeerKeyV, PeerState)) -> Seq<char> {
    " "@ + pad_right(
        match e.0.peer_asn {
            Some(a) => dec(a as nat),
            None => "-"@,
        },
        10,
    ) + " "@ + pad_right(
        match e.0.peer_ip {
            Some(ip) => ip,
            None => "-"@,
        },
        40,
    ) + " "@ + pad_right(
        if e.1.active {
            "yes"@
        } else {
            "no"@
        },
        7,
    ) + " "@ + pad_right(dec(e.1.route_monitoring_count as nat), 8) + " "@ + pad_right(dec(e.1.peer_up_count as nat), 5)
        + " "@ + pad_right(dec(e.1.peer_down_count as nat), 5)
}

/// The ranking row of the peer at rank `i` (from 0).
pub open spec fn top_peer_line(i: int, e: (PeerKeyV, PeerState)) -> Seq<char> {
    "  "@ + dec((i + 1) as nat) + ". "@ + pad_right(peer_display(e.0), 30) + " "@ + pad_left(
        dec(e.1.route_monitoring_count as nat),
        8,
    ) + " updates  ["@ + (if e.1.active {
        "active"@
    } else {
        "inactive"@
    }) + "]"@
}

/// The column headings of the peer inventory.
pub open spec fn peer_table_heading() -> Seq<char> {
    " "@ + pad_right("ASN"@, 10) + " "@ + pad_right("Peer IP"@, 40) + " "@ + pad_right("Active"@, 7) + " "@ + pad_right(
        "RM msgs"@,
        8,
    ) + " "@ + pad_right("UPs"@, 5) + " "@ + pad_right("DOWNs"@, 5)
}

/// The peer sections: the counts, then (unless `max_peers` is 0) the
/// inventory of the top peers, a note on those left out, and the ranking.
pub open spec fn peer_text(st: DoctorStateV, max_peers: nat) -> Seq<Seq<char>> {
    if st.peers.len() == 0 {
        Seq::empty()
    } else {
        seq![
            ""@,
            "Peers observed: "@ + dec(st.peers.len()),
            "Active at end:  "@ + dec(active_count(st.peers)),
        ] + match top_peers_of(st.peers, max_peers) {
            None => Seq::empty(),
            Some(top) => seq![""@, peer_table_heading()] + Seq::new(top.len(), |i: int| peer_table_line(top[i])) + when(
                st.peers.len() > top.len(),
                " ("@ + dec((st.peers.len() - top.len()) as nat) + " more peers not shown; use --max-peers to raise)"@,
            ) + seq![""@, "Top peers by route-monitoring messages:"@] + Seq::new(
                top.len(),
                |i: int| top_peer_line(i, top[i]),
            ),
        }
    }
}

/// The OpenBMP metadata, when a field of it is set.
pub open spec fn metadata_text(m: Option<OpenBmpMetadataV>) -> Seq<Seq<char>> {
    match m {
        Some(x) => if meta_any(x) {
            seq![""@, "OpenBMP metadata:"@] + match x.collector {
                Some(c) => seq!["  Collector:  "@ + sanitized(c)],
                None => Seq::empty(),
            } + match x.router {
                Some(r) => seq!["  Router:     "@ + sanitized(r)],
                None => Seq::empty(),
            } + match x.router_ip {
                Some(ip) => seq!["  Router IP:  "@ + sanitized(ip)],
                None => Seq::empty(),
            }
        } else {
            Seq::empty()
        },
        None => Seq::empty(),
    }
}

/// The information strings of a TLV set, one line each.
pub open spec fn tlv_lines(ss: Seq<TlvStringV>) -> Seq<Seq<char>> {
    Seq::new(ss.len(), |i: int| "  "@ + ss[i].tlv_type_name + ": "@ + sanitized(ss[i].value))
}

/// The Initiation and Termination information.
pub open spec fn tlv_text(init: Option<TlvInfoV>, term: Option<TlvInfoV>) -> Seq<Seq<char>> {
    (match init {
        Some(t) => if t.strings.len() > 0 {
            seq![""@, "Initiation info:"@] + tlv_lines(t.strings)
        } else {
            Seq::empty()
        },
        None => Seq::empty(),
    }) + match term {
        Some(t) => seq![""@, "Termination info:"@] + match t.termination_reason {
            Some(r) => seq!["  Reason: "@ + termination_reason_of(r) + " (code "@ + dec(r as nat) + ")"@],
            None => Seq::empty(),
        } + tlv_lines(t.strings),
        None => Seq::empty(),
    }
}

/// The first ten Statistics Report entries and a count of the rest.
pub open spec fn stats_text(s: Option<Seq<StatsEntryV>>) -> Seq<Seq<char>> {
    match s {
        Some(es) => if es.len() > 0 {
            let n: nat = if es.len() > 10 {
                10
            } else {
                es.len()
            };
            seq![""@, "Stats Report info:"@] + Seq::new(
                n,
                |i: int| "  "@ + es[i].stat_name + ": "@ + dec(es[i].stat_value as nat),
            ) + when(es.len() > 10, "  ... and "@ + dec((es.len() - 10) as nat) + " more entries"@)
        } else {
            Seq::empty()
        },
        None => Seq::empty(),
    }
}

/// The session lifecycle and what it suggests.
pub open spec fn lifecycle_text(st: DoctorStateV, b: FindingsBuckets) -> Seq<Seq<char>> {
    let lc = lifecycle_of(st);
    seq![
        ""@,
        "Session lifecycle:"@,
        "  Peers observed:              "@ + dec(lc.peers_observed as nat),
        "  Active at end:               "@ + dec(lc.active_peers as nat),
        "  Route-monitoring messages:   "@ + dec(lc.route_monitoring_messages as nat),
        "  Peer Up messages:            "@ + dec(lc.peer_up_messages as nat),
        "  Peer Down messages:          "@ + dec(lc.peer_down_messages as nat),
    ] + when(
        lc.rm_before_peer_up_warnings > 0,
        "  RM before Peer Up warnings: "@ + dec(lc.rm_before_peer_up_warnings as nat),
    ) + match interpretation_of(st.malformed_messages, b, lc.rm_before_peer_up_warnings) {
        Interpretation::MidStreamCapture => seq![
            "  Interpretation: likely mid-stream capture; stream-order warnings are expected."@,
        ] + when(
            b.stream_order_warnings > lc.rm_before_peer_up_warnings,
            "    ("@ + dec(b.stream_order_warnings as nat) + " total stream-order warnings: "@ + dec(
                lc.rm_before_peer_up_warnings as nat,
            ) + " RM-before-Peer-Up, "@ + dec((b.stream_order_warnings - lc.rm_before_peer_up_warnings) as nat)
                + " other)"@,
        ),
        Interpretation::ParseIssues => seq![
            "  Interpretation: parse issues need investigation ("@ + dec(st.malformed_messages as nat) + " malformed, "@
                + dec(b.parse_errors as nat) + " parse errors)."@,
        ],
        Interpretation::Unremarkable => Seq::empty(),
    }
}

/// The peers whose last Peer Down gave a reason, in table order.
pub open spec fn down_peers(ps: Seq<(PeerKeyV, PeerState)>) -> Seq<(PeerKeyV, PeerState)> {
    ps.filter(|e: (PeerKeyV, PeerState)| e.1.last_peer_down_reason is Some)
}

/// The line of a peer's last Peer Down reason.
pub open spec fn down_line(e: (PeerKeyV, PeerState)) -> Seq<char> {
    let code = e.1.last_peer_down_reason.unwrap();
    "  "@ + peer_display(e.0) + " — "@ + peer_down_reason_of(code) + " (code "@ + dec(code as nat) + ")"@
}

/// The Peer Down reasons, when any peer has one.
pub open spec fn down_text(ps: Seq<(PeerKeyV, PeerState)>) -> Seq<Seq<char>> {
    let d = down_peers(ps);
    if d.len() > 0 {
        seq![""@, "Peer Down info:"@] + Seq::new(d.len(), |i: int| down_line(d[i]))
    } else {
        Seq::empty()
    }
}

/// The findings by severity and bucket, and the truncation note.
pub open spec fn summary_text(st: DoctorStateV, b: FindingsBuckets, truncated: bool) -> Seq<Seq<char>> {
    seq![
        ""@,
        "Findings summary:"@,
        "  INFO:  "@ + dec(severity_count(st.findings, crate::state::Severity::Info)),
        "  WARN:  "@ + dec(severity_count(st.findings, crate::state::Severity::Warn)),
        "  ERROR: "@ + dec(severity_count(st.findings, crate::state::Severity::Error)),
    ] + (if b.parse_errors > 0 || b.stream_order_warnings > 0 || b.other_findings > 0 {
        seq![
            "  Parse errors:          "@ + dec(b.parse_errors as nat),
            "  Stream-order warnings: "@ + dec(b.stream_order_warnings as nat),
        ] + when(b.other_findings > 0, "  Other findings:        "@ + dec(b.other_findings as nat))
    } else {
        Seq::empty()
    }) + when(
        truncated,
        "  NOTE: findings truncated at "@ + dec(st.findings.len()) + " ("@ + dec(st.findings_dropped as nat)
            + " dropped). Use --max-findings to raise the cap."@,
    )
}

/// The detail of a finding at position `i` (from 0).
pub open spec fn finding_line(i: int, f: FindingV) -> Seq<char> {
    "  "@ + dec((i + 1) as nat) + ". "@ + severity_label(f.severity) + " "@ + f.rule + match f.offset {
        Some(o) => " offset="@ + dec(o as nat),
        None => ""@,
    } + match f.peer {
        Some(p) => " peer="@ + peer_display(p),
        None => ""@,
    } + ": "@ + f.message
}

/// The first twenty findings and a count of the rest.
pub open spec fn detail_text(fs: Seq<FindingV>) -> Seq<Seq<char>> {
    if fs.len() > 0 {
        let n: nat = if fs.len() > 20 {
            20
        } else {
            fs.len()
        };
        seq![""@, "Findings detail (first 20):"@] + Seq::new(n, |i: int| finding_line(i, fs[i])) + when(
            fs.len() > 20,
            "  ... and "@ + dec((fs.len() - 20) as nat) + " more"@,
        )
    } else {
        Seq::empty()
    }
}

/// The whole `inspect` report of a run, line by line, with the file size
/// already formatted as `size_text`.
pub open spec fn inspect_text(st: DoctorStateV, truncated: bool, max_peers: nat, size_text: Seq<char>) -> Seq<Seq<char>> {
    let b = buckets_of(st.findings);
    header_text(st, b, size_text) + peer_text(st, max_peers) + metadata_text(st.container_stats.openbmp_metadata)
        + tlv_text(st.initiation_info, st.termination_info) + stats_text(st.stats_info) + lifecycle_text(st, b)
        + down_text(st.peers) + summary_text(st, b, truncated) + detail_text(st.findings)
}

fn add_line(out: &mut Vec<String>, s: String)
    ensures
        strs(final(out)@) == strs(old(out)@).push(s@),
{
    let ghost before = strs(out@);
    let ghost sv = s@;
    out.push(s);
    proof {
        assert(strs(out@) =~= before.push(sv));
    }
}

fn add_all(out: &mut Vec<String>, more: Vec<String>)
    ensures
        strs(final(out)@) == strs(old(out)@) + strs(more@),
{
    let ghost before = out@;
    let mut more = more;
    let ghost mv = more@;
    out.append(&mut more);
    proof {
        assert(strs(out@) =~= strs(before) + strs(mv));
    }
}

fn dec_of(n: u64) -> (r: String)
    ensures
        r@ == dec(n as nat),
{
    decimal(n)
}

fn text(a: &str, b: &str) -> (r: String)
    ensures
        r@ == a@ + b@,
{
    let mut s = String::from_str(a);
    s.append(b);
    s
}

fn header_lines(state: &DoctorState, b: &FindingsBuckets, size_text: &str) -> (r: Vec<String>)
    requires
        *b == buckets_of(state@.findings),
    ensures
        strs(r@) == header_text(state@, *b, size_text@),
{
    let st = state;
    let mut out: Vec<String> = Vec::new();
    add_line(&mut out, String::from_str("=== BMPDoctor Inspect ==="));
    let health = Health::classify(st.malformed_messages, b);
    let total = dec_of(st.total_messages);
    let word = if st.total_messages == 1 {
        "message"
    } else {
        "messages"
    };
    let mut detail = text(total.as_str(), " ");
    detail.append(word);
    match health {
        Health::Issues => {
            detail.append(", ");
            let m = dec_of(st.malformed_messages);
            detail.append(m.as_str());
            detail.append(" malformed");
        },
        Health::Warnings => {
            detail.append(", 0 malformed, ");
            let w = dec_of(b.stream_order_warnings);
            detail.append(w.as_str());
            detail.append(" stream warnings");
        },
        Health::Clean => {
            detail.append(", 0 malformed");
        },
    }
    assert(detail@ =~= health_detail(state@, *b));
    let mut h = text("Health: ", health.as_str());
    h.append(" — ");
    h.append(detail.as_str());
    h.append(", ");
    let np = dec_of(st.peers.len() as u64);
    h.append(np.as_str());
    h.append(" peer");
    if st.peers.len() != 1 {
        h.append("s");
    } else {
        h.append("");
    }
    assert(h@ =~= "Health: "@ + health_label(health_of(st@.malformed_messages, *b)) + " — "@ + health_detail(st@, *b)
        + ", "@ + dec(st@.peers.len()) + " peer"@ + (if st@.peers.len() == 1 {
        ""@
    } else {
        "s"@
    }));
    add_line(&mut out, h);
    add_line(&mut out, String::from_str(""));
    add_line(&mut out, text("File:        ", st.file_path.as_str()));
    add_line(&mut out, text("Format:      ", st.format.as_str()));
    add_line(&mut out, text("Size:        ", size_text));
    let t2 = dec_of(st.total_messages);
    add_line(&mut out, text("Messages:    ", t2.as_str()));
    let ghost a1 = strs(out@);
    if st.malformed_messages > 0 {
        let m = dec_of(st.malformed_messages);
        let mut l = text("Malformed:   ", m.as_str());
        l.append(" (frame-level errors)");
        add_line(&mut out, l);
    }
    let ghost a2 = strs(out@);
    if st.bgp_elem_count > 0 {
        let e = dec_of(st.bgp_elem_count);
        add_line(&mut out, text("BGP Elems:   ", e.as_str()));
    }
    let ghost a3 = strs(out@);
    add_line(&mut out, String::from_str(""));
    add_line(&mut out, String::from_str("Message counts by type:"));
    let ghost a4 = strs(out@);
    let mut t: u32 = 0;
    let ghost rows = type_rows_below(st@.by_type, 256);
    while t < 256
        invariant
            t <= 256,
            strs(out@) == a4 + type_lines(type_rows_below(st@.by_type, t as nat)),
        decreases 256 - t,
    {
        let code = t as u8;
        let ghost prev = type_rows_below(st@.by_type, t as nat);
        let ghost before = strs(out@);
        match st.by_type.get(&code) {
            Some(c) => {
                let name = crate::report::type_name_of(code);
                let mut l = String::from_str("  ");
                let pn = padded(name.as_str(), 30);
                l.append(pn.as_str());
                l.append(" ");
                let d = dec_of(*c);
                l.append(d.as_str());
                add_line(&mut out, l);
                proof {
                    let next = prev + seq![(type_name_text(code), st@.by_type[code])];
                    assert(type_rows_below(st@.by_type, (t + 1) as nat) == next);
                    assert(type_lines(next) =~= type_lines(prev).push(
                        "  "@ + pad_right(type_name_text(code), 30) + " "@ + dec(st@.by_type[code] as nat),
                    ));
                }
            },
            None => {
                proof {
                    assert(type_rows_below(st@.by_type, (t + 1) as nat) =~= prev);
                }
            },
        }
        t = t + 1;
    }
    proof {
        assert(strs(out@) =~= header_text(state@, *b, size_text@));
    }
    out
}

fn peer_table_line_of(pk: &crate::state::PeerKey, ps: &PeerState) -> (r: String)
    ensures
        r@ == peer_table_line((pk@, *ps)),
{
    let asn = match pk.peer_asn {
        Some(a) => dec_of(a as u64),
        None => String::from_str("-"),
    };
    let ip = match &pk.peer_ip {
        Some(x) => x.clone(),
        None => String::from_str("-"),
    };
    let active = if ps.active {
        "yes"
    } else {
        "no"
    };
    let mut l = String::from_str(" ");
    let c1 = padded(asn.as_str(), 10);
    l.append(c1.as_str());
    l.append(" ");
    let c2 = padded(ip.as_str(), 40);
    l.append(c2.as_str());
    l.append(" ");
    let c3 = padded(active, 7);
    l.append(c3.as_str());
    l.append(" ");
    let d1 = dec_of(ps.route_monitoring_count);
    let c4 = padded(d1.as_str(), 8);
    l.append(c4.as_str());
    l.append(" ");
    let d2 = dec_of(ps.peer_up_count);
    let c5 = padded(d2.as_str(), 5);
    l.append(c5.as_str());
    l.append(" ");
    let d3 = dec_of(ps.peer_down_count);
    let c6 = padded(d3.as_str(), 5);
    l.append(c6.as_str());
    proof {
        assert(l@ =~= peer_table_line((pk@, *ps)));
    }
    l
}

fn top_peer_line_of(i: usize, pk: &crate::state::PeerKey, ps: &PeerState) -> (r: String)
    requires
        i < usize::MAX,
    ensures
        r@ == top_peer_line(i as int, (pk@, *ps)),
{
    let mut l = String::from_str("  ");
    let n = dec_of((i + 1) as u64);
    l.append(n.as_str());
    l.append(". ");
    let d = pk.display();
    let c = padded(d.as_str(), 30);
    l.append(c.as_str());
    l.append(" ");
    let rm = dec_of(ps.route_monitoring_count);
    let r = crate::panels::padded_left(rm.as_str(), 8);
    l.append(r.as_str());
    l.append(" updates  [");
    if ps.active {
        l.append("active");
    } else {
        l.append("inactive");
    }
    l.append("]");
    proof {
        assert(l@ =~= top_peer_line(i as int, (pk@, *ps)));
    }
    l
}

fn peer_table_heading_of() -> (r: String)
    ensures
        r@ == peer_table_heading(),
{
    let mut l = String::from_str(" ");
    let a = padded("ASN", 10);
    l.append(a.as_str());
    l.append(" ");
    let b = padded("Peer IP", 40);
    l.append(b.as_str());
    l.append(" ");
    let c = padded("Active", 7);
    l.append(c.as_str());
    l.append(" ");
    let d = padded("RM msgs", 8);
    l.append(d.as_str());
    l.append(" ");
    let e = padded("UPs", 5);
    l.append(e.as_str());
    l.append(" ");
    let f = padded("DOWNs", 5);
    l.append(f.as_str());
    proof {
        assert(l@ =~= peer_table_heading());
    }
    l
}

fn peer_lines(state: &DoctorState, max_peers: usize) -> (r: Vec<String>)
    ensures
        strs(r@) == peer_text(state@, max_peers as nat),
{
    let mut out: Vec<String> = Vec::new();
    if state.peers.len() == 0 {
        proof {
            assert(strs(out@) =~= Seq::<Seq<char>>::empty());
        }
        return out;
    }
    add_line(&mut out, String::from_str(""));
    let n = dec_of(state.peers.len() as u64);
    add_line(&mut out, text("Peers observed: ", n.as_str()));
    let a = dec_of(count_active(&state.peers) as u64);
    add_line(&mut out, text("Active at end:  ", a.as_str()));
    let ghost a0 = strs(out@);
    match top_peers(&state.peers, max_peers) {
        None => {
            proof {
                assert(strs(out@) =~= peer_text(state@, max_peers as nat));
            }
        },
        Some(top) => {
            let ghost tv = peers_view(top@);
            add_line(&mut out, String::from_str(""));
            add_line(&mut out, peer_table_heading_of());
            let ghost a1 = strs(out@);
            let mut i: usize = 0;
            while i < top.len()
                invariant
                    i <= top@.len(),
                    tv == peers_view(top@),
                    strs(out@) == a1 + Seq::new(i as nat, |j: int| peer_table_line(tv[j])),
                decreases top@.len() - i,
            {
                let l = peer_table_line_of(&top[i].0, &top[i].1);
                add_line(&mut out, l);
                i = i + 1;
                proof {
                    assert(strs(out@) =~= a1 + Seq::new(i as nat, |j: int| peer_table_line(tv[j])));
                }
            }
            let ghost a2 = strs(out@);
            if state.peers.len() > top.len() {
                let d = dec_of((state.peers.len() - top.len()) as u64);
                let mut l = text(" (", d.as_str());
                l.append(" more peers not shown; use --max-peers to raise)");
                add_line(&mut out, l);
            }
            let ghost a3 = strs(out@);
            add_line(&mut out, String::from_str(""));
            add_line(&mut out, String::from_str("Top peers by route-monitoring messages:"));
            let ghost a4 = strs(out@);
            let mut k: usize = 0;
            while k < top.len()
                invariant
                    k <= top@.len(),
                    tv == peers_view(top@),
                    strs(out@) == a4 + Seq::new(k as nat, |j: int| top_peer_line(j, tv[j])),
                decreases top@.len() - k,
            {
                let l = top_peer_line_of(k, &top[k].0, &top[k].1);
                add_line(&mut out, l);
                k = k + 1;
                proof {
                    assert(strs(out@) =~= a4 + Seq::new(k as nat, |j: int| top_peer_line(j, tv[j])));
                }
            }
            proof {
                assert(tv.len() == top@.len());
                assert(strs(out@) =~= peer_text(state@, max_peers as nat));
            }
        },
    }
    out
}

fn metadata_lines(m: &Option<crate::obmp_reader::OpenBmpMetadata>) -> (r: Vec<String>)
    ensures
        strs(r@) == metadata_text(match m {
            Some(x) => Some(x@),
            None => None,
        }),
{
    let mut out: Vec<String> = Vec::new();
    match m {
        Some(x) => {
            if x.any() {
                add_line(&mut out, String::from_str(""));
                add_line(&mut out, String::from_str("OpenBMP metadata:"));
                let ghost a0 = strs(out@);
                match &x.collector {
                    Some(c) => {
                        let t = sanitize_text(c.as_str());
                        add_line(&mut out, text("  Collector:  ", t.as_str()));
                    },
                    None => {},
                }
                let ghost a1 = strs(out@);
                match &x.router {
                    Some(c) => {
                        let t = sanitize_text(c.as_str());
                        add_line(&mut out, text("  Router:     ", t.as_str()));
                    },
                    None => {},
                }
                let ghost a2 = strs(out@);
                match &x.router_ip {
                    Some(c) => {
                        let t = sanitize_text(c.as_str());
                        add_line(&mut out, text("  Router IP:  ", t.as_str()));
                    },
                    None => {},
                }
            }
        },
        None => {},
    }
    proof {
        assert(strs(out@) =~= metadata_text(match m {
            Some(x) => Some(x@),
            None => None,
        }));
    }
    out
}

fn add_tlv_strings(out: &mut Vec<String>, ss: &Vec<crate::raw_bmp::TlvString>)
    ensures
        strs(final(out)@) == strs(old(out)@) + tlv_lines(ss@.map_values(|t: crate::raw_bmp::TlvString| t@)),
{
    let ghost a0 = strs(out@);
    let ghost sv = ss@.map_values(|t: crate::raw_bmp::TlvString| t@);
    let mut i: usize = 0;
    while i < ss.len()
        invariant
            i <= ss@.len(),
            sv == ss@.map_values(|t: crate::raw_bmp::TlvString| t@),
            strs(out@) == a0 + Seq::new(i as nat, |j: int| "  "@ + sv[j].tlv_type_name + ": "@ + sanitized(sv[j].value)),
        decreases ss@.len() - i,
    {
        let mut l = text("  ", ss[i].tlv_type_name.as_str());
        l.append(": ");
        let v = sanitize_text(ss[i].value.as_str());
        l.append(v.as_str());
        add_line(out, l);
        i = i + 1;
        proof {
            assert(strs(out@) =~= a0 + Seq::new(
                i as nat,
                |j: int| "  "@ + sv[j].tlv_type_name + ": "@ + sanitized(sv[j].value),
            ));
        }
    }
}

fn tlv_lines_of(init: &Option<crate::raw_bmp::TlvInfo>, term: &Option<crate::raw_bmp::TlvInfo>) -> (r: Vec<String>)
    ensures
        strs(r@) == tlv_text(
            match init {
                Some(t) => Some(t@),
                None => None,
            },
            match term {
                Some(t) => Some(t@),
                None => None,
            },
        ),
{
    let mut out: Vec<String> = Vec::new();
    match init {
        Some(t) => {
            if t.strings.len() > 0 {
                add_line(&mut out, String::from_str(""));
                add_line(&mut out, String::from_str("Initiation info:"));
                add_tlv_strings(&mut out, &t.strings);
            }
        },
        None => {},
    }
    let ghost a0 = strs(out@);
    match term {
        Some(t) => {
            add_line(&mut out, String::from_str(""));
            add_line(&mut out, String::from_str("Termination info:"));
            let ghost a1 = strs(out@);
            match t.termination_reason {
                Some(r) => {
                    let mut l = text("  Reason: ", termination_reason_name(r));
                    l.append(" (code ");
                    let d = dec_of(r as u64);
                    l.append(d.as_str());
                    l.append(")");
                    add_line(&mut out, l);
                },
                None => {},
            }
            let ghost a2 = strs(out@);
            add_tlv_strings(&mut out, &t.strings);
        },
        None => {},
    }
    proof {
        assert(strs(out@) =~= tlv_text(
            match init {
                Some(t) => Some(t@),
                None => None,
            },
            match term {
                Some(t) => Some(t@),
                None => None,
            },
        ));
    }
    out
}

fn stats_lines(s: &Option<crate::raw_bmp::StatsInfo>) -> (r: Vec<String>)
    ensures
        strs(r@) == stats_text(match s {
            Some(x) => Some(x@),
            None => None,
        }),
{
    let mut out: Vec<String> = Vec::new();
    match s {
        Some(x) => {
            let es = &x.entries;
            if es.len() > 0 {
                let ghost ev = x@;
                add_line(&mut out, String::from_str(""));
                add_line(&mut out, String::from_str("Stats Report info:"));
                let ghost a0 = strs(out@);
                let n: usize = if es.len() > 10 {
                    10
                } else {
                    es.len()
                };
                let mut i: usize = 0;
                while i < n
                    invariant
                        i <= n,
                        n <= es@.len(),
                        ev == es@.map_values(|e: crate::raw_bmp::StatsEntry| e@),
                        strs(out@) == a0 + Seq::new(
                            i as nat,
                            |j: int| "  "@ + ev[j].stat_name + ": "@ + dec(ev[j].stat_value as nat),
                        ),
                    decreases n - i,
                {
                    let mut l = text("  ", es[i].stat_name.as_str());
                    l.append(": ");
                    let d = dec_of(es[i].stat_value);
                    l.append(d.as_str());
                    add_line(&mut out, l);
                    i = i + 1;
                    proof {
                        assert(strs(out@) =~= a0 + Seq::new(
                            i as nat,
                            |j: int| "  "@ + ev[j].stat_name + ": "@ + dec(ev[j].stat_value as nat),
                        ));
                    }
                }
                let ghost a1 = strs(out@);
                if es.len() > 10 {
                    let d = dec_of((es.len() - 10) as u64);
                    let mut l = text("  ... and ", d.as_str());
                    l.append(" more entries");
                    add_line(&mut out, l);
                }
            }
        },
        None => {},
    }
    proof {
        assert(strs(out@) =~= stats_text(match s {
            Some(x) => Some(x@),
            None => None,
        }));
    }
    out
}

fn counter_line(label: &str, n: u64) -> (r: String)
    ensures
        r@ == label@ + dec(n as nat),
{
    let d = dec_of(n);
    text(label, d.as_str())
}

fn lifecycle_lines(state: &DoctorState, b: &FindingsBuckets) -> (r: Vec<String>)
    requires
        *b == buckets_of(state@.findings),
    ensures
        strs(r@) == lifecycle_text(state@, *b),
{
    let lc = compute_lifecycle(state);
    let mut out: Vec<String> = Vec::new();
    add_line(&mut out, String::from_str(""));
    add_line(&mut out, String::from_str("Session lifecycle:"));
    add_line(&mut out, counter_line("  Peers observed:              ", lc.peers_observed as u64));
    add_line(&mut out, counter_line("  Active at end:               ", lc.active_peers as u64));
    add_line(&mut out, counter_line("  Route-monitoring messages:   ", lc.route_monitoring_messages));
    add_line(&mut out, counter_line("  Peer Up messages:            ", lc.peer_up_messages));
    add_line(&mut out, counter_line("  Peer Down messages:          ", lc.peer_down_messages));
    let ghost a0 = strs(out@);
    if lc.rm_before_peer_up_warnings > 0 {
        add_line(&mut out, counter_line("  RM before Peer Up warnings: ", lc.rm_before_peer_up_warnings));
    }
    let ghost a1 = strs(out@);
    match interpret(state.malformed_messages, b, lc.rm_before_peer_up_warnings) {
        Interpretation::MidStreamCapture => {
            add_line(
                &mut out,
                String::from_str("  Interpretation: likely mid-stream capture; stream-order warnings are expected."),
            );
            let ghost a2 = strs(out@);
            let sw = b.stream_order_warnings;
            let rm = lc.rm_before_peer_up_warnings;
            if sw > rm {
                let mut l = counter_line("    (", sw);
                l.append(" total stream-order warnings: ");
                let d1 = dec_of(rm);
                l.append(d1.as_str());
                l.append(" RM-before-Peer-Up, ");
                let d2 = dec_of(sw - rm);
                l.append(d2.as_str());
                l.append(" other)");
                add_line(&mut out, l);
            }
        },
        Interpretation::ParseIssues => {
            let mut l = counter_line("  Interpretation: parse issues need investigation (", state.malformed_messages);
            l.append(" malformed, ");
            let d = dec_of(b.parse_errors);
            l.append(d.as_str());
            l.append(" parse errors).");
            add_line(&mut out, l);
        },
        Interpretation::Unremarkable => {},
    }
    proof {
        assert(strs(out@) =~= lifecycle_text(state@, *b));
    }
    out
}

fn down_lines(state: &DoctorState) -> (r: Vec<String>)
    ensures
        strs(r@) == down_text(state@.peers),
{
    let ghost pv = state@.peers;
    let mut body: Vec<String> = Vec::new();
    let mut i: usize = 0;
    proof {
        reveal(Seq::filter);
        assert(pv.subrange(0, 0) =~= Seq::<(PeerKeyV, PeerState)>::empty());
        assert(down_peers(pv.subrange(0, 0)) =~= Seq::<(PeerKeyV, PeerState)>::empty());
    }
    while i < state.peers.len()
        invariant
            i <= state.peers@.len(),
            pv == state@.peers,
            pv == peers_view(state.peers@),
            strs(body@) == Seq::new(
                down_peers(pv.subrange(0, i as int)).len(),
                |j: int| down_line(down_peers(pv.subrange(0, i as int))[j]),
            ),
        decreases state.peers@.len() - i,
    {
        let ghost d0 = down_peers(pv.subrange(0, i as int));
        proof {
            assert(pv.subrange(0, i + 1) =~= pv.subrange(0, i as int).push(pv[i as int]));
            reveal(Seq::filter);
            assert(pv.subrange(0, i + 1).drop_last() =~= pv.subrange(0, i as int));
            assert(pv.subrange(0, i + 1).last() == pv[i as int]);
        }
        match state.peers[i].1.last_peer_down_reason {
            Some(code) => {
                let d = state.peers[i].0.display();
                let mut l = text("  ", d.as_str());
                l.append(" — ");
                l.append(peer_down_reason_name(code));
                l.append(" (code ");
                let c = dec_of(code as u64);
                l.append(c.as_str());
                l.append(")");
                add_line(&mut body, l);
                proof {
                    let d1 = down_peers(pv.subrange(0, i + 1));
                    assert(d1 == d0.push(pv[i as int]));
                    assert(strs(body@) =~= Seq::new(d1.len(), |j: int| down_line(d1[j])));
                }
            },
            None => {
                proof {
                    assert(down_peers(pv.subrange(0, i + 1)) == d0);
                }
            },
        }
        i = i + 1;
    }
    proof {
        assert(pv.subrange(0, pv.len() as int) =~= pv);
    }
    let mut out: Vec<String> = Vec::new();
    if body.len() > 0 {
        add_line(&mut out, String::from_str(""));
        add_line(&mut out, String::from_str("Peer Down info:"));
        add_all(&mut out, body);
    }
    proof {
        assert(strs(out@) =~= down_text(state@.peers));
    }
    out
}

fn summary_lines(state: &DoctorState, b: &FindingsBuckets, truncated: bool) -> (r: Vec<String>)
    requires
        *b == buckets_of(state@.findings),
    ensures
        strs(r@) == summary_text(state@, *b, truncated),
{
    let (info, warn, err) = severity_counts(state.findings.as_slice());
    let mut out: Vec<String> = Vec::new();
    add_line(&mut out, String::from_str(""));
    add_line(&mut out, String::from_str("Findings summary:"));
    add_line(&mut out, counter_line("  INFO:  ", info as u64));
    add_line(&mut out, counter_line("  WARN:  ", warn as u64));
    add_line(&mut out, counter_line("  ERROR: ", err as u64));
    let ghost a0 = strs(out@);
    if b.parse_errors > 0 || b.stream_order_warnings > 0 || b.other_findings > 0 {
        add_line(&mut out, counter_line("  Parse errors:          ", b.parse_errors));
        add_line(&mut out, counter_line("  Stream-order warnings: ", b.stream_order_warnings));
        if b.other_findings > 0 {
            add_line(&mut out, counter_line("  Other findings:        ", b.other_findings));
        }
    }
    let ghost a1 = strs(out@);
    if truncated {
        let mut l = counter_line("  NOTE: findings truncated at ", state.findings.len() as u64);
        l.append(" (");
        let d = dec_of(state.findings_dropped);
        l.append(d.as_str());
        l.append(" dropped). Use --max-findings to raise the cap.");
        add_line(&mut out, l);
    }
    proof {
        assert(strs(out@) =~= summary_text(state@, *b, truncated));
    }
    out
}

fn finding_line_of(i: usize, f: &crate::state::Finding) -> (r: String)
    requires
        i < usize::MAX,
    ensures
        r@ == finding_line(i as int, f@),
{
    let mut l = counter_line("  ", (i + 1) as u64);
    l.append(". ");
    l.append(f.severity.as_str());
    l.append(" ");
    l.append(f.rule.as_str());
    match f.offset {
        Some(o) => {
            let d = counter_line(" offset=", o);
            l.append(d.as_str());
        },
        None => l.append(""),
    }
    match &f.peer {
        Some(p) => {
            let d = p.display();
            let t = text(" peer=", d.as_str());
            l.append(t.as_str());
        },
        None => l.append(""),
    }
    l.append(": ");
    l.append(f.message.as_str());
    proof {
        assert(l@ =~= finding_line(i as int, f@));
    }
    l
}

fn detail_lines(state: &DoctorState) -> (r: Vec<String>)
    ensures
        strs(r@) == detail_text(state@.findings),
{
    let mut out: Vec<String> = Vec::new();
    let fs = &state.findings;
    if fs.len() == 0 {
        proof {
            assert(strs(out@) =~= Seq::<Seq<char>>::empty());
        }
        return out;
    }
    let ghost fv = state@.findings;
    add_line(&mut out, String::from_str(""));
    add_line(&mut out, String::from_str("Findings detail (first 20):"));
    let ghost a0 = strs(out@);
    let n: usize = if fs.len() > 20 {
        20
    } else {
        fs.len()
    };
    let mut i: usize = 0;
    while i < n
        invariant
            i <= n,
            n <= 20,
            n <= fs@.len(),
            fv == state@.findings,
            fv.len() == fs@.len(),
            forall|j: int| 0 <= j < fs@.len() ==> fv[j] == (#[trigger] fs@[j])@,
            strs(out@) == a0 + Seq::new(i as nat, |j: int| finding_line(j, fv[j])),
        decreases n - i,
    {
        let l = finding_line_of(i, &fs[i]);
        add_line(&mut out, l);
        i = i + 1;
        proof {
            assert(strs(out@) =~= a0 + Seq::new(i as nat, |j: int| finding_line(j, fv[j])));
        }
    }
    let ghost a1 = strs(out@);
    if fs.len() > 20 {
        let mut l = counter_line("  ... and ", (fs.len() - 20) as u64);
        l.append(" more");
        add_line(&mut out, l);
    }
    proof {
        assert(strs(out@) =~= detail_text(state@.findings));
    }
    out
}

/// The `inspect` report of a run, line by line: health and counters, the
/// counts by type, the peers (unless `max_peers` is 0), the OpenBMP
/// metadata, the Initiation, Termination and Statistics information, the
/// session lifecycle and its interpretation, the Peer Down reasons, the
/// findings summary and the first twenty findings. `size_text` is the file
/// size as shown.
pub fn inspect_lines(state: &DoctorState, truncated: bool, max_peers: usize, size_text: &str) -> (r: Vec<String>)
    ensures
        strs(r@) == inspect_text(state@, truncated, max_peers as nat, size_text@),
{
    let b = compute_buckets(state.findings.as_slice());
    assert(b == buckets_of(state@.findings));
    let mut out = header_lines(state, &b, size_text);
    add_all(&mut out, peer_lines(state, max_peers));
    add_all(&mut out, metadata_lines(&state.container_stats.openbmp_metadata));
    add_all(&mut out, tlv_lines_of(&state.initiation_info, &state.termination_info));
    add_all(&mut out, stats_lines(&state.stats_info));
    add_all(&mut out, lifecycle_lines(state, &b));
    add_all(&mut out, down_lines(state));
    add_all(&mut out, summary_lines(state, &b, truncated));
    add_all(&mut out, detail_lines(state));
    proof {
        assert(strs(out@) =~= inspect_text(state@, truncated, max_peers as nat, size_text@));
    }
    out
}

} // verus!
