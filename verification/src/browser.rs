//! The stream browser's model: collectors and their streams, the search
//! filter, selection and scrolling, and what keys, clicks and the mouse
//! wheel do to them.

use vstd::prelude::*;

use crate::kafka::{chars_le, text_le, texts};
use crate::names::{name_text, NameBook, NameBookV};
use crate::prefix::chars_of;
use crate::text::{contains, str_contains, str_eq};
use crate::textparse::{lowercased, parse_dec, parse_dec_text, to_lowercase};
use crate::topics::{parse_topic, string_of, topic_of, ParsedTopic, ParsedTopicV};

verus! {

// ───────────────────────── collector labels ─────────────────────────

/// The descriptive label of a RouteViews collector (from the public
/// RouteViews Looking Glass list); the name itself for any other.
pub open spec fn label_of(name: Seq<char>) -> Seq<char> {
    if name == "amsix.ams"@ {
        "Amsterdam, Netherlands (AMS-IX)"@
    } else if name == "cix.atl"@ {
        "Atlanta, Georgia (CIX-ATL)"@
    } else if name == "crix.sjo"@ {
        "San José, Costa Rica (CRIX)"@
    } else if name == "decix.fra"@ {
        "Frankfurt, Germany (DE-CIX)"@
    } else if name == "decix.jhb"@ {
        "Johor Bahru, Malaysia (DE-CIX)"@
    } else if name == "getafix.mnl"@ {
        "Manila, Philippines (GetaFIX)"@
    } else if name == "hkix.hkg"@ {
        "Hong Kong (HKIX)"@
    } else if name == "iix.cgk"@ {
        "Jakarta, Indonesia (IIX)"@
    } else if name == "interlan.otp"@ {
        "Bucharest, Romania (InterLAN-IX)"@
    } else if name == "iraq-ixp.bgw"@ {
        "Baghdad, Iraq (IRAQ-IXP)"@
    } else if name == "ix-br.gru"@ {
        "São Paulo, Brazil (IX.br)"@
    } else if name == "ix-br2.gru"@ {
        "São Paulo, Brazil (IX.br 2)"@
    } else if name == "ixpn.los"@ {
        "Lagos, Nigeria (IXPN)"@
    } else if name == "kinx.icn"@ {
        "Seoul, Korea (KINX)"@
    } else if name == "locix.fra"@ {
        "Frankfurt, Germany (LocIX)"@
    } else if name == "namex.fco"@ {
        "Rome, Italy (NAMEX)"@
    } else if name == "netnod.mmx"@ {
        "Malmö, Sweden (Netnod)"@
    } else if name == "pacwave.lax"@ {
        "Los Angeles, California (Pacific Wave)"@
    } else if name == "pit.scl"@ {
        "Santiago, Chile (PIT Chile)"@
    } else if name == "pitmx.qro"@ {
        "Querétaro, Mexico (PIT Chile MX)"@
    } else if name == "route-views.bdix"@ {
        "Dhaka, Bangladesh (BDIX)"@
    } else if name == "route-views.bknix"@ {
        "Bangkok, Thailand (BKNIX)"@
    } else if name == "route-views.chicago"@ {
        "Chicago, Illinois (Equinix CH1)"@
    } else if name == "route-views.chile"@ {
        "Santiago, Chile (NIC.cl)"@
    } else if name == "route-views.eqix"@ {
        "Ashburn, Virginia (Equinix)"@
    } else if name == "route-views.flix"@ {
        "Miami, Florida (FL-IX)"@
    } else if name == "route-views.fortaleza"@ {
        "Fortaleza, Brazil (IX.br)"@
    } else if name == "route-views.gixa"@ {
        "Accra, Ghana (GIXA)"@
    } else if name == "route-views.gorex"@ {
        "Guam, US Territories (GOREX)"@
    } else if name == "route-views.isc"@ {
        "Palo Alto, California (PAIX)"@
    } else if name == "route-views.kixp"@ {
        "Nairobi, Kenya (KIXP)"@
    } else if name == "route-views.linx"@ {
        "London, United Kingdom (LINX)"@
    } else if name == "route-views.mwix"@ {
        "Indianapolis, Indiana (FD-IX)"@
    } else if name == "route-views.napafrica"@ {
        "Johannesburg, South Africa (NAPAfrica)"@
    } else if name == "route-views.nwax"@ {
        "Portland, Oregon (NWAX)"@
    } else if name == "route-views.ny"@ {
        "New York, NY (DE-CIX)"@
    } else if name == "route-views.perth"@ {
        "Perth, Australia (WA-IX)"@
    } else if name == "route-views.peru"@ {
        "Lima, Peru (Peru IX)"@
    } else if name == "route-views.phoix"@ {
        "Quezon City, Philippines (PhOpenIX)"@
    } else if name == "route-views.rio"@ {
        "Rio de Janeiro, Brazil (IX.br)"@
    } else if name == "route-views.sfmix"@ {
        "San Francisco, California (SFMIX)"@
    } else if name == "route-views.sg"@ {
        "Singapore (Equinix)"@
    } else if name == "route-views.soxrs"@ {
        "Belgrade, Serbia (SOX)"@
    } else if name == "route-views.sydney"@ {
        "Sydney, Australia (Equinix SYD1)"@
    } else if name == "route-views.telxatl"@ {
        "Atlanta, Georgia (Digital Realty)"@
    } else if name == "route-views.uaeix"@ {
        "Dubai, UAE (UAE-IX)"@
    } else if name == "route-views.wide"@ {
        "Tokyo, Japan (DIX-IE)"@
    } else if name == "route-views2"@ {
        "Multi-hop 2 (Univ of Oregon)"@
    } else if name == "route-views3"@ {
        "Multi-hop 3 (Univ of Oregon)"@
    } else if name == "route-views4"@ {
        "Multi-hop 4 (Univ of Oregon)"@
    } else if name == "route-views5"@ {
        "Multi-hop 5 (Univ of Oregon)"@
    } else if name == "route-views6"@ {
        "Multi-hop 6 (Univ of Oregon)"@
    } else if name == "route-views7"@ {
        "Multi-hop 7 (Univ of Oregon)"@
    } else if name == "route-views8"@ {
        "Multi-hop 8 (Univ of Oregon)"@
    } else if name == "frr"@ {
        "Test collector (FRR, Univ of Oregon)"@
    } else {
        name
    }
}

/// The descriptive label of a RouteViews collector, or the name itself.
pub fn collector_label(name: &str) -> (r: &str)
    ensures
        r@ == label_of(name@),
{
    if str_eq(name, "amsix.ams") {
        return "Amsterdam, Netherlands (AMS-IX)";
    }
    if str_eq(name, "cix.atl") {
        return "Atlanta, Georgia (CIX-ATL)";
    }
    if str_eq(name, "crix.sjo") {
        return "San José, Costa Rica (CRIX)";
    }
    if str_eq(name, "decix.fra") {
        return "Frankfurt, Germany (DE-CIX)";
    }
    if str_eq(name, "decix.jhb") {
        return "Johor Bahru, Malaysia (DE-CIX)";
    }
    if str_eq(name, "getafix.mnl") {
        return "Manila, Philippines (GetaFIX)";
    }
    if str_eq(name, "hkix.hkg") {
        return "Hong Kong (HKIX)";
    }
    if str_eq(name, "iix.cgk") {
        return "Jakarta, Indonesia (IIX)";
    }
    if str_eq(name, "interlan.otp") {
        return "Bucharest, Romania (InterLAN-IX)";
    }
    if str_eq(name, "iraq-ixp.bgw") {
        return "Baghdad, Iraq (IRAQ-IXP)";
    }
    if str_eq(name, "ix-br.gru") {
        return "São Paulo, Brazil (IX.br)";
    }
    if str_eq(name, "ix-br2.gru") {
        return "São Paulo, Brazil (IX.br 2)";
    }
    if str_eq(name, "ixpn.los") {
        return "Lagos, Nigeria (IXPN)";
    }
    if str_eq(name, "kinx.icn") {
        return "Seoul, Korea (KINX)";
    }
    if str_eq(name, "locix.fra") {
        return "Frankfurt, Germany (LocIX)";
    }
    if str_eq(name, "namex.fco") {
        return "Rome, Italy (NAMEX)";
    }
    if str_eq(name, "netnod.mmx") {
        return "Malmö, Sweden (Netnod)";
    }
    if str_eq(name, "pacwave.lax") {
        return "Los Angeles, California (Pacific Wave)";
    }
    if str_eq(name, "pit.scl") {
        return "Santiago, Chile (PIT Chile)";
    }
    if str_eq(name, "pitmx.qro") {
        return "Querétaro, Mexico (PIT Chile MX)";
    }
    if str_eq(name, "route-views.bdix") {
        return "Dhaka, Bangladesh (BDIX)";
    }
    if str_eq(name, "route-views.bknix") {
        return "Bangkok, Thailand (BKNIX)";
    }
    if str_eq(name, "route-views.chicago") {
        return "Chicago, Illinois (Equinix CH1)";
    }
    if str_eq(name, "route-views.chile") {
        return "Santiago, Chile (NIC.cl)";
    }
    if str_eq(name, "route-views.eqix") {
        return "Ashburn, Virginia (Equinix)";
    }
    if str_eq(name, "route-views.flix") {
        return "Miami, Florida (FL-IX)";
    }
    if str_eq(name, "route-views.fortaleza") {
        return "Fortaleza, Brazil (IX.br)";
    }
    if str_eq(name, "route-views.gixa") {
        return "Accra, Ghana (GIXA)";
    }
    if str_eq(name, "route-views.gorex") {
        return "Guam, US Territories (GOREX)";
    }
    if str_eq(name, "route-views.isc") {
        return "Palo Alto, California (PAIX)";
    }
    if str_eq(name, "route-views.kixp") {
        return "Nairobi, Kenya (KIXP)";
    }
    if str_eq(name, "route-views.linx") {
        return "London, United Kingdom (LINX)";
    }
    if str_eq(name, "route-views.mwix") {
        return "Indianapolis, Indiana (FD-IX)";
    }
    if str_eq(name, "route-views.napafrica") {
        return "Johannesburg, South Africa (NAPAfrica)";
    }
    if str_eq(name, "route-views.nwax") {
        return "Portland, Oregon (NWAX)";
    }
    if str_eq(name, "route-views.ny") {
        return "New York, NY (DE-CIX)";
    }
    if str_eq(name, "route-views.perth") {
        return "Perth, Australia (WA-IX)";
    }
    if str_eq(name, "route-views.peru") {
        return "Lima, Peru (Peru IX)";
    }
    if str_eq(name, "route-views.phoix") {
        return "Quezon City, Philippines (PhOpenIX)";
    }
    if str_eq(name, "route-views.rio") {
        return "Rio de Janeiro, Brazil (IX.br)";
    }
    if str_eq(name, "route-views.sfmix") {
        return "San Francisco, California (SFMIX)";
    }
    if str_eq(name, "route-views.sg") {
        return "Singapore (Equinix)";
    }
    if str_eq(name, "route-views.soxrs") {
        return "Belgrade, Serbia (SOX)";
    }
    if str_eq(name, "route-views.sydney") {
        return "Sydney, Australia (Equinix SYD1)";
    }
    if str_eq(name, "route-views.telxatl") {
        return "Atlanta, Georgia (Digital Realty)";
    }
    if str_eq(name, "route-views.uaeix") {
        return "Dubai, UAE (UAE-IX)";
    }
    if str_eq(name, "route-views.wide") {
        return "Tokyo, Japan (DIX-IE)";
    }
    if str_eq(name, "route-views2") {
        return "Multi-hop 2 (Univ of Oregon)";
    }
    if str_eq(name, "route-views3") {
        return "Multi-hop 3 (Univ of Oregon)";
    }
    if str_eq(name, "route-views4") {
        return "Multi-hop 4 (Univ of Oregon)";
    }
    if str_eq(name, "route-views5") {
        return "Multi-hop 5 (Univ of Oregon)";
    }
    if str_eq(name, "route-views6") {
        return "Multi-hop 6 (Univ of Oregon)";
    }
    if str_eq(name, "route-views7") {
        return "Multi-hop 7 (Univ of Oregon)";
    }
    if str_eq(name, "route-views8") {
        return "Multi-hop 8 (Univ of Oregon)";
    }
    if str_eq(name, "frr") {
        return "Test collector (FRR, Univ of Oregon)";
    }
    name
}

// ───────────────────────── recent streams ─────────────────────────

/// The recent list after connecting to `topic`: it moves to the front, and
/// at most 10 are kept.
pub open spec fn with_recent(recent: Seq<Seq<char>>, topic: Seq<char>) -> Seq<Seq<char>> {
    first_ten(seq![topic] + recent.filter(|t: Seq<char>| t != topic))
}

pub open spec fn first_ten(s: Seq<Seq<char>>) -> Seq<Seq<char>> {
    if s.len() > 10 {
        s.subrange(0, 10)
    } else {
        s
    }
}

/// Puts `topic` at the front of the recently connected streams, without
/// repeats, keeping at most 10.
pub fn add_recent(recent: &mut Vec<String>, topic: &str)
    ensures
        texts(final(recent)@) == with_recent(texts(old(recent)@), topic@),
{
    let ghost r0 = texts(recent@);
    let mut out: Vec<String> = Vec::new();
    out.push(String::from_str(topic));
    let mut i: usize = 0;
    proof {
        reveal(Seq::filter);
        assert(texts(out@) =~= seq![topic@] + r0.subrange(0, 0).filter(|t: Seq<char>| t != topic@));
    }
    while i < recent.len()
        invariant
            i <= recent@.len(),
            r0 == texts(recent@),
            texts(out@) == seq![topic@] + r0.subrange(0, i as int).filter(|t: Seq<char>| t != topic@),
        decreases recent@.len() - i,
    {
        proof {
            reveal(Seq::filter);
            assert(r0.subrange(0, i + 1).drop_last() =~= r0.subrange(0, i as int));
        }
        if !str_eq(recent[i].as_str(), topic) {
            let ghost ob = out@;
            out.push(recent[i].clone());
            proof {
                assert(texts(out@) =~= texts(ob).push(recent@[i as int]@));
            }
        }
        i = i + 1;
    }
    proof {
        assert(r0.subrange(0, i as int) =~= r0);
    }
    let ghost full = out@;
    out.truncate(10);
    proof {
        if full.len() > 10 {
            assert(texts(out@) =~= texts(full).subrange(0, 10));
        }
    }
    *recent = out;
}

// ───────────────────────── selection helpers ─────────────────────────

/// A selection kept within `len` items: the first when it falls outside,
/// none for an empty list.
pub open spec fn clamped(sel: Option<usize>, len: usize) -> Option<usize> {
    match sel {
        Some(i) if i < len => Some(i),
        _ => if len > 0 {
            Some(0)
        } else {
            None
        },
    }
}

pub fn clamp_opt(sel: Option<usize>, len: usize) -> (r: Option<usize>)
    ensures
        r == clamped(sel, len),
{
    match sel {
        Some(i) if i < len => Some(i),
        _ => if len > 0 {
            Some(0)
        } else {
            None
        },
    }
}

/// One item up, staying at the top.
pub open spec fn decremented(sel: Option<usize>) -> Option<usize> {
    match sel {
        Some(i) if i > 0 => Some((i - 1) as usize),
        _ => sel,
    }
}

pub fn dec_opt(sel: Option<usize>) -> (r: Option<usize>)
    ensures
        r == decremented(sel),
{
    match sel {
        Some(i) if i > 0 => Some(i - 1),
        _ => sel,
    }
}

/// One item down, staying at the bottom of `len` items.
pub open spec fn incremented(sel: Option<usize>, len: usize) -> Option<usize> {
    match sel {
        Some(i) if i + 1 < len => Some((i + 1) as usize),
        _ => sel,
    }
}

pub fn inc_opt(sel: Option<usize>, len: usize) -> (r: Option<usize>)
    ensures
        r == incremented(sel, len),
{
    match sel {
        Some(i) if i < len && len - i > 1 => Some(i + 1),
        _ => sel,
    }
}

/// The scroll offset that keeps the selection in a viewport of `height`
/// rows over `total` items: unchanged while the selection is in view (and
/// the offset leaves no empty rows), else just enough to bring it back.
pub open spec fn visible_scroll(selected: Option<usize>, scroll: usize, total: usize, height: usize) -> usize {
    if total == 0 || height == 0 {
        0
    } else {
        let top: int = if total >= height {
            total - height
        } else {
            0
        };
        let s: int = if scroll < top {
            scroll as int
        } else {
            top
        };
        match selected {
            Some(sel) => if sel < s {
                sel
            } else if sel >= s + height {
                (if sel >= height - 1 {
                    sel - (height - 1)
                } else {
                    0
                }) as usize
            } else {
                s as usize
            },
            None => s as usize,
        }
    }
}

/// Moves `scroll` so that the selection stays within the viewport; it
/// scrolls only when the selection reaches an edge.
pub fn ensure_visible(selected: Option<usize>, scroll: &mut usize, total: usize, height: usize)
    ensures
        *final(scroll) == visible_scroll(selected, *old(scroll), total, height),
        match selected {
            Some(sel) => sel < total && height > 0 ==> *final(scroll) <= sel < *final(scroll) + height,
            None => true,
        },
{
    if total == 0 || height == 0 {
        *scroll = 0;
        return;
    }
    let top = if total >= height {
        total - height
    } else {
        0
    };
    if *scroll > top {
        *scroll = top;
    }
    match selected {
        Some(sel) => {
            if sel < *scroll {
                *scroll = sel;
            } else if sel >= *scroll + height {
                *scroll = if sel >= height - 1 {
                    sel - (height - 1)
                } else {
                    0
                };
            }
        },
        None => {},
    }
}

// ───────────────────────── screen areas and clicks ─────────────────────────

/// A rectangle of terminal cells.
#[derive(Debug, Clone, Copy, PartialEq, Eq, Structural)]
pub struct Rect {
    pub x: u16,
    pub y: u16,
    pub width: u16,
    pub height: u16,
}

/// `a + b`, held at `u16::MAX`.
pub open spec fn sat_add16(a: u16, b: u16) -> int {
    if a + b > u16::MAX {
        u16::MAX as int
    } else {
        a + b
    }
}

/// Whether the cell at (`col`, `row`) lies inside `r`.
pub open spec fn inside(col: u16, row: u16, r: Rect) -> bool {
    col >= r.x && col < sat_add16(r.x, r.width) && row >= r.y && row < sat_add16(r.y, r.height)
}

fn add16(a: u16, b: u16) -> (r: u16)
    ensures
        r == sat_add16(a, b),
{
    if b > u16::MAX - a {
        u16::MAX
    } else {
        a + b
    }
}

/// Whether the cell at (`col`, `row`) lies inside `r`.
pub fn point_in(col: u16, row: u16, r: &Rect) -> (b: bool)
    ensures
        b == inside(col, row, *r),
{
    col >= r.x && col < add16(r.x, r.width) && row >= r.y && row < add16(r.y, r.height)
}

/// Where the two panes are on screen.
#[derive(Debug, Clone, Copy, PartialEq, Eq, Structural)]
pub struct BrowserLayout {
    pub collector_pane: Rect,
    pub stream_pane: Rect,
}

/// The pane that has the keyboard.
#[derive(Debug, Clone, Copy, PartialEq, Eq, Structural)]
pub enum Pane {
    Collectors,
    Streams,
}

impl Pane {
    /// The pane's name.
    pub fn name(&self) -> (r: &'static str)
        ensures
            r@ == (match self {
                Pane::Collectors => "Collectors"@,
                Pane::Streams => "Streams"@,
            }),
    {
        match self {
            Pane::Collectors => "Collectors",
            Pane::Streams => "Streams",
        }
    }
}

/// The last click, to tell a double click: the pane and row, and when (in
/// milliseconds of a monotonic clock).
#[derive(Debug, Clone, Copy, PartialEq, Eq, Structural)]
pub struct ClickTracker {
    pub pane: Option<Pane>,
    pub row: Option<usize>,
    pub time_ms: Option<u64>,
}

/// Milliseconds within which a second click on the same row is a double click.
pub const DOUBLE_CLICK_MS: u64 = 500;

impl ClickTracker {
    /// No click recorded.
    pub fn new() -> (r: Self)
        ensures
            r.pane is None && r.row is None && r.time_ms is None,
    {
        ClickTracker { pane: None, row: None, time_ms: None }
    }

    /// Records a click on `row` of `pane` at `now_ms`.
    pub fn record(&mut self, pane: Pane, row: usize, now_ms: u64)
        ensures
            final(self).pane == Some(pane),
            final(self).row == Some(row),
            final(self).time_ms == Some(now_ms),
    {
        self.pane = Some(pane);
        self.row = Some(row);
        self.time_ms = Some(now_ms);
    }

    /// Whether a click on `row` of `pane` at `now_ms` completes a double
    /// click: the last click was on the same row of the same pane less
    /// than 500 ms before.
    pub fn is_double_click(&self, pane: Pane, row: usize, now_ms: u64) -> (r: bool)
        ensures
            r == (match (self.pane, self.row, self.time_ms) {
                (Some(p), Some(w), Some(t)) => p == pane && w == row && (if now_ms >= t {
                    now_ms - t
                } else {
                    0
                }) < 500,
                _ => false,
            }),
    {
        match (self.pane, self.row, self.time_ms) {
            (Some(p), Some(w), Some(t)) => {
                let elapsed = if now_ms >= t {
                    now_ms - t
                } else {
                    0
                };
                p == pane && w == row && elapsed < DOUBLE_CLICK_MS
            },
            _ => false,
        }
    }

    /// Forgets the last click.
    pub fn reset(&mut self)
        ensures
            final(self).pane is None && final(self).row is None && final(self).time_ms is None,
    {
        self.pane = None;
        self.row = None;
        self.time_ms = None;
    }
}

// ───────────────────────── collectors and their streams ─────────────────────────

/// A copy of a parsed topic.
fn copy_topic(p: &ParsedTopic) -> (r: ParsedTopic)
    ensures
        r@ == p@,
{
    ParsedTopic { collector: p.collector.clone(), asn_str: p.asn_str.clone(), full: p.full.clone() }
}

pub open spec fn topics_view(v: Seq<ParsedTopic>) -> Seq<ParsedTopicV> {
    v.map_values(|p: ParsedTopic| p@)
}

/// The topics that parse, in order.
pub open spec fn parsed_all(ts: Seq<Seq<char>>) -> Seq<ParsedTopicV>
    decreases ts.len(),
{
    if ts.len() == 0 {
        Seq::empty()
    } else {
        let p = parsed_all(ts.drop_last());
        match topic_of(ts.last()) {
            Some(t) => p.push(t),
            None => p,
        }
    }
}

/// `x` added to a sorted list of distinct names.
pub open spec fn insert_name(s: Seq<Seq<char>>, x: Seq<char>) -> Seq<Seq<char>>
    decreases s.len(),
{
    if s.len() == 0 {
        seq![x]
    } else if s.last() == x {
        s
    } else if text_le(s.last(), x) {
        s.push(x)
    } else {
        insert_name(s.drop_last(), x).push(s.last())
    }
}

/// The distinct collector names, in order.
pub open spec fn collector_names(ps: Seq<ParsedTopicV>) -> Seq<Seq<char>>
    decreases ps.len(),
{
    if ps.len() == 0 {
        Seq::empty()
    } else {
        insert_name(collector_names(ps.drop_last()), ps.last().collector)
    }
}

/// The streams of collector `name`, in order.
pub open spec fn streams_in(ps: Seq<ParsedTopicV>, name: Seq<char>) -> Seq<ParsedTopicV>
    decreases ps.len(),
{
    if ps.len() == 0 {
        Seq::empty()
    } else if ps.last().collector == name {
        streams_in(ps.drop_last(), name).push(ps.last())
    } else {
        streams_in(ps.drop_last(), name)
    }
}

/// The number a stream is ordered by: its ASN, 0 when that is no `u32`.
pub open spec fn asn_key(p: ParsedTopicV) -> nat {
    match parse_dec_text(p.asn_str, u32::MAX as nat) {
        Some(v) => v,
        None => 0,
    }
}

pub open spec fn insert_by_asn(s: Seq<ParsedTopicV>, x: ParsedTopicV) -> Seq<ParsedTopicV>
    decreases s.len(),
{
    if s.len() == 0 {
        seq![x]
    } else if asn_key(s.last()) <= asn_key(x) {
        s.push(x)
    } else {
        insert_by_asn(s.drop_last(), x).push(s.last())
    }
}

/// Streams sorted by ASN, equal ones keeping their order.
pub open spec fn sort_by_asn(s: Seq<ParsedTopicV>) -> Seq<ParsedTopicV>
    decreases s.len(),
{
    if s.len() == 0 {
        s
    } else {
        insert_by_asn(sort_by_asn(s.drop_last()), s.last())
    }
}

/// A collector and its streams.
pub struct ModelCollector {
    pub raw_name: String,
    pub label: String,
    pub streams: Vec<ParsedTopic>,
}

pub struct CollectorV {
    pub raw_name: Seq<char>,
    pub label: Seq<char>,
    pub streams: Seq<ParsedTopicV>,
}

impl View for ModelCollector {
    type V = CollectorV;

    open spec fn view(&self) -> CollectorV {
        CollectorV { raw_name: self.raw_name@, label: self.label@, streams: topics_view(self.streams@) }
    }
}

pub open spec fn collectors_view(v: Seq<ModelCollector>) -> Seq<CollectorV> {
    v.map_values(|c: ModelCollector| c@)
}

/// Collector `name` with its label and its streams sorted by ASN.
pub open spec fn collector_of(ps: Seq<ParsedTopicV>, name: Seq<char>) -> CollectorV {
    CollectorV { raw_name: name, label: label_of(name), streams: sort_by_asn(streams_in(ps, name)) }
}

pub open spec fn grouped(ps: Seq<ParsedTopicV>, names: Seq<Seq<char>>) -> Seq<CollectorV> {
    names.map_values(|n: Seq<char>| collector_of(ps, n))
}

/// Display order of collectors: UNDEFINED ones last, then those with more
/// streams first.
pub open spec fn coll_le(a: CollectorV, b: CollectorV) -> bool {
    let ua = contains(a.raw_name, "UNDEFINED"@);
    let ub = contains(b.raw_name, "UNDEFINED"@);
    (!ua && ub) || (ua == ub && a.streams.len() >= b.streams.len())
}

pub open spec fn insert_coll(s: Seq<CollectorV>, x: CollectorV) -> Seq<CollectorV>
    decreases s.len(),
{
    if s.len() == 0 {
        seq![x]
    } else if coll_le(s.last(), x) {
        s.push(x)
    } else {
        insert_coll(s.drop_last(), x).push(s.last())
    }
}

/// Collectors sorted for display, equal ones keeping their order.
pub open spec fn sort_colls(s: Seq<CollectorV>) -> Seq<CollectorV>
    decreases s.len(),
{
    if s.len() == 0 {
        s
    } else {
        insert_coll(sort_colls(s.drop_last()), s.last())
    }
}

/// The collectors of a list of topics: the topics that parse, grouped by
/// collector (in name order), each group's streams sorted by ASN, the
/// groups sorted for display.
pub open spec fn model_collectors(ts: Seq<Seq<char>>) -> Seq<CollectorV> {
    let ps = parsed_all(ts);
    sort_colls(grouped(ps, collector_names(ps)))
}

fn str_le(a: &String, b: &String) -> (r: bool)
    ensures
        r == text_le(a@, b@),
{
    let ac = chars_of(a.as_str());
    let bc = chars_of(b.as_str());
    chars_le(ac.as_slice(), bc.as_slice())
}

fn insert_name_vec(v: Vec<String>, x: String) -> (r: Vec<String>)
    ensures
        texts(r@) == insert_name(texts(v@), x@),
    decreases v@.len(),
{
    let ghost tv = texts(v@);
    let mut v = v;
    match v.pop() {
        None => {
            let mut r: Vec<String> = Vec::new();
            r.push(x);
            proof {
                assert(texts(r@) =~= seq![x@]);
            }
            r
        },
        Some(last) => {
            proof {
                assert(texts(v@) =~= tv.drop_last());
            }
            if str_eq(last.as_str(), x.as_str()) {
                v.push(last);
                proof {
                    assert(texts(v@) =~= tv);
                }
                v
            } else if str_le(&last, &x) {
                v.push(last);
                v.push(x);
                proof {
                    assert(texts(v@) =~= tv.push(x@));
                }
                v
            } else {
                let ghost lv = last@;
                let mut r = insert_name_vec(v, x);
                let ghost rb = r@;
                r.push(last);
                proof {
                    assert(texts(r@) =~= texts(rb).push(lv));
                }
                r
            }
        },
    }
}

fn insert_by_asn_vec(v: Vec<ParsedTopic>, x: ParsedTopic) -> (r: Vec<ParsedTopic>)
    ensures
        topics_view(r@) == insert_by_asn(topics_view(v@), x@),
    decreases v@.len(),
{
    let ghost tv = topics_view(v@);
    let mut v = v;
    match v.pop() {
        None => {
            let mut r: Vec<ParsedTopic> = Vec::new();
            r.push(x);
            proof {
                assert(topics_view(r@) =~= seq![x@]);
            }
            r
        },
        Some(last) => {
            proof {
                assert(topics_view(v@) =~= tv.drop_last());
            }
            if stream_key(&last) <= stream_key(&x) {
                v.push(last);
                v.push(x);
                proof {
                    assert(topics_view(v@) =~= tv.push(x@));
                }
                v
            } else {
                let ghost lv = last@;
                let mut r = insert_by_asn_vec(v, x);
                let ghost rb = r@;
                r.push(last);
                proof {
                    assert(topics_view(r@) =~= topics_view(rb).push(lv));
                }
                r
            }
        },
    }
}

fn stream_key(p: &ParsedTopic) -> (r: u64)
    ensures
        r == asn_key(p@),
{
    let cs = chars_of(p.asn_str.as_str());
    match parse_dec(cs.as_slice(), 0xffff_ffff) {
        Some(v) => v,
        None => 0,
    }
}

fn undefined_name(c: &ModelCollector) -> (r: bool)
    ensures
        r == contains(c.raw_name@, "UNDEFINED"@),
{
    str_contains(c.raw_name.as_str(), "UNDEFINED")
}

fn coll_order(a: &ModelCollector, b: &ModelCollector) -> (r: bool)
    ensures
        r == coll_le(a@, b@),
{
    let ua = undefined_name(a);
    let ub = undefined_name(b);
    (!ua && ub) || (ua == ub && a.streams.len() >= b.streams.len())
}

fn insert_coll_vec(v: Vec<ModelCollector>, x: ModelCollector) -> (r: Vec<ModelCollector>)
    ensures
        collectors_view(r@) == insert_coll(collectors_view(v@), x@),
    decreases v@.len(),
{
    let ghost tv = collectors_view(v@);
    let mut v = v;
    match v.pop() {
        None => {
            let mut r: Vec<ModelCollector> = Vec::new();
            r.push(x);
            proof {
                assert(collectors_view(r@) =~= seq![x@]);
            }
            r
        },
        Some(last) => {
            proof {
                assert(collectors_view(v@) =~= tv.drop_last());
            }
            if coll_order(&last, &x) {
                v.push(last);
                v.push(x);
                proof {
                    assert(collectors_view(v@) =~= tv.push(x@));
                }
                v
            } else {
                let ghost lv = last@;
                let mut r = insert_coll_vec(v, x);
                let ghost rb = r@;
                r.push(last);
                proof {
                    assert(collectors_view(r@) =~= collectors_view(rb).push(lv));
                }
                r
            }
        },
    }
}

/// The topics that parse.
fn parse_all(topics: &[String]) -> (r: Vec<ParsedTopic>)
    ensures
        topics_view(r@) == parsed_all(texts(topics@)),
{
    let ghost tv = texts(topics@);
    let mut out: Vec<ParsedTopic> = Vec::new();
    let mut i: usize = 0;
    proof {
        assert(tv.subrange(0, 0) =~= Seq::<Seq<char>>::empty());
        assert(topics_view(out@) =~= Seq::<ParsedTopicV>::empty());
    }
    while i < topics.len()
        invariant
            i <= topics@.len(),
            tv == texts(topics@),
            topics_view(out@) == parsed_all(tv.subrange(0, i as int)),
        decreases topics@.len() - i,
    {
        proof {
            assert(tv.subrange(0, i + 1).drop_last() =~= tv.subrange(0, i as int));
            assert(tv.subrange(0, i + 1).last() == topics@[i as int]@);
        }
        match parse_topic(topics[i].as_str()) {
            Some(t) => {
                let ghost ob = out@;
                out.push(t);
                proof {
                    assert(topics_view(out@) =~= topics_view(ob).push(out@.last()@));
                }
            },
            None => {},
        }
        i = i + 1;
    }
    proof {
        assert(tv.subrange(0, i as int) =~= tv);
    }
    out
}

fn names_of(ps: &Vec<ParsedTopic>) -> (r: Vec<String>)
    ensures
        texts(r@) == collector_names(topics_view(ps@)),
{
    let ghost pv = topics_view(ps@);
    let mut names: Vec<String> = Vec::new();
    let mut i: usize = 0;
    proof {
        assert(pv.subrange(0, 0) =~= Seq::<ParsedTopicV>::empty());
        assert(texts(names@) =~= Seq::<Seq<char>>::empty());
    }
    while i < ps.len()
        invariant
            i <= ps@.len(),
            pv == topics_view(ps@),
            texts(names@) == collector_names(pv.subrange(0, i as int)),
        decreases ps@.len() - i,
    {
        proof {
            assert(pv.subrange(0, i + 1).drop_last() =~= pv.subrange(0, i as int));
        }
        names = insert_name_vec(names, ps[i].collector.clone());
        i = i + 1;
    }
    proof {
        assert(pv.subrange(0, i as int) =~= pv);
    }
    names
}

fn collector_from(ps: &Vec<ParsedTopic>, name: &String) -> (r: ModelCollector)
    ensures
        r@ == collector_of(topics_view(ps@), name@),
{
    let ghost pv = topics_view(ps@);
    let mut streams: Vec<ParsedTopic> = Vec::new();
    let mut i: usize = 0;
    proof {
        assert(pv.subrange(0, 0) =~= Seq::<ParsedTopicV>::empty());
        assert(topics_view(streams@) =~= Seq::<ParsedTopicV>::empty());
    }
    while i < ps.len()
        invariant
            i <= ps@.len(),
            pv == topics_view(ps@),
            topics_view(streams@) == sort_by_asn(streams_in(pv.subrange(0, i as int), name@)),
        decreases ps@.len() - i,
    {
        proof {
            assert(pv.subrange(0, i + 1).drop_last() =~= pv.subrange(0, i as int));
            assert(pv.subrange(0, i + 1).last() == ps@[i as int]@);
            let t = streams_in(pv.subrange(0, i as int), name@);
            assert(t.push(ps@[i as int]@).drop_last() =~= t);
        }
        if str_eq(ps[i].collector.as_str(), name.as_str()) {
            streams = insert_by_asn_vec(streams, copy_topic(&ps[i]));
        }
        i = i + 1;
    }
    proof {
        assert(pv.subrange(0, i as int) =~= pv);
    }
    ModelCollector {
        raw_name: name.clone(),
        label: String::from_str(collector_label(name.as_str())),
        streams,
    }
}

// ───────────────────────── the model ─────────────────────────

/// What the search matches in a stream: its ASN text, its topic or the
/// name of its ASN, the last two lower-cased.
pub open spec fn stream_hit(p: ParsedTopicV, lower: Seq<char>, b: NameBookV) -> bool {
    contains(p.asn_str, lower) || contains(lowercased(p.full), lower) || contains(
        lowercased(name_text(b, p.asn_str)),
        lower,
    )
}

pub open spec fn any_stream_hit(ss: Seq<ParsedTopicV>, lower: Seq<char>, b: NameBookV) -> bool {
    exists|i: int| 0 <= i < ss.len() && stream_hit(#[trigger] ss[i], lower, b)
}

/// Whether a collector is listed under `filter`: without a search every
/// collector but the UNDEFINED ones; with one, those whose label or name,
/// lower-cased, holds the lower-cased search, or that have a stream that
/// matches it.
pub open spec fn collector_shown(c: CollectorV, filter: Seq<char>, b: NameBookV) -> bool {
    if filter.len() == 0 {
        !contains(c.raw_name, "UNDEFINED"@)
    } else {
        let lower = lowercased(filter);
        contains(lowercased(c.label), lower) || contains(lowercased(c.raw_name), lower) || any_stream_hit(
            c.streams,
            lower,
            b,
        )
    }
}

/// Positions of the collectors listed under `filter`, in order.
pub open spec fn shown_indices(cs: Seq<CollectorV>, filter: Seq<char>, b: NameBookV) -> Seq<usize>
    decreases cs.len(),
{
    if cs.len() == 0 {
        Seq::empty()
    } else {
        let r = shown_indices(cs.drop_last(), filter, b);
        if collector_shown(cs.last(), filter, b) {
            r.push((cs.len() - 1) as usize)
        } else {
            r
        }
    }
}

/// What an action gives back.
#[derive(Debug, Clone, PartialEq, Eq)]
pub enum ActionResult {
    Nothing,
    Selected(String),
    Quit,
}

pub enum ActionResultV {
    Nothing,
    Selected(Seq<char>),
    Quit,
}

impl View for ActionResult {
    type V = ActionResultV;

    open spec fn view(&self) -> ActionResultV {
        match self {
            ActionResult::Nothing => ActionResultV::Nothing,
            ActionResult::Selected(t) => ActionResultV::Selected(t@),
            ActionResult::Quit => ActionResultV::Quit,
        }
    }
}

/// A user action on the browser.
#[derive(Debug, Clone, Copy, PartialEq, Eq, Structural)]
pub enum Action {
    MoveUp,
    MoveDown,
    SwitchPane,
    TypeChar(char),
    Backspace,
    Enter,
}

/// The stream browser: every collector with its streams, the search, the
/// collectors it lists, the selections, the active pane and the scroll
/// offsets.
pub struct BrowserModel {
    pub filter: String,
    pub all_collectors: Vec<ModelCollector>,
    /// Positions in `all_collectors` of the collectors listed.
    pub filtered_indices: Vec<usize>,
    /// Position in the list of the selected collector.
    pub selected_collector: Option<usize>,
    /// Position among its streams of the selected stream.
    pub selected_stream: Option<usize>,
    pub active_pane: Pane,
    pub collector_scroll: usize,
    pub stream_scroll: usize,
}

pub struct BrowserV {
    pub filter: Seq<char>,
    pub collectors: Seq<CollectorV>,
    pub filtered: Seq<usize>,
    pub sel_c: Option<usize>,
    pub sel_s: Option<usize>,
    pub pane: Pane,
    pub c_scroll: usize,
    pub s_scroll: usize,
}

impl View for BrowserModel {
    type V = BrowserV;

    open spec fn view(&self) -> BrowserV {
        BrowserV {
            filter: self.filter@,
            collectors: collectors_view(self.all_collectors@),
            filtered: self.filtered_indices@,
            sel_c: self.selected_collector,
            sel_s: self.selected_stream,
            pane: self.active_pane,
            c_scroll: self.collector_scroll,
            s_scroll: self.stream_scroll,
        }
    }
}

/// The streams of the selected collector (none without one).
pub open spec fn cur_streams(m: BrowserV) -> Seq<ParsedTopicV> {
    match m.sel_c {
        Some(i) => if i < m.filtered.len() && m.filtered[i as int] < m.collectors.len() {
            m.collectors[m.filtered[i as int] as int].streams
        } else {
            Seq::empty()
        },
        None => Seq::empty(),
    }
}

/// The topic of the selected stream.
pub open spec fn sel_topic(m: BrowserV) -> Option<Seq<char>> {
    match m.sel_s {
        Some(i) => if i < cur_streams(m).len() {
            Some(cur_streams(m)[i as int].full)
        } else {
            None
        },
        None => None,
    }
}

/// The browser with its list rebuilt for its search: selections clamped
/// to the new lists, and the keyboard moved off an empty pane.
pub open spec fn rebuilt(m: BrowserV, b: NameBookV) -> BrowserV {
    let f = shown_indices(m.collectors, m.filter, b);
    let m1 = BrowserV { filtered: f, sel_c: clamped(m.sel_c, f.len() as usize), ..m };
    let n = cur_streams(m1).len();
    let m2 = BrowserV { sel_s: clamped(m.sel_s, n as usize), ..m1 };
    let p1 = if m2.pane == Pane::Collectors && f.len() == 0 {
        Pane::Streams
    } else {
        m2.pane
    };
    BrowserV {
        pane: if p1 == Pane::Streams && n == 0 {
            Pane::Collectors
        } else {
            p1
        },
        ..m2
    }
}

/// The browser's invariant: the list names existing collectors and the
/// collector selection is within it.
pub open spec fn model_ok(m: BrowserV) -> bool {
    &&& forall|i: int| 0 <= i < m.filtered.len() ==> (#[trigger] m.filtered[i]) < m.collectors.len()
    &&& match m.sel_c {
        Some(i) => i < m.filtered.len(),
        None => true,
    }
}

/// The stream selection is within the selected collector's streams.
pub open spec fn stream_ok(m: BrowserV) -> bool {
    match m.sel_s {
        Some(i) => i < cur_streams(m).len(),
        None => true,
    }
}

/// The browser on another collector: the stream selection clamped to that
/// collector's streams.
pub open spec fn on_collector(m: BrowserV, sel_c: Option<usize>) -> BrowserV {
    let m1 = BrowserV { sel_c, ..m };
    BrowserV { sel_s: clamped(m.sel_s, cur_streams(m1).len() as usize), ..m1 }
}

/// The selection of the active pane one item up.
pub open spec fn moved_up(m: BrowserV) -> BrowserV {
    match m.pane {
        Pane::Collectors => on_collector(m, decremented(m.sel_c)),
        Pane::Streams => BrowserV { sel_s: decremented(m.sel_s), ..m },
    }
}

/// The selection of the active pane one item down.
pub open spec fn moved_down(m: BrowserV) -> BrowserV {
    match m.pane {
        Pane::Collectors => on_collector(m, incremented(m.sel_c, m.filtered.len() as usize)),
        Pane::Streams => BrowserV { sel_s: incremented(m.sel_s, cur_streams(m).len() as usize), ..m },
    }
}

/// The keyboard moved to the other pane, unless that one is empty.
pub open spec fn switched(m: BrowserV) -> BrowserV {
    match m.pane {
        Pane::Collectors => if cur_streams(m).len() > 0 {
            BrowserV { pane: Pane::Streams, ..m }
        } else {
            m
        },
        Pane::Streams => if m.filtered.len() > 0 {
            BrowserV { pane: Pane::Collectors, ..m }
        } else {
            m
        },
    }
}

/// Enter: on a collector with streams, into its streams (the first one
/// selected when none was); on a stream, its topic is chosen.
pub open spec fn entered(m: BrowserV) -> (BrowserV, ActionResultV) {
    match m.pane {
        Pane::Collectors => (if cur_streams(m).len() > 0 {
            BrowserV {
                pane: Pane::Streams,
                sel_s: if m.sel_s is None {
                    Some(0usize)
                } else {
                    m.sel_s
                },
                ..m
            }
        } else {
            m
        }, ActionResultV::Nothing),
        Pane::Streams => (m, match sel_topic(m) {
            Some(t) => ActionResultV::Selected(t),
            None => ActionResultV::Nothing,
        }),
    }
}

/// The browser after an action, and what it gives back.
pub open spec fn applied(m: BrowserV, a: Action, b: NameBookV) -> (BrowserV, ActionResultV) {
    match a {
        Action::MoveUp => (moved_up(m), ActionResultV::Nothing),
        Action::MoveDown => (moved_down(m), ActionResultV::Nothing),
        Action::SwitchPane => (switched(m), ActionResultV::Nothing),
        Action::TypeChar(c) => (rebuilt(BrowserV { filter: m.filter.push(c), ..m }, b), ActionResultV::Nothing),
        Action::Backspace => (rebuilt(
            BrowserV {
                filter: if m.filter.len() > 0 {
                    m.filter.drop_last()
                } else {
                    m.filter
                },
                ..m
            },
            b,
        ), ActionResultV::Nothing),
        Action::Enter => entered(m),
    }
}

/// The browser over `topics` before any action, with `b` naming ASNs.
pub open spec fn fresh_browser(ts: Seq<Seq<char>>, b: NameBookV) -> BrowserV {
    rebuilt(
        BrowserV {
            filter: Seq::empty(),
            collectors: model_collectors(ts),
            filtered: Seq::empty(),
            sel_c: None,
            sel_s: None,
            pane: Pane::Collectors,
            c_scroll: 0,
            s_scroll: 0,
        },
        b,
    )
}

/// Whether a stream matches the lower-cased search.
fn stream_matches(p: &ParsedTopic, lower: &String, names: &NameBook) -> (r: bool)
    ensures
        r == stream_hit(p@, lower@, names@),
{
    if str_contains(p.asn_str.as_str(), lower.as_str()) {
        return true;
    }
    let full = to_lowercase(p.full.as_str());
    if str_contains(full.as_str(), lower.as_str()) {
        return true;
    }
    let name = names.name_of(p.asn_str.as_str());
    let low = to_lowercase(name.as_str());
    str_contains(low.as_str(), lower.as_str())
}

/// Whether a collector is listed under `filter` (`lower` being it
/// lower-cased).
fn collector_matches(c: &ModelCollector, filter: &String, lower: &String, names: &NameBook) -> (r: bool)
    requires
        lower@ == lowercased(filter@),
    ensures
        r == collector_shown(c@, filter@, names@),
{
    if filter.as_str().unicode_len() == 0 {
        return !undefined_name(c);
    }
    let label = to_lowercase(c.label.as_str());
    if str_contains(label.as_str(), lower.as_str()) {
        return true;
    }
    let raw = to_lowercase(c.raw_name.as_str());
    if str_contains(raw.as_str(), lower.as_str()) {
        return true;
    }
    let ghost sv = topics_view(c.streams@);
    let mut found = false;
    let mut i: usize = 0;
    while i < c.streams.len() && !found
        invariant
            i <= c.streams@.len(),
            sv == topics_view(c.streams@),
            found == exists|j: int| 0 <= j < i && stream_hit(#[trigger] sv[j], lower@, names@),
        decreases c.streams@.len() - i,
    {
        let hit = stream_matches(&c.streams[i], lower, names);
        proof {
            assert(sv[i as int] == c.streams@[i as int]@);
            if !hit {
                assert forall|j: int| 0 <= j < i + 1 implies !stream_hit(#[trigger] sv[j], lower@, names@) by {
                    if j < i {
                    }
                }
            }
        }
        if hit {
            found = true;
        }
        i = i + 1;
    }
    proof {
        if !found {
            assert forall|j: int| 0 <= j < sv.len() implies !stream_hit(#[trigger] sv[j], lower@, names@) by {
                assert(j < i);
            }
        } else {
            let j = choose|j: int| 0 <= j < i && stream_hit(#[trigger] sv[j], lower@, names@);
            assert(0 <= j < sv.len() && stream_hit(sv[j], lower@, names@));
        }
    }
    found
}

impl BrowserModel {
    /// The browser over `topics` (those that do not parse are left out),
    /// with `names` naming ASNs for the search.
    pub fn new(topics: &[String], names: &NameBook) -> (r: Self)
        ensures
            r@ == fresh_browser(texts(topics@), names@),
            model_ok(r@),
            stream_ok(r@),
    {
        let ps = parse_all(topics);
        let names_list = names_of(&ps);
        let ghost pv = topics_view(ps@);
        let ghost nv = texts(names_list@);
        let mut cs: Vec<ModelCollector> = Vec::new();
        let mut i: usize = 0;
        proof {
            assert(grouped(pv, nv.subrange(0, 0)) =~= Seq::<CollectorV>::empty());
            assert(collectors_view(cs@) =~= Seq::<CollectorV>::empty());
        }
        while i < names_list.len()
            invariant
                i <= names_list@.len(),
                pv == topics_view(ps@),
                nv == texts(names_list@),
                collectors_view(cs@) == sort_colls(grouped(pv, nv.subrange(0, i as int))),
            decreases names_list@.len() - i,
        {
            let c = collector_from(&ps, &names_list[i]);
            proof {
                let g = grouped(pv, nv.subrange(0, i + 1));
                assert(g.drop_last() =~= grouped(pv, nv.subrange(0, i as int)));
                assert(g.last() == c@);
            }
            cs = insert_coll_vec(cs, c);
            i = i + 1;
        }
        proof {
            assert(nv.subrange(0, i as int) =~= nv);
        }
        let mut m = BrowserModel {
            filter: String::new(),
            all_collectors: cs,
            filtered_indices: Vec::new(),
            selected_collector: None,
            selected_stream: None,
            active_pane: Pane::Collectors,
            collector_scroll: 0,
            stream_scroll: 0,
        };
        m.rebuild_filter(names);
        m
    }

    /// Lists the collectors that the search matches, clamps both
    /// selections to the new lists and moves the keyboard off an empty
    /// pane.
    pub fn rebuild_filter(&mut self, names: &NameBook)
        ensures
            final(self)@ == rebuilt(old(self)@, names@),
            model_ok(final(self)@),
            stream_ok(final(self)@),
    {
        let ghost m0 = self@;
        let lower = to_lowercase(self.filter.as_str());
        let ghost cv = collectors_view(self.all_collectors@);
        let mut idx: Vec<usize> = Vec::new();
        let mut i: usize = 0;
        proof {
            assert(cv.subrange(0, 0) =~= Seq::<CollectorV>::empty());
        }
        while i < self.all_collectors.len()
            invariant
                i <= self.all_collectors@.len(),
                cv == collectors_view(self.all_collectors@),
                self@ == m0,
                lower@ == lowercased(self.filter@),
                idx@ == shown_indices(cv.subrange(0, i as int), self.filter@, names@),
                forall|j: int| 0 <= j < idx@.len() ==> (#[trigger] idx@[j]) < i,
            decreases self.all_collectors@.len() - i,
        {
            proof {
                assert(cv.subrange(0, i + 1).drop_last() =~= cv.subrange(0, i as int));
                assert(cv.subrange(0, i + 1).last() == self.all_collectors@[i as int]@);
            }
            if collector_matches(&self.all_collectors[i], &self.filter, &lower, names) {
                idx.push(i);
            }
            i = i + 1;
        }
        proof {
            assert(cv.subrange(0, i as int) =~= cv);
        }
        self.filtered_indices = idx;
        self.selected_collector = clamp_opt(self.selected_collector, self.filtered_indices.len());
        let stream_len = self.current_stream_count();
        self.selected_stream = clamp_opt(self.selected_stream, stream_len);
        if self.active_pane == Pane::Collectors && self.filtered_indices.len() == 0 {
            self.active_pane = Pane::Streams;
        }
        if self.active_pane == Pane::Streams && stream_len == 0 {
            self.active_pane = Pane::Collectors;
        }
    }

    /// The selected collector, if any.
    pub fn current_collector(&self) -> (r: Option<&ModelCollector>)
        ensures
            match r {
                Some(c) => match self@.sel_c {
                    Some(i) => i < self@.filtered.len() && self@.filtered[i as int] < self@.collectors.len()
                        && c@ == self@.collectors[self@.filtered[i as int] as int],
                    None => false,
                },
                None => cur_streams(self@) == Seq::<ParsedTopicV>::empty(),
            },
    {
        match self.selected_collector {
            Some(i) => {
                if i < self.filtered_indices.len() && self.filtered_indices[i] < self.all_collectors.len() {
                    Some(&self.all_collectors[self.filtered_indices[i]])
                } else {
                    None
                }
            },
            None => None,
        }
    }

    /// The number of streams of the selected collector.
    pub fn current_stream_count(&self) -> (r: usize)
        ensures
            r == cur_streams(self@).len(),
    {
        match self.current_collector() {
            Some(c) => c.streams.len(),
            None => 0,
        }
    }

    /// The streams of the selected collector (none without one).
    pub fn current_streams(&self) -> (r: Vec<ParsedTopic>)
        ensures
            topics_view(r@) == cur_streams(self@),
    {
        let mut out: Vec<ParsedTopic> = Vec::new();
        match self.current_collector() {
            Some(c) => {
                let mut i: usize = 0;
                while i < c.streams.len()
                    invariant
                        i <= c.streams@.len(),
                        topics_view(out@) == topics_view(c.streams@).subrange(0, i as int),
                    decreases c.streams@.len() - i,
                {
                    let ghost ob = out@;
                    out.push(copy_topic(&c.streams[i]));
                    proof {
                        assert(topics_view(out@) =~= topics_view(ob).push(c.streams@[i as int]@));
                        assert(topics_view(c.streams@).subrange(0, i + 1) =~= topics_view(c.streams@).subrange(
                            0,
                            i as int,
                        ).push(c.streams@[i as int]@));
                    }
                    i = i + 1;
                }
                proof {
                    assert(topics_view(c.streams@).subrange(0, i as int) =~= topics_view(c.streams@));
                }
            },
            None => {
                proof {
                    assert(topics_view(out@) =~= Seq::<ParsedTopicV>::empty());
                }
            },
        }
        out
    }

    /// The topic of the selected stream.
    pub fn selected_topic(&self) -> (r: Option<String>)
        ensures
            match r {
                Some(t) => sel_topic(self@) == Some(t@),
                None => sel_topic(self@) is None,
            },
    {
        match self.current_collector() {
            Some(c) => match self.selected_stream {
                Some(i) => {
                    if i < c.streams.len() {
                        Some(c.streams[i].full.clone())
                    } else {
                        None
                    }
                },
                None => None,
            },
            None => None,
        }
    }

    /// Moves the selection of the active pane up one item.
    pub fn do_move_up(&mut self)
        ensures
            final(self)@ == moved_up(old(self)@),
    {
        match self.active_pane {
            Pane::Collectors => {
                self.selected_collector = dec_opt(self.selected_collector);
                let n = self.current_stream_count();
                self.selected_stream = clamp_opt(self.selected_stream, n);
            },
            Pane::Streams => {
                self.selected_stream = dec_opt(self.selected_stream);
            },
        }
    }

    /// Moves the selection of the active pane down one item.
    pub fn do_move_down(&mut self)
        ensures
            final(self)@ == moved_down(old(self)@),
    {
        match self.active_pane {
            Pane::Collectors => {
                self.selected_collector = inc_opt(self.selected_collector, self.filtered_indices.len());
                let n = self.current_stream_count();
                self.selected_stream = clamp_opt(self.selected_stream, n);
            },
            Pane::Streams => {
                let n = self.current_stream_count();
                self.selected_stream = inc_opt(self.selected_stream, n);
            },
        }
    }

    fn do_switch_pane(&mut self)
        ensures
            final(self)@ == switched(old(self)@),
    {
        match self.active_pane {
            Pane::Collectors => {
                if self.current_stream_count() > 0 {
                    self.active_pane = Pane::Streams;
                }
            },
            Pane::Streams => {
                if self.filtered_indices.len() > 0 {
                    self.active_pane = Pane::Collectors;
                }
            },
        }
    }

    fn do_enter(&mut self) -> (r: ActionResult)
        ensures
            (final(self)@, r@) == entered(old(self)@),
    {
        match self.active_pane {
            Pane::Collectors => {
                if self.current_stream_count() > 0 {
                    self.active_pane = Pane::Streams;
                    if self.selected_stream.is_none() {
                        self.selected_stream = Some(0);
                    }
                }
                ActionResult::Nothing
            },
            Pane::Streams => match self.selected_topic() {
                Some(t) => ActionResult::Selected(t),
                None => ActionResult::Nothing,
            },
        }
    }

    /// Applies a user action; Enter on a stream gives back its topic.
    pub fn apply(&mut self, action: Action, names: &NameBook) -> (r: ActionResult)
        ensures
            (final(self)@, r@) == applied(old(self)@, action, names@),
            model_ok(old(self)@) ==> model_ok(final(self)@),
    {
        match action {
            Action::MoveUp => {
                self.do_move_up();
                ActionResult::Nothing
            },
            Action::MoveDown => {
                self.do_move_down();
                ActionResult::Nothing
            },
            Action::SwitchPane => {
                self.do_switch_pane();
                ActionResult::Nothing
            },
            Action::TypeChar(c) => {
                crate::text::push_char(&mut self.filter, c);
                self.rebuild_filter(names);
                ActionResult::Nothing
            },
            Action::Backspace => {
                let cs = chars_of(self.filter.as_str());
                let n = cs.len();
                if n > 0 {
                    let kept = vstd::slice::slice_subrange(cs.as_slice(), 0, n - 1);
                    self.filter = string_of(kept);
                    proof {
                        assert(self.filter@ =~= old(self)@.filter.drop_last());
                    }
                }
                self.rebuild_filter(names);
                ActionResult::Nothing
            },
            Action::Enter => self.do_enter(),
        }
    }

    /// Keeps both selections in view, for panes of `collector_height` and
    /// `stream_height` rows.
    pub fn ensure_visible_scrolls(&mut self, collector_height: usize, stream_height: usize)
        ensures
            final(self)@ == (BrowserV {
                c_scroll: visible_scroll(
                    old(self)@.sel_c,
                    old(self)@.c_scroll,
                    old(self)@.filtered.len() as usize,
                    collector_height,
                ),
                s_scroll: visible_scroll(
                    old(self)@.sel_s,
                    old(self)@.s_scroll,
                    cur_streams(old(self)@).len() as usize,
                    stream_height,
                ),
                ..old(self)@
            }),
    {
        let total = self.filtered_indices.len();
        let mut cs = self.collector_scroll;
        ensure_visible(self.selected_collector, &mut cs, total, collector_height);
        self.collector_scroll = cs;
        let stream_total = self.current_stream_count();
        let mut ss = self.stream_scroll;
        ensure_visible(self.selected_stream, &mut ss, stream_total, stream_height);
        self.stream_scroll = ss;
    }
}

// ───────────────────────── the mouse ─────────────────────────

/// Rows inside a pane's border.
pub open spec fn inner_height(p: Rect) -> int {
    if p.height >= 2 {
        p.height - 2
    } else {
        0
    }
}

/// The pane and row (counted from the top of its list) under a cell:
/// a row of the collector list or of the stream list, below the pane's
/// top border, within its inner rows and within the list.
pub open spec fn target_of(col: u16, row: u16, layout: BrowserLayout, m: BrowserV) -> Option<(Pane, usize)> {
    if inside(col, row, layout.collector_pane) {
        let p = layout.collector_pane;
        if row >= p.y + 1 && row - (p.y + 1) < inner_height(p) && m.c_scroll + (row - (p.y + 1)) < m.filtered.len() {
            Some((Pane::Collectors, (m.c_scroll + (row - (p.y + 1))) as usize))
        } else {
            None
        }
    } else if inside(col, row, layout.stream_pane) {
        let p = layout.stream_pane;
        if row >= p.y + 1 && row - (p.y + 1) < inner_height(p) && m.s_scroll + (row - (p.y + 1)) < cur_streams(
            m,
        ).len() {
            Some((Pane::Streams, (m.s_scroll + (row - (p.y + 1))) as usize))
        } else {
            None
        }
    } else {
        None
    }
}

/// Scroll offsets small enough that a row below them is still a `usize`.
pub open spec fn scrolls_ok(m: BrowserV) -> bool {
    m.c_scroll + u16::MAX <= usize::MAX && m.s_scroll + u16::MAX <= usize::MAX
}

fn pane_row(row: u16, p: &Rect, scroll: usize) -> (r: Option<usize>)
    requires
        inside(0, row, Rect { x: 0, width: 1, ..*p }),
        scroll + u16::MAX <= usize::MAX,
    ensures
        match r {
            Some(k) => row >= p.y + 1 && row - (p.y + 1) < inner_height(*p) && k == scroll + (row - (p.y + 1)),
            None => !(row >= p.y + 1 && row - (p.y + 1) < inner_height(*p)),
        },
{
    if row < p.y + 1 {
        return None;
    }
    let content_row = row - (p.y + 1);
    let height: u16 = if p.height >= 2 {
        p.height - 2
    } else {
        0
    };
    if content_row < height {
        Some(scroll + content_row as usize)
    } else {
        None
    }
}

/// The pane and list row under the cell (`col`, `row`), if any; nothing
/// changes.
pub fn click_target(col: u16, row: u16, layout: &BrowserLayout, model: &BrowserModel) -> (r: Option<(Pane, usize)>)
    requires
        scrolls_ok(model@),
    ensures
        r == target_of(col, row, *layout, model@),
{
    if point_in(col, row, &layout.collector_pane) {
        match pane_row(row, &layout.collector_pane, model.collector_scroll) {
            Some(idx) => {
                if idx < model.filtered_indices.len() {
                    return Some((Pane::Collectors, idx));
                }
            },
            None => {},
        }
    } else if point_in(col, row, &layout.stream_pane) {
        match pane_row(row, &layout.stream_pane, model.stream_scroll) {
            Some(idx) => {
                if idx < model.current_stream_count() {
                    return Some((Pane::Streams, idx));
                }
            },
            None => {},
        }
    }
    None
}

/// The browser after a wheel step at a cell: over a pane, that pane takes
/// the keyboard and its selection moves one item (up or down).
pub open spec fn wheeled(m: BrowserV, layout: BrowserLayout, col: u16, row: u16, up: bool) -> BrowserV {
    if inside(col, row, layout.collector_pane) {
        let m1 = BrowserV { pane: Pane::Collectors, ..m };
        if up {
            moved_up(m1)
        } else {
            moved_down(m1)
        }
    } else if inside(col, row, layout.stream_pane) {
        let m1 = BrowserV { pane: Pane::Streams, ..m };
        if up {
            moved_up(m1)
        } else {
            moved_down(m1)
        }
    } else {
        m
    }
}

/// Moves the selection of the pane under the wheel.
pub fn handle_wheel(col: u16, row: u16, layout: &BrowserLayout, model: &mut BrowserModel, up: bool)
    ensures
        final(model)@ == wheeled(old(model)@, *layout, col, row, up),
{
    if point_in(col, row, &layout.collector_pane) {
        model.active_pane = Pane::Collectors;
        if up {
            model.do_move_up();
        } else {
            model.do_move_down();
        }
    } else if point_in(col, row, &layout.stream_pane) {
        model.active_pane = Pane::Streams;
        if up {
            model.do_move_up();
        } else {
            model.do_move_down();
        }
    }
}

/// A mouse event, as the browser tells them apart.
#[derive(Debug, Clone, Copy, PartialEq, Eq, Structural)]
pub enum MouseKind {
    LeftDown,
    ScrollUp,
    ScrollDown,
    Other,
}

pub open spec fn no_click() -> ClickTracker {
    ClickTracker { pane: None, row: None, time_ms: None }
}

/// Whether a click completes a double click with the one recorded.
pub open spec fn double_click(t: ClickTracker, pane: Pane, row: usize, now_ms: u64) -> bool {
    match (t.pane, t.row, t.time_ms) {
        (Some(p), Some(w), Some(at)) => p == pane && w == row && (if now_ms >= at {
            now_ms - at
        } else {
            0
        }) < 500,
        _ => false,
    }
}

/// A left click at a cell: a row under it is selected and its pane takes
/// the keyboard; a second click on the same row within 500 ms chooses a
/// stream's topic (on the collector list it only clears the click).
pub open spec fn clicked(m: BrowserV, layout: BrowserLayout, col: u16, row: u16, t: ClickTracker, now_ms: u64) -> (
    BrowserV,
    ClickTracker,
    ActionResultV,
) {
    match target_of(col, row, layout, m) {
        Some((pane, idx)) => {
            let m1 = match pane {
                Pane::Collectors => on_collector(BrowserV { pane: Pane::Collectors, ..m }, Some(idx)),
                Pane::Streams => BrowserV { sel_s: Some(idx), pane: Pane::Streams, ..m },
            };
            if double_click(t, pane, idx, now_ms) {
                (m1, no_click(), if pane == Pane::Streams {
                    match sel_topic(m1) {
                        Some(tp) => ActionResultV::Selected(tp),
                        None => ActionResultV::Nothing,
                    }
                } else {
                    ActionResultV::Nothing
                })
            } else {
                (m1, ClickTracker { pane: Some(pane), row: Some(idx), time_ms: Some(now_ms) }, ActionResultV::Nothing)
            }
        },
        None => (m, no_click(), ActionResultV::Nothing),
    }
}

/// What a mouse event does: a left click selects (and a double click
/// chooses a stream); the wheel moves the selection of the pane under it
/// and clears the click; anything else is ignored.
pub open spec fn mouse_handled(
    m: BrowserV,
    layout: BrowserLayout,
    kind: MouseKind,
    col: u16,
    row: u16,
    t: ClickTracker,
    now_ms: u64,
) -> (BrowserV, ClickTracker, ActionResultV) {
    match kind {
        MouseKind::LeftDown => clicked(m, layout, col, row, t, now_ms),
        MouseKind::ScrollUp => (wheeled(m, layout, col, row, true), no_click(), ActionResultV::Nothing),
        MouseKind::ScrollDown => (wheeled(m, layout, col, row, false), no_click(), ActionResultV::Nothing),
        MouseKind::Other => (m, t, ActionResultV::Nothing),
    }
}

/// Handles a mouse event at cell (`col`, `row`) at time `now_ms`.
pub fn handle_mouse_event(
    model: &mut BrowserModel,
    layout: &BrowserLayout,
    kind: MouseKind,
    col: u16,
    row: u16,
    click_tracker: &mut ClickTracker,
    now_ms: u64,
) -> (r: ActionResult)
    requires
        scrolls_ok(old(model)@),
    ensures
        (final(model)@, *final(click_tracker), r@) == mouse_handled(
            old(model)@,
            *layout,
            kind,
            col,
            row,
            *old(click_tracker),
            now_ms,
        ),
{
    match kind {
        MouseKind::LeftDown => {
            match click_target(col, row, layout, model) {
                Some((pane, idx)) => {
                    match pane {
                        Pane::Collectors => {
                            model.selected_collector = Some(idx);
                            model.active_pane = Pane::Collectors;
                            let n = model.current_stream_count();
                            model.selected_stream = clamp_opt(model.selected_stream, n);
                        },
                        Pane::Streams => {
                            model.selected_stream = Some(idx);
                            model.active_pane = Pane::Streams;
                        },
                    }
                    if click_tracker.is_double_click(pane, idx, now_ms) {
                        click_tracker.reset();
                        if pane == Pane::Streams {
                            match model.selected_topic() {
                                Some(t) => {
                                    return ActionResult::Selected(t);
                                },
                                None => {},
                            }
                        }
                    } else {
                        click_tracker.record(pane, idx, now_ms);
                    }
                },
                None => {
                    click_tracker.reset();
                },
            }
        },
        MouseKind::ScrollUp => {
            click_tracker.reset();
            handle_wheel(col, row, layout, model, true);
        },
        MouseKind::ScrollDown => {
            click_tracker.reset();
            handle_wheel(col, row, layout, model, false);
        },
        MouseKind::Other => {},
    }
    ActionResult::Nothing
}

// ───────────────────────── a browsing session ─────────────────────────

/// Progress through an escape sequence whose Esc was swallowed.
#[derive(Debug, Clone, Copy, PartialEq, Eq, Structural)]
pub enum EscState {
    Idle,
    EscSeen,
    EscBracketSeen,
}

/// A key, as the browser tells them apart.
#[derive(Debug, Clone, Copy, PartialEq, Eq, Structural)]
pub enum BrowserKey {
    Esc,
    Char(char),
    Up,
    Down,
    Tab,
    Enter,
    Backspace,
    Other,
}

/// What the browsing loop does next.
#[derive(Debug, Clone, PartialEq, Eq)]
pub enum BrowserStep {
    Continue,
    Quit,
    Selected(String),
}

pub enum BrowserStepV {
    Continue,
    Quit,
    Selected(Seq<char>),
}

impl View for BrowserStep {
    type V = BrowserStepV;

    open spec fn view(&self) -> BrowserStepV {
        match self {
            BrowserStep::Continue => BrowserStepV::Continue,
            BrowserStep::Quit => BrowserStepV::Quit,
            BrowserStep::Selected(t) => BrowserStepV::Selected(t@),
        }
    }
}

/// A browsing session: the model, the escape-sequence state and the last
/// click.
pub struct BrowserSession {
    pub model: BrowserModel,
    pub esc: EscState,
    pub clicks: ClickTracker,
}

/// The escape state after a key, and whether the key is swallowed as part
/// of an escape sequence (`[` after a swallowed Esc, then `A`, `B`, `C`,
/// `D` or `O`).
pub open spec fn esc_after(esc: EscState, key: BrowserKey) -> (EscState, bool) {
    match key {
        BrowserKey::Char(c) => if esc == EscState::EscSeen && c == '[' {
            (EscState::EscBracketSeen, true)
        } else if esc == EscState::EscBracketSeen && (c == 'A' || c == 'B' || c == 'C' || c == 'D' || c == 'O') {
            (EscState::Idle, true)
        } else {
            (EscState::Idle, false)
        },
        _ => (EscState::Idle, false),
    }
}

/// The action a key stands for, if any.
pub open spec fn key_action(key: BrowserKey) -> Option<Action> {
    match key {
        BrowserKey::Up => Some(Action::MoveUp),
        BrowserKey::Down => Some(Action::MoveDown),
        BrowserKey::Tab => Some(Action::SwitchPane),
        BrowserKey::Enter => Some(Action::Enter),
        BrowserKey::Backspace => Some(Action::Backspace),
        BrowserKey::Char(c) => if c == 'q' {
            None
        } else {
            Some(Action::TypeChar(c))
        },
        _ => None,
    }
}

/// A key press: Esc quits (or, in debug mode, is swallowed and starts an
/// escape sequence); the rest of an escape sequence is swallowed; `q`
/// quits; the other keys act on the model and clear the last click, Enter
/// on a stream choosing its topic.
pub open spec fn key_step(
    m: BrowserV,
    esc: EscState,
    t: ClickTracker,
    key: BrowserKey,
    debug_mode: bool,
    b: NameBookV,
) -> (BrowserV, EscState, ClickTracker, BrowserStepV) {
    if key == BrowserKey::Esc {
        if debug_mode {
            (m, EscState::EscSeen, t, BrowserStepV::Continue)
        } else {
            (m, esc, t, BrowserStepV::Quit)
        }
    } else {
        let (e2, swallowed) = esc_after(esc, key);
        if swallowed {
            (m, e2, t, BrowserStepV::Continue)
        } else if key == BrowserKey::Char('q') {
            (m, e2, t, BrowserStepV::Quit)
        } else {
            match key_action(key) {
                Some(a) => {
                    let (m2, res) = applied(m, a, b);
                    (m2, e2, no_click(), match res {
                        ActionResultV::Selected(tp) => BrowserStepV::Selected(tp),
                        _ => BrowserStepV::Continue,
                    })
                },
                None => (m, e2, t, BrowserStepV::Continue),
            }
        }
    }
}

impl BrowserSession {
    /// A session over `topics`.
    pub fn new(topics: &[String], names: &NameBook) -> (r: Self)
        ensures
            r.model@ == fresh_browser(texts(topics@), names@),
            r.esc == EscState::Idle,
            r.clicks == no_click(),
    {
        BrowserSession { model: BrowserModel::new(topics, names), esc: EscState::Idle, clicks: ClickTracker::new() }
    }

    /// Handles a key press; `debug_mode` keeps Esc from quitting.
    pub fn on_key(&mut self, key: BrowserKey, debug_mode: bool, names: &NameBook) -> (r: BrowserStep)
        ensures
            (final(self).model@, final(self).esc, final(self).clicks, r@) == key_step(
                old(self).model@,
                old(self).esc,
                old(self).clicks,
                key,
                debug_mode,
                names@,
            ),
    {
        if key == BrowserKey::Esc {
            if debug_mode {
                self.esc = EscState::EscSeen;
                return BrowserStep::Continue;
            }
            return BrowserStep::Quit;
        }
        match key {
            BrowserKey::Char(c) => {
                if self.esc == EscState::EscSeen && c == '[' {
                    self.esc = EscState::EscBracketSeen;
                    return BrowserStep::Continue;
                } else if self.esc == EscState::EscBracketSeen && (c == 'A' || c == 'B' || c == 'C' || c == 'D'
                    || c == 'O') {
                    self.esc = EscState::Idle;
                    return BrowserStep::Continue;
                } else {
                    self.esc = EscState::Idle;
                }
            },
            _ => {
                self.esc = EscState::Idle;
            },
        }
        let action = match key {
            BrowserKey::Up => Action::MoveUp,
            BrowserKey::Down => Action::MoveDown,
            BrowserKey::Tab => Action::SwitchPane,
            BrowserKey::Enter => Action::Enter,
            BrowserKey::Backspace => Action::Backspace,
            BrowserKey::Char(c) => {
                if c == 'q' {
                    return BrowserStep::Quit;
                }
                Action::TypeChar(c)
            },
            _ => {
                return BrowserStep::Continue;
            },
        };
        let res = self.model.apply(action, names);
        self.clicks.reset();
        match res {
            ActionResult::Selected(t) => BrowserStep::Selected(t),
            _ => BrowserStep::Continue,
        }
    }

    /// Handles a mouse event at time `now_ms`, with the panes where
    /// `layout` puts them.
    pub fn on_mouse(&mut self, layout: &BrowserLayout, kind: MouseKind, col: u16, row: u16, now_ms: u64) -> (r:
        BrowserStep)
        requires
            scrolls_ok(old(self).model@),
        ensures
            ({
                let (m2, t2, res) = mouse_handled(old(self).model@, *layout, kind, col, row, old(self).clicks, now_ms);
                &&& final(self).model@ == m2
                &&& final(self).clicks == t2
                &&& final(self).esc == old(self).esc
                &&& r@ == match res {
                    ActionResultV::Selected(tp) => BrowserStepV::Selected(tp),
                    _ => BrowserStepV::Continue,
                }
            }),
    {
        let res = handle_mouse_event(&mut self.model, layout, kind, col, row, &mut self.clicks, now_ms);
        match res {
            ActionResult::Selected(t) => BrowserStep::Selected(t),
            _ => BrowserStep::Continue,
        }
    }
}

// ───────────────────────── laws ─────────────────────────

/// Rebuilding the list for the search leaves both selections in range.
pub proof fn law_rebuilt_in_range(m: BrowserV, b: NameBookV)
    requires
        forall|i: int| 0 <= i < m.filtered.len() ==> (#[trigger] m.filtered[i]) < m.collectors.len(),
    ensures
        model_ok(rebuilt(m, b)),
        stream_ok(rebuilt(m, b)),
{
    lemma_shown_in_range(m.collectors, m.filter, b);
}

proof fn lemma_shown_in_range(cs: Seq<CollectorV>, filter: Seq<char>, b: NameBookV)
    ensures
        forall|i: int|
            0 <= i < shown_indices(cs, filter, b).len() ==> (#[trigger] shown_indices(cs, filter, b)[i]) < cs.len(),
    decreases cs.len(),
{
    if cs.len() > 0 {
        lemma_shown_in_range(cs.drop_last(), filter, b);
        let r = shown_indices(cs.drop_last(), filter, b);
        assert forall|i: int| 0 <= i < shown_indices(cs, filter, b).len() implies (#[trigger] shown_indices(
            cs,
            filter,
            b,
        )[i]) < cs.len() by {
            if i < r.len() {
                assert(shown_indices(cs, filter, b)[i] == r[i]);
            }
        }
    }
}

/// Every action keeps the list naming existing collectors, the collector
/// selection within the list and the stream selection within the selected
/// collector's streams; with the collector list empty, no streams are shown.
pub proof fn law_actions_keep_selection(m: BrowserV, a: Action, b: NameBookV)
    requires
        model_ok(m),
    ensures
        model_ok(applied(m, a, b).0),
        stream_ok(m) ==> stream_ok(applied(m, a, b).0),
        applied(m, a, b).0.filtered.len() == 0 ==> cur_streams(applied(m, a, b).0).len() == 0,
{
    match a {
        Action::TypeChar(c) => {
            law_rebuilt_in_range(BrowserV { filter: m.filter.push(c), ..m }, b);
        },
        Action::Backspace => {
            let f = if m.filter.len() > 0 {
                m.filter.drop_last()
            } else {
                m.filter
            };
            law_rebuilt_in_range(BrowserV { filter: f, ..m }, b);
        },
        _ => {},
    }
}

/// Mouse events keep the list naming existing collectors, the collector
/// selection within the list and the stream selection within the selected
/// collector's streams.
pub proof fn law_mouse_keeps_selection(
    m: BrowserV,
    layout: BrowserLayout,
    kind: MouseKind,
    col: u16,
    row: u16,
    t: ClickTracker,
    now_ms: u64,
)
    requires
        model_ok(m),
    ensures
        model_ok(mouse_handled(m, layout, kind, col, row, t, now_ms).0),
        stream_ok(m) ==> stream_ok(mouse_handled(m, layout, kind, col, row, t, now_ms).0),
{
}


// ───────────────────────── display order ─────────────────────────

/// Each collector is no earlier, in display order, than the one before.
pub open spec fn colls_sorted(s: Seq<CollectorV>) -> bool
    decreases s.len(),
{
    if s.len() <= 1 {
        true
    } else {
        coll_le(s[s.len() - 2], s.last()) && colls_sorted(s.drop_last())
    }
}

/// Each stream has an ASN no lower than the one before.
pub open spec fn streams_sorted(s: Seq<ParsedTopicV>) -> bool
    decreases s.len(),
{
    if s.len() <= 1 {
        true
    } else {
        asn_key(s[s.len() - 2]) <= asn_key(s.last()) && streams_sorted(s.drop_last())
    }
}

proof fn lemma_insert_coll_sorted(s: Seq<CollectorV>, x: CollectorV)
    requires
        colls_sorted(s),
    ensures
        colls_sorted(insert_coll(s, x)),
        insert_coll(s, x).to_multiset() =~= s.to_multiset().insert(x),
        insert_coll(s, x).len() == s.len() + 1,
        insert_coll(s, x).last() == x || (s.len() > 0 && insert_coll(s, x).last() == s.last()),
    decreases s.len(),
{
    broadcast use vstd::seq_lib::group_to_multiset_ensures;

    if s.len() == 0 {
        assert(seq![x] =~= Seq::<CollectorV>::empty().push(x));
    } else if coll_le(s.last(), x) {
        assert(s.push(x).drop_last() =~= s);
    } else {
        let d = s.drop_last();
        let t = insert_coll(d, x);
        lemma_insert_coll_sorted(d, x);
        assert(d.push(s.last()) =~= s);
        assert(t.push(s.last()).drop_last() =~= t);
        if t.len() >= 1 && t.last() != x {
            assert(s[s.len() - 2] == d.last());
        }
    }
}

proof fn lemma_sort_colls(s: Seq<CollectorV>)
    ensures
        colls_sorted(sort_colls(s)),
        sort_colls(s).to_multiset() =~= s.to_multiset(),
    decreases s.len(),
{
    broadcast use vstd::seq_lib::group_to_multiset_ensures;

    if s.len() > 0 {
        lemma_sort_colls(s.drop_last());
        lemma_insert_coll_sorted(sort_colls(s.drop_last()), s.last());
        assert(s.drop_last().push(s.last()) =~= s);
    }
}

proof fn lemma_insert_by_asn_sorted(s: Seq<ParsedTopicV>, x: ParsedTopicV)
    requires
        streams_sorted(s),
    ensures
        streams_sorted(insert_by_asn(s, x)),
        insert_by_asn(s, x).to_multiset() =~= s.to_multiset().insert(x),
        insert_by_asn(s, x).len() == s.len() + 1,
        insert_by_asn(s, x).last() == x || (s.len() > 0 && insert_by_asn(s, x).last() == s.last()),
    decreases s.len(),
{
    broadcast use vstd::seq_lib::group_to_multiset_ensures;

    if s.len() == 0 {
        assert(seq![x] =~= Seq::<ParsedTopicV>::empty().push(x));
    } else if asn_key(s.last()) <= asn_key(x) {
        assert(s.push(x).drop_last() =~= s);
    } else {
        let d = s.drop_last();
        let t = insert_by_asn(d, x);
        lemma_insert_by_asn_sorted(d, x);
        assert(d.push(s.last()) =~= s);
        assert(t.push(s.last()).drop_last() =~= t);
        if t.len() >= 1 && t.last() != x {
            assert(s[s.len() - 2] == d.last());
        }
    }
}

proof fn lemma_sort_by_asn(s: Seq<ParsedTopicV>)
    ensures
        streams_sorted(sort_by_asn(s)),
        sort_by_asn(s).to_multiset() =~= s.to_multiset(),
    decreases s.len(),
{
    broadcast use vstd::seq_lib::group_to_multiset_ensures;

    if s.len() > 0 {
        lemma_sort_by_asn(s.drop_last());
        lemma_insert_by_asn_sorted(sort_by_asn(s.drop_last()), s.last());
        assert(s.drop_last().push(s.last()) =~= s);
    }
}

/// The browser's lists are ordered: collectors keep the same members with
/// the UNDEFINED ones last and, before them and among them, more streams
/// first; a collector's streams keep the same members by ascending ASN.
pub proof fn law_display_order(colls: Seq<CollectorV>, streams: Seq<ParsedTopicV>)
    ensures
        colls_sorted(sort_colls(colls)),
        sort_colls(colls).to_multiset() =~= colls.to_multiset(),
        streams_sorted(sort_by_asn(streams)),
        sort_by_asn(streams).to_multiset() =~= streams.to_multiset(),
{
    lemma_sort_colls(colls);
    lemma_sort_by_asn(streams);
}

} // verus!
