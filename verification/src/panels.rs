//! The text of the dashboard's panels, as pieces of text with a tint: the
//! live message log (with the RPKI hint of an invalid announcement) and
//! the Prefix Flaps panel. The terminal only draws what these give.

use vstd::prelude::*;

use crate::dashboard::{
    clock_text, compact_path, compact_text, display_name, first_n, key_index, last_n, msg_type_color, msg_type_label,
    opt_change, short_name, short_name_of, shown_name, strip_known_prefix, stripped, time_of_day, type_color,
    type_label, Dashboard, DashboardV, MessageLine, MessageLineV, PrefixChange, PrefixChangeV, TypeColor,
};
use crate::names::{resolution, NameBook, NameBookV};
use crate::rpki::{status_label, RPKIDetail, Status};
use crate::doctor::{add_sat, sat_add};
use crate::flaps::{flap_rows, origin_groups, origin_runs, prefix_flaps, row_origins, rows_view, FlapRow, FlapRowV};
use crate::browser::{cur_streams, sel_topic, topics_view, BrowserModel, BrowserV, CollectorV, Pane};
use crate::kafka::texts;
use crate::names::name_text;
use crate::topics::{truncate_str, truncated};
use crate::text::{dec_str, decimal, occurs_at, push_char, starts_with, str_occurs_at, str_starts_with};

verus! {

/// The colour a piece of text is drawn in.
#[derive(Debug, Clone, Copy, PartialEq, Eq, Structural)]
pub enum Tint {
    /// The terminal's own colour.
    Plain,
    Green,
    Red,
    Yellow,
    Gray,
    DarkGray,
    Cyan,
    Blue,
    Magenta,
}

/// A piece of text and its colour.
pub struct Piece {
    pub text: String,
    pub tint: Tint,
}

/// Abstract value of a [`Piece`].
pub struct PieceV {
    pub text: Seq<char>,
    pub tint: Tint,
}

impl View for Piece {
    type V = PieceV;

    open spec fn view(&self) -> PieceV {
        PieceV { text: self.text@, tint: self.tint }
    }
}

/// The abstract values of a line of pieces.
pub open spec fn pieces_view(s: Seq<Piece>) -> Seq<PieceV> {
    s.map_values(|p: Piece| p@)
}

/// The abstract values of lines of pieces.
pub open spec fn text_lines_view(s: Seq<Vec<Piece>>) -> Seq<Seq<PieceV>> {
    s.map_values(|l: Vec<Piece>| pieces_view(l@))
}

pub open spec fn piece(text: Seq<char>, tint: Tint) -> PieceV {
    PieceV { text, tint }
}

/// The tint of a message type's colour.
pub open spec fn type_tint(c: TypeColor) -> Tint {
    match c {
        TypeColor::Cyan => Tint::Cyan,
        TypeColor::Blue => Tint::Blue,
        TypeColor::Red => Tint::Red,
        TypeColor::Green => Tint::Green,
        TypeColor::Yellow => Tint::Yellow,
        TypeColor::Magenta => Tint::Magenta,
        TypeColor::Gray => Tint::Gray,
    }
}

fn tint_of_type(c: TypeColor) -> (r: Tint)
    ensures
        r == type_tint(c),
{
    match c {
        TypeColor::Cyan => Tint::Cyan,
        TypeColor::Blue => Tint::Blue,
        TypeColor::Red => Tint::Red,
        TypeColor::Green => Tint::Green,
        TypeColor::Yellow => Tint::Yellow,
        TypeColor::Magenta => Tint::Magenta,
        TypeColor::Gray => Tint::Gray,
    }
}

/// The tint of an RPKI outcome: green when valid, red when invalid, gray
/// otherwise.
pub open spec fn rpki_tint(s: Option<Status>) -> Tint {
    match s {
        Some(Status::Valid) => Tint::Green,
        Some(Status::Invalid) | Some(Status::InvalidWrongAsn) | Some(Status::InvalidTooLong) => Tint::Red,
        _ => Tint::Gray,
    }
}

fn rpki_tint_of(s: Option<Status>) -> (r: Tint)
    ensures
        r == rpki_tint(s),
{
    match s {
        Some(Status::Valid) => Tint::Green,
        Some(Status::Invalid) | Some(Status::InvalidWrongAsn) | Some(Status::InvalidTooLong) => Tint::Red,
        _ => Tint::Gray,
    }
}

/// The tint of an origin: green when valid, yellow when announced by the
/// wrong ASN, dark gray otherwise.
pub open spec fn origin_tint(s: Option<Status>) -> Tint {
    match s {
        Some(Status::Valid) => Tint::Green,
        Some(Status::InvalidWrongAsn) => Tint::Yellow,
        _ => Tint::DarkGray,
    }
}

fn origin_tint_of(s: Option<Status>) -> (r: Tint)
    ensures
        r == origin_tint(s),
{
    match s {
        Some(Status::Valid) => Tint::Green,
        Some(Status::InvalidWrongAsn) => Tint::Yellow,
        _ => Tint::DarkGray,
    }
}

/// The RPKI column of a line: the outcome's label, `--` without one.
pub open spec fn rpki_label(s: Option<Status>) -> Seq<char> {
    match s {
        Some(x) => status_label(x),
        None => seq!['-', '-'],
    }
}

// ───────────────────────── text helpers ─────────────────────────

/// `s` padded with spaces on the right to `w` characters.
pub open spec fn pad_right(s: Seq<char>, w: nat) -> Seq<char> {
    if s.len() >= w {
        s
    } else {
        s + Seq::new((w - s.len()) as nat, |i: int| ' ')
    }
}

/// A copy of `s` padded with spaces on the right to `w` characters.
pub fn padded(s: &str, w: usize) -> (r: String)
    ensures
        r@ == pad_right(s@, w as nat),
{
    let mut out = String::from_str(s);
    let n = s.unicode_len();
    if n >= w {
        return out;
    }
    let mut i: usize = n;
    while i < w
        invariant
            n == s@.len(),
            n <= i <= w,
            out@ == s@ + Seq::new((i - n) as nat, |j: int| ' '),
        decreases w - i,
    {
        push_char(&mut out, ' ');
        i = i + 1;
        proof {
            assert(out@ =~= s@ + Seq::new((i - n) as nat, |j: int| ' '));
        }
    }
    out
}

/// The characters of `s` from `a` up to `b`.
pub fn sub_text(s: &str, a: usize, b: usize) -> (r: String)
    requires
        a <= b <= s@.len(),
    ensures
        r@ == s@.subrange(a as int, b as int),
{
    let mut out = String::new();
    let mut i: usize = a;
    while i < b
        invariant
            a <= i <= b,
            b <= s@.len(),
            out@ == s@.subrange(a as int, i as int),
        decreases b - i,
    {
        push_char(&mut out, s.get_char(i));
        i = i + 1;
        proof {
            assert(out@ =~= s@.subrange(a as int, i as int));
        }
    }
    out
}

/// The last position at or before `i` where `sep` occurs in `s`.
pub open spec fn last_at_from(s: Seq<char>, sep: Seq<char>, i: int) -> Option<int>
    decreases i + 1,
{
    if i < 0 {
        None
    } else if occurs_at(s, sep, i) {
        Some(i)
    } else {
        last_at_from(s, sep, i - 1)
    }
}

proof fn lemma_last_at_from_occurs(s: Seq<char>, sep: Seq<char>, i: int)
    ensures
        last_at_from(s, sep, i) matches Some(j) ==> occurs_at(s, sep, j) && j <= i,
    decreases i + 1,
{
    if i >= 0 && !occurs_at(s, sep, i) {
        lemma_last_at_from_occurs(s, sep, i - 1);
    }
}

/// Where the last `sep` found in `s` occurs, it does occur.
pub proof fn lemma_last_at_occurs(s: Seq<char>, sep: Seq<char>)
    ensures
        last_at(s, sep) matches Some(j) ==> occurs_at(s, sep, j),
{
    lemma_last_at_from_occurs(s, sep, s.len() - sep.len());
}

/// The last position where `sep` occurs in `s`.
pub open spec fn last_at(s: Seq<char>, sep: Seq<char>) -> Option<int> {
    last_at_from(s, sep, s.len() - sep.len())
}

/// The last position where `sep` occurs in `s`, if any.
pub fn find_last(s: &str, sep: &str) -> (r: Option<usize>)
    ensures
        match r {
            Some(i) => last_at(s@, sep@) == Some(i as int),
            None => last_at(s@, sep@) is None,
        },
{
    let n = s.unicode_len();
    let m = sep.unicode_len();
    if m > n {
        return None;
    }
    let mut i: usize = n - m;
    loop
        invariant
            n == s@.len(),
            m == sep@.len(),
            m <= n,
            i <= n - m,
            last_at(s@, sep@) == last_at_from(s@, sep@, i as int),
        decreases i,
    {
        if str_occurs_at(s, sep, i) {
            return Some(i);
        }
        if i == 0 {
            proof {
                assert(last_at_from(s@, sep@, -1) is None);
            }
            return None;
        }
        i = i - 1;
    }
}

/// The hint of an invalid announcement: the ASN that should originate it
/// (with its name, when one is known) and the longest length allowed, as
/// `should be AS<n> <name>, max /<len>`.
pub open spec fn hint_text(d: RPKIDetail, b: NameBookV) -> Seq<char> {
    let asn_part = match d.expected_asn {
        Some(e) => {
            let name = shown_name(resolution(b, e).0);
            Some(
                if name.len() == 0 {
                    "should be AS"@ + dec_str(e as nat)
                } else {
                    "should be AS"@ + dec_str(e as nat) + " "@ + name
                },
            )
        },
        None => None,
    };
    let len_part = match d.max_prefix_len {
        Some(m) => Some("max /"@ + dec_str(m as nat)),
        None => None,
    };
    match (asn_part, len_part) {
        (Some(a), Some(l)) => a + ", "@ + l,
        (Some(a), None) => a,
        (None, Some(l)) => l,
        (None, None) => Seq::empty(),
    }
}

/// The hint shown beside an invalid announcement.
pub fn rpki_hint(d: &RPKIDetail, names: &NameBook) -> (r: String)
    ensures
        r@ == hint_text(*d, names@),
{
    proof {
        reveal_strlit("should be AS");
        reveal_strlit(" ");
        reveal_strlit("max /");
        reveal_strlit(", ");
    }
    let mut out = String::new();
    match d.expected_asn {
        Some(e) => {
            out.append("should be AS");
            let n = decimal(e as u64);
            out.append(n.as_str());
            let name = display_name(names, e);
            if name.as_str().unicode_len() > 0 {
                out.append(" ");
                out.append(name.as_str());
            }
        },
        None => {},
    }
    match d.max_prefix_len {
        Some(m) => {
            if d.expected_asn.is_some() {
                out.append(", ");
            }
            out.append("max /");
            let n = decimal(m as u64);
            out.append(n.as_str());
        },
        None => {},
    }
    proof {
        assert(out@ =~= hint_text(*d, names@));
    }
    out
}


// ───────────────────────── the message log ─────────────────────────

/// The separator between the hops of a compact path.
pub open spec fn arrow() -> Seq<char> {
    seq![' ', '→', ' ']
}

/// The start of a line for a prefix: time, RPKI outcome, padded type.
pub open spec fn change_lead(ts: u32, rpki: Option<Status>, t: u8) -> Seq<PieceV> {
    seq![
        piece(clock_text(ts) + seq![' '], Tint::Plain),
        piece(rpki_label(rpki) + seq![' '], rpki_tint(rpki)),
        piece(pad_right(type_label(t), 8), type_tint(type_color(t))),
    ]
}

/// The path of an announcement: the transit hops in dark gray and the
/// origin in the origin's tint; nothing for an empty path.
pub open spec fn path_pieces(text: Seq<char>, rpki: Option<Status>) -> Seq<PieceV> {
    if text.len() == 0 {
        Seq::empty()
    } else {
        match last_at(text, arrow()) {
            Some(i) => seq![
                piece(seq![' ', ' '] + text.subrange(0, i) + arrow(), Tint::DarkGray),
                piece(text.subrange(i + 3, text.len() as int), origin_tint(rpki)),
            ],
            None => seq![piece(seq![' ', ' '] + text, origin_tint(rpki))],
        }
    }
}

/// The RPKI hint of an announcement, when the outcome has detail.
pub open spec fn hint_pieces(d: Option<RPKIDetail>, b: NameBookV) -> Seq<PieceV> {
    match d {
        Some(x) => seq![piece(seq![' ', ' ', '('] + hint_text(x, b) + seq![')'], Tint::Yellow)],
        None => Seq::empty(),
    }
}

/// The name of the origin (the last hop), when a real name is known.
pub open spec fn origin_name_pieces(path: Seq<u32>, b: NameBookV) -> Seq<PieceV> {
    if path.len() > 0 && shown_name(resolution(b, path.last()).0).len() > 0 {
        seq![piece(seq![' '], Tint::Plain), piece(short_name_of(shown_name(resolution(b, path.last()).0)), Tint::Yellow)]
    } else {
        Seq::empty()
    }
}

/// Texts joined with `sep` between them.
pub open spec fn joined(ss: Seq<Seq<char>>, sep: Seq<char>) -> Seq<char>
    decreases ss.len(),
{
    if ss.len() == 0 {
        Seq::empty()
    } else if ss.len() == 1 {
        ss[0]
    } else {
        joined(ss.drop_last(), sep) + sep + ss.last()
    }
}

/// The communities of an announcement when shown: the first three and a
/// count of the rest.
pub open spec fn community_pieces(show: bool, cs: Seq<Seq<char>>) -> Seq<PieceV> {
    if show && cs.len() > 0 {
        seq![
            piece(
                seq![' ', ' '] + joined(first_n(cs, 3), seq![' ']) + if cs.len() > 3 {
                    seq![' ', '+'] + dec_str((cs.len() - 3) as nat)
                } else {
                    Seq::empty()
                },
                Tint::DarkGray,
            ),
        ]
    } else {
        Seq::empty()
    }
}

/// The line of an announced prefix.
pub open spec fn announce_line(d: DashboardV, b: NameBookV, m: MessageLineV, pc: PrefixChangeV, p: Seq<char>) -> Seq<PieceV> {
    let path = stripped(pc.as_path, d.topic);
    change_lead(m.ts_sec, pc.rpki, m.msg_type) + seq![piece(seq![' ', '+'], Tint::Plain), piece(p, Tint::Green)]
        + path_pieces(compact_text(path), pc.rpki) + hint_pieces(pc.rpki_detail, b) + origin_name_pieces(path, b)
        + community_pieces(d.show_communities, pc.communities)
}

/// The path last announced for a prefix, as shown.
pub open spec fn was_path(d: DashboardV, p: Seq<char>) -> Seq<u32> {
    match key_index(d.prefix_last_path, p) {
        Some(i) => stripped(d.prefix_last_path[i].1, d.topic),
        None => Seq::empty(),
    }
}

/// The line of a withdrawn prefix, with the path it had, if known.
pub open spec fn withdraw_line(d: DashboardV, m: MessageLineV, pc: PrefixChangeV, p: Seq<char>) -> Seq<PieceV> {
    let w = compact_text(was_path(d, p));
    change_lead(m.ts_sec, pc.rpki, m.msg_type) + seq![piece(seq![' ', '-'], Tint::Plain), piece(p, Tint::Red)] + if w.len()
        > 0 {
        seq![piece(seq![' ', ' ', '('] + "was: "@ + w + seq![')'], Tint::DarkGray)]
    } else {
        Seq::empty()
    }
}

/// `AS<n>`, or `-` without an ASN.
pub open spec fn asn_text(a: Option<u32>) -> Seq<char> {
    match a {
        Some(x) => seq!['A', 'S'] + dec_str(x as nat),
        None => seq!['-'],
    }
}

/// The line of a message that changes no prefix.
pub open spec fn plain_line(m: MessageLineV) -> Seq<PieceV> {
    seq![
        piece(clock_text(m.ts_sec) + seq![' '], Tint::Plain),
        piece(pad_right(type_label(m.msg_type), 8), type_tint(type_color(m.msg_type))),
        piece(
            seq![' ', ' '] + asn_text(m.asn) + seq![' '] + match m.ip_short {
                Some(ip) => ip,
                None => seq!['-'],
            },
            Tint::Plain,
        ),
    ]
}

/// The lines of one logged message: one per announced prefix, then one per
/// withdrawn prefix; one plain line for a message that changes none.
pub open spec fn message_lines(d: DashboardV, b: NameBookV, m: MessageLineV) -> Seq<Seq<PieceV>> {
    match m.prefixes {
        Some(pc) => Seq::new(pc.announced.len(), |i: int| announce_line(d, b, m, pc, pc.announced[i].0)) + Seq::new(
            pc.withdrawn.len(),
            |i: int| withdraw_line(d, m, pc, pc.withdrawn[i].0),
        ),
        None => seq![plain_line(m)],
    }
}

/// The lines of logged messages, in order.
pub open spec fn log_text(d: DashboardV, b: NameBookV, ms: Seq<MessageLineV>) -> Seq<Seq<PieceV>>
    decreases ms.len(),
{
    if ms.len() == 0 {
        Seq::empty()
    } else {
        log_text(d, b, ms.drop_last()) + message_lines(d, b, ms.last())
    }
}

/// The message log panel with room for `max_lines` lines: the lines of the
/// newest `max_lines` messages, of which the last `max_lines` are shown.
pub open spec fn spec_log_lines(d: DashboardV, b: NameBookV, max_lines: nat) -> Seq<Seq<PieceV>> {
    let log = d.message_log;
    let start = if log.len() > max_lines {
        log.len() - max_lines
    } else {
        0
    };
    last_n(log_text(d, b, log.subrange(start as int, log.len() as int)), max_lines)
}

fn push_piece(v: &mut Vec<Piece>, text: String, tint: Tint)
    ensures
        pieces_view(final(v)@) == pieces_view(old(v)@).push(piece(text@, tint)),
{
    let ghost before = pieces_view(v@);
    v.push(Piece { text, tint });
    proof {
        assert(pieces_view(v@) =~= before.push(piece(text@, tint)));
    }
}

fn append_pieces(v: &mut Vec<Piece>, w: Vec<Piece>)
    ensures
        pieces_view(final(v)@) == pieces_view(old(v)@) + pieces_view(w@),
{
    let ghost before = v@;
    let mut w = w;
    let ghost wv = w@;
    v.append(&mut w);
    proof {
        assert(pieces_view(v@) =~= pieces_view(before) + pieces_view(wv));
    }
}

fn lead_of(ts: u32, rpki: Option<Status>, t: u8) -> (r: Vec<Piece>)
    ensures
        pieces_view(r@) == change_lead(ts, rpki, t),
{
    let mut v: Vec<Piece> = Vec::new();
    let mut a = time_of_day(ts);
    push_char(&mut a, ' ');
    assert(a@ =~= clock_text(ts) + seq![' ']);
    push_piece(&mut v, a, Tint::Plain);
    let mut b = match rpki {
        Some(x) => String::from_str(x.as_str()),
        None => String::from_str("--"),
    };
    proof {
        reveal_strlit("--");
    }
    proof {
        assert("--"@ =~= seq!['-', '-']);
    }
    let ghost b0 = b@;
    assert(b0 == rpki_label(rpki));
    push_char(&mut b, ' ');
    push_piece(&mut v, b, rpki_tint_of(rpki));
    let c = padded(msg_type_label(t), 8);
    push_piece(&mut v, c, tint_of_type(msg_type_color(t)));
    proof {
        assert(b0.push(' ') =~= rpki_label(rpki) + seq![' ']);
        assert(pieces_view(v@) =~= change_lead(ts, rpki, t));
    }
    v
}

fn path_pieces_of(text: &String, rpki: Option<Status>) -> (r: Vec<Piece>)
    ensures
        pieces_view(r@) == path_pieces(text@, rpki),
{
    let mut v: Vec<Piece> = Vec::new();
    let n = text.as_str().unicode_len();
    if n == 0 {
        proof {
            assert(pieces_view(v@) =~= Seq::<PieceV>::empty());
        }
        return v;
    }
    proof {
        reveal_strlit(" → ");
        reveal_strlit("  ");
        assert(" → "@ =~= arrow());
        assert("  "@ =~= seq![' ', ' ']);
    }
    let found = find_last(text.as_str(), " → ");
    proof {
        lemma_last_at_occurs(text@, " → "@);
    }
    match found {
        Some(i) => {
            let mut a = String::from_str("  ");
            let t = sub_text(text.as_str(), 0, i);
            a.append(t.as_str());
            a.append(" → ");
            push_piece(&mut v, a, Tint::DarkGray);
            let o = sub_text(text.as_str(), i + 3, n);
            push_piece(&mut v, o, origin_tint_of(rpki));
        },
        None => {
            let mut a = String::from_str("  ");
            a.append(text.as_str());
            push_piece(&mut v, a, origin_tint_of(rpki));
        },
    }
    proof {
        assert(pieces_view(v@) =~= path_pieces(text@, rpki));
    }
    v
}

fn joined_first3(cs: &Vec<String>) -> (r: String)
    requires
        cs@.len() > 0,
    ensures
        r@ == joined(first_n(texts(cs@), 3), seq![' ']),
{
    let k: usize = if cs.len() > 3 {
        3
    } else {
        cs.len()
    };
    let ghost all = texts(cs@);
    let mut out = cs[0].clone();
    let mut i: usize = 1;
    proof {
        assert(all.subrange(0, 1).drop_last() =~= Seq::<Seq<char>>::empty());
        assert(joined(all.subrange(0, 1), seq![' ']) == all[0]);
    }
    while i < k
        invariant
            1 <= i <= k,
            k <= cs@.len(),
            k <= 3,
            all == texts(cs@),
            out@ == joined(all.subrange(0, i as int), seq![' ']),
        decreases k - i,
    {
        push_char(&mut out, ' ');
        out.append(cs[i].as_str());
        proof {
            let sub = all.subrange(0, i + 1);
            assert(sub.drop_last() =~= all.subrange(0, i as int));
            assert(sub.last() == cs@[i as int]@);
        }
        i = i + 1;
        proof {
            assert(out@ =~= joined(all.subrange(0, i as int), seq![' ']));
        }
    }
    proof {
        if all.len() > 3 {
            assert(first_n(all, 3) == all.subrange(0, 3));
        } else {
            assert(all.subrange(0, all.len() as int) =~= all);
        }
    }
    out
}

fn announce_of(
    dash: &Dashboard,
    names: &NameBook,
    m: &MessageLine,
    pc: &PrefixChange,
    path: &Vec<u32>,
    path_text: &String,
    p: &String,
) -> (r: Vec<Piece>)
    requires
        path@ == stripped(pc@.as_path, dash@.topic),
        path_text@ == compact_text(path@),
    ensures
        pieces_view(r@) == announce_line(dash@, names@, m@, pc@, p@),
{
    let mut v = lead_of(m.ts_sec, pc.rpki, m.msg_type);
    proof {
        reveal_strlit(" +");
        reveal_strlit("  (");
        reveal_strlit(" ");
        reveal_strlit("  ");
        assert(" +"@ =~= seq![' ', '+']);
        assert("  ("@ =~= seq![' ', ' ', '(']);
        assert(" "@ =~= seq![' ']);
        assert("  "@ =~= seq![' ', ' ']);
    }
    let ghost v0 = pieces_view(v@);
    push_piece(&mut v, String::from_str(" +"), Tint::Plain);
    let pp = p.clone();
    assert(pp@ == p@);
    push_piece(&mut v, pp, Tint::Green);
    let ghost v1 = pieces_view(v@);
    assert(v1 =~= v0 + seq![piece(seq![' ', '+'], Tint::Plain), piece(p@, Tint::Green)]);
    append_pieces(&mut v, path_pieces_of(path_text, pc.rpki));
    let ghost v2 = pieces_view(v@);
    match pc.rpki_detail {
        Some(d) => {
            let mut h = String::from_str("  (");
            let t = rpki_hint(&d, names);
            h.append(t.as_str());
            push_char(&mut h, ')');
            assert(h@ =~= seq![' ', ' ', '('] + hint_text(d, names@) + seq![')']);
            push_piece(&mut v, h, Tint::Yellow);
        },
        None => {},
    }
    let ghost v3 = pieces_view(v@);
    if path.len() > 0 {
        let name = display_name(names, path[path.len() - 1]);
        if name.as_str().unicode_len() > 0 {
            push_piece(&mut v, String::from_str(" "), Tint::Plain);
            push_piece(&mut v, short_name(name.as_str()), Tint::Yellow);
        }
    }
    let ghost v4 = pieces_view(v@);
    if dash.show_communities && pc.communities.len() > 0 {
        let mut c = String::from_str("  ");
        let j = joined_first3(&pc.communities);
        c.append(j.as_str());
        let ghost c0 = c@;
        if pc.communities.len() > 3 {
            c.append(" +");
            let n = decimal((pc.communities.len() - 3) as u64);
            c.append(n.as_str());
        }
        proof {
            let cs = pc@.communities;
            assert(cs.len() == pc.communities@.len());
            if cs.len() > 3 {
                assert(c@ =~= c0 + (seq![' ', '+'] + dec_str((cs.len() - 3) as nat)));
            } else {
                assert(c@ =~= c0 + Seq::<char>::empty());
            }
        }
        push_piece(&mut v, c, Tint::DarkGray);
    }
    proof {
        let d = dash@;
        let pv = pc@;
        assert(v2 =~= change_lead(m.ts_sec, pc.rpki, m.msg_type) + seq![piece(seq![' ', '+'], Tint::Plain), piece(p@, Tint::Green)]
            + path_pieces(compact_text(path@), pc.rpki));
        assert(v3 =~= v2 + hint_pieces(pv.rpki_detail, names@));
        assert(v4 =~= v3 + origin_name_pieces(path@, names@));
        assert(pieces_view(v@) =~= v4 + community_pieces(d.show_communities, pv.communities));
    }
    v
}

fn withdraw_of(dash: &Dashboard, m: &MessageLine, pc: &PrefixChange, p: &String) -> (r: Vec<Piece>)
    ensures
        pieces_view(r@) == withdraw_line(dash@, m@, pc@, p@),
{
    let mut v = lead_of(m.ts_sec, pc.rpki, m.msg_type);
    proof {
        reveal_strlit(" -");
        reveal_strlit("  (");
        reveal_strlit("was: ");
        assert(" -"@ =~= seq![' ', '-']);
        assert("  ("@ =~= seq![' ', ' ', '(']);
    }
    let ghost v0 = pieces_view(v@);
    push_piece(&mut v, String::from_str(" -"), Tint::Plain);
    let pp = p.clone();
    assert(pp@ == p@);
    push_piece(&mut v, pp, Tint::Red);
    let ghost v1 = pieces_view(v@);
    assert(v1 =~= v0 + seq![piece(seq![' ', '-'], Tint::Plain), piece(p@, Tint::Red)]);
    let wp: Vec<u32> = match dash.last_path(p.as_str()) {
        Some(path) => strip_known_prefix(path.as_slice(), dash),
        None => Vec::new(),
    };
    assert(wp@ == was_path(dash@, p@));
    let w = compact_path(wp.as_slice());
    if w.as_str().unicode_len() > 0 {
        let mut t = String::from_str("  (");
        t.append("was: ");
        t.append(w.as_str());
        push_char(&mut t, ')');
        assert(t@ =~= seq![' ', ' ', '('] + "was: "@ + w@ + seq![')']);
        push_piece(&mut v, t, Tint::DarkGray);
        assert(pieces_view(v@) =~= v1 + seq![piece(seq![' ', ' ', '('] + "was: "@ + w@ + seq![')'], Tint::DarkGray)]);
    } else {
        assert(pieces_view(v@) =~= v1 + Seq::<PieceV>::empty());
    }
    proof {
        assert(pieces_view(v@) =~= withdraw_line(dash@, m@, pc@, p@));
    }
    v
}

fn plain_of(m: &MessageLine) -> (r: Vec<Piece>)
    ensures
        pieces_view(r@) == plain_line(m@),
{
    let mut v: Vec<Piece> = Vec::new();
    let mut a = time_of_day(m.ts_sec);
    push_char(&mut a, ' ');
    push_piece(&mut v, a, Tint::Plain);
    let c = padded(msg_type_label(m.msg_type), 8);
    push_piece(&mut v, c, tint_of_type(msg_type_color(m.msg_type)));
    let mut t = String::from_str("  ");
    proof {
        reveal_strlit("  ");
        reveal_strlit("AS");
        reveal_strlit("-");
        assert("  "@ =~= seq![' ', ' ']);
        assert("AS"@ =~= seq!['A', 'S']);
        assert("-"@ =~= seq!['-']);
    }
    let ghost t0 = t@;
    match m.asn {
        Some(x) => {
            t.append("AS");
            let n = decimal(x as u64);
            t.append(n.as_str());
        },
        None => t.append("-"),
    }
    push_char(&mut t, ' ');
    match &m.ip_short {
        Some(ip) => t.append(ip.as_str()),
        None => t.append("-"),
    }
    proof {
        let ip = match m@.ip_short {
            Some(x) => x,
            None => seq!['-'],
        };
        assert(t@ =~= seq![' ', ' '] + asn_text(m.asn) + seq![' '] + ip);
    }
    assert(a@ =~= clock_text(m.ts_sec) + seq![' ']);
    push_piece(&mut v, t, Tint::Plain);
    proof {
        assert(pieces_view(v@) =~= plain_line(m@));
    }
    v
}

fn message_lines_of(dash: &Dashboard, names: &NameBook, m: &MessageLine) -> (r: Vec<Vec<Piece>>)
    ensures
        text_lines_view(r@) == message_lines(dash@, names@, m@),
{
    let mut out: Vec<Vec<Piece>> = Vec::new();
    match &m.prefixes {
        Some(pc) => {
            let path = strip_known_prefix(pc.as_path.as_slice(), dash);
            let path_text = compact_path(path.as_slice());
            let ghost pv = pc@;
            let ghost d = dash@;
            let ghost b = names@;
            let ghost mv = m@;
            let mut i: usize = 0;
            while i < pc.announced.len()
                invariant
                    i <= pc.announced@.len(),
                    pv == pc@,
                    d == dash@,
                    b == names@,
                    mv == m@,
                    path@ == stripped(pv.as_path, d.topic),
                    path_text@ == compact_text(path@),
                    text_lines_view(out@) == Seq::new(i as nat, |j: int| announce_line(d, b, mv, pv, pv.announced[j].0)),
                decreases pc.announced@.len() - i,
            {
                let line = announce_of(dash, names, m, pc, &path, &path_text, &pc.announced[i].0);
                let ghost before = text_lines_view(out@);
                let ghost lv = pieces_view(line@);
                out.push(line);
                proof {
                    assert(text_lines_view(out@) =~= before.push(lv));
                    assert(pv.announced[i as int].0 == pc.announced@[i as int].0@);
                    assert(text_lines_view(out@) =~= Seq::new((i + 1) as nat, |j: int| announce_line(d, b, mv, pv, pv.announced[j].0)));
                }
                i = i + 1;
            }
            let ghost n_a = pv.announced.len();
            let mut k: usize = 0;
            while k < pc.withdrawn.len()
                invariant
                    k <= pc.withdrawn@.len(),
                    pv == pc@,
                    d == dash@,
                    b == names@,
                    mv == m@,
                    n_a == pv.announced.len(),
                    text_lines_view(out@) == Seq::new(n_a, |j: int| announce_line(d, b, mv, pv, pv.announced[j].0))
                        + Seq::new(k as nat, |j: int| withdraw_line(d, mv, pv, pv.withdrawn[j].0)),
                decreases pc.withdrawn@.len() - k,
            {
                let line = withdraw_of(dash, m, pc, &pc.withdrawn[k].0);
                let ghost before = text_lines_view(out@);
                let ghost lv = pieces_view(line@);
                out.push(line);
                proof {
                    assert(text_lines_view(out@) =~= before.push(lv));
                    assert(pv.withdrawn[k as int].0 == pc.withdrawn@[k as int].0@);
                    assert(text_lines_view(out@) =~= Seq::new(n_a, |j: int| announce_line(d, b, mv, pv, pv.announced[j].0))
                        + Seq::new((k + 1) as nat, |j: int| withdraw_line(d, mv, pv, pv.withdrawn[j].0)));
                }
                k = k + 1;
            }
        },
        None => {
            out.push(plain_of(m));
            proof {
                assert(text_lines_view(out@) =~= message_lines(dash@, names@, m@));
            }
        },
    }
    out
}

/// The message log panel with room for `max_lines` lines: the lines of the
/// newest messages, each announced prefix, withdrawn prefix or other
/// message on a line of its own, of which the last `max_lines` are shown.
pub fn log_lines(dash: &Dashboard, names: &NameBook, max_lines: usize) -> (r: Vec<Vec<Piece>>)
    ensures
        text_lines_view(r@) == spec_log_lines(dash@, names@, max_lines as nat),
{
    let n = dash.message_log.len();
    let start: usize = if n > max_lines {
        n - max_lines
    } else {
        0
    };
    let ghost d = dash@;
    let ghost b = names@;
    let ghost ms = d.message_log;
    assert(ms.len() == n);
    let mut all: Vec<Vec<Piece>> = Vec::new();
    let mut i: usize = start;
    proof {
        assert(ms.subrange(start as int, start as int) =~= Seq::<MessageLineV>::empty());
    }
    while i < n
        invariant
            start <= i <= n,
            n == dash.message_log@.len(),
            d == dash@,
            b == names@,
            ms == d.message_log,
            ms.len() == n,
            text_lines_view(all@) == log_text(d, b, ms.subrange(start as int, i as int)),
        decreases n - i,
    {
        let ls = message_lines_of(dash, names, &dash.message_log[i]);
        let ghost before = all@;
        let mut ls = ls;
        let ghost lv = ls@;
        all.append(&mut ls);
        proof {
            let sub = ms.subrange(start as int, i + 1);
            assert(sub.drop_last() =~= ms.subrange(start as int, i as int));
            assert(sub.last() == dash.message_log@[i as int]@);
            assert(text_lines_view(all@) =~= text_lines_view(before) + text_lines_view(lv));
        }
        i = i + 1;
    }
    let ghost av = text_lines_view(all@);
    let ghost total = all@.len();
    while all.len() > max_lines
        invariant
            av.len() == total,
            all@.len() <= total,
            total <= max_lines ==> all@.len() == total,
            total > max_lines ==> all@.len() >= max_lines,
            text_lines_view(all@) == av.subrange(total - all@.len(), total as int),
        decreases all@.len(),
    {
        let ghost before = all@;
        all.remove(0);
        proof {
            assert(all@ =~= before.subrange(1, before.len() as int));
            assert(text_lines_view(all@) =~= text_lines_view(before).subrange(1, before.len() as int));
            assert(text_lines_view(all@) =~= av.subrange(total - all@.len(), total as int));
        }
    }
    proof {
        assert(ms.subrange(start as int, n as int) =~= ms.subrange(start as int, ms.len() as int));
        if total <= max_lines {
            assert(av.subrange(0, total as int) =~= av);
        }
        assert(text_lines_view(all@) =~= last_n(av, max_lines as nat));
    }
    all
}

// ───────────────────────── the Prefix Flaps panel ─────────────────────────

/// `n` horizontal rules.
pub open spec fn rules(n: nat) -> Seq<char> {
    Seq::new(n, |i: int| '─')
}

/// The churn of a group of rows, added up (held at `u64::MAX`).
pub open spec fn churn_sum(g: Seq<FlapRowV>) -> u64
    decreases g.len(),
{
    if g.len() == 0 {
        0
    } else {
        sat_add(churn_sum(g.drop_last()), g.last().churn as int)
    }
}

/// The label of an origin: `AS<n>`, with its name cut to fit when a real
/// name is known.
pub open spec fn origin_label(origin: u32, b: NameBookV) -> Seq<char> {
    let n = shown_name(resolution(b, origin).0);
    if n.len() == 0 {
        seq!['A', 'S'] + dec_str(origin as nat)
    } else {
        seq!['A', 'S'] + dec_str(origin as nat) + seq![' '] + short_name_of(n)
    }
}

/// The prefix column: the prefix padded to 24 characters.
pub open spec fn prefix_cell(p: Seq<char>) -> Seq<char> {
    seq![' ', ' '] + pad_right(p, 24) + seq![' ']
}

/// `(<n>)`.
pub open spec fn in_parens(n: nat) -> Seq<char> {
    seq!['('] + dec_str(n) + seq![')']
}

/// The line of a group that points at the origin.
pub open spec fn head_line(p: Seq<char>, conn: Seq<char>, label: Seq<char>, total: u64) -> Seq<PieceV> {
    seq![
        piece(prefix_cell(p), Tint::Plain),
        piece(conn + seq![' '], Tint::Plain),
        piece(rules(18) + seq!['→', ' '] + label + seq![' '] + in_parens(total as nat), Tint::Plain),
    ]
}

/// Another line of a group: the prefix, its connector and its churn.
pub open spec fn row_line(p: Seq<char>, conn: Seq<char>, c: u64) -> Seq<PieceV> {
    seq![
        piece(prefix_cell(p), Tint::Plain),
        piece(pad_right(conn, 6), Tint::Plain),
        piece(in_parens(c as nat), Tint::DarkGray),
    ]
}

/// The connector of row `i` of `n`: `──┐` first, `──┘` last (when the
/// group is shown whole), `──┤` between.
pub open spec fn connector(i: int, n: int, whole: bool) -> Seq<char> {
    if i == 0 {
        seq!['─', '─', '┐']
    } else if whole && i == n - 1 {
        seq!['─', '─', '┘']
    } else {
        seq!['─', '─', '┤']
    }
}

/// At most this many rows of a group are shown.
pub open spec fn max_shown() -> int {
    4
}

/// The lines of one origin's group of rows: a single row points straight
/// at the origin; up to four rows are bracketed, the middle one pointing
/// at the origin; of a larger group the first four are shown and the rest
/// summed up as `... +N more prefixes (+C churn)`.
pub open spec fn group_lines(g: Seq<FlapRowV>, b: NameBookV) -> Seq<Seq<PieceV>> {
    let label = origin_label(g[0].origin, b);
    let total = churn_sum(g);
    if g.len() == 1 {
        seq![
            seq![
                piece(prefix_cell(g[0].prefix), Tint::Plain),
                piece(rules(21) + seq!['→', ' '], Tint::Plain),
                piece(label + seq![' '] + in_parens(total as nat), Tint::Plain),
            ],
        ]
    } else if g.len() <= max_shown() {
        Seq::new(
            g.len(),
            |i: int|
                if i == g.len() / 2 {
                    head_line(g[i].prefix, connector(i, g.len() as int, true), label, total)
                } else {
                    row_line(g[i].prefix, connector(i, g.len() as int, true), g[i].churn)
                },
        )
    } else {
        Seq::new(
            4,
            |i: int|
                if i == 2 {
                    head_line(g[i].prefix, connector(i, 4, false), label, total)
                } else {
                    row_line(g[i].prefix, connector(i, 4, false), g[i].churn)
                },
        ).push(
            seq![
                piece(prefix_cell(Seq::empty()), Tint::Plain),
                piece(seq!['─', '─', '┘', ' '], Tint::Plain),
                piece(
                    "... +"@ + dec_str((g.len() - 4) as nat) + " more prefixes (+"@ + dec_str(
                        churn_sum(g.subrange(4, g.len() as int)) as nat,
                    ) + " churn)"@,
                    Tint::DarkGray,
                ),
            ],
        )
    }
}

/// The panel from group `k` on, after lines `acc`: each group's lines and
/// a blank line, at most `max_lines / 2` groups, stopping once the panel
/// holds `max_lines` lines.
pub open spec fn panel_from(
    rows: Seq<FlapRowV>,
    gs: Seq<(usize, usize)>,
    k: int,
    acc: Seq<Seq<PieceV>>,
    b: NameBookV,
    max_lines: nat,
) -> Seq<Seq<PieceV>>
    decreases gs.len() - k,
{
    if k < 0 || k >= gs.len() || k >= max_lines / 2 {
        acc
    } else {
        let acc2 = acc + group_lines(rows.subrange(gs[k].0 as int, gs[k].1 as int), b) + seq![Seq::<PieceV>::empty()];
        if acc2.len() >= max_lines {
            acc2
        } else {
            panel_from(rows, gs, k + 1, acc2, b, max_lines)
        }
    }
}

/// The Prefix Flaps panel with room for `max_lines` lines: the rows
/// grouped by origin; a waiting note while there are no rows.
pub open spec fn spec_origin_rows(d: DashboardV, b: NameBookV, max_lines: nat) -> Seq<Seq<PieceV>> {
    let rows = flap_rows(d.prefix_origins, d.churn_counts);
    if rows.len() == 0 {
        seq![seq![piece(" waiting for AS path data..."@, Tint::DarkGray)]]
    } else {
        panel_from(rows, origin_runs(rows.map_values(|r: FlapRowV| r.origin)), 0, Seq::empty(), b, max_lines)
    }
}

proof fn lemma_runs_in_range(os: Seq<u32>)
    requires
        os.len() <= usize::MAX,
    ensures
        forall|k: int|
            0 <= k < origin_runs(os).len() ==> (#[trigger] origin_runs(os)[k]).0 < origin_runs(os)[k].1 <= os.len(),
        origin_runs(os).len() > 0 ==> origin_runs(os)[0].0 == 0,
        os.len() > 0 ==> origin_runs(os).len() > 0,
    decreases os.len(),
{
    if os.len() > 0 {
        lemma_runs_in_range(os.drop_last());
        let r = origin_runs(os.drop_last());
        let n = os.len() as int;
        if n >= 2 && os[n - 2] == os[n - 1] && r.len() > 0 {
            let r2 = r.update(r.len() - 1, (r.last().0, n as usize));
            assert forall|k: int| 0 <= k < r2.len() implies (#[trigger] r2[k]).0 < r2[k].1 <= os.len() by {
                if k < r.len() - 1 {
                    assert(r2[k] == r[k]);
                }
            }
        } else {
            let r2 = r.push(((n - 1) as usize, n as usize));
            assert forall|k: int| 0 <= k < r2.len() implies (#[trigger] r2[k]).0 < r2[k].1 <= os.len() by {
                if k < r.len() {
                    assert(r2[k] == r[k]);
                }
            }
        }
    }
}

fn rules_of(n: usize) -> (r: String)
    ensures
        r@ == rules(n as nat),
{
    let mut out = String::new();
    let mut i: usize = 0;
    while i < n
        invariant
            i <= n,
            out@ == rules(i as nat),
        decreases n - i,
    {
        push_char(&mut out, '─');
        i = i + 1;
        proof {
            assert(out@ =~= rules(i as nat));
        }
    }
    out
}

fn in_parens_of(n: u64) -> (r: String)
    ensures
        r@ == in_parens(n as nat),
{
    let mut out = String::new();
    push_char(&mut out, '(');
    let d = decimal(n);
    out.append(d.as_str());
    push_char(&mut out, ')');
    proof {
        assert(out@ =~= in_parens(n as nat));
    }
    out
}

fn prefix_cell_of(p: &str) -> (r: String)
    ensures
        r@ == prefix_cell(p@),
{
    let mut out = String::new();
    push_char(&mut out, ' ');
    push_char(&mut out, ' ');
    let c = padded(p, 24);
    out.append(c.as_str());
    push_char(&mut out, ' ');
    proof {
        assert(out@ =~= prefix_cell(p@));
    }
    out
}

fn origin_label_of(origin: u32, names: &NameBook) -> (r: String)
    ensures
        r@ == origin_label(origin, names@),
{
    let mut out = String::new();
    push_char(&mut out, 'A');
    push_char(&mut out, 'S');
    let d = decimal(origin as u64);
    out.append(d.as_str());
    let name = display_name(names, origin);
    if name.as_str().unicode_len() > 0 {
        push_char(&mut out, ' ');
        let sn = short_name(name.as_str());
        out.append(sn.as_str());
    }
    proof {
        assert(out@ =~= origin_label(origin, names@));
    }
    out
}

fn connector_of(i: usize, n: usize, whole: bool) -> (r: String)
    ensures
        r@ == connector(i as int, n as int, whole),
{
    let mut out = String::new();
    push_char(&mut out, '─');
    push_char(&mut out, '─');
    if i == 0 {
        push_char(&mut out, '┐');
    } else if whole && n > 0 && i == n - 1 {
        push_char(&mut out, '┘');
    } else {
        push_char(&mut out, '┤');
    }
    proof {
        assert(out@ =~= connector(i as int, n as int, whole));
    }
    out
}

fn head_line_of(p: &str, conn: String, label: &String, total: u64) -> (r: Vec<Piece>)
    ensures
        pieces_view(r@) == head_line(p@, conn@, label@, total),
{
    let mut v: Vec<Piece> = Vec::new();
    push_piece(&mut v, prefix_cell_of(p), Tint::Plain);
    let mut c = conn;
    let ghost c0 = c@;
    push_char(&mut c, ' ');
    push_piece(&mut v, c, Tint::Plain);
    let mut t = rules_of(18);
    push_char(&mut t, '→');
    push_char(&mut t, ' ');
    t.append(label.as_str());
    push_char(&mut t, ' ');
    let q = in_parens_of(total);
    t.append(q.as_str());
    assert(t@ =~= rules(18) + seq!['→', ' '] + label@ + seq![' '] + in_parens(total as nat));
    assert(c@ =~= c0 + seq![' ']);
    push_piece(&mut v, t, Tint::Plain);
    proof {
        assert(pieces_view(v@) =~= head_line(p@, c0, label@, total));
    }
    v
}

fn row_line_of(p: &str, conn: String, c: u64) -> (r: Vec<Piece>)
    ensures
        pieces_view(r@) == row_line(p@, conn@, c),
{
    let mut v: Vec<Piece> = Vec::new();
    push_piece(&mut v, prefix_cell_of(p), Tint::Plain);
    push_piece(&mut v, padded(conn.as_str(), 6), Tint::Plain);
    push_piece(&mut v, in_parens_of(c), Tint::DarkGray);
    proof {
        assert(pieces_view(v@) =~= row_line(p@, conn@, c));
    }
    v
}

fn churn_sum_of(rows: &Vec<FlapRow>, s: usize, e: usize) -> (r: u64)
    requires
        s <= e <= rows@.len(),
    ensures
        r == churn_sum(rows_view(rows@).subrange(s as int, e as int)),
{
    let ghost rv = rows_view(rows@);
    let mut total: u64 = 0;
    let mut i: usize = s;
    proof {
        assert(rv.subrange(s as int, s as int) =~= Seq::<FlapRowV>::empty());
    }
    while i < e
        invariant
            s <= i <= e,
            e <= rows@.len(),
            rv == rows_view(rows@),
            total == churn_sum(rv.subrange(s as int, i as int)),
        decreases e - i,
    {
        proof {
            assert(rv.subrange(s as int, i + 1).drop_last() =~= rv.subrange(s as int, i as int));
        }
        total = add_sat(total, rows[i].churn);
        i = i + 1;
    }
    total
}

fn group_lines_of(rows: &Vec<FlapRow>, s: usize, e: usize, names: &NameBook) -> (r: Vec<Vec<Piece>>)
    requires
        s < e <= rows@.len(),
    ensures
        text_lines_view(r@) == group_lines(rows_view(rows@).subrange(s as int, e as int), names@),
{
    let ghost g = rows_view(rows@).subrange(s as int, e as int);
    let n = e - s;
    assert(g.len() == n);
    let label = origin_label_of(rows[s].origin, names);
    let total = churn_sum_of(rows, s, e);
    assert(g[0].origin == rows[s as int].origin);
    let mut out: Vec<Vec<Piece>> = Vec::new();
    if n == 1 {
        let mut v: Vec<Piece> = Vec::new();
        push_piece(&mut v, prefix_cell_of(rows[s].prefix.as_str()), Tint::Plain);
        let mut t = rules_of(21);
        push_char(&mut t, '→');
        push_char(&mut t, ' ');
        assert(t@ =~= rules(21) + seq!['→', ' ']);
        push_piece(&mut v, t, Tint::Plain);
        let mut u = label.clone();
        push_char(&mut u, ' ');
        let q = in_parens_of(total);
        u.append(q.as_str());
        assert(u@ =~= label@ + seq![' '] + in_parens(total as nat));
        push_piece(&mut v, u, Tint::Plain);
        let ghost lv = pieces_view(v@);
        out.push(v);
        proof {
            assert(g[0].prefix == rows@[s as int].prefix@);
            assert(lv =~= seq![
                piece(prefix_cell(g[0].prefix), Tint::Plain),
                piece(rules(21) + seq!['→', ' '], Tint::Plain),
                piece(label@ + seq![' '] + in_parens(total as nat), Tint::Plain),
            ]);
            assert(text_lines_view(out@) =~= seq![lv]);
            assert(text_lines_view(out@) =~= group_lines(g, names@));
        }
        return out;
    }
    let whole = n <= 4;
    let shown: usize = if whole {
        n
    } else {
        4
    };
    let mid: usize = if whole {
        n / 2
    } else {
        2
    };
    let mut i: usize = 0;
    while i < shown
        invariant
            i <= shown,
            shown <= n,
            n == e - s,
            s < e <= rows@.len(),
            g == rows_view(rows@).subrange(s as int, e as int),
            whole == (n <= 4),
            shown == (if whole { n } else { 4 }),
            mid == (if whole { n / 2 } else { 2 }),
            label@ == origin_label(g[0].origin, names@),
            total == churn_sum(g),
            text_lines_view(out@) == Seq::new(
                i as nat,
                |j: int|
                    if j == mid {
                        head_line(g[j].prefix, connector(j, shown as int, whole), label@, total)
                    } else {
                        row_line(g[j].prefix, connector(j, shown as int, whole), g[j].churn)
                    },
            ),
        decreases shown - i,
    {
        let r = &rows[s + i];
        let conn = connector_of(i, shown, whole);
        let line = if i == mid {
            head_line_of(r.prefix.as_str(), conn, &label, total)
        } else {
            row_line_of(r.prefix.as_str(), conn, r.churn)
        };
        let ghost before = text_lines_view(out@);
        let ghost lv = pieces_view(line@);
        out.push(line);
        proof {
            assert(g[i as int] == rows@[s + i]@);
            assert(text_lines_view(out@) =~= before.push(lv));
        }
        i = i + 1;
        proof {
            assert(text_lines_view(out@) =~= Seq::new(
                i as nat,
                |j: int|
                    if j == mid {
                        head_line(g[j].prefix, connector(j, shown as int, whole), label@, total)
                    } else {
                        row_line(g[j].prefix, connector(j, shown as int, whole), g[j].churn)
                    },
            ));
        }
    }
    let ghost body = text_lines_view(out@);
    if !whole {
        proof {
            reveal_strlit("");
            assert(""@ =~= Seq::<char>::empty());
        }
        let mut v: Vec<Piece> = Vec::new();
        push_piece(&mut v, prefix_cell_of(""), Tint::Plain);
        let mut c = String::new();
        push_char(&mut c, '─');
        push_char(&mut c, '─');
        push_char(&mut c, '┘');
        push_char(&mut c, ' ');
        push_piece(&mut v, c, Tint::Plain);
        let mut t = String::from_str("... +");
        let a = decimal((n - 4) as u64);
        t.append(a.as_str());
        t.append(" more prefixes (+");
        let rc = churn_sum_of(rows, s + 4, e);
        let b2 = decimal(rc);
        t.append(b2.as_str());
        t.append(" churn)");
        assert(c@ =~= seq!['─', '─', '┘', ' ']);
        assert(t@ =~= "... +"@ + dec_str((n - 4) as nat) + " more prefixes (+"@ + dec_str(rc as nat) + " churn)"@);
        push_piece(&mut v, t, Tint::DarkGray);
        let ghost before = text_lines_view(out@);
        let ghost lv = pieces_view(v@);
        out.push(v);
        proof {
            assert(rows_view(rows@).subrange(s + 4, e as int) =~= g.subrange(4, g.len() as int));
            assert(text_lines_view(out@) =~= before.push(lv));
            assert(lv =~= seq![
                piece(prefix_cell(Seq::empty()), Tint::Plain),
                piece(seq!['─', '─', '┘', ' '], Tint::Plain),
                piece(
                    "... +"@ + dec_str((g.len() - 4) as nat) + " more prefixes (+"@ + dec_str(
                        churn_sum(g.subrange(4, g.len() as int)) as nat,
                    ) + " churn)"@,
                    Tint::DarkGray,
                ),
            ]);
            assert(body =~= Seq::new(
                4,
                |j: int|
                    if j == 2 {
                        head_line(g[j].prefix, connector(j, 4, false), label@, total)
                    } else {
                        row_line(g[j].prefix, connector(j, 4, false), g[j].churn)
                    },
            ));
            assert(text_lines_view(out@) =~= group_lines(g, names@));
        }
    } else {
        proof {
            assert(text_lines_view(out@) =~= group_lines(g, names@));
        }
    }
    out
}

/// The Prefix Flaps panel with room for `max_lines` lines.
pub fn origin_rows(dash: &Dashboard, names: &NameBook, max_lines: usize) -> (r: Vec<Vec<Piece>>)
    ensures
        text_lines_view(r@) == spec_origin_rows(dash@, names@, max_lines as nat),
{
    let rows = prefix_flaps(dash);
    let ghost rv = rows_view(rows@);
    let mut out: Vec<Vec<Piece>> = Vec::new();
    if rows.len() == 0 {
        assert(rv.len() == 0);
        let mut v: Vec<Piece> = Vec::new();
        push_piece(&mut v, String::from_str(" waiting for AS path data..."), Tint::DarkGray);
        let ghost lv = pieces_view(v@);
        out.push(v);
        proof {
            assert(lv =~= seq![piece(" waiting for AS path data..."@, Tint::DarkGray)]);
            assert(text_lines_view(out@) =~= seq![lv]);
            assert(text_lines_view(out@) =~= spec_origin_rows(dash@, names@, max_lines as nat));
        }
        return out;
    }
    let gs = origin_groups(&rows);
    let ghost os = rv.map_values(|r: FlapRowV| r.origin);
    proof {
        assert(os =~= row_origins(rows@));
        lemma_runs_in_range(os);
    }
    let mut k: usize = 0;
    while k < gs.len() && k < max_lines / 2
        invariant
            gs@ == origin_runs(os),
            os == rv.map_values(|r: FlapRowV| r.origin),
            os.len() == rows@.len(),
            rv == rows_view(rows@),
            rv == flap_rows(dash@.prefix_origins, dash@.churn_counts),
            forall|q: int| 0 <= q < gs@.len() ==> (#[trigger] gs@[q]).0 < gs@[q].1 <= os.len(),
            k <= gs@.len(),
            text_lines_view(out@).len() < max_lines || k == 0,
            panel_from(rv, gs@, 0, Seq::empty(), names@, max_lines as nat) == panel_from(
                rv,
                gs@,
                k as int,
                text_lines_view(out@),
                names@,
                max_lines as nat,
            ),
        decreases gs@.len() - k,
    {
        let (s, e) = gs[k];
        let mut ls = group_lines_of(&rows, s, e, names);
        let ghost before = text_lines_view(out@);
        let ghost lv = text_lines_view(ls@);
        out.append(&mut ls);
        out.push(Vec::new());
        proof {
            assert(pieces_view(Seq::<Piece>::empty()) =~= Seq::<PieceV>::empty());
            assert(text_lines_view(out@) =~= before + lv + seq![Seq::<PieceV>::empty()]);
        }
        k = k + 1;
        if out.len() >= max_lines {
            proof {
                assert(text_lines_view(out@).len() == out@.len());
            }
            return out;
        }
    }
    out
}

// ───────────────────────── the stream browser ─────────────────────────

/// A row of a list: its pieces, and whether it is the selected row of the
/// pane that has the keyboard.
pub struct ListRow {
    pub pieces: Vec<Piece>,
    pub selected: bool,
}

/// Abstract value of a [`ListRow`].
pub struct ListRowV {
    pub pieces: Seq<PieceV>,
    pub selected: bool,
}

impl View for ListRow {
    type V = ListRowV;

    open spec fn view(&self) -> ListRowV {
        ListRowV { pieces: pieces_view(self.pieces@), selected: self.selected }
    }
}

pub open spec fn rows_of(v: Seq<ListRow>) -> Seq<ListRowV> {
    v.map_values(|r: ListRow| r@)
}

/// `s` padded with spaces on the left to `w` characters.
pub open spec fn pad_left(s: Seq<char>, w: nat) -> Seq<char> {
    if s.len() >= w {
        s
    } else {
        Seq::new((w - s.len()) as nat, |i: int| ' ') + s
    }
}

pub(crate) fn padded_left(s: &str, w: usize) -> (r: String)
    ensures
        r@ == pad_left(s@, w as nat),
{
    let n = s.unicode_len();
    let mut out = String::new();
    if n >= w {
        out.append(s);
        proof {
            assert(out@ =~= s@);
        }
        return out;
    }
    let mut i: usize = n;
    while i < w
        invariant
            n == s@.len(),
            n <= i <= w,
            out@ == Seq::new((i - n) as nat, |j: int| ' '),
        decreases w - i,
    {
        push_char(&mut out, ' ');
        i = i + 1;
        proof {
            assert(out@ =~= Seq::new((i - n) as nat, |j: int| ' '));
        }
    }
    out.append(s);
    out
}

/// A collector's label as listed: cut to 32 characters past 34.
pub open spec fn listed_label(label: Seq<char>) -> Seq<char> {
    if label.len() > 34 {
        truncated(label, 32)
    } else {
        label
    }
}

/// The row of list position `i`: the label and the stream count.
pub open spec fn collector_row(m: BrowserV, i: int) -> ListRowV {
    let idx = m.filtered[i] as int;
    let label = if idx < m.collectors.len() {
        m.collectors[idx].label
    } else {
        Seq::empty()
    };
    let n: nat = if idx < m.collectors.len() {
        m.collectors[idx].streams.len()
    } else {
        0
    };
    ListRowV {
        pieces: seq![piece(seq![' '] + pad_right(listed_label(label), 38) + seq![' '] + pad_left(dec_str(n), 4), Tint::Plain)],
        selected: m.pane == Pane::Collectors && m.sel_c == Some(i as usize),
    }
}

/// The end of the rows shown from `scroll` with room for `height`.
pub open spec fn window_end(scroll: nat, height: nat, total: nat) -> nat {
    if scroll + height < total {
        scroll + height
    } else {
        total
    }
}

/// The collector list with room for `height` rows from its scroll
/// position; `(no matches)` when no row is shown.
pub open spec fn spec_collector_rows(m: BrowserV, height: nat) -> Seq<ListRowV> {
    let end = window_end(m.c_scroll as nat, height, m.filtered.len());
    if m.c_scroll < end {
        Seq::new((end - m.c_scroll) as nat, |j: int| collector_row(m, m.c_scroll + j))
    } else {
        seq![ListRowV { pieces: seq![piece(" (no matches)"@, Tint::DarkGray)], selected: false }]
    }
}

/// The name shown beside a stream's ASN: cut to 24 characters past 26,
/// empty when only the bare `AS<n>` form (or nothing) is known.
pub open spec fn stream_name(name: Seq<char>) -> Seq<char> {
    if name.len() > 26 {
        truncated(name, 24)
    } else if name.len() == 0 || starts_with(name, seq!['A', 'S']) {
        Seq::empty()
    } else {
        name
    }
}

/// The row of stream `i` of the selected collector.
pub open spec fn stream_row(m: BrowserV, b: NameBookV, i: int) -> ListRowV {
    let pt = cur_streams(m)[i];
    ListRowV {
        pieces: seq![
            piece(seq![' ', ' '], Tint::Plain),
            piece(seq!['A', 'S'] + pt.asn_str, Tint::Green),
            piece(seq![' '], Tint::Plain),
            piece(stream_name(name_text(b, pt.asn_str)), Tint::Yellow),
        ],
        selected: m.pane == Pane::Streams && m.sel_s == Some(i as usize),
    }
}

/// The stream list with room for `height` rows from its scroll position;
/// `(no streams)` when no row is shown.
pub open spec fn spec_stream_rows(m: BrowserV, b: NameBookV, height: nat) -> Seq<ListRowV> {
    let end = window_end(m.s_scroll as nat, height, cur_streams(m).len());
    if m.s_scroll < end {
        Seq::new((end - m.s_scroll) as nat, |j: int| stream_row(m, b, m.s_scroll + j))
    } else {
        seq![ListRowV { pieces: seq![piece(" (no streams)"@, Tint::DarkGray)], selected: false }]
    }
}

/// The line naming the chosen stream: its topic, or `no stream selected`.
pub open spec fn selection_piece(m: BrowserV) -> PieceV {
    match sel_topic(m) {
        Some(t) => piece(t, Tint::Green),
        None => piece("no stream selected"@, Tint::DarkGray),
    }
}

fn window_end_of(scroll: usize, height: usize, total: usize) -> (r: usize)
    ensures
        r == window_end(scroll as nat, height as nat, total as nat),
{
    if height < total && scroll < total - height {
        scroll + height
    } else {
        total
    }
}

fn single_row(text: &str) -> (r: Vec<ListRow>)
    ensures
        rows_of(r@) == seq![ListRowV { pieces: seq![piece(text@, Tint::DarkGray)], selected: false }],
{
    let mut v: Vec<Piece> = Vec::new();
    push_piece(&mut v, String::from_str(text), Tint::DarkGray);
    let ghost pv = pieces_view(v@);
    let mut out: Vec<ListRow> = Vec::new();
    out.push(ListRow { pieces: v, selected: false });
    proof {
        assert(pv =~= seq![piece(text@, Tint::DarkGray)]);
        assert(rows_of(out@) =~= seq![ListRowV { pieces: seq![piece(text@, Tint::DarkGray)], selected: false }]);
    }
    out
}

/// The rows of the collector list with room for `height` rows.
pub fn collector_rows(m: &BrowserModel, height: usize) -> (r: Vec<ListRow>)
    ensures
        rows_of(r@) == spec_collector_rows(m@, height as nat),
{
    let total = m.filtered_indices.len();
    let start = m.collector_scroll;
    let end = window_end_of(start, height, total);
    if start >= end {
        return single_row(" (no matches)");
    }
    let ghost mv = m@;
    let mut out: Vec<ListRow> = Vec::new();
    let mut i: usize = start;
    while i < end
        invariant
            start <= i <= end,
            end <= total,
            total == m.filtered_indices@.len(),
            mv == m@,
            start == mv.c_scroll,
            rows_of(out@) == Seq::new((i - start) as nat, |j: int| collector_row(mv, start + j)),
        decreases end - i,
    {
        let idx = m.filtered_indices[i];
        let (label, n) = if idx < m.all_collectors.len() {
            let mc = &m.all_collectors[idx];
            let l = if mc.label.as_str().unicode_len() > 34 {
                truncate_str(mc.label.as_str(), 32)
            } else {
                mc.label.clone()
            };
            (l, mc.streams.len())
        } else {
            (String::new(), 0)
        };
        let mut t = String::new();
        push_char(&mut t, ' ');
        let a = padded(label.as_str(), 38);
        t.append(a.as_str());
        push_char(&mut t, ' ');
        let d = decimal(n as u64);
        let b = padded_left(d.as_str(), 4);
        t.append(b.as_str());
        let mut v: Vec<Piece> = Vec::new();
        push_piece(&mut v, t, Tint::Plain);
        let sel = match m.active_pane {
            Pane::Collectors => match m.selected_collector {
                Some(c) => c == i,
                None => false,
            },
            Pane::Streams => false,
        };
        let row = ListRow { pieces: v, selected: sel };
        let ghost before = rows_of(out@);
        let ghost rv = row@;
        out.push(row);
        proof {
            assert(mv.filtered[i as int] == idx);
            if (idx as int) < mv.collectors.len() {
                assert(mv.collectors[idx as int] == m.all_collectors@[idx as int]@);
            }
            let cr = collector_row(mv, i as int);
            let lab = if (idx as int) < mv.collectors.len() {
                mv.collectors[idx as int].label
            } else {
                Seq::empty()
            };
            assert(label@ == listed_label(lab));
            assert(t@ =~= seq![' '] + pad_right(listed_label(lab), 38) + seq![' '] + pad_left(dec_str(n as nat), 4));
            assert(rv.pieces =~= cr.pieces);
            assert(rv.selected == cr.selected);
            assert(rv == cr);
            assert(rows_of(out@) =~= before.push(rv));
        }
        i = i + 1;
        proof {
            assert(rows_of(out@) =~= Seq::new((i - start) as nat, |j: int| collector_row(mv, start + j)));
        }
    }
    out
}

/// The rows of the stream list with room for `height` rows.
pub fn stream_rows(m: &BrowserModel, names: &NameBook, height: usize) -> (r: Vec<ListRow>)
    ensures
        rows_of(r@) == spec_stream_rows(m@, names@, height as nat),
{
    let streams = m.current_streams();
    let total = streams.len();
    let start = m.stream_scroll;
    let end = window_end_of(start, height, total);
    if start >= end {
        return single_row(" (no streams)");
    }
    let ghost mv = m@;
    let ghost b = names@;
    let mut out: Vec<ListRow> = Vec::new();
    let mut i: usize = start;
    proof {
        reveal_strlit("AS");
        assert("AS"@ =~= seq!['A', 'S']);
    }
    while i < end
        invariant
            start <= i <= end,
            end <= total,
            total == streams@.len(),
            topics_view(streams@) == cur_streams(mv),
            mv == m@,
            b == names@,
            start == mv.s_scroll,
            rows_of(out@) == Seq::new((i - start) as nat, |j: int| stream_row(mv, b, start + j)),
        decreases end - i,
    {
        proof {
            reveal_strlit("AS");
            reveal_strlit("  ");
            reveal_strlit(" ");
            assert("AS"@ =~= seq!['A', 'S']);
        }
        let pt = &streams[i];
        let name = names.name_of(pt.asn_str.as_str());
        let shown = if name.as_str().unicode_len() > 26 {
            truncate_str(name.as_str(), 24)
        } else if name.as_str().unicode_len() == 0 || str_starts_with(name.as_str(), "AS") {
            String::new()
        } else {
            name
        };
        let mut v: Vec<Piece> = Vec::new();
        push_piece(&mut v, String::from_str("  "), Tint::Plain);
        let mut a = String::from_str("AS");
        a.append(pt.asn_str.as_str());
        assert(a@ =~= seq!['A', 'S'] + streams@[i as int]@.asn_str);
        push_piece(&mut v, a, Tint::Green);
        push_piece(&mut v, String::from_str(" "), Tint::Plain);
        let ghost sv = shown@;
        assert(sv == stream_name(name_text(b, streams@[i as int]@.asn_str)));
        push_piece(&mut v, shown, Tint::Yellow);
        let sel = match m.active_pane {
            Pane::Streams => match m.selected_stream {
                Some(c) => c == i,
                None => false,
            },
            Pane::Collectors => false,
        };
        let row = ListRow { pieces: v, selected: sel };
        let ghost before = rows_of(out@);
        let ghost rv = row@;
        out.push(row);
        proof {
            reveal_strlit("  ");
            reveal_strlit(" ");
            assert(cur_streams(mv)[i as int] == streams@[i as int]@);
            assert("  "@ =~= seq![' ', ' ']);
            assert(" "@ =~= seq![' ']);
            let pv = streams@[i as int]@;
            assert(rv.pieces =~= stream_row(mv, b, i as int).pieces);
            assert(rows_of(out@) =~= before.push(rv));
        }
        i = i + 1;
        proof {
            assert(rows_of(out@) =~= Seq::new((i - start) as nat, |j: int| stream_row(mv, b, start + j)));
        }
    }
    out
}

/// The piece naming the chosen stream.
pub fn selection_line(m: &BrowserModel) -> (r: Piece)
    ensures
        r@ == selection_piece(m@),
{
    match m.selected_topic() {
        Some(t) => Piece { text: t, tint: Tint::Green },
        None => Piece { text: String::from_str("no stream selected"), tint: Tint::DarkGray },
    }
}

/// The title of the stream pane: the selected collector's label.
pub open spec fn stream_title_text(m: BrowserV) -> Seq<char> {
    match m.sel_c {
        Some(i) => if i < m.filtered.len() && m.filtered[i as int] < m.collectors.len() {
            "Streams — "@ + m.collectors[m.filtered[i as int] as int].label
        } else {
            "Streams"@
        },
        None => "Streams"@,
    }
}

/// The title of the stream pane.
pub fn stream_title(m: &BrowserModel) -> (r: String)
    ensures
        r@ == stream_title_text(m@),
{
    match m.selected_collector {
        Some(i) => {
            if i < m.filtered_indices.len() && m.filtered_indices[i] < m.all_collectors.len() {
                let mut t = String::from_str("Streams — ");
                t.append(m.all_collectors[m.filtered_indices[i]].label.as_str());
                t
            } else {
                String::from_str("Streams")
            }
        },
        None => String::from_str("Streams"),
    }
}

/// The streams of all collectors, counted (held at `u64::MAX`).
pub open spec fn streams_total(cs: Seq<CollectorV>) -> u64
    decreases cs.len(),
{
    if cs.len() == 0 {
        0
    } else {
        sat_add(streams_total(cs.drop_last()), cs.last().streams.len() as int)
    }
}

/// The line under the browser's title: collectors listed and streams in
/// all.
pub open spec fn subtitle_text(m: BrowserV) -> Seq<char> {
    dec_str(m.filtered.len()) + " collectors  ·  "@ + dec_str(streams_total(m.collectors) as nat) + " streams"@
}

/// The line under the browser's title.
pub fn browser_subtitle(m: &BrowserModel) -> (r: String)
    ensures
        r@ == subtitle_text(m@),
{
    let ghost cs = m@.collectors;
    let mut total: u64 = 0;
    let mut i: usize = 0;
    proof {
        assert(cs.subrange(0, 0) =~= Seq::<CollectorV>::empty());
    }
    while i < m.all_collectors.len()
        invariant
            i <= m.all_collectors@.len(),
            cs == m@.collectors,
            cs.len() == m.all_collectors@.len(),
            total == streams_total(cs.subrange(0, i as int)),
        decreases m.all_collectors@.len() - i,
    {
        proof {
            assert(cs.subrange(0, i + 1).drop_last() =~= cs.subrange(0, i as int));
            assert(cs[i as int] == m.all_collectors@[i as int]@);
        }
        total = add_sat(total, m.all_collectors[i].streams.len() as u64);
        i = i + 1;
    }
    proof {
        assert(cs.subrange(0, i as int) =~= cs);
    }
    let mut t = decimal(m.filtered_indices.len() as u64);
    t.append(" collectors  ·  ");
    let d = decimal(total);
    t.append(d.as_str());
    t.append(" streams");
    t
}

} // verus!
