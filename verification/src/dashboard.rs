//! The live dashboard's model: what each BMP message from the stream does to
//! the counters, tables and message log that the screen shows, and the
//! small pieces of text it is shown with.

use std::collections::HashMap;
use vstd::prelude::*;

use crate::bgp::{
    attributes_view, bmp_decode_of, decode_bmp, decoded_view, segments_view, BgpUpdateV, CommunityValue, PathSegment,
    PathSegmentV, SegmentKind, UpdateAttribute, UpdateAttributeV,
};
use crate::kafka::{sort_texts, sort_topics, texts};
use crate::doctor::{frame_key, peer_key_from_pph};
use crate::lint::{finding_invalid_version, finding_unknown_type, invalid_version_finding, unknown_type_finding};
use crate::obmp_reader::{meta_any, opt_str, parse_record_payload, spec_record, OpenBmpMetadata, OpenBmpMetadataV};
use crate::prefix::chars_of;
use crate::raw_bmp::{RawBmpFrame, RawBmpFrameV, BMP_EXPECTED_VERSION};
use crate::rolling::{pushed, RollingSummary, RollingV, SlotV};
use crate::error::{DoctorError, DoctorErrorV};
use crate::report::FindingsBuckets;
use crate::rpki::{counted, validation, RPKICache, RPKIDetail, RpkiV, Status};
use crate::state::{findings_view, opt_key, Finding, FindingV};
use crate::textparse::{parse_dec, parse_dec_text};
use crate::topics::{last_pos, rfind_char, string_of};
use crate::doctor::{add_sat, sat_add};
use crate::state::{PeerKey, PeerKeyV};
use crate::text::{
    append_decimal, chars_within, count_chars_within, dec_str, decimal, digit, digit_char, lemma_chars_within_longest, push_char,
    starts_with, str_eq, str_starts_with, utf8_len, utf8_len_exceeds,
};
use crate::names::{resolution, NameBook};

verus! {

// ───────────────────────── what an UPDATE changed ─────────────────────────

/// What one UPDATE changed, as the dashboard shows it.
pub struct PrefixChange {
    /// Announced prefixes, each with the origin ASN of the UPDATE.
    pub announced: Vec<(String, u32)>,
    /// Withdrawn prefixes, each with the origin ASN of the UPDATE.
    pub withdrawn: Vec<(String, u32)>,
    /// The AS path: the ASNs of its AS_SEQUENCE and AS_SET segments.
    pub as_path: Vec<u32>,
    /// Communities as text, sorted, without repeats, at most 8.
    pub communities: Vec<String>,
    /// The worst RPKI outcome of the announcements, once validated.
    pub rpki: Option<Status>,
    /// Detail of the first announcement with a wrong ASN or too long.
    pub rpki_detail: Option<RPKIDetail>,
}

pub struct PrefixChangeV {
    pub announced: Seq<(Seq<char>, u32)>,
    pub withdrawn: Seq<(Seq<char>, u32)>,
    pub as_path: Seq<u32>,
    pub communities: Seq<Seq<char>>,
    pub rpki: Option<Status>,
    pub rpki_detail: Option<RPKIDetail>,
}

/// The abstract values of (text, number) pairs.
pub open spec fn pairs_view(v: Seq<(String, u32)>) -> Seq<(Seq<char>, u32)> {
    v.map_values(|p: (String, u32)| (p.0@, p.1))
}

impl View for PrefixChange {
    type V = PrefixChangeV;

    open spec fn view(&self) -> PrefixChangeV {
        PrefixChangeV {
            announced: pairs_view(self.announced@),
            withdrawn: pairs_view(self.withdrawn@),
            as_path: self.as_path@,
            communities: texts(self.communities@),
            rpki: self.rpki,
            rpki_detail: self.rpki_detail,
        }
    }
}

/// ASNs of the AS_SEQUENCE and AS_SET segments, in order; confederation
/// segments are left out.
pub open spec fn segment_asns(segs: Seq<PathSegmentV>) -> Seq<u32>
    decreases segs.len(),
{
    if segs.len() == 0 {
        Seq::empty()
    } else {
        let s = segs.last();
        segment_asns(segs.drop_last()) + match s.kind {
            SegmentKind::AsSequence | SegmentKind::AsSet => s.asns,
            _ => Seq::empty(),
        }
    }
}

/// The AS path of an UPDATE: the ASNs of every AS_PATH attribute, in order.
pub open spec fn path_asns(attrs: Seq<UpdateAttributeV>) -> Seq<u32>
    decreases attrs.len(),
{
    if attrs.len() == 0 {
        Seq::empty()
    } else {
        path_asns(attrs.drop_last()) + match attrs.last() {
            UpdateAttributeV::AsPath(segs) => segment_asns(segs),
            _ => Seq::empty(),
        }
    }
}

/// A community as text: `ASN:VALUE`, or the name of a well-known one.
pub open spec fn community_text(c: CommunityValue) -> Seq<char> {
    match c {
        CommunityValue::NoExport => "NO_EXPORT"@,
        CommunityValue::NoAdvertise => "NO_ADVERTISE"@,
        CommunityValue::NoExportSubConfed => "NO_EXPORT_SUBCONFED"@,
        CommunityValue::Custom(a, v) => dec_str(a as nat) + ":"@ + dec_str(v as nat),
    }
}

pub open spec fn community_list(cs: Seq<CommunityValue>) -> Seq<Seq<char>> {
    cs.map_values(|c: CommunityValue| community_text(c))
}

/// The communities of every COMMUNITIES attribute, as text, in order.
pub open spec fn all_communities(attrs: Seq<UpdateAttributeV>) -> Seq<Seq<char>>
    decreases attrs.len(),
{
    if attrs.len() == 0 {
        Seq::empty()
    } else {
        all_communities(attrs.drop_last()) + match attrs.last() {
            UpdateAttributeV::Communities(cs) => community_list(cs),
            _ => Seq::empty(),
        }
    }
}

/// `s` with each run of equal neighbours kept once.
pub open spec fn dedup_adjacent(s: Seq<Seq<char>>) -> Seq<Seq<char>>
    decreases s.len(),
{
    if s.len() <= 1 {
        s
    } else if s.last() == s[s.len() - 2] {
        dedup_adjacent(s.drop_last())
    } else {
        dedup_adjacent(s.drop_last()).push(s.last())
    }
}

/// The first `n` elements of `s` (all of them if it is shorter).
pub open spec fn first_n<A>(s: Seq<A>, n: nat) -> Seq<A> {
    if s.len() > n {
        s.subrange(0, n as int)
    } else {
        s
    }
}

/// At most 8 communities, sorted, without repeats.
pub open spec fn shown_communities(attrs: Seq<UpdateAttributeV>) -> Seq<Seq<char>> {
    first_n(dedup_adjacent(sort_texts(all_communities(attrs), false)), 8)
}

/// The origin ASN: the last of the path, 0 for an empty path.
pub open spec fn origin_of(path: Seq<u32>) -> u32 {
    if path.len() == 0 {
        0
    } else {
        path.last()
    }
}

pub open spec fn with_origin(ps: Seq<Seq<char>>, o: u32) -> Seq<(Seq<char>, u32)> {
    ps.map_values(|p: Seq<char>| (p, o))
}

/// What an UPDATE changed, before RPKI validation.
pub open spec fn change_of(u: BgpUpdateV) -> PrefixChangeV {
    let path = path_asns(u.attributes);
    let o = origin_of(path);
    PrefixChangeV {
        announced: with_origin(u.announced, o),
        withdrawn: with_origin(u.withdrawn, o),
        as_path: path,
        communities: shown_communities(u.attributes),
        rpki: None,
        rpki_detail: None,
    }
}

/// What the BMP message in `data` changed: `Some` for a Route Monitoring
/// message carrying a BGP UPDATE that decodes, `None` otherwise.
pub open spec fn prefix_change_of(data: Seq<u8>) -> Option<PrefixChangeV> {
    match bmp_decode_of(data) {
        Ok(Some(u)) => Some(change_of(u)),
        _ => None,
    }
}

fn append_segments(path: &mut Vec<u32>, segs: &Vec<PathSegment>)
    ensures
        final(path)@ == old(path)@ + segment_asns(segments_view(segs@)),
{
    let ghost p0 = path@;
    let ghost sv = segments_view(segs@);
    let mut i: usize = 0;
    proof {
        assert(sv.subrange(0, 0) =~= Seq::<PathSegmentV>::empty());
        assert(p0 + Seq::<u32>::empty() =~= p0);
    }
    while i < segs.len()
        invariant
            i <= segs@.len(),
            sv == segments_view(segs@),
            path@ == p0 + segment_asns(sv.subrange(0, i as int)),
        decreases segs@.len() - i,
    {
        let s = &segs[i];
        proof {
            assert(sv.subrange(0, i + 1).drop_last() =~= sv.subrange(0, i as int));
            assert(sv.subrange(0, i + 1).last() == s@);
        }
        let ghost before = path@;
        if s.kind == SegmentKind::AsSequence || s.kind == SegmentKind::AsSet {
            let mut j: usize = 0;
            while j < s.asns.len()
                invariant
                    j <= s.asns@.len(),
                    path@ == before + s.asns@.subrange(0, j as int),
                decreases s.asns@.len() - j,
            {
                path.push(s.asns[j]);
                proof {
                    assert(before + s.asns@.subrange(0, j + 1) =~= (before + s.asns@.subrange(0, j as int)).push(
                        s.asns@[j as int],
                    ));
                }
                j = j + 1;
            }
            proof {
                assert(s.asns@.subrange(0, j as int) =~= s.asns@);
            }
        } else {
            proof {
                assert(before + Seq::<u32>::empty() =~= before);
            }
        }
        proof {
            assert(p0 + segment_asns(sv.subrange(0, i + 1)) =~= before + segment_asns(sv.subrange(0, i + 1)).subrange(
                segment_asns(sv.subrange(0, i as int)).len() as int,
                segment_asns(sv.subrange(0, i + 1)).len() as int,
            ));
        }
        i = i + 1;
    }
    proof {
        assert(sv.subrange(0, i as int) =~= sv);
    }
}

/// The AS path of an UPDATE's attributes.
fn path_of(attrs: &Vec<UpdateAttribute>) -> (r: Vec<u32>)
    ensures
        r@ == path_asns(attributes_view(attrs@)),
{
    let ghost av = attributes_view(attrs@);
    let mut path: Vec<u32> = Vec::new();
    let mut i: usize = 0;
    proof {
        assert(av.subrange(0, 0) =~= Seq::<UpdateAttributeV>::empty());
    }
    while i < attrs.len()
        invariant
            i <= attrs@.len(),
            av == attributes_view(attrs@),
            path@ == path_asns(av.subrange(0, i as int)),
        decreases attrs@.len() - i,
    {
        proof {
            assert(av.subrange(0, i + 1).drop_last() =~= av.subrange(0, i as int));
            assert(av.subrange(0, i + 1).last() == attrs@[i as int]@);
        }
        match &attrs[i] {
            UpdateAttribute::AsPath(segs) => {
                append_segments(&mut path, segs);
            },
            _ => {
                proof {
                    assert(path@ + Seq::<u32>::empty() =~= path@);
                }
            },
        }
        i = i + 1;
    }
    proof {
        assert(av.subrange(0, i as int) =~= av);
    }
    path
}

/// A community as text.
fn community_string(c: CommunityValue) -> (r: String)
    ensures
        r@ == community_text(c),
{
    match c {
        CommunityValue::NoExport => String::from_str("NO_EXPORT"),
        CommunityValue::NoAdvertise => String::from_str("NO_ADVERTISE"),
        CommunityValue::NoExportSubConfed => String::from_str("NO_EXPORT_SUBCONFED"),
        CommunityValue::Custom(a, v) => {
            let mut s = decimal(a as u64);
            s.append(":");
            append_decimal(&mut s, v as u64);
            s
        },
    }
}

/// The communities of an UPDATE's attributes, as text, in order.
fn communities_of(attrs: &Vec<UpdateAttribute>) -> (r: Vec<String>)
    ensures
        texts(r@) == all_communities(attributes_view(attrs@)),
{
    let ghost av = attributes_view(attrs@);
    let mut out: Vec<String> = Vec::new();
    let mut i: usize = 0;
    proof {
        assert(av.subrange(0, 0) =~= Seq::<UpdateAttributeV>::empty());
        assert(texts(out@) =~= Seq::<Seq<char>>::empty());
    }
    while i < attrs.len()
        invariant
            i <= attrs@.len(),
            av == attributes_view(attrs@),
            texts(out@) == all_communities(av.subrange(0, i as int)),
        decreases attrs@.len() - i,
    {
        proof {
            assert(av.subrange(0, i + 1).drop_last() =~= av.subrange(0, i as int));
            assert(av.subrange(0, i + 1).last() == attrs@[i as int]@);
        }
        let ghost before = texts(out@);
        match &attrs[i] {
            UpdateAttribute::Communities(cs) => {
                let mut j: usize = 0;
                while j < cs.len()
                    invariant
                        j <= cs@.len(),
                        texts(out@) == before + community_list(cs@.subrange(0, j as int)),
                    decreases cs@.len() - j,
                {
                    let t = community_string(cs[j]);
                    let ghost ob = out@;
                    out.push(t);
                    proof {
                        assert(texts(out@) =~= texts(ob).push(community_text(cs@[j as int])));
                        assert(community_list(cs@.subrange(0, j + 1)) =~= community_list(cs@.subrange(0, j as int)).push(
                            community_text(cs@[j as int]),
                        ));
                        assert(texts(out@) =~= before + community_list(cs@.subrange(0, j + 1)));
                    }
                    j = j + 1;
                }
                proof {
                    assert(cs@.subrange(0, j as int) =~= cs@);
                }
            },
            _ => {
                proof {
                    assert(before + Seq::<Seq<char>>::empty() =~= before);
                }
            },
        }
        i = i + 1;
    }
    proof {
        assert(av.subrange(0, i as int) =~= av);
    }
    out
}

/// `v` with each run of equal neighbours kept once.
fn dedup_strings(v: Vec<String>) -> (r: Vec<String>)
    ensures
        texts(r@) == dedup_adjacent(texts(v@)),
{
    let ghost tv = texts(v@);
    let mut out: Vec<String> = Vec::new();
    let mut i: usize = 0;
    proof {
        assert(tv.subrange(0, 0) =~= Seq::<Seq<char>>::empty());
        assert(texts(out@) =~= Seq::<Seq<char>>::empty());
    }
    while i < v.len()
        invariant
            i <= v@.len(),
            tv == texts(v@),
            texts(out@) == dedup_adjacent(tv.subrange(0, i as int)),
        decreases v@.len() - i,
    {
        let keep = i == 0 || !str_eq(v[i].as_str(), v[i - 1].as_str());
        proof {
            let s = tv.subrange(0, i + 1);
            assert(s.drop_last() =~= tv.subrange(0, i as int));
            assert(s.last() == v@[i as int]@);
            if i > 0 {
                assert(s[s.len() - 2] == v@[i - 1]@);
            }
        }
        let ghost before = out@;
        if keep {
            out.push(v[i].clone());
            proof {
                assert(texts(out@) =~= texts(before).push(v@[i as int]@));
            }
        }
        i = i + 1;
    }
    proof {
        assert(tv.subrange(0, i as int) =~= tv);
    }
    out
}

/// The abstract value of an optional change.
pub open spec fn opt_change(c: Option<PrefixChange>) -> Option<PrefixChangeV> {
    match c {
        Some(p) => Some(p@),
        None => None,
    }
}

/// Each prefix paired with the origin ASN.
fn pair_with_origin(ps: &Vec<String>, o: u32) -> (r: Vec<(String, u32)>)
    ensures
        pairs_view(r@) == with_origin(texts(ps@), o),
{
    let mut out: Vec<(String, u32)> = Vec::new();
    let mut i: usize = 0;
    while i < ps.len()
        invariant
            i <= ps@.len(),
            pairs_view(out@) == with_origin(texts(ps@).subrange(0, i as int), o),
        decreases ps@.len() - i,
    {
        let ghost ob = out@;
        out.push((ps[i].clone(), o));
        proof {
            assert(pairs_view(out@) =~= pairs_view(ob).push((ps@[i as int]@, o)));
            assert(with_origin(texts(ps@).subrange(0, i + 1), o) =~= with_origin(texts(ps@).subrange(0, i as int), o).push(
                (ps@[i as int]@, o),
            ));
        }
        i = i + 1;
    }
    proof {
        assert(texts(ps@).subrange(0, i as int) =~= texts(ps@));
    }
    out
}

/// What the BMP message in `full_data` changed: for a Route Monitoring
/// message carrying a BGP UPDATE, its prefixes with the origin ASN (the
/// last of the AS path, 0 without one), the AS path and its communities
/// (sorted, without repeats, at most 8); `None` for any other message or
/// bytes that do not decode.
pub fn extract_prefixes(full_data: &[u8]) -> (r: Option<PrefixChange>)
    ensures
        opt_change(r) == prefix_change_of(full_data@),
{
    let d = decode_bmp(full_data);
    match d {
        Ok(Some(u)) => {
            let ghost uv = u@;
            let as_path = path_of(&u.attributes);
            let origin: u32 = if as_path.len() == 0 {
                0
            } else {
                as_path[as_path.len() - 1]
            };
            assert(origin == origin_of(path_asns(uv.attributes)));
            let sorted = sort_topics(communities_of(&u.attributes), false);
            let mut communities = dedup_strings(sorted);
            let ghost dd = communities@;
            communities.truncate(8);
            proof {
                if dd.len() > 8 {
                    assert(texts(communities@) =~= texts(dd).subrange(0, 8));
                }
                assert(texts(communities@) == shown_communities(uv.attributes));
            }
            let announced = pair_with_origin(&u.announced, origin);
            let withdrawn = pair_with_origin(&u.withdrawn, origin);
            let r = PrefixChange { announced, withdrawn, as_path, communities, rpki: None, rpki_detail: None };
            proof {
                assert(bmp_decode_of(full_data@) == decoded_view(d));
                assert(r@ == change_of(uv));
            }
            Some(r)
        },
        _ => None,
    }
}

// ───────────────────────── keyed tables ─────────────────────────

/// Index of the first entry of key `k`.
pub open spec fn key_index<K, V>(s: Seq<(K, V)>, k: K) -> Option<int>
    decreases s.len(),
{
    if s.len() == 0 {
        None
    } else {
        match key_index(s.drop_last(), k) {
            Some(i) => Some(i),
            None => if s.last().0 == k {
                Some(s.len() - 1)
            } else {
                None
            },
        }
    }
}

/// The table with `n` added to the count of `k` (held at `u64::MAX`), or
/// a new entry for `k` at the end while the table holds fewer than `cap`
/// entries (a new key is ignored at the cap).
pub open spec fn tallied<K>(s: Seq<(K, u64)>, k: K, n: u64, cap: nat) -> Seq<(K, u64)> {
    match key_index(s, k) {
        Some(i) => s.update(i, (k, sat_add(s[i].1, n as int))),
        None => if s.len() < cap {
            s.push((k, n))
        } else {
            s
        },
    }
}

/// The table with `k` set to `v`, in place, or as a new entry at the end
/// while the table holds fewer than `cap` entries.
pub open spec fn assigned<K, V>(s: Seq<(K, V)>, k: K, v: V, cap: nat) -> Seq<(K, V)> {
    match key_index(s, k) {
        Some(i) => s.update(i, (k, v)),
        None => if s.len() < cap {
            s.push((k, v))
        } else {
            s
        },
    }
}

/// Peers tracked by the dashboard's per-peer tables.
pub const MAX_TRACKED_PEERS: usize = 100000;

/// ASNs (and neighbour pairs) tracked by the per-ASN tables.
pub const MAX_TRACKED_ASNS: usize = 100000;

/// Prefixes tracked by the per-prefix tables.
pub const MAX_TRACKED_PREFIXES: usize = 1000000;

/// ASNs kept of a prefix's last AS path.
pub const MAX_STORED_PATH: usize = 64;

/// Largest payload from the stream that is decoded.
pub const MAX_PAYLOAD_LEN: usize = 67108864;

pub(crate) proof fn lemma_no_key<K, V>(s: Seq<(K, V)>, k: K)
    requires
        forall|j: int| 0 <= j < s.len() ==> s[j].0 != k,
    ensures
        key_index(s, k) is None,
    decreases s.len(),
{
    if s.len() > 0 {
        lemma_no_key(s.drop_last(), k);
    }
}

pub(crate) proof fn lemma_first_key<K, V>(s: Seq<(K, V)>, k: K, i: int)
    requires
        0 <= i < s.len(),
        s[i].0 == k,
        forall|j: int| 0 <= j < i ==> s[j].0 != k,
    ensures
        key_index(s, k) == Some(i),
    decreases s.len(),
{
    if i == s.len() - 1 {
        lemma_no_key(s.drop_last(), k);
    } else {
        lemma_first_key(s.drop_last(), k, i);
    }
}

/// The abstract value of a table keyed by text.
pub open spec fn text_counts(s: Seq<(String, u64)>) -> Seq<(Seq<char>, u64)> {
    s.map_values(|e: (String, u64)| (e.0@, e.1))
}

/// The abstract value of a table of paths keyed by text.
pub open spec fn path_table(s: Seq<(String, Vec<u32>)>) -> Seq<(Seq<char>, Seq<u32>)> {
    s.map_values(|e: (String, Vec<u32>)| (e.0@, e.1@))
}

/// The abstract value of a table keyed by peer.
pub open spec fn peer_counts(s: Seq<(PeerKey, u64)>) -> Seq<(PeerKeyV, u64)> {
    s.map_values(|e: (PeerKey, u64)| (e.0@, e.1))
}

/// Position of the first entry whose key has the text `k`.
pub(crate) fn find_text<V>(s: &Vec<(String, V)>, k: &str) -> (r: Option<usize>)
    ensures
        match r {
            Some(i) => i < s@.len() && s@[i as int].0@ == k@ && forall|j: int| 0 <= j < i ==> s@[j].0@ != k@,
            None => forall|j: int| 0 <= j < s@.len() ==> s@[j].0@ != k@,
        },
{
    let mut i: usize = 0;
    while i < s.len()
        invariant
            i <= s@.len(),
            forall|j: int| 0 <= j < i ==> s@[j].0@ != k@,
        decreases s@.len() - i,
    {
        if str_eq(s[i].0.as_str(), k) {
            return Some(i);
        }
        i = i + 1;
    }
    None
}

/// Adds `n` to the count of text `k`.
fn tally_text(s: &mut Vec<(String, u64)>, k: &String, n: u64, cap: usize)
    ensures
        text_counts(final(s)@) == tallied(text_counts(old(s)@), k@, n, cap as nat),
{
    let ghost t0 = text_counts(s@);
    match find_text(s, k.as_str()) {
        Some(i) => {
            proof {
                lemma_first_key(t0, k@, i as int);
            }
            let c = add_sat(s[i].1, n);
            s.set(i, (k.clone(), c));
            proof {
                assert(text_counts(s@) =~= t0.update(i as int, (k@, c)));
            }
        },
        None => {
            proof {
                lemma_no_key(t0, k@);
            }
            if s.len() < cap {
                s.push((k.clone(), n));
                proof {
                    assert(text_counts(s@) =~= t0.push((k@, n)));
                }
            }
        },
    }
}

/// Sets the origin of prefix `k`.
fn assign_origin(s: &mut Vec<(String, u32)>, k: &String, v: u32, cap: usize)
    ensures
        pairs_view(final(s)@) == assigned(pairs_view(old(s)@), k@, v, cap as nat),
{
    let ghost t0 = pairs_view(s@);
    match find_text(s, k.as_str()) {
        Some(i) => {
            proof {
                lemma_first_key(t0, k@, i as int);
            }
            s.set(i, (k.clone(), v));
            proof {
                assert(pairs_view(s@) =~= t0.update(i as int, (k@, v)));
            }
        },
        None => {
            proof {
                lemma_no_key(t0, k@);
            }
            if s.len() < cap {
                s.push((k.clone(), v));
                proof {
                    assert(pairs_view(s@) =~= t0.push((k@, v)));
                }
            }
        },
    }
}

/// Sets the last AS path seen for prefix `k`.
fn assign_path(s: &mut Vec<(String, Vec<u32>)>, k: &String, v: &Vec<u32>, cap: usize)
    ensures
        path_table(final(s)@) == assigned(path_table(old(s)@), k@, v@, cap as nat),
{
    let ghost t0 = path_table(s@);
    let c = v.clone();
    assert(c@ =~= v@);
    match find_text(s, k.as_str()) {
        Some(i) => {
            proof {
                lemma_first_key(t0, k@, i as int);
            }
            s.set(i, (k.clone(), c));
            proof {
                assert(path_table(s@) =~= t0.update(i as int, (k@, v@)));
            }
        },
        None => {
            proof {
                lemma_no_key(t0, k@);
            }
            if s.len() < cap {
                s.push((k.clone(), c));
                proof {
                    assert(path_table(s@) =~= t0.push((k@, v@)));
                }
            }
        },
    }
}

/// Position of the first entry of peer `k`, if any.
fn find_peer_entry(s: &Vec<(PeerKey, u64)>, k: &PeerKey) -> (r: Option<usize>)
    ensures
        match r {
            Some(i) => i < s@.len() && s@[i as int].0@ == k@ && forall|j: int| 0 <= j < i ==> s@[j].0@ != k@,
            None => forall|j: int| 0 <= j < s@.len() ==> s@[j].0@ != k@,
        },
{
    let mut i: usize = 0;
    while i < s.len()
        invariant
            i <= s@.len(),
            forall|j: int| 0 <= j < i ==> s@[j].0@ != k@,
        decreases s@.len() - i,
    {
        if s[i].0.same_peer(k) {
            return Some(i);
        }
        i = i + 1;
    }
    None
}

/// The count table with `k` counted once more (held at `u64::MAX`), or a
/// new count of 1 for `k` while the table holds fewer than `cap` keys (a
/// new key is ignored at the cap).
pub open spec fn counted_once<K>(m: Map<K, u64>, k: K, cap: nat) -> Map<K, u64> {
    if m.contains_key(k) {
        m.insert(k, sat_add(m[k], 1))
    } else if m.len() < cap {
        m.insert(k, 1)
    } else {
        m
    }
}

/// The key of a pair of neighbouring ASNs: the first in the high 32 bits.
pub open spec fn link_key(a: u32, b: u32) -> u64 {
    (a * 4294967296 + b) as u64
}

fn link_key_of(a: u32, b: u32) -> (r: u64)
    ensures
        r == link_key(a, b),
{
    (a as u64) * 4294967296 + (b as u64)
}

/// Counts key `k` once more in `m`.
fn count_key(m: &mut HashMap<u64, u64>, k: u64, cap: usize)
    ensures
        final(m)@ == counted_once(old(m)@, k, cap as nat),
{
    broadcast use vstd::std_specs::hash::group_hash_axioms;

    match m.get(&k) {
        Some(c) => {
            let c2 = add_sat(*c, 1);
            m.insert(k, c2);
        },
        None => {
            if m.len() < cap {
                m.insert(k, 1);
            }
        },
    }
}

/// Counts ASN `k` once more in `m`.
fn count_asn(m: &mut HashMap<u32, u64>, k: u32, cap: usize)
    ensures
        final(m)@ == counted_once(old(m)@, k, cap as nat),
{
    broadcast use vstd::std_specs::hash::group_hash_axioms;

    match m.get(&k) {
        Some(c) => {
            let c2 = add_sat(*c, 1);
            m.insert(k, c2);
        },
        None => {
            if m.len() < cap {
                m.insert(k, 1);
            }
        },
    }
}

/// Adds `n` to the count of peer `k`.
fn tally_peer(s: &mut Vec<(PeerKey, u64)>, k: &PeerKey, n: u64, cap: usize)
    ensures
        peer_counts(final(s)@) == tallied(peer_counts(old(s)@), k@, n, cap as nat),
{
    let ghost t0 = peer_counts(s@);
    match find_peer_entry(s, k) {
        Some(i) => {
            proof {
                lemma_first_key(t0, k@, i as int);
            }
            let c = add_sat(s[i].1, n);
            s.set(i, (k.duplicate(), c));
            proof {
                assert(peer_counts(s@) =~= t0.update(i as int, (k@, c)));
            }
        },
        None => {
            proof {
                lemma_no_key(t0, k@);
            }
            if s.len() < cap {
                s.push((k.duplicate(), n));
                proof {
                    assert(peer_counts(s@) =~= t0.push((k@, n)));
                }
            }
        },
    }
}

// ───────────────────────── RPKI outcome of an UPDATE ─────────────────────────

/// Whether an outcome is one of the three invalid ones.
pub open spec fn is_invalid(s: Status) -> bool {
    s is Invalid || s is InvalidWrongAsn || s is InvalidTooLong
}

/// The running outcome after one more announcement: the first outcome
/// stands, except that an invalid one replaces NotFound.
pub open spec fn worse(acc: Option<Status>, s: Status) -> Option<Status> {
    match acc {
        None => Some(s),
        Some(Status::NotFound) => if is_invalid(s) {
            Some(s)
        } else {
            Some(Status::NotFound)
        },
        Some(a) => Some(a),
    }
}

/// Validating each announcement in turn: the table with its counters, the
/// running outcome, and the detail of the first announcement whose ASN is
/// wrong or that is too long.
pub open spec fn validated(c: RpkiV, ann: Seq<(Seq<char>, u32)>) -> (RpkiV, Option<Status>, Option<RPKIDetail>)
    decreases ann.len(),
{
    if ann.len() == 0 {
        (c, None, None)
    } else {
        let (c1, w, d) = validated(c, ann.drop_last());
        let (st, det) = validation(c1, ann.last().0, ann.last().1);
        (
            counted(c1, st),
            worse(w, st),
            if d is None && (st is InvalidWrongAsn || st is InvalidTooLong) {
                Some(det)
            } else {
                d
            },
        )
    }
}

/// The running outcome of an UPDATE: the first announcement sets it, and after
/// that only NotFound ever changes, and only to an invalid outcome. Valid and
/// the invalid outcomes stand whatever comes later.
pub proof fn law_rpki_outcome_sticks(acc: Option<Status>, s: Status)
    ensures
        acc is None ==> worse(acc, s) == Some(s),
        (acc matches Some(a) && a != Status::NotFound) ==> worse(acc, s) == acc,
        acc == Some(Status::NotFound) && is_invalid(s) ==> worse(acc, s) == Some(s),
        acc == Some(Status::NotFound) && !is_invalid(s) ==> worse(acc, s) == acc,
        (acc matches Some(a) && is_invalid(a)) ==> (worse(acc, s) matches Some(b) && is_invalid(b)),
{
}

/// One announcement more: the running outcome of the longer prefix of
/// announcements is the running outcome so far combined with the outcome of
/// the next announcement, validated against the table as it stands then.
proof fn lemma_validated_step(c: RpkiV, ann: Seq<(Seq<char>, u32)>, j: int)
    requires
        0 <= j < ann.len(),
    ensures
        validated(c, ann.take(j + 1)).1 == worse(
            validated(c, ann.take(j)).1,
            validation(validated(c, ann.take(j)).0, ann[j].0, ann[j].1).0,
        ),
{
    assert(ann.take(j + 1).drop_last() =~= ann.take(j));
    assert(ann.take(j + 1).last() == ann[j]);
}

/// Over the announcements of one UPDATE, validated in order: once the running
/// outcome is anything but NotFound, later announcements leave it as it is;
/// and an announcement that validates invalid, with no Valid one before it,
/// makes the outcome of the whole UPDATE invalid.
pub proof fn law_update_outcome_sticks(c: RpkiV, ann: Seq<(Seq<char>, u32)>, i: int, j: int)
    requires
        0 <= i <= j <= ann.len(),
    ensures
        (validated(c, ann.take(i)).1 matches Some(a) && a != Status::NotFound) ==> validated(c, ann.take(j)).1
            == validated(c, ann.take(i)).1,
        (i < j && validated(c, ann.take(i)).1 != Some(Status::Valid) && is_invalid(
            validation(validated(c, ann.take(i)).0, ann[i].0, ann[i].1).0,
        )) ==> (validated(c, ann.take(j)).1 matches Some(b) && is_invalid(b)),
        validated(c, ann.take(ann.len() as int)) == validated(c, ann),
    decreases j - i,
{
    assert(ann.take(ann.len() as int) =~= ann);
    if i < j {
        lemma_validated_step(c, ann, i);
        law_update_outcome_sticks(c, ann, i + 1, j);
    }
}

fn worse_status(acc: Option<Status>, s: Status) -> (r: Option<Status>)
    ensures
        r == worse(acc, s),
{
    match acc {
        None => Some(s),
        Some(Status::NotFound) => {
            if s == Status::Invalid || s == Status::InvalidWrongAsn || s == Status::InvalidTooLong {
                Some(s)
            } else {
                Some(Status::NotFound)
            }
        },
        Some(a) => Some(a),
    }
}

/// Validates each announcement against `rpki`, counting the outcomes.
fn validate_announced(rpki: &mut RPKICache, ann: &Vec<(String, u32)>) -> (r: (Option<Status>, Option<RPKIDetail>))
    requires
        old(rpki).wf(),
    ensures
        final(rpki).wf(),
        validated(old(rpki)@, pairs_view(ann@)) == (final(rpki)@, r.0, r.1),
{
    let ghost av = pairs_view(ann@);
    let ghost c0 = rpki@;
    let mut worst: Option<Status> = None;
    let mut detail: Option<RPKIDetail> = None;
    let mut i: usize = 0;
    proof {
        assert(av.subrange(0, 0) =~= Seq::<(Seq<char>, u32)>::empty());
    }
    while i < ann.len()
        invariant
            i <= ann@.len(),
            av == pairs_view(ann@),
            rpki.wf(),
            validated(c0, av.subrange(0, i as int)) == (rpki@, worst, detail),
        decreases ann@.len() - i,
    {
        proof {
            assert(av.subrange(0, i + 1).drop_last() =~= av.subrange(0, i as int));
            assert(av.subrange(0, i + 1).last() == (ann@[i as int].0@, ann@[i as int].1));
        }
        let (status, det) = rpki.validate(ann[i].0.as_str(), ann[i].1);
        worst = worse_status(worst, status);
        if detail.is_none() && (status == Status::InvalidWrongAsn || status == Status::InvalidTooLong) {
            detail = Some(det);
        }
        i = i + 1;
    }
    proof {
        assert(av.subrange(0, i as int) =~= av);
    }
    (worst, detail)
}

// ───────────────────────── per-prefix tables ─────────────────────────

/// Each prefix counted once more.
pub open spec fn churned(t: Seq<(Seq<char>, u64)>, ps: Seq<(Seq<char>, u32)>) -> Seq<(Seq<char>, u64)>
    decreases ps.len(),
{
    if ps.len() == 0 {
        t
    } else {
        tallied(churned(t, ps.drop_last()), ps.last().0, 1, MAX_TRACKED_PREFIXES as nat)
    }
}

/// Each prefix with a non-zero origin recorded with it.
pub open spec fn originated(t: Seq<(Seq<char>, u32)>, ps: Seq<(Seq<char>, u32)>) -> Seq<(Seq<char>, u32)>
    decreases ps.len(),
{
    if ps.len() == 0 {
        t
    } else {
        let t1 = originated(t, ps.drop_last());
        if ps.last().1 > 0 {
            assigned(t1, ps.last().0, ps.last().1, MAX_TRACKED_PREFIXES as nat)
        } else {
            t1
        }
    }
}

/// Each prefix recorded with `path` as its last AS path.
pub open spec fn pathed(t: Seq<(Seq<char>, Seq<u32>)>, ps: Seq<(Seq<char>, u32)>, path: Seq<u32>) -> Seq<(Seq<char>, Seq<u32>)>
    decreases ps.len(),
{
    if ps.len() == 0 {
        t
    } else {
        assigned(pathed(t, ps.drop_last(), path), ps.last().0, path, MAX_TRACKED_PREFIXES as nat)
    }
}

/// Each ASN of the path counted once more.
pub open spec fn asns_counted(t: Map<u32, u64>, path: Seq<u32>) -> Map<u32, u64>
    decreases path.len(),
{
    if path.len() == 0 {
        t
    } else {
        counted_once(asns_counted(t, path.drop_last()), path.last(), MAX_TRACKED_ASNS as nat)
    }
}

/// Each pair of neighbours on the path counted once more.
pub open spec fn links_counted(t: Map<u64, u64>, path: Seq<u32>) -> Map<u64, u64>
    decreases path.len(),
{
    if path.len() < 2 {
        t
    } else {
        counted_once(
            links_counted(t, path.drop_last()),
            link_key(path[path.len() - 2], path.last()),
            MAX_TRACKED_ASNS as nat,
        )
    }
}

fn churn_all(t: &mut Vec<(String, u64)>, ps: &Vec<(String, u32)>)
    ensures
        text_counts(final(t)@) == churned(text_counts(old(t)@), pairs_view(ps@)),
{
    let ghost t0 = text_counts(t@);
    let ghost pv = pairs_view(ps@);
    let mut i: usize = 0;
    proof {
        assert(pv.subrange(0, 0) =~= Seq::<(Seq<char>, u32)>::empty());
    }
    while i < ps.len()
        invariant
            i <= ps@.len(),
            pv == pairs_view(ps@),
            text_counts(t@) == churned(t0, pv.subrange(0, i as int)),
        decreases ps@.len() - i,
    {
        proof {
            assert(pv.subrange(0, i + 1).drop_last() =~= pv.subrange(0, i as int));
        }
        tally_text(t, &ps[i].0, 1, MAX_TRACKED_PREFIXES);
        i = i + 1;
    }
    proof {
        assert(pv.subrange(0, i as int) =~= pv);
    }
}

fn originate_all(t: &mut Vec<(String, u32)>, ps: &Vec<(String, u32)>)
    ensures
        pairs_view(final(t)@) == originated(pairs_view(old(t)@), pairs_view(ps@)),
{
    let ghost t0 = pairs_view(t@);
    let ghost pv = pairs_view(ps@);
    let mut i: usize = 0;
    proof {
        assert(pv.subrange(0, 0) =~= Seq::<(Seq<char>, u32)>::empty());
    }
    while i < ps.len()
        invariant
            i <= ps@.len(),
            pv == pairs_view(ps@),
            pairs_view(t@) == originated(t0, pv.subrange(0, i as int)),
        decreases ps@.len() - i,
    {
        proof {
            assert(pv.subrange(0, i + 1).drop_last() =~= pv.subrange(0, i as int));
        }
        if ps[i].1 > 0 {
            assign_origin(t, &ps[i].0, ps[i].1, MAX_TRACKED_PREFIXES);
        }
        i = i + 1;
    }
    proof {
        assert(pv.subrange(0, i as int) =~= pv);
    }
}

fn path_all(t: &mut Vec<(String, Vec<u32>)>, ps: &Vec<(String, u32)>, path: &Vec<u32>)
    ensures
        path_table(final(t)@) == pathed(path_table(old(t)@), pairs_view(ps@), path@),
{
    let ghost t0 = path_table(t@);
    let ghost pv = pairs_view(ps@);
    let mut i: usize = 0;
    proof {
        assert(pv.subrange(0, 0) =~= Seq::<(Seq<char>, u32)>::empty());
    }
    while i < ps.len()
        invariant
            i <= ps@.len(),
            pv == pairs_view(ps@),
            path_table(t@) == pathed(t0, pv.subrange(0, i as int), path@),
        decreases ps@.len() - i,
    {
        proof {
            assert(pv.subrange(0, i + 1).drop_last() =~= pv.subrange(0, i as int));
        }
        assign_path(t, &ps[i].0, path, MAX_TRACKED_PREFIXES);
        i = i + 1;
    }
    proof {
        assert(pv.subrange(0, i as int) =~= pv);
    }
}

/// The first `n` ASNs of `path`.
fn path_head(path: &Vec<u32>, n: usize) -> (r: Vec<u32>)
    ensures
        r@ == first_n(path@, n as nat),
{
    let mut out: Vec<u32> = Vec::new();
    let mut i: usize = 0;
    while i < path.len() && i < n
        invariant
            i <= path@.len(),
            i <= n,
            out@ == path@.subrange(0, i as int),
        decreases path@.len() - i,
    {
        out.push(path[i]);
        i = i + 1;
        proof {
            assert(out@ =~= path@.subrange(0, i as int));
        }
    }
    proof {
        assert(path@.subrange(0, path@.len() as int) =~= path@);
    }
    out
}

fn count_asns(t: &mut HashMap<u32, u64>, path: &Vec<u32>)
    ensures
        final(t)@ == asns_counted(old(t)@, path@),
{
    let ghost t0 = t@;
    let mut i: usize = 0;
    proof {
        assert(path@.subrange(0, 0) =~= Seq::<u32>::empty());
    }
    while i < path.len()
        invariant
            i <= path@.len(),
            t@ == asns_counted(t0, path@.subrange(0, i as int)),
        decreases path@.len() - i,
    {
        proof {
            assert(path@.subrange(0, i + 1).drop_last() =~= path@.subrange(0, i as int));
        }
        count_asn(t, path[i], MAX_TRACKED_ASNS);
        i = i + 1;
    }
    proof {
        assert(path@.subrange(0, i as int) =~= path@);
    }
}

fn count_links(t: &mut HashMap<u64, u64>, path: &Vec<u32>)
    ensures
        final(t)@ == links_counted(old(t)@, path@),
{
    let n = path.len();
    if n == 0 {
        return;
    }
    let ghost t0 = t@;
    let mut i: usize = 1;
    proof {
        assert(path@.subrange(0, 1).len() == 1);
    }
    while i < n
        invariant
            1 <= i <= n,
            n == path@.len(),
            t@ == links_counted(t0, path@.subrange(0, i as int)),
        decreases n - i,
    {
        proof {
            let s = path@.subrange(0, i + 1);
            assert(s.drop_last() =~= path@.subrange(0, i as int));
            assert(s[s.len() - 2] == path@[i - 1]);
            assert(s.last() == path@[i as int]);
        }
        let key = link_key_of(path[i - 1], path[i]);
        count_key(t, key, MAX_TRACKED_ASNS);
        i = i + 1;
    }
    proof {
        assert(path@.subrange(0, i as int) =~= path@);
    }
}

// ───────────────────────── the model ─────────────────────────

/// One line of the scrolling message log.
pub struct MessageLine {
    pub msg_type: u8,
    pub asn: Option<u32>,
    /// The peer's address, cut to 16 characters and `..` past 18.
    pub ip_short: Option<String>,
    pub ts_sec: u32,
    pub prefixes: Option<PrefixChange>,
}

pub struct MessageLineV {
    pub msg_type: u8,
    pub asn: Option<u32>,
    pub ip_short: Option<Seq<char>>,
    pub ts_sec: u32,
    pub prefixes: Option<PrefixChangeV>,
}

impl View for MessageLine {
    type V = MessageLineV;

    open spec fn view(&self) -> MessageLineV {
        MessageLineV {
            msg_type: self.msg_type,
            asn: self.asn,
            ip_short: opt_str(self.ip_short),
            ts_sec: self.ts_sec,
            prefixes: opt_change(self.prefixes),
        }
    }
}

pub open spec fn lines_view(v: Seq<MessageLine>) -> Seq<MessageLineV> {
    v.map_values(|l: MessageLine| l@)
}

/// The state of the live dashboard.
pub struct Dashboard {
    /// The rolling window summary.
    pub rolling: RollingSummary,
    /// The Kafka topic watched.
    pub topic: String,
    pub total_messages: u64,
    /// Messages per second over the last 60 seconds, oldest first.
    pub throughput_history: Vec<u64>,
    /// Messages in the current second.
    pub current_tick_count: u64,
    pub exit: bool,
    /// Leave for the stream browser.
    pub browse: bool,
    pub paused: bool,
    pub show_communities: bool,
    pub peer_msg_counts: Vec<(PeerKey, u64)>,
    pub peer_warnings: Vec<(PeerKey, u64)>,
    /// The first OpenBMP metadata that names anything.
    pub metadata: Option<OpenBmpMetadata>,
    pub message_log: Vec<MessageLine>,
    pub max_log_lines: usize,
    /// Announcements and withdrawals per prefix.
    pub churn_counts: Vec<(String, u64)>,
    pub prefix_origins: Vec<(String, u32)>,
    pub prefix_last_path: Vec<(String, Vec<u32>)>,
    /// Neighbouring ASN pairs on the paths seen, keyed by [`link_key`].
    pub as_adjacency: HashMap<u64, u64>,
    /// Appearances of each ASN on the paths seen.
    pub as_frequency: HashMap<u32, u64>,
    pub rpki: Option<RPKICache>,
    /// UPDATEs that change no prefix.
    pub keepalive_count: u64,
}

pub struct DashboardV {
    pub rolling: RollingV,
    pub topic: Seq<char>,
    pub total_messages: u64,
    pub throughput_history: Seq<u64>,
    pub current_tick_count: u64,
    pub exit: bool,
    pub browse: bool,
    pub paused: bool,
    pub show_communities: bool,
    pub peer_msg_counts: Seq<(PeerKeyV, u64)>,
    pub peer_warnings: Seq<(PeerKeyV, u64)>,
    pub metadata: Option<OpenBmpMetadataV>,
    pub message_log: Seq<MessageLineV>,
    pub max_log_lines: usize,
    pub churn_counts: Seq<(Seq<char>, u64)>,
    pub prefix_origins: Seq<(Seq<char>, u32)>,
    pub prefix_last_path: Seq<(Seq<char>, Seq<u32>)>,
    pub as_adjacency: Map<u64, u64>,
    pub as_frequency: Map<u32, u64>,
    pub rpki: Option<RpkiV>,
    pub keepalive_count: u64,
}

pub open spec fn opt_meta(m: Option<OpenBmpMetadata>) -> Option<OpenBmpMetadataV> {
    match m {
        Some(x) => Some(x@),
        None => None,
    }
}

pub open spec fn opt_rpki(c: Option<RPKICache>) -> Option<RpkiV> {
    match c {
        Some(x) => Some(x@),
        None => None,
    }
}

impl View for Dashboard {
    type V = DashboardV;

    open spec fn view(&self) -> DashboardV {
        DashboardV {
            rolling: self.rolling@,
            topic: self.topic@,
            total_messages: self.total_messages,
            throughput_history: self.throughput_history@,
            current_tick_count: self.current_tick_count,
            exit: self.exit,
            browse: self.browse,
            paused: self.paused,
            show_communities: self.show_communities,
            peer_msg_counts: peer_counts(self.peer_msg_counts@),
            peer_warnings: peer_counts(self.peer_warnings@),
            metadata: opt_meta(self.metadata),
            message_log: lines_view(self.message_log@),
            max_log_lines: self.max_log_lines,
            churn_counts: text_counts(self.churn_counts@),
            prefix_origins: pairs_view(self.prefix_origins@),
            prefix_last_path: path_table(self.prefix_last_path@),
            as_adjacency: self.as_adjacency@,
            as_frequency: self.as_frequency@,
            rpki: opt_rpki(self.rpki),
            keepalive_count: self.keepalive_count,
        }
    }
}

/// Seconds of throughput history kept.
pub const THROUGHPUT_HISTORY: usize = 60;

/// Lines of message log kept.
pub const MAX_LOG_LINES: usize = 500;

/// The dashboard when it starts watching `topic`.
pub open spec fn fresh_dashboard(topic: Seq<char>, window_messages: nat) -> DashboardV {
    DashboardV {
        rolling: RollingV {
            window_messages,
            total_seen: 0,
            window: Seq::empty(),
            seen_types: Set::empty(),
            metadata: None,
        },
        topic,
        total_messages: 0,
        throughput_history: Seq::new(60, |i: int| 0u64),
        current_tick_count: 0,
        exit: false,
        browse: false,
        paused: false,
        show_communities: false,
        peer_msg_counts: Seq::empty(),
        peer_warnings: Seq::empty(),
        metadata: None,
        message_log: Seq::empty(),
        max_log_lines: 500,
        churn_counts: Seq::empty(),
        prefix_origins: Seq::empty(),
        prefix_last_path: Seq::empty(),
        as_adjacency: Map::empty(),
        as_frequency: Map::empty(),
        rpki: None,
        keepalive_count: 0,
    }
}

/// Findings the dashboard raises for a frame: an unsupported version, an
/// unknown type.
pub open spec fn dash_findings(fr: RawBmpFrameV) -> Seq<FindingV> {
    (if fr.version != 3 {
        seq![invalid_version_finding(fr.offset, fr.version)]
    } else {
        Seq::empty()
    }) + (if fr.msg_type is None {
        seq![unknown_type_finding(fr.offset, fr.msg_type_raw)]
    } else {
        Seq::empty()
    })
}

/// The peer's counters after a frame with `nf` findings.
pub open spec fn peer_counted(d: DashboardV, key: Option<PeerKeyV>, nf: nat) -> DashboardV {
    match key {
        Some(k) => DashboardV {
            peer_msg_counts: tallied(d.peer_msg_counts, k, 1, MAX_TRACKED_PEERS as nat),
            peer_warnings: if nf > 0 {
                tallied(d.peer_warnings, k, nf as u64, MAX_TRACKED_PEERS as nat)
            } else {
                d.peer_warnings
            },
            ..d
        },
        None => d,
    }
}

/// An UPDATE that changes no prefix.
pub open spec fn is_keepalive(pc: Option<PrefixChangeV>) -> bool {
    match pc {
        Some(p) => p.announced.len() == 0 && p.withdrawn.len() == 0,
        None => false,
    }
}

/// The change with its RPKI outcome, and the table after validating it.
pub open spec fn checked_change(rpki: Option<RpkiV>, pc: Option<PrefixChangeV>) -> (Option<RpkiV>, Option<PrefixChangeV>) {
    match (pc, rpki) {
        (Some(p), Some(c)) => {
            let (c2, w, det) = validated(c, p.announced);
            (Some(c2), Some(PrefixChangeV { rpki: w, rpki_detail: det, ..p }))
        },
        _ => (rpki, pc),
    }
}

/// The per-prefix and per-ASN tables after a change.
pub open spec fn tables_after(d: DashboardV, p: PrefixChangeV) -> DashboardV {
    DashboardV {
        churn_counts: churned(churned(d.churn_counts, p.announced), p.withdrawn),
        prefix_origins: originated(originated(d.prefix_origins, p.announced), p.withdrawn),
        prefix_last_path: pathed(d.prefix_last_path, p.announced, first_n(p.as_path, MAX_STORED_PATH as nat)),
        as_frequency: asns_counted(d.as_frequency, p.as_path),
        as_adjacency: links_counted(d.as_adjacency, p.as_path),
        ..d
    }
}

/// An address cut to 16 characters and `..` when longer than 18.
pub open spec fn short_ip(ip: Seq<char>) -> Seq<char> {
    if ip.len() > 18 {
        ip.subrange(0, 16) + ".."@
    } else {
        ip
    }
}

/// The last `n` elements of `s` (all of them if it is shorter).
pub open spec fn last_n<A>(s: Seq<A>, n: nat) -> Seq<A> {
    if s.len() > n {
        s.subrange(s.len() - n, s.len() as int)
    } else {
        s
    }
}

/// The log line of a frame.
pub open spec fn line_of(fr: RawBmpFrameV, key: Option<PeerKeyV>, pc: Option<PrefixChangeV>) -> MessageLineV {
    MessageLineV {
        msg_type: fr.msg_type_raw,
        asn: match key {
            Some(k) => k.peer_asn,
            None => None,
        },
        ip_short: match key {
            Some(k) => match k.peer_ip {
                Some(ip) => Some(short_ip(ip)),
                None => None,
            },
            None => None,
        },
        ts_sec: match fr.per_peer_header {
            Some(h) => h.timestamp_seconds,
            None => 0,
        },
        prefixes: pc,
    }
}

/// A frame that changes prefixes, or is no UPDATE, is validated, tracked
/// and logged (the log keeping its last `max_log_lines` lines); an UPDATE
/// that changes nothing is only counted.
pub open spec fn change_noted(d: DashboardV, fr: RawBmpFrameV, key: Option<PeerKeyV>) -> DashboardV {
    let pc = prefix_change_of(fr.full_data);
    if is_keepalive(pc) {
        DashboardV { keepalive_count: sat_add(d.keepalive_count, 1), ..d }
    } else {
        let (r, pc2) = checked_change(d.rpki, pc);
        let d1 = DashboardV { rpki: r, ..d };
        let d2 = match pc2 {
            Some(p) => tables_after(d1, p),
            None => d1,
        };
        DashboardV {
            message_log: last_n(d2.message_log.push(line_of(fr, key, pc2)), d2.max_log_lines as nat),
            ..d2
        }
    }
}

/// The metadata kept: the first that names anything.
pub open spec fn meta_kept(d: Option<OpenBmpMetadataV>, m: Option<OpenBmpMetadataV>) -> Option<OpenBmpMetadataV> {
    if d is None && m is Some && meta_any(m.unwrap()) {
        m
    } else {
        d
    }
}

pub open spec fn no_metadata() -> OpenBmpMetadataV {
    OpenBmpMetadataV { collector: None, router: None, router_ip: None }
}

/// The dashboard after a frame that decoded, with the OpenBMP metadata of
/// its record.
pub open spec fn frame_noted(d: DashboardV, fr: RawBmpFrameV, meta: Option<OpenBmpMetadataV>) -> DashboardV {
    let key = frame_key(fr);
    let fs = dash_findings(fr);
    let d1 = change_noted(peer_counted(d, key, fs.len()), fr, key);
    let m = meta_kept(d1.metadata, meta);
    let r = RollingV {
        metadata: if d1.rolling.metadata is None {
            Some(
                match m {
                    Some(x) => x,
                    None => no_metadata(),
                },
            )
        } else {
            d1.rolling.metadata
        },
        ..d1.rolling
    };
    DashboardV {
        metadata: m,
        rolling: pushed(r, SlotV { msg_type: fr.msg_type_raw, findings: fs, malformed: false, peer: key }),
        ..d1
    }
}

/// The dashboard after one payload from the stream: counted, decoded as
/// record number `total_messages`, and noted; a payload that does not
/// decode counts as malformed in the window.
pub open spec fn dash_step(d: DashboardV, payload: Seq<u8>) -> DashboardV {
    let rec = spec_record(payload, 0, d.total_messages as nat);
    let d1 = DashboardV {
        total_messages: sat_add(d.total_messages, 1),
        current_tick_count: sat_add(d.current_tick_count, 1),
        ..d
    };
    let malformed = DashboardV {
        rolling: pushed(d1.rolling, SlotV { msg_type: 0, findings: Seq::empty(), malformed: true, peer: None }),
        ..d1
    };
    if payload.len() > MAX_PAYLOAD_LEN {
        malformed
    } else {
        match rec.frame {
            Ok(fr) => frame_noted(d1, fr, rec.metadata),
            Err(_) => malformed,
        }
    }
}

/// The dashboard's invariant: the rolling summary and the RPKI table keep
/// theirs.
pub open spec fn dash_wf(d: &Dashboard) -> bool {
    &&& d.rolling.wf()
    &&& match d.rpki {
        Some(c) => c.wf(),
        None => true,
    }
}

fn shorten_ip(ip: &String) -> (r: String)
    ensures
        r@ == short_ip(ip@),
{
    let cs = chars_of(ip.as_str());
    if cs.len() > 18 {
        let head = vstd::slice::slice_subrange(cs.as_slice(), 0, 16);
        let mut s = string_of(head);
        s.append("..");
        s
    } else {
        ip.clone()
    }
}

/// The findings a frame raises on its own: an unsupported version, an
/// unknown type.
pub fn basic_findings(frame: &RawBmpFrame) -> (r: Vec<Finding>)
    ensures
        findings_view(r@) == dash_findings(frame@),
{
    let mut findings: Vec<Finding> = Vec::new();
    if frame.version != BMP_EXPECTED_VERSION {
        findings.push(finding_invalid_version(frame.offset, frame.version));
    }
    if frame.msg_type.is_none() {
        findings.push(finding_unknown_type(frame.offset, frame.msg_type_raw));
    }
    proof {
        assert(findings_view(findings@) =~= dash_findings(frame@));
    }
    findings
}

/// The window slot of a decoded record: a frame with its findings and
/// peer, or a malformed message.
pub open spec fn record_slot(rec: Result<RawBmpFrameV, DoctorErrorV>) -> SlotV {
    match rec {
        Ok(fr) => SlotV { msg_type: fr.msg_type_raw, findings: dash_findings(fr), malformed: false, peer: frame_key(fr) },
        Err(_) => SlotV { msg_type: 0, findings: Seq::empty(), malformed: true, peer: None },
    }
}

/// Adds a record read from a capture to a rolling window (replay mode).
pub fn note_in_window(rolling: &mut RollingSummary, rec: &Result<RawBmpFrame, DoctorError>)
    requires
        old(rolling).wf(),
    ensures
        final(rolling).wf(),
        final(rolling)@ == pushed(
            old(rolling)@,
            record_slot(
                match rec {
                    Ok(f) => Ok(f@),
                    Err(e) => Err(e@),
                },
            ),
        ),
{
    match rec {
        Ok(frame) => {
            let peer = match &frame.per_peer_header {
                Some(h) => Some(peer_key_from_pph(h)),
                None => None,
            };
            rolling.push(frame.msg_type_raw, false, basic_findings(frame), peer);
        },
        Err(_) => {
            rolling.push(0, true, Vec::new(), None);
            proof {
                assert(findings_view(Seq::<Finding>::empty()) =~= Seq::<FindingV>::empty());
            }
        },
    }
}

impl Dashboard {
    /// A dashboard watching `topic`, with a rolling window of
    /// `window_messages` messages.
    pub fn new(topic: &str, window_messages: usize) -> (r: Self)
        ensures
            dash_wf(&r),
            r@ == fresh_dashboard(topic@, window_messages as nat),
    {
        let mut hist: Vec<u64> = Vec::new();
        let mut i: usize = 0;
        while i < THROUGHPUT_HISTORY
            invariant
                i <= 60,
                hist@ == Seq::new(i as nat, |j: int| 0u64),
            decreases 60 - i,
        {
            hist.push(0);
            proof {
                assert(hist@ =~= Seq::new((i + 1) as nat, |j: int| 0u64));
            }
            i = i + 1;
        }
        let r = Dashboard {
            rolling: RollingSummary::new(window_messages),
            topic: String::from_str(topic),
            total_messages: 0,
            throughput_history: hist,
            current_tick_count: 0,
            exit: false,
            browse: false,
            paused: false,
            show_communities: false,
            peer_msg_counts: Vec::new(),
            peer_warnings: Vec::new(),
            metadata: None,
            message_log: Vec::new(),
            max_log_lines: MAX_LOG_LINES,
            churn_counts: Vec::new(),
            prefix_origins: Vec::new(),
            prefix_last_path: Vec::new(),
            as_adjacency: HashMap::new(),
            as_frequency: HashMap::new(),
            rpki: None,
            keepalive_count: 0,
        };
        proof {
            assert(r@.peer_msg_counts =~= Seq::<(PeerKeyV, u64)>::empty());
            assert(r@.peer_warnings =~= Seq::<(PeerKeyV, u64)>::empty());
            assert(r@.message_log =~= Seq::<MessageLineV>::empty());
            assert(r@.churn_counts =~= Seq::<(Seq<char>, u64)>::empty());
            assert(r@.prefix_origins =~= Seq::<(Seq<char>, u32)>::empty());
            assert(r@.prefix_last_path =~= Seq::<(Seq<char>, Seq<u32>)>::empty());
        }
        r
    }

    fn count_peer_frame(&mut self, key: &Option<PeerKey>, nf: usize)
        ensures
            final(self)@ == peer_counted(old(self)@, opt_key(*key), nf as nat),
            final(self).rolling == old(self).rolling,
            final(self).rpki == old(self).rpki,
    {
        match key {
            Some(k) => {
                tally_peer(&mut self.peer_msg_counts, k, 1, MAX_TRACKED_PEERS);
                if nf > 0 {
                    tally_peer(&mut self.peer_warnings, k, nf as u64, MAX_TRACKED_PEERS);
                }
            },
            None => {},
        }
    }

    fn track_change(&mut self, pc: &PrefixChange)
        ensures
            final(self)@ == tables_after(old(self)@, pc@),
            final(self).rolling == old(self).rolling,
            final(self).rpki == old(self).rpki,
    {
        churn_all(&mut self.churn_counts, &pc.announced);
        churn_all(&mut self.churn_counts, &pc.withdrawn);
        originate_all(&mut self.prefix_origins, &pc.announced);
        originate_all(&mut self.prefix_origins, &pc.withdrawn);
        let stored = path_head(&pc.as_path, MAX_STORED_PATH);
        path_all(&mut self.prefix_last_path, &pc.announced, &stored);
        count_asns(&mut self.as_frequency, &pc.as_path);
        count_links(&mut self.as_adjacency, &pc.as_path);
    }

    fn note_change(&mut self, frame: &RawBmpFrame, key: &Option<PeerKey>)
        requires
            dash_wf(old(self)),
        ensures
            dash_wf(final(self)),
            final(self)@ == change_noted(old(self)@, frame@, opt_key(*key)),
            final(self).rolling == old(self).rolling,
    {
        let mut prefixes = extract_prefixes(frame.full_data.as_slice());
        let keepalive = match &prefixes {
            Some(pc) => pc.announced.len() == 0 && pc.withdrawn.len() == 0,
            None => false,
        };
        if keepalive {
            self.keepalive_count = add_sat(self.keepalive_count, 1);
            return;
        }
        let ghost d0 = self@;
        let ghost pc0 = opt_change(prefixes);
        match prefixes {
            Some(ref mut pc) => {
                match self.rpki {
                    Some(ref mut c) => {
                        let (w, det) = validate_announced(c, &pc.announced);
                        pc.rpki = w;
                        pc.rpki_detail = det;
                    },
                    None => {},
                }
            },
            None => {},
        }
        assert((opt_rpki(self.rpki), opt_change(prefixes)) == checked_change(d0.rpki, pc0));
        let ghost d1 = self@;
        match &prefixes {
            Some(pc) => self.track_change(pc),
            None => {},
        }
        let ts_sec: u32 = match &frame.per_peer_header {
            Some(h) => h.timestamp_seconds,
            None => 0,
        };
        let (asn, ip_short) = match key {
            Some(k) => (
                k.peer_asn,
                match &k.peer_ip {
                    Some(ip) => Some(shorten_ip(ip)),
                    None => None,
                },
            ),
            None => (None, None),
        };
        let line = MessageLine { msg_type: frame.msg_type_raw, asn, ip_short, ts_sec, prefixes };
        assert(line@ == line_of(frame@, opt_key(*key), opt_change(prefixes)));
        self.log_line(line);
    }

    fn note_frame(&mut self, frame: &RawBmpFrame, meta: Option<OpenBmpMetadata>)
        requires
            dash_wf(old(self)),
        ensures
            dash_wf(final(self)),
            final(self)@ == frame_noted(old(self)@, frame@, opt_meta(meta)),
    {
        let peer_key = match &frame.per_peer_header {
            Some(h) => Some(peer_key_from_pph(h)),
            None => None,
        };
        let findings = basic_findings(frame);
        self.count_peer_frame(&peer_key, findings.len());
        self.note_change(frame, &peer_key);
        if self.metadata.is_none() {
            match meta {
                Some(m) => {
                    if m.any() {
                        self.metadata = Some(m);
                    }
                },
                None => {},
            }
        }
        let m = match &self.metadata {
            Some(m) => m.duplicate(),
            None => OpenBmpMetadata { collector: None, router: None, router_ip: None },
        };
        self.rolling.set_metadata(m);
        self.rolling.push(frame.msg_type_raw, false, findings, peer_key);
    }

    /// Takes one payload from the stream: counts it, decodes it as record
    /// number `total_messages`, and for a frame that decodes, counts its
    /// peer, notes what its UPDATE changed (validating announcements
    /// against the RPKI table, if one is loaded), logs it, keeps the first
    /// OpenBMP metadata that names anything and adds it to the rolling
    /// window with its findings; a payload that does not decode counts as
    /// malformed.
    pub fn process_message(&mut self, payload: &[u8])
        requires
            dash_wf(old(self)),
        ensures
            dash_wf(final(self)),
            final(self)@ == dash_step(old(self)@, payload@),
    {
        let index = self.total_messages;
        self.total_messages = add_sat(self.total_messages, 1);
        self.current_tick_count = add_sat(self.current_tick_count, 1);
        if payload.len() > MAX_PAYLOAD_LEN {
            self.rolling.push(0, true, Vec::new(), None);
            proof {
                assert(findings_view(Seq::<Finding>::empty()) =~= Seq::<FindingV>::empty());
            }
            return;
        }
        let record = parse_record_payload(payload, 0, index);
        match record.frame {
            Ok(frame) => self.note_frame(&frame, record.metadata),
            Err(_) => {
                self.rolling.push(0, true, Vec::new(), None);
                proof {
                    assert(findings_view(Seq::<Finding>::empty()) =~= Seq::<FindingV>::empty());
                }
            },
        }
    }

    /// Appends a line to the log, dropping the oldest past `max_log_lines`.
    fn log_line(&mut self, line: MessageLine)
        ensures
            final(self)@ == (DashboardV {
                message_log: last_n(old(self)@.message_log.push(line@), old(self).max_log_lines as nat),
                ..old(self)@
            }),
            final(self).rolling == old(self).rolling,
            final(self).rpki == old(self).rpki,
    {
        let ghost l0 = lines_view(self.message_log@).push(line@);
        self.message_log.push(line);
        proof {
            assert(lines_view(self.message_log@) =~= l0);
        }
        keep_newest(&mut self.message_log, self.max_log_lines);
    }

    /// The AS path last announced for `prefix`, if any.
    pub fn last_path(&self, prefix: &str) -> (r: Option<Vec<u32>>)
        ensures
            match key_index(self@.prefix_last_path, prefix@) {
                Some(i) => r matches Some(p) && p@ == self@.prefix_last_path[i].1,
                None => r is None,
            },
    {
        let ghost t = path_table(self.prefix_last_path@);
        match find_text(&self.prefix_last_path, prefix) {
            Some(i) => {
                proof {
                    lemma_first_key(t, prefix@, i as int);
                }
                Some(self.prefix_last_path[i].1.clone())
            },
            None => {
                proof {
                    lemma_no_key(t, prefix@);
                }
                None
            },
        }
    }

    /// Takes a freshly loaded RPKI table: the announcements of each line
    /// already logged are validated against it in log order (a line keeps
    /// a detail it had), and the table is kept for the messages to come.
    pub fn attach_rpki(&mut self, cache: RPKICache)
        requires
            dash_wf(old(self)),
            cache.wf(),
        ensures
            dash_wf(final(self)),
            final(self)@ == rpki_attached(old(self)@, cache@),
            final(self).rolling == old(self).rolling,
    {
        let ghost d0 = self@;
        let mut c = cache;
        let ghost c0 = c@;
        let mut log: Vec<MessageLine> = Vec::new();
        std::mem::swap(&mut log, &mut self.message_log);
        let ghost l0 = lines_view(log@);
        let mut out: Vec<MessageLine> = Vec::new();
        proof {
            assert(l0.subrange(0, 0) =~= Seq::<MessageLineV>::empty());
            assert(lines_view(out@) =~= Seq::<MessageLineV>::empty());
            assert(l0.subrange(0, l0.len() as int) =~= l0);
        }
        while log.len() > 0
            invariant
                c.wf(),
                log@.len() <= l0.len(),
                lines_view(log@) == l0.subrange(l0.len() - log@.len(), l0.len() as int),
                log_checked(c0, l0.subrange(0, l0.len() - log@.len())) == (c@, lines_view(out@)),
            decreases log@.len(),
        {
            let ghost before = log@;
            let ghost k = l0.len() - log@.len();
            let ghost c1 = c@;
            let ghost o1 = lines_view(out@);
            let mut m = log.remove(0);
            proof {
                assert(lines_view(log@) =~= lines_view(before).drop_first());
                assert(lines_view(log@) =~= l0.subrange(l0.len() - log@.len(), l0.len() as int));
                assert(lines_view(before)[0] == l0[k]);
                assert(l0.subrange(0, k + 1).drop_last() =~= l0.subrange(0, k));
                assert(l0.subrange(0, k + 1).last() == m@);
            }
            let ghost m0 = m@;
            match m.prefixes {
                Some(ref mut pc) => {
                    let (w, det) = validate_announced(&mut c, &pc.announced);
                    pc.rpki = w;
                    if pc.rpki_detail.is_none() {
                        pc.rpki_detail = det;
                    }
                },
                None => {},
            }
            assert((c@, m@) == line_checked(c1, m0));
            out.push(m);
            proof {
                assert(lines_view(out@) =~= o1.push(m@));
            }
        }
        self.message_log = out;
        self.rpki = Some(c);
        proof {
            assert(l0 == d0.message_log);
        }
    }
}

/// A logged line after its announcements are validated against `c`: the
/// table with its counters and the line with its outcome (a detail it had
/// stays).
pub open spec fn line_checked(c: RpkiV, m: MessageLineV) -> (RpkiV, MessageLineV) {
    match m.prefixes {
        Some(p) => {
            let (c2, w, det) = validated(c, p.announced);
            let det2 = if p.rpki_detail is Some {
                p.rpki_detail
            } else {
                det
            };
            (c2, MessageLineV { prefixes: Some(PrefixChangeV { rpki: w, rpki_detail: det2, ..p }), ..m })
        },
        None => (c, m),
    }
}

/// The lines of a log validated in order against `c`.
pub open spec fn log_checked(c: RpkiV, log: Seq<MessageLineV>) -> (RpkiV, Seq<MessageLineV>)
    decreases log.len(),
{
    if log.len() == 0 {
        (c, log)
    } else {
        let (c1, l1) = log_checked(c, log.drop_last());
        let (c2, m2) = line_checked(c1, log.last());
        (c2, l1.push(m2))
    }
}

/// The dashboard once the RPKI table `c` is loaded.
pub open spec fn rpki_attached(d: DashboardV, c: RpkiV) -> DashboardV {
    let (c2, log) = log_checked(c, d.message_log);
    DashboardV { rpki: Some(c2), message_log: log, ..d }
}

/// Drops the oldest lines until at most `max` are left.
fn keep_newest(log: &mut Vec<MessageLine>, max: usize)
    ensures
        lines_view(final(log)@) == last_n(lines_view(old(log)@), max as nat),
{
    let ghost l0 = lines_view(log@);
    while log.len() > max
        invariant
            lines_view(log@) == l0.subrange(l0.len() - log@.len(), l0.len() as int),
            log@.len() <= l0.len(),
            l0.len() > max ==> log@.len() >= max,
            l0.len() <= max ==> log@.len() == l0.len(),
        decreases log@.len(),
    {
        let ghost before = log@;
        log.remove(0);
        proof {
            assert(lines_view(log@) =~= lines_view(before).drop_first());
            assert(lines_view(log@) =~= l0.subrange(l0.len() - log@.len(), l0.len() as int));
        }
    }
    proof {
        if l0.len() <= max {
            assert(l0.subrange(0, l0.len() as int) =~= l0);
        }
    }
}

// ───────────────────────── keys and ticks ─────────────────────────

/// A key the dashboard reacts to.
#[derive(Debug, Clone, Copy, PartialEq, Eq, Structural)]
pub enum DashKey {
    Char(char),
    Esc,
    Other,
}

/// The dashboard after a key press (`ctrl` when Control was held): Ctrl-C,
/// `q` and Esc leave; `b` leaves for the stream browser; `p` pauses or
/// resumes; `c` shows or hides communities.
pub open spec fn key_handled(d: DashboardV, key: DashKey, ctrl: bool) -> DashboardV {
    match key {
        DashKey::Char(c) => if c == 'c' && ctrl {
            DashboardV { exit: true, ..d }
        } else if c == 'q' {
            DashboardV { exit: true, ..d }
        } else if c == 'b' {
            DashboardV { browse: true, exit: true, ..d }
        } else if c == 'p' {
            DashboardV { paused: !d.paused, ..d }
        } else if c == 'c' {
            DashboardV { show_communities: !d.show_communities, ..d }
        } else {
            d
        },
        DashKey::Esc => DashboardV { exit: true, ..d },
        DashKey::Other => d,
    }
}

/// The dashboard at a tick: once a second has passed since the last
/// rotation, this second's count enters the history and the oldest leaves.
pub open spec fn ticked(d: DashboardV, second_passed: bool) -> DashboardV {
    if second_passed {
        DashboardV {
            current_tick_count: 0,
            throughput_history: d.throughput_history.drop_first().push(d.current_tick_count),
            ..d
        }
    } else {
        d
    }
}

impl Dashboard {
    /// Reacts to a key press; `ctrl` tells whether Control was held.
    pub fn handle_key(&mut self, key: DashKey, ctrl: bool)
        ensures
            final(self)@ == key_handled(old(self)@, key, ctrl),
            final(self).rolling == old(self).rolling,
            final(self).rpki == old(self).rpki,
    {
        match key {
            DashKey::Char(c) => {
                if c == 'c' && ctrl {
                    self.exit = true;
                } else if c == 'q' {
                    self.exit = true;
                } else if c == 'b' {
                    self.browse = true;
                    self.exit = true;
                } else if c == 'p' {
                    self.paused = !self.paused;
                } else if c == 'c' {
                    self.show_communities = !self.show_communities;
                }
            },
            DashKey::Esc => {
                self.exit = true;
            },
            DashKey::Other => {},
        }
    }

    /// Rotates the throughput history when `second_passed` (a second has
    /// gone by since the last rotation).
    pub fn tick(&mut self, second_passed: bool)
        requires
            old(self).throughput_history@.len() > 0,
        ensures
            final(self)@ == ticked(old(self)@, second_passed),
            final(self).rolling == old(self).rolling,
            final(self).rpki == old(self).rpki,
    {
        if second_passed {
            let rate = self.current_tick_count;
            self.current_tick_count = 0;
            self.throughput_history.remove(0);
            self.throughput_history.push(rate);
        }
    }

    /// Messages in the last full second: the newest entry of the history,
    /// 0 without one.
    pub fn current_rate(&self) -> (r: u64)
        ensures
            r == (if self.throughput_history@.len() == 0 {
                0
            } else {
                self.throughput_history@.last()
            }),
    {
        let n = self.throughput_history.len();
        if n == 0 {
            0
        } else {
            self.throughput_history[n - 1]
        }
    }
}

// ───────────────────────── text shown ─────────────────────────

/// The second-to-last `.`-separated part of a topic (what
/// `rsplit('.').nth(1)` gives).
pub open spec fn second_last_part(t: Seq<char>) -> Option<Seq<char>> {
    match last_pos(t, '.') {
        None => None,
        Some(k) => {
            let head = t.subrange(0, k);
            match last_pos(head, '.') {
                Some(j) => Some(head.subrange(j + 1, k)),
                None => Some(head),
            }
        },
    }
}

/// The peer ASN named by a topic `….<ASN>.bmp_raw`.
pub open spec fn topic_peer(t: Seq<char>) -> Option<nat> {
    match second_last_part(t) {
        Some(p) => parse_dec_text(p, u32::MAX as nat),
        None => None,
    }
}

/// The path without the RouteViews collector's AS 6447 at its head and
/// then without the topic's peer ASN.
pub open spec fn stripped(path: Seq<u32>, topic: Seq<char>) -> Seq<u32> {
    let s1: int = if path.len() > 0 && path[0] == 6447 {
        1
    } else {
        0
    };
    let s2: int = if s1 < path.len() && topic_peer(topic) == Some(path[s1] as nat) {
        s1 + 1
    } else {
        s1
    };
    path.subrange(s2, path.len() as int)
}

fn topic_peer_asn(topic: &str) -> (r: Option<u64>)
    ensures
        match r {
            Some(a) => topic_peer(topic@) == Some(a as nat),
            None => topic_peer(topic@) is None,
        },
{
    let cs = chars_of(topic);
    let k = match rfind_char(cs.as_slice(), '.') {
        Some(k) => k,
        None => return None,
    };
    let head = vstd::slice::slice_subrange(cs.as_slice(), 0, k);
    let part = match rfind_char(head, '.') {
        Some(j) => vstd::slice::slice_subrange(head, j + 1, k),
        None => head,
    };
    parse_dec(part, 0xffff_ffff)
}

/// `path` without the RouteViews collector's AS 6447 at its head, and then
/// without the peer ASN that the dashboard's topic names: the first two
/// hops say nothing to someone watching that peer.
pub fn strip_known_prefix(path: &[u32], dash: &Dashboard) -> (r: Vec<u32>)
    ensures
        r@ == stripped(path@, dash.topic@),
{
    let n = path.len();
    let mut start: usize = 0;
    if start < n && path[start] == 6447 {
        start = start + 1;
    }
    if start < n {
        match topic_peer_asn(dash.topic.as_str()) {
            Some(peer) => {
                if path[start] as u64 == peer {
                    start = start + 1;
                }
            },
            None => {},
        }
    }
    let mut out: Vec<u32> = Vec::new();
    let mut i: usize = start;
    while i < n
        invariant
            start <= i <= n,
            n == path@.len(),
            out@ == path@.subrange(start as int, i as int),
        decreases n - i,
    {
        out.push(path[i]);
        proof {
            assert(path@.subrange(start as int, i + 1) =~= path@.subrange(start as int, i as int).push(path@[i as int]));
        }
        i = i + 1;
    }
    out
}

/// Runs of equal neighbours: each ASN with how many times it repeats.
pub open spec fn runs(path: Seq<u32>) -> Seq<(u32, nat)>
    decreases path.len(),
{
    if path.len() == 0 {
        Seq::empty()
    } else {
        let r = runs(path.drop_last());
        if r.len() > 0 && r.last().0 == path.last() {
            r.update(r.len() - 1, (path.last(), r.last().1 + 1))
        } else {
            r.push((path.last(), 1))
        }
    }
}

/// One hop: `AS<asn>`, with `×<count>` for a repeated one.
pub open spec fn hop_text(run: (u32, nat)) -> Seq<char> {
    "AS"@ + dec_str(run.0 as nat) + if run.1 > 1 {
        "×"@ + dec_str(run.1)
    } else {
        Seq::empty()
    }
}

/// The hops of runs joined by ` → `.
pub open spec fn hops_joined(r: Seq<(u32, nat)>) -> Seq<char>
    decreases r.len(),
{
    if r.len() == 0 {
        Seq::empty()
    } else if r.len() == 1 {
        hop_text(r[0])
    } else {
        hops_joined(r.drop_last()) + " → "@ + hop_text(r.last())
    }
}

/// A path in short: repeats folded into one hop; up to four hops in full,
/// else the first and the last with `…` between.
pub open spec fn compact_text(path: Seq<u32>) -> Seq<char> {
    let r = runs(path);
    if r.len() <= 4 {
        hops_joined(r)
    } else {
        hop_text(r[0]) + " → "@ + "…"@ + " → "@ + hop_text(r.last())
    }
}

fn hop_string(asn: u32, count: usize) -> (r: String)
    ensures
        r@ == hop_text((asn, count as nat)),
{
    let mut s = String::from_str("AS");
    append_decimal(&mut s, asn as u64);
    if count > 1 {
        s.append("×");
        append_decimal(&mut s, count as u64);
    }
    proof {
        reveal_strlit("AS");
        reveal_strlit("×");
    }
    s
}

/// The runs of a path.
fn path_runs(path: &[u32]) -> (r: Vec<(u32, usize)>)
    ensures
        r@.map_values(|e: (u32, usize)| (e.0, e.1 as nat)) == runs(path@),
{
    let mut out: Vec<(u32, usize)> = Vec::new();
    let mut i: usize = 0;
    proof {
        assert(path@.subrange(0, 0) =~= Seq::<u32>::empty());
        assert(out@.map_values(|e: (u32, usize)| (e.0, e.1 as nat)) =~= Seq::<(u32, nat)>::empty());
    }
    while i < path.len()
        invariant
            i <= path@.len(),
            out@.map_values(|e: (u32, usize)| (e.0, e.1 as nat)) == runs(path@.subrange(0, i as int)),
            forall|j: int| 0 <= j < out@.len() ==> out@[j].1 <= i,
        decreases path@.len() - i,
    {
        let ghost before = out@;
        proof {
            assert(path@.subrange(0, i + 1).drop_last() =~= path@.subrange(0, i as int));
            assert(path@.subrange(0, i + 1).last() == path@[i as int]);
        }
        let n = out.len();
        if n > 0 && out[n - 1].0 == path[i] {
            let c = out[n - 1].1;
            out.set(n - 1, (path[i], c + 1));
            proof {
                assert(out@.map_values(|e: (u32, usize)| (e.0, e.1 as nat)) =~= before.map_values(
                    |e: (u32, usize)| (e.0, e.1 as nat),
                ).update(n - 1, (path@[i as int], (c + 1) as nat)));
            }
        } else {
            out.push((path[i], 1));
            proof {
                assert(out@.map_values(|e: (u32, usize)| (e.0, e.1 as nat)) =~= before.map_values(
                    |e: (u32, usize)| (e.0, e.1 as nat),
                ).push((path@[i as int], 1)));
            }
        }
        i = i + 1;
    }
    proof {
        assert(path@.subrange(0, i as int) =~= path@);
    }
    out
}

/// An AS path in short: runs of a repeated ASN folded into one hop
/// (`AS<asn>×<count>`), up to four hops joined by ` → `, or the first and
/// the last hop with `…` between; empty for an empty path.
pub fn compact_path(path: &[u32]) -> (r: String)
    ensures
        r@ == compact_text(path@),
{
    let rs = path_runs(path);
    let ghost rv = rs@.map_values(|e: (u32, usize)| (e.0, e.1 as nat));
    proof {
        reveal_strlit(" → ");
        reveal_strlit("…");
    }
    let n = rs.len();
    if n == 0 {
        return String::new();
    }
    if n <= 4 {
        let mut s = hop_string(rs[0].0, rs[0].1);
        let mut i: usize = 1;
        proof {
            assert(rv.subrange(0, 1).len() == 1);
            assert(hops_joined(rv.subrange(0, 1)) == hop_text(rv[0]));
        }
        while i < n
            invariant
                1 <= i <= n,
                n == rs@.len(),
                rv == rs@.map_values(|e: (u32, usize)| (e.0, e.1 as nat)),
                s@ == hops_joined(rv.subrange(0, i as int)),
            decreases n - i,
        {
            proof {
                assert(rv.subrange(0, i + 1).drop_last() =~= rv.subrange(0, i as int));
            }
            s.append(" → ");
            let h = hop_string(rs[i].0, rs[i].1);
            s.append(h.as_str());
            i = i + 1;
        }
        proof {
            assert(rv.subrange(0, n as int) =~= rv);
        }
        s
    } else {
        let mut s = hop_string(rs[0].0, rs[0].1);
        s.append(" → ");
        s.append("…");
        s.append(" → ");
        let h = hop_string(rs[n - 1].0, rs[n - 1].1);
        s.append(h.as_str());
        s
    }
}

/// The short label of a BMP message type.
pub open spec fn type_label(t: u8) -> Seq<char> {
    if t == 0 {
        "PFX"@
    } else if t == 1 {
        "STATS"@
    } else if t == 2 {
        "PEER_DN"@
    } else if t == 3 {
        "PEER_UP"@
    } else if t == 4 {
        "INIT"@
    } else if t == 5 {
        "TERM"@
    } else if t == 6 {
        "MIRROR"@
    } else {
        "?"@
    }
}

/// `PFX`, `STATS`, `PEER_DN`, `PEER_UP`, `INIT`, `TERM`, `MIRROR` for
/// types 0 to 6, `?` for any other.
pub fn msg_type_label(t: u8) -> (r: &'static str)
    ensures
        r@ == type_label(t),
{
    match t {
        0 => "PFX",
        1 => "STATS",
        2 => "PEER_DN",
        3 => "PEER_UP",
        4 => "INIT",
        5 => "TERM",
        6 => "MIRROR",
        _ => "?",
    }
}

/// The colour a message type is shown in.
#[derive(Debug, Clone, Copy, PartialEq, Eq, Structural)]
pub enum TypeColor {
    Cyan,
    Blue,
    Red,
    Green,
    Yellow,
    Magenta,
    Gray,
}

pub open spec fn type_color(t: u8) -> TypeColor {
    if t == 0 {
        TypeColor::Cyan
    } else if t == 1 {
        TypeColor::Blue
    } else if t == 2 {
        TypeColor::Red
    } else if t == 3 {
        TypeColor::Green
    } else if t == 4 || t == 5 {
        TypeColor::Yellow
    } else if t == 6 {
        TypeColor::Magenta
    } else {
        TypeColor::Gray
    }
}

/// Route Monitoring cyan, Statistics blue, Peer Down red, Peer Up green,
/// Initiation and Termination yellow, Route Mirroring magenta, others gray.
pub fn msg_type_color(t: u8) -> (r: TypeColor)
    ensures
        r == type_color(t),
{
    match t {
        0 => TypeColor::Cyan,
        1 => TypeColor::Blue,
        2 => TypeColor::Red,
        3 => TypeColor::Green,
        4 | 5 => TypeColor::Yellow,
        6 => TypeColor::Magenta,
        _ => TypeColor::Gray,
    }
}

/// What the status bar says of the stream.
#[derive(Debug, Clone, Copy, PartialEq, Eq, Structural)]
pub enum StreamStatus {
    /// Parse errors or malformed messages in the window.
    Errors,
    /// Stream-order warnings in the window.
    Warnings,
    /// Messages arrive and nothing is wrong.
    Healthy,
    /// No message yet after the first ten seconds.
    Quiet,
    /// No message yet.
    Connecting,
}

/// The status for findings in buckets `b`, `malformed` malformed messages,
/// `total_seen` messages so far, and whether ten seconds have passed.
pub open spec fn stream_status_of(b: FindingsBuckets, malformed: u64, total_seen: u64, waited: bool) -> StreamStatus {
    if b.parse_errors > 0 || malformed > 0 {
        StreamStatus::Errors
    } else if b.stream_order_warnings > 0 {
        StreamStatus::Warnings
    } else if total_seen > 0 {
        StreamStatus::Healthy
    } else if waited {
        StreamStatus::Quiet
    } else {
        StreamStatus::Connecting
    }
}

/// The status bar's word on the stream: errors first, then warnings,
/// then whether anything arrived (and, if not, for how long nothing did).
pub fn stream_status(b: &FindingsBuckets, malformed: u64, total_seen: u64, waited: bool) -> (r: StreamStatus)
    ensures
        r == stream_status_of(*b, malformed, total_seen, waited),
{
    if b.parse_errors > 0 || malformed > 0 {
        StreamStatus::Errors
    } else if b.stream_order_warnings > 0 {
        StreamStatus::Warnings
    } else if total_seen > 0 {
        StreamStatus::Healthy
    } else if waited {
        StreamStatus::Quiet
    } else {
        StreamStatus::Connecting
    }
}

proof fn lemma_key_index_in<K, V>(s: Seq<(K, V)>, k: K)
    ensures
        key_index(s, k) matches Some(i) ==> 0 <= i < s.len(),
    decreases s.len(),
{
    if s.len() > 0 {
        lemma_key_index_in(s.drop_last(), k);
    }
}

proof fn lemma_tallied_len<K>(s: Seq<(K, u64)>, k: K, n: u64, cap: nat)
    requires
        s.len() <= cap,
    ensures
        tallied(s, k, n, cap).len() <= cap,
{
    lemma_key_index_in(s, k);
}

proof fn lemma_assigned_len<K, V>(s: Seq<(K, V)>, k: K, v: V, cap: nat)
    requires
        s.len() <= cap,
    ensures
        assigned(s, k, v, cap).len() <= cap,
        forall|j: int|
            0 <= j < assigned(s, k, v, cap).len() ==> #[trigger] assigned(s, k, v, cap)[j] == v_or_old(s, k, v, j),
{
    lemma_key_index_in(s, k);
}

/// The entry at `j` of a table after `k` is set to `v`: `v`'s entry or
/// the old one.
spec fn v_or_old<K, V>(s: Seq<(K, V)>, k: K, v: V, j: int) -> (K, V) {
    if j < s.len() && key_index(s, k) != Some(j) {
        s[j]
    } else {
        (k, v)
    }
}

/// Every path of a table has at most `m` ASNs.
pub open spec fn paths_within(t: Seq<(Seq<char>, Seq<u32>)>, m: nat) -> bool {
    forall|j: int| 0 <= j < t.len() ==> (#[trigger] t[j]).1.len() <= m
}

proof fn lemma_churned_len(t: Seq<(Seq<char>, u64)>, ps: Seq<(Seq<char>, u32)>)
    requires
        t.len() <= MAX_TRACKED_PREFIXES,
    ensures
        churned(t, ps).len() <= MAX_TRACKED_PREFIXES,
    decreases ps.len(),
{
    if ps.len() > 0 {
        lemma_churned_len(t, ps.drop_last());
        lemma_tallied_len(churned(t, ps.drop_last()), ps.last().0, 1, MAX_TRACKED_PREFIXES as nat);
    }
}

proof fn lemma_originated_len(t: Seq<(Seq<char>, u32)>, ps: Seq<(Seq<char>, u32)>)
    requires
        t.len() <= MAX_TRACKED_PREFIXES,
    ensures
        originated(t, ps).len() <= MAX_TRACKED_PREFIXES,
    decreases ps.len(),
{
    if ps.len() > 0 {
        lemma_originated_len(t, ps.drop_last());
        lemma_assigned_len(originated(t, ps.drop_last()), ps.last().0, ps.last().1, MAX_TRACKED_PREFIXES as nat);
    }
}

proof fn lemma_pathed_within(t: Seq<(Seq<char>, Seq<u32>)>, ps: Seq<(Seq<char>, u32)>, path: Seq<u32>)
    requires
        t.len() <= MAX_TRACKED_PREFIXES,
        paths_within(t, MAX_STORED_PATH as nat),
        path.len() <= MAX_STORED_PATH,
    ensures
        pathed(t, ps, path).len() <= MAX_TRACKED_PREFIXES,
        paths_within(pathed(t, ps, path), MAX_STORED_PATH as nat),
    decreases ps.len(),
{
    if ps.len() > 0 {
        let t1 = pathed(t, ps.drop_last(), path);
        lemma_pathed_within(t, ps.drop_last(), path);
        lemma_assigned_len(t1, ps.last().0, path, MAX_TRACKED_PREFIXES as nat);
        let t2 = assigned(t1, ps.last().0, path, MAX_TRACKED_PREFIXES as nat);
        assert forall|j: int| 0 <= j < t2.len() implies (#[trigger] t2[j]).1.len() <= MAX_STORED_PATH by {
            assert(t2[j] == v_or_old(t1, ps.last().0, path, j));
        }
    }
}

proof fn lemma_counted_once_len<K>(m: Map<K, u64>, k: K, cap: nat)
    requires
        m.dom().finite(),
        m.len() <= cap,
    ensures
        counted_once(m, k, cap).dom().finite(),
        counted_once(m, k, cap).len() <= cap,
{
    if m.contains_key(k) {
        assert(m.insert(k, sat_add(m[k], 1)).dom() =~= m.dom());
    }
}

proof fn lemma_asns_counted_len(t: Map<u32, u64>, path: Seq<u32>)
    requires
        t.dom().finite(),
        t.len() <= MAX_TRACKED_ASNS,
    ensures
        asns_counted(t, path).dom().finite(),
        asns_counted(t, path).len() <= MAX_TRACKED_ASNS,
    decreases path.len(),
{
    if path.len() > 0 {
        lemma_asns_counted_len(t, path.drop_last());
        lemma_counted_once_len(asns_counted(t, path.drop_last()), path.last(), MAX_TRACKED_ASNS as nat);
    }
}

proof fn lemma_links_counted_len(t: Map<u64, u64>, path: Seq<u32>)
    requires
        t.dom().finite(),
        t.len() <= MAX_TRACKED_ASNS,
    ensures
        links_counted(t, path).dom().finite(),
        links_counted(t, path).len() <= MAX_TRACKED_ASNS,
    decreases path.len(),
{
    if path.len() >= 2 {
        lemma_links_counted_len(t, path.drop_last());
        lemma_counted_once_len(
            links_counted(t, path.drop_last()),
            link_key(path[path.len() - 2], path.last()),
            MAX_TRACKED_ASNS as nat,
        );
    }
}

/// The live tracking tables within their caps: at most 100000 peers and
/// 100000 ASNs (and neighbour pairs), at most 1000000 prefixes, and every
/// stored AS path at most 64 ASNs long.
pub open spec fn tracking_bounded(d: DashboardV) -> bool {
    &&& d.peer_msg_counts.len() <= MAX_TRACKED_PEERS
    &&& d.peer_warnings.len() <= MAX_TRACKED_PEERS
    &&& d.as_frequency.dom().finite()
    &&& d.as_frequency.len() <= MAX_TRACKED_ASNS
    &&& d.as_adjacency.dom().finite()
    &&& d.as_adjacency.len() <= MAX_TRACKED_ASNS
    &&& d.churn_counts.len() <= MAX_TRACKED_PREFIXES
    &&& d.prefix_origins.len() <= MAX_TRACKED_PREFIXES
    &&& d.prefix_last_path.len() <= MAX_TRACKED_PREFIXES
    &&& paths_within(d.prefix_last_path, MAX_STORED_PATH as nat)
}

proof fn lemma_tables_after_bounded(d: DashboardV, p: PrefixChangeV)
    requires
        tracking_bounded(d),
    ensures
        tracking_bounded(tables_after(d, p)),
{
    lemma_churned_len(d.churn_counts, p.announced);
    lemma_churned_len(churned(d.churn_counts, p.announced), p.withdrawn);
    lemma_originated_len(d.prefix_origins, p.announced);
    lemma_originated_len(originated(d.prefix_origins, p.announced), p.withdrawn);
    lemma_pathed_within(d.prefix_last_path, p.announced, first_n(p.as_path, MAX_STORED_PATH as nat));
    lemma_asns_counted_len(d.as_frequency, p.as_path);
    lemma_links_counted_len(d.as_adjacency, p.as_path);
}

/// The live tracking state stays bounded: a fresh dashboard is within the
/// caps, and neither a payload from the stream (however large), a key, a
/// tick nor a new RPKI table takes it past them.
pub proof fn law_tracking_bounded(
    d: DashboardV,
    payload: Seq<u8>,
    key: DashKey,
    ctrl: bool,
    second_passed: bool,
    c: RpkiV,
    topic: Seq<char>,
    window: nat,
)
    requires
        tracking_bounded(d),
    ensures
        tracking_bounded(fresh_dashboard(topic, window)),
        tracking_bounded(dash_step(d, payload)),
        tracking_bounded(key_handled(d, key, ctrl)),
        tracking_bounded(ticked(d, second_passed)),
        tracking_bounded(rpki_attached(d, c)),
{
    let rec = spec_record(payload, 0, d.total_messages as nat);
    if payload.len() <= MAX_PAYLOAD_LEN {
        if let Ok(fr) = rec.frame {
            let d1 = DashboardV {
                total_messages: sat_add(d.total_messages, 1),
                current_tick_count: sat_add(d.current_tick_count, 1),
                ..d
            };
            let key = frame_key(fr);
            let fs = dash_findings(fr);
            let d2 = peer_counted(d1, key, fs.len());
            if let Some(k) = key {
                lemma_tallied_len(d1.peer_msg_counts, k, 1, MAX_TRACKED_PEERS as nat);
                lemma_tallied_len(d1.peer_warnings, k, fs.len() as u64, MAX_TRACKED_PEERS as nat);
            }
            let pc = prefix_change_of(fr.full_data);
            if !is_keepalive(pc) {
                let (r, pc2) = checked_change(d2.rpki, pc);
                if let Some(p) = pc2 {
                    lemma_tables_after_bounded(DashboardV { rpki: r, ..d2 }, p);
                }
            }
        }
    }
}

/// The dashboard after the payloads of a stream, in order.
pub open spec fn dash_run(d: DashboardV, payloads: Seq<Seq<u8>>) -> DashboardV
    decreases payloads.len(),
{
    if payloads.len() == 0 {
        d
    } else {
        dash_step(dash_run(d, payloads.drop_last()), payloads.last())
    }
}

proof fn lemma_run_bounded(d: DashboardV, payloads: Seq<Seq<u8>>)
    requires
        tracking_bounded(d),
        d.message_log.len() <= d.max_log_lines,
    ensures
        tracking_bounded(dash_run(d, payloads)),
        dash_run(d, payloads).max_log_lines == d.max_log_lines,
        dash_run(d, payloads).message_log.len() <= d.max_log_lines,
        dash_run(d, payloads).total_messages == sat_add(d.total_messages, payloads.len() as int),
    decreases payloads.len(),
{
    if payloads.len() > 0 {
        let d1 = dash_run(d, payloads.drop_last());
        lemma_run_bounded(d, payloads.drop_last());
        law_log_bounded(d1, payloads.last());
        law_every_payload_counted(d1, payloads.last());
        let c = RpkiV { v4: Seq::empty(), v6: Seq::empty(), valid: 0, invalid: 0, not_found: 0 };
        law_tracking_bounded(d1, payloads.last(), DashKey::Other, false, false, c, d.topic, 0);
    }
}

/// Over any stream watched from the start, the dashboard counts every
/// payload (held at `u64::MAX`), keeps at most 500 log lines, and keeps its
/// tracking tables within their caps (paths at most 64 ASNs).
pub proof fn law_stream_bounded(topic: Seq<char>, window: nat, payloads: Seq<Seq<u8>>)
    ensures
        ({
            let d = dash_run(fresh_dashboard(topic, window), payloads);
            &&& d.total_messages == sat_add(0, payloads.len() as int)
            &&& d.message_log.len() <= MAX_LOG_LINES
            &&& tracking_bounded(d)
        }),
{
    let d0 = fresh_dashboard(topic, window);
    let c = RpkiV { v4: Seq::empty(), v6: Seq::empty(), valid: 0, invalid: 0, not_found: 0 };
    law_tracking_bounded(d0, Seq::empty(), DashKey::Other, false, false, c, topic, window);
    lemma_run_bounded(d0, payloads);
}

/// The message log never holds more than `max_log_lines` lines: a
/// payload leaves a log within the bound within it.
pub proof fn law_log_bounded(d: DashboardV, payload: Seq<u8>)
    requires
        d.message_log.len() <= d.max_log_lines,
    ensures
        dash_step(d, payload).message_log.len() <= d.max_log_lines,
        dash_step(d, payload).max_log_lines == d.max_log_lines,
{
}

/// The throughput history keeps its length: a dashboard starts with 60
/// seconds of it, and no message, key, tick or RPKI table changes how many
/// seconds it holds.
pub proof fn law_history_length(
    d: DashboardV,
    payload: Seq<u8>,
    key: DashKey,
    ctrl: bool,
    second_passed: bool,
    c: RpkiV,
    topic: Seq<char>,
    window: nat,
)
    ensures
        fresh_dashboard(topic, window).throughput_history.len() == 60,
        dash_step(d, payload).throughput_history == d.throughput_history,
        key_handled(d, key, ctrl).throughput_history == d.throughput_history,
        d.throughput_history.len() > 0 ==> ticked(d, second_passed).throughput_history.len()
            == d.throughput_history.len(),
        rpki_attached(d, c).throughput_history == d.throughput_history,
{
}

/// Every payload is counted once in the dashboard's total and in its
/// rolling summary (both held at `u64::MAX`).
pub proof fn law_every_payload_counted(d: DashboardV, payload: Seq<u8>)
    ensures
        dash_step(d, payload).total_messages == sat_add(d.total_messages, 1),
        dash_step(d, payload).rolling.total_seen == sat_add(d.rolling.total_seen, 1),
{
}


// ───────────────────────── display helpers ─────────────────────────

/// `n` (below 100) as two decimal digits.
pub open spec fn two_digits(n: nat) -> Seq<char> {
    seq![digit_char(n / 10), digit_char(n % 10)]
}

/// The time of day (UTC) of a timestamp as `hh:mm:ss`; `--:--:--` for a
/// zero timestamp.
pub open spec fn clock_text(ts_sec: u32) -> Seq<char> {
    if ts_sec > 0 {
        let s = (ts_sec % 86400) as nat;
        two_digits(s / 3600) + seq![':'] + two_digits((s % 3600) / 60) + seq![':'] + two_digits(s % 60)
    } else {
        seq!['-', '-', ':', '-', '-', ':', '-', '-']
    }
}

fn push_two_digits(out: &mut String, n: u32)
    requires
        n < 100,
    ensures
        final(out)@ == old(out)@ + two_digits(n as nat),
{
    push_char(out, digit((n / 10) as u64));
    push_char(out, digit((n % 10) as u64));
    proof {
        assert(final(out)@ =~= old(out)@ + two_digits(n as nat));
    }
}

/// The time of day of a message's timestamp, as the log shows it.
pub fn time_of_day(ts_sec: u32) -> (r: String)
    ensures
        r@ == clock_text(ts_sec),
{
    let mut out = String::new();
    if ts_sec > 0 {
        let s = ts_sec % 86400;
        push_two_digits(&mut out, s / 3600);
        push_char(&mut out, ':');
        push_two_digits(&mut out, (s % 3600) / 60);
        push_char(&mut out, ':');
        push_two_digits(&mut out, s % 60);
        proof {
            assert(out@ =~= clock_text(ts_sec));
        }
    } else {
        let mut i: usize = 0;
        while i < 8
            invariant
                i <= 8,
                out@ == clock_text(0).subrange(0, i as int),
            decreases 8 - i,
        {
            let c = if i == 2 || i == 5 {
                ':'
            } else {
                '-'
            };
            push_char(&mut out, c);
            i = i + 1;
            proof {
                assert(out@ =~= clock_text(0).subrange(0, i as int));
            }
        }
        proof {
            assert(clock_text(0).subrange(0, 8) =~= clock_text(ts_sec));
        }
    }
    out
}

/// A resolved AS name as the dashboard shows it: empty when only the bare
/// `AS<n>` form (or nothing) is known.
pub open spec fn shown_name(name: Seq<char>) -> Seq<char> {
    if name.len() == 0 || starts_with(name, seq!['A', 'S']) {
        Seq::empty()
    } else {
        name
    }
}

/// The name of `asn` to show beside it, empty when no real name is known.
pub fn display_name(names: &NameBook, asn: u32) -> (r: String)
    ensures
        r@ == shown_name(resolution(names@, asn).0),
{
    let name = names.resolved_name(asn);
    proof {
        reveal_strlit("AS");
        assert("AS"@ =~= seq!['A', 'S']);
    }
    if name.as_str().unicode_len() == 0 || str_starts_with(name.as_str(), "AS") {
        String::new()
    } else {
        name
    }
}

/// A name cut for the origin column: a name over 22 bytes (in UTF-8) is
/// cut to its longest prefix of whole characters within 21 bytes, followed
/// by `…`.
pub open spec fn short_name_of(name: Seq<char>) -> Seq<char> {
    if utf8_len(name) > 22 {
        name.subrange(0, chars_within(name, 21) as int).push('…')
    } else {
        name
    }
}

/// An AS name cut to fit the origin column, on a character boundary.
pub fn short_name(name: &str) -> (r: String)
    ensures
        r@ == short_name_of(name@),
{
    if utf8_len_exceeds(name, 22) {
        let k = count_chars_within(name, 21);
        proof {
            lemma_chars_within_longest(name@, 21);
        }
        let mut out = String::new();
        let mut i: usize = 0;
        while i < k
            invariant
                k == chars_within(name@, 21),
                k <= name@.len(),
                i <= k,
                out@ == name@.subrange(0, i as int),
            decreases k - i,
        {
            let c = name.get_char(i);
            push_char(&mut out, c);
            i = i + 1;
            proof {
                assert(out@ =~= name@.subrange(0, i as int));
            }
        }
        push_char(&mut out, '…');
        out
    } else {
        String::from_str(name)
    }
}

/// The origin column's cut keeps whole characters: the kept prefix fits in
/// 21 bytes, and one character more would not; names of at most 22 bytes
/// are kept whole.
pub proof fn law_short_name_fits(name: Seq<char>)
    ensures
        utf8_len(name) <= 22 ==> short_name_of(name) == name,
        utf8_len(name) > 22 ==> {
            let k = chars_within(name, 21) as int;
            &&& short_name_of(name) == name.subrange(0, k).push('…')
            &&& k <= name.len()
            &&& utf8_len(name.subrange(0, k)) <= 21
            &&& k < name.len() ==> utf8_len(name.subrange(0, k + 1)) > 21
        },
{
    lemma_chars_within_longest(name, 21);
}

} // verus!
