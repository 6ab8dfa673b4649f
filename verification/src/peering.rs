//! RouteViews peering status: which (collector, peer ASN) sessions are
//! active, read from the plain text of `peering-status.html`, and the
//! topics that belong to them.

use vstd::prelude::*;

use crate::prefix::{chars_of, split_chars, split_on};
use crate::text::{contains, ends_with, str_contains, str_ends_with};
use crate::textparse::{lines, lines_of, lowercased, parse_dec, parse_dec_text, split_words, to_lowercase, trim_chars, trimmed, words_of};
use crate::topics::{parse_topic, string_of, topic_of};

verus! {

/// A collector host name without a `.routeviews.org` suffix.
pub open spec fn collector_key(host: Seq<char>) -> Seq<char> {
    if ends_with(host, ".routeviews.org"@) {
        host.subrange(0, host.len() - 15)
    } else {
        host
    }
}

/// Strips `.routeviews.org` from a collector host name, giving the key used
/// in topic names.
pub fn normalize_collector(host: &str) -> (r: String)
    ensures
        r@ == collector_key(host@),
{
    proof {
        reveal_strlit(".routeviews.org");
    }
    if str_ends_with(host, ".routeviews.org") {
        let cs = chars_of(host);
        let n = cs.len();
        string_of(vstd::slice::slice_subrange(cs.as_slice(), 0, n - 15))
    } else {
        String::from_str(host)
    }
}

/// The active session a line of the peering-status page announces:
/// `hostname ASN address prefixes | ...`, skipping blank lines, the
/// column header, separator lines, rows that do not read, and rows with no
/// prefixes.
pub open spec fn peering_entry(line: Seq<char>) -> Option<(Seq<char>, u32)> {
    let l = trimmed(line);
    let lower = lowercased(l);
    if l.len() == 0 {
        None
    } else if contains(lower, "collector"@) && contains(lower, "as number"@) {
        None
    } else if l[0] == '=' || l[0] == '-' {
        None
    } else {
        let left = words_of(split_on(l, '|')[0]);
        if left.len() < 4 {
            None
        } else {
            match (parse_dec_text(left[1], u32::MAX as nat), parse_dec_text(left[left.len() - 1], u64::MAX as nat)) {
                (Some(asn), Some(prefixes)) => if prefixes == 0 {
                    None
                } else {
                    Some((collector_key(left[0]), asn as u32))
                },
                _ => None,
            }
        }
    }
}

/// The active sessions of a peering-status page.
pub open spec fn active_set(text: Seq<char>) -> Set<(Seq<char>, u32)> {
    Set::new(
        |e: (Seq<char>, u32)|
            exists|i: int| 0 <= i < lines_of(text).len() && #[trigger] peering_entry(lines_of(text)[i]) == Some(e),
    )
}

/// The abstract values of a list of sessions.
pub open spec fn sessions_view(v: Seq<(String, u32)>) -> Seq<(Seq<char>, u32)> {
    v.map_values(|e: (String, u32)| (e.0@, e.1))
}

/// Reads one line of the peering-status page.
pub fn parse_peering_line(line: &[char]) -> (r: Option<(String, u32)>)
    ensures
        match r {
            Some((c, a)) => peering_entry(line@) == Some((c@, a)),
            None => peering_entry(line@) is None,
        },
{
    let l = trim_chars(line);
    if l.len() == 0 {
        return None;
    }
    let ls = string_of(l.as_slice());
    let lower = to_lowercase(ls.as_str());
    if str_contains(lower.as_str(), "collector") && str_contains(lower.as_str(), "as number") {
        return None;
    }
    if l[0] == '=' || l[0] == '-' {
        return None;
    }
    let pipe_parts = split_chars(l.as_slice(), '|');
    proof {
        crate::prefix::lemma_split_len(l@, '|');
        assert(pipe_parts@[0]@ == split_on(l@, '|')[0]);
    }
    let left = split_words(pipe_parts[0].as_slice());
    let k = left.len();
    if k < 4 {
        return None;
    }
    proof {
        assert(left@[1]@ == words_of(split_on(l@, '|')[0])[1]);
        assert(left@[k - 1]@ == words_of(split_on(l@, '|')[0])[k - 1]);
        assert(left@[0]@ == words_of(split_on(l@, '|')[0])[0]);
    }
    let asn = match parse_dec(left[1].as_slice(), 0xffff_ffff) {
        Some(a) => a,
        None => {
            return None;
        },
    };
    let prefixes = match parse_dec(left[k - 1].as_slice(), 0xffff_ffff_ffff_ffff) {
        Some(p) => p,
        None => {
            return None;
        },
    };
    if prefixes == 0 {
        return None;
    }
    let host = string_of(left[0].as_slice());
    Some((normalize_collector(host.as_str()), asn as u32))
}

/// Whether the session list holds `(c, a)`.
fn has_session(v: &Vec<(String, u32)>, c: &String, a: u32) -> (r: bool)
    ensures
        r == sessions_view(v@).contains((c@, a)),
{
    let mut i: usize = 0;
    while i < v.len()
        invariant
            i <= v@.len(),
            forall|j: int| 0 <= j < i ==> sessions_view(v@)[j] != (c@, a),
        decreases v@.len() - i,
    {
        if v[i].1 == a && crate::text::str_eq(v[i].0.as_str(), c.as_str()) {
            proof {
                assert(sessions_view(v@)[i as int] == (c@, a));
            }
            return true;
        }
        i = i + 1;
    }
    false
}

/// Reads the peering-status page into its active (collector key, ASN)
/// sessions, each once.
pub fn parse_peering_status(text: &str) -> (r: Vec<(String, u32)>)
    ensures
        sessions_view(r@).to_set() == active_set(text@),
        sessions_view(r@).no_duplicates(),
{
    let cs = chars_of(text);
    let ls = lines(cs.as_slice());
    let ghost lv = lines_of(text@);
    let mut out: Vec<(String, u32)> = Vec::new();
    let mut i: usize = 0;
    while i < ls.len()
        invariant
            i <= ls@.len(),
            ls@.map_values(|l: Vec<char>| l@) == lv,
            lv == lines_of(text@),
            sessions_view(out@).no_duplicates(),
            forall|e: (Seq<char>, u32)| sessions_view(out@).contains(e) <==> exists|j: int|
                0 <= j < i && #[trigger] peering_entry(lv[j]) == Some(e),
        decreases ls@.len() - i,
    {
        proof {
            assert(ls@[i as int]@ == lv[i as int]);
        }
        let ghost before = sessions_view(out@);
        match parse_peering_line(ls[i].as_slice()) {
            Some((c, a)) => {
                if !has_session(&out, &c, a) {
                    out.push((c, a));
                    proof {
                        assert(sessions_view(out@) =~= before.push((c@, a)));
                    }
                }
                proof {
                    assert forall|e: (Seq<char>, u32)| sessions_view(out@).contains(e) <==> exists|j: int|
                        0 <= j < i + 1 && #[trigger] peering_entry(lv[j]) == Some(e) by {
                        if sessions_view(out@).contains(e) && !before.contains(e) {
                            assert(peering_entry(lv[i as int]) == Some(e));
                        }
                        if exists|j: int| 0 <= j < i + 1 && #[trigger] peering_entry(lv[j]) == Some(e) {
                            let j = choose|j: int| 0 <= j < i + 1 && #[trigger] peering_entry(lv[j]) == Some(e);
                            if j == i {
                                assert(e == (c@, a));
                                if before.contains(e) {
                                } else {
                                    assert(sessions_view(out@)[sessions_view(out@).len() - 1] == e);
                                }
                            } else {
                                assert(before.contains(e));
                                let k = choose|k: int| 0 <= k < before.len() && before[k] == e;
                                assert(sessions_view(out@)[k] == e);
                            }
                        }
                    }
                }
            },
            None => {
                proof {
                    assert forall|e: (Seq<char>, u32)| sessions_view(out@).contains(e) <==> exists|j: int|
                        0 <= j < i + 1 && #[trigger] peering_entry(lv[j]) == Some(e) by {
                        if exists|j: int| 0 <= j < i + 1 && #[trigger] peering_entry(lv[j]) == Some(e) {
                            let j = choose|j: int| 0 <= j < i + 1 && #[trigger] peering_entry(lv[j]) == Some(e);
                            assert(j != i);
                        }
                    }
                }
            },
        }
        i = i + 1;
    }
    proof {
        assert(sessions_view(out@).to_set() =~= active_set(text@));
    }
    out
}

/// A topic is kept when it reads, its ASN reads as a `u32` other than 0,
/// and its (collector, ASN) session is active.
pub open spec fn topic_active(t: Seq<char>, active: Seq<(Seq<char>, u32)>) -> bool {
    match topic_of(t) {
        Some(p) => match parse_dec_text(p.asn_str, u32::MAX as nat) {
            Some(a) => a != 0 && active.contains((p.collector, a as u32)),
            None => false,
        },
        None => false,
    }
}

/// The topics of active sessions, in their order.
pub fn filter_active_topics(topics: &[String], active: &Vec<(String, u32)>) -> (r: Vec<String>)
    ensures
        r@.map_values(|s: String| s@) == topics@.map_values(|s: String| s@).filter(
            |t: Seq<char>| topic_active(t, sessions_view(active@)),
        ),
{
    let ghost tv = topics@.map_values(|s: String| s@);
    let ghost pred = |t: Seq<char>| topic_active(t, sessions_view(active@));
    let mut kept: Vec<String> = Vec::new();
    let mut i: usize = 0;
    while i < topics.len()
        invariant
            i <= topics@.len(),
            tv == topics@.map_values(|s: String| s@),
            pred == (|t: Seq<char>| topic_active(t, sessions_view(active@))),
            kept@.map_values(|s: String| s@) == tv.subrange(0, i as int).filter(pred),
        decreases topics@.len() - i,
    {
        let t = &topics[i];
        let ghost before = kept@.map_values(|s: String| s@);
        proof {
            assert(tv.subrange(0, i + 1).drop_last() =~= tv.subrange(0, i as int));
            assert(tv.subrange(0, i + 1).last() == t@);
            reveal(Seq::filter);
        }
        let keep = match parse_topic(t.as_str()) {
            Some(pt) => {
                let acs = chars_of(pt.asn_str.as_str());
                match parse_dec(acs.as_slice(), 0xffff_ffff) {
                    Some(a) => a != 0 && has_session(active, &pt.collector, a as u32),
                    None => false,
                }
            },
            None => false,
        };
        proof {
            reveal(Seq::filter);
            assert(keep == pred(t@));
        }
        if keep {
            kept.push(t.clone());
            proof {
                assert(kept@.map_values(|s: String| s@) =~= before.push(t@));
            }
        }
        i = i + 1;
    }
    proof {
        assert(tv.subrange(0, topics@.len() as int) =~= tv);
    }
    kept
}

} // verus!
