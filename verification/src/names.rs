//! AS names: cleaning Team Cymru names, reading the bundled name tables,
//! and resolving an ASN through them in a fixed order of preference.

use std::collections::BTreeMap;
use vstd::prelude::*;

use crate::prefix::{chars_of, first_pos, split_chars, split_on};
use crate::text::{contains, dec_str, occurs_at, starts_with};
use crate::textparse::{lines, lines_of, parse_dec, parse_dec_text, trim_chars, trimmed};
use crate::topics::string_of;

verus! {

// ───────────────────────── character helpers ─────────────────────────

/// Whether `s` begins with `p`.
pub fn chars_start_with(s: &[char], p: &[char]) -> (r: bool)
    ensures
        r == starts_with(s@, p@),
{
    let n = s.len();
    let m = p.len();
    if m > n {
        return false;
    }
    let mut i: usize = 0;
    while i < m
        invariant
            i <= m <= n,
            n == s@.len(),
            m == p@.len(),
            forall|j: int| 0 <= j < i ==> s@[j] == p@[j],
        decreases m - i,
    {
        if s[i] != p[i] {
            proof {
                assert(s@.subrange(0, m as int)[i as int] != p@[i as int]);
            }
            return false;
        }
        i = i + 1;
    }
    proof {
        assert(s@.subrange(0, m as int) =~= p@);
    }
    true
}

/// Position of the first occurrence of `needle` in `s`.
pub open spec fn first_sub(s: Seq<char>, needle: Seq<char>) -> Option<int> {
    if exists|i: int| occurs_at(s, needle, i) {
        Some(choose|i: int| occurs_at(s, needle, i) && forall|j: int| 0 <= j < i ==> !occurs_at(s, needle, j))
    } else {
        None
    }
}

/// Finds the first occurrence of `needle` in `s`.
pub fn find_sub(s: &[char], needle: &[char]) -> (r: Option<usize>)
    ensures
        match r {
            Some(i) => first_sub(s@, needle@) == Some(i as int) && occurs_at(s@, needle@, i as int),
            None => first_sub(s@, needle@) is None,
        },
{
    let n = s.len();
    let m = needle.len();
    if m > n {
        proof {
            assert forall|i: int| !occurs_at(s@, needle@, i) by {
            }
        }
        return None;
    }
    let mut i: usize = 0;
    while n - i >= m
        invariant
            m <= n,
            n == s@.len(),
            m == needle@.len(),
            i <= n,
            forall|j: int| 0 <= j < i ==> !occurs_at(s@, needle@, j),
        decreases n - i,
    {
        let tail = vstd::slice::slice_subrange(s, i, n);
        if chars_start_with(tail, needle) {
            proof {
                assert(tail@.subrange(0, m as int) =~= s@.subrange(i as int, i + m));
                assert(occurs_at(s@, needle@, i as int));
                let c = choose|c: int| occurs_at(s@, needle@, c) && forall|j: int| 0 <= j < c ==> !occurs_at(s@, needle@, j);
                if c < i {
                    assert(!occurs_at(s@, needle@, c));
                } else if c > i {
                    assert(!occurs_at(s@, needle@, i as int));
                }
            }
            return Some(i);
        }
        proof {
            if occurs_at(s@, needle@, i as int) {
                assert(tail@.subrange(0, m as int) =~= s@.subrange(i as int, i + m));
            }
            if m == 0 {
                assert(tail@.subrange(0, 0) =~= needle@);
            }
        }
        i = i + 1;
    }
    proof {
        assert forall|k: int| !occurs_at(s@, needle@, k) by {
            if 0 <= k < i {
            }
        }
    }
    None
}

// ───────────────────────── Team Cymru names ─────────────────────────

/// The text after the first of `AS<asn> - `, `AS<asn> `, `<asn> - `,
/// `<asn> ` that begins `name`.
pub open spec fn after_asn_prefix(name: Seq<char>, asn: u32) -> Option<Seq<char>> {
    let d = dec_str(asn as nat);
    let p1 = "AS"@ + d + " - "@;
    let p2 = "AS"@ + d + " "@;
    let p3 = d + " - "@;
    let p4 = d + " "@;
    if starts_with(name, p1) {
        Some(name.subrange(p1.len() as int, name.len() as int))
    } else if starts_with(name, p2) {
        Some(name.subrange(p2.len() as int, name.len() as int))
    } else if starts_with(name, p3) {
        Some(name.subrange(p3.len() as int, name.len() as int))
    } else if starts_with(name, p4) {
        Some(name.subrange(p4.len() as int, name.len() as int))
    } else {
        None
    }
}

/// A registry handle: upper-case ASCII letters, digits and `-` only.
pub open spec fn is_handle(h: Seq<char>) -> bool {
    forall|i: int| 0 <= i < h.len() ==> (('A' <= h[i] && h[i] <= 'Z') || ('0' <= h[i] && h[i] <= '9') || h[i] == '-')
}

/// A Team Cymru AS name without what repeats the ASN: trimmed; a leading
/// `AS<asn> - `, `AS<asn> `, `<asn> - ` or `<asn> ` removed (when something
/// is left); else a leading `HANDLE - ` removed when the handle names no
/// other ASN.
pub open spec fn cymru_name(asn: u32, raw: Seq<char>) -> Seq<char> {
    let name = trimmed(raw);
    if name.len() == 0 {
        Seq::empty()
    } else {
        match after_asn_prefix(name, asn) {
            Some(rest) => if trimmed(rest).len() > 0 {
                trimmed(rest)
            } else {
                name
            },
            None => match first_sub(name, " - "@) {
                Some(k) => {
                    let handle = name.subrange(0, k);
                    let rest = trimmed(name.subrange(k + 3, name.len() as int));
                    let other_asn = starts_with(handle, "AS"@) && !contains(handle, dec_str(asn as nat));
                    if is_handle(handle) && !other_asn && rest.len() > 0 {
                        rest
                    } else {
                        name
                    }
                },
                None => name,
            },
        }
    }
}

fn handle_chars(h: &[char]) -> (r: bool)
    ensures
        r == is_handle(h@),
{
    let mut i: usize = 0;
    while i < h.len()
        invariant
            i <= h@.len(),
            forall|j: int| 0 <= j < i ==> (('A' <= h@[j] && h@[j] <= 'Z') || ('0' <= h@[j] && h@[j] <= '9') || h@[j]
                == '-'),
        decreases h@.len() - i,
    {
        let c = h[i];
        if !(('A' <= c && c <= 'Z') || ('0' <= c && c <= '9') || c == '-') {
            return false;
        }
        i = i + 1;
    }
    true
}

/// Where the text after a leading ASN prefix starts, if one begins `name`.
fn asn_prefix_cut(name: &[char], asn: u32) -> (r: Option<usize>)
    ensures
        match r {
            Some(k) => k <= name@.len() && after_asn_prefix(name@, asn) == Some(name@.subrange(k as int, name@.len() as int)),
            None => after_asn_prefix(name@, asn) is None,
        },
{
    proof {
        reveal_strlit("AS");
        reveal_strlit(" - ");
        reveal_strlit(" ");
    }
    let d = crate::text::decimal(asn as u64);
    let mut p1 = String::from_str("AS");
    p1.append(d.as_str());
    p1.append(" - ");
    let mut p2 = String::from_str("AS");
    p2.append(d.as_str());
    p2.append(" ");
    let mut p3 = d.clone();
    p3.append(" - ");
    let mut p4 = d.clone();
    p4.append(" ");
    let c1 = chars_of(p1.as_str());
    let c2 = chars_of(p2.as_str());
    let c3 = chars_of(p3.as_str());
    let c4 = chars_of(p4.as_str());
    if chars_start_with(name, c1.as_slice()) {
        Some(c1.len())
    } else if chars_start_with(name, c2.as_slice()) {
        Some(c2.len())
    } else if chars_start_with(name, c3.as_slice()) {
        Some(c3.len())
    } else if chars_start_with(name, c4.as_slice()) {
        Some(c4.len())
    } else {
        None
    }
}

/// The name without a leading `HANDLE - `, when that applies.
fn strip_handle(name: &[char], asn: u32) -> (r: Vec<char>)
    requires
        name@.len() > 0,
        after_asn_prefix(name@, asn) is None,
        name@ == trimmed(name@),
    ensures
        r@ == match first_sub(name@, " - "@) {
            Some(k) => {
                let handle = name@.subrange(0, k);
                let rest = trimmed(name@.subrange(k + 3, name@.len() as int));
                let other_asn = starts_with(handle, "AS"@) && !contains(handle, dec_str(asn as nat));
                if is_handle(handle) && !other_asn && rest.len() > 0 {
                    rest
                } else {
                    name@
                }
            },
            None => name@,
        },
{
    proof {
        reveal_strlit(" - ");
    }
    let n = name.len();
    let sep = chars_of(" - ");
    match find_sub(name, sep.as_slice()) {
        Some(k) => {
            let handle = vstd::slice::slice_subrange(name, 0, k);
            let rest = trim_chars(vstd::slice::slice_subrange(name, k + 3, n));
            let hs = string_of(handle);
            let d = crate::text::decimal(asn as u64);
            let other_asn = crate::text::str_starts_with(hs.as_str(), "AS") && !crate::text::str_contains(
                hs.as_str(),
                d.as_str(),
            );
            if handle_chars(handle) && !other_asn && rest.len() > 0 {
                return rest;
            }
            crate::prefix::copy_chars(name)
        },
        None => crate::prefix::copy_chars(name),
    }
}

/// Removes what repeats the ASN from a Team Cymru AS name.
pub fn normalize_cymru_name(asn: u32, raw: &str) -> (r: String)
    ensures
        r@ == cymru_name(asn, raw@),
{
    let rc = chars_of(raw);
    let name = trim_chars(rc.as_slice());
    if name.len() == 0 {
        return String::new();
    }
    proof {
        crate::textparse::lemma_trim_idem(raw@);
    }
    let n = name.len();
    match asn_prefix_cut(name.as_slice(), asn) {
        Some(k) => {
            let rest = vstd::slice::slice_subrange(name.as_slice(), k, n);
            let s = trim_chars(rest);
            if s.len() > 0 {
                return string_of(s.as_slice());
            }
            return string_of(name.as_slice());
        },
        None => {},
    }
    let out = strip_handle(name.as_slice(), asn);
    string_of(out.as_slice())
}

} // verus!

verus! {

// ───────────────────────── bundled tables ─────────────────────────

/// A line of the curated name seed: `ASN|name`; blank lines and `#`
/// comments carry nothing.
pub open spec fn seed_entry(line: Seq<char>) -> Option<(u32, Seq<char>)> {
    let l = trimmed(line);
    if l.len() == 0 || l[0] == '#' {
        None
    } else {
        match first_pos(l, '|') {
            None => None,
            Some(k) => match parse_dec_text(l.subrange(0, k), u32::MAX as nat) {
                Some(a) => Some((a as u32, l.subrange(k + 1, l.len() as int))),
                None => None,
            },
        }
    }
}

/// A line of the Team Cymru seed: `ASN | CC | registry | allocated | name`,
/// with the name cleaned; lines that do not read carry nothing.
pub open spec fn cymru_seed_entry(line: Seq<char>) -> Option<(u32, Seq<char>)> {
    let l = trimmed(line);
    if l.len() == 0 {
        None
    } else {
        let p = split_on(l, '|');
        if p.len() < 5 {
            None
        } else {
            match parse_dec_text(p[0], u32::MAX as nat) {
                Some(a) => {
                    let n = cymru_name(a as u32, trimmed(p[4]));
                    if n.len() > 0 {
                        Some((a as u32, n))
                    } else {
                        None
                    }
                },
                None => None,
            }
        }
    }
}

/// The entry a line carries in a table of either kind.
pub open spec fn table_entry(line: Seq<char>, cymru: bool) -> Option<(u32, Seq<char>)> {
    if cymru {
        cymru_seed_entry(line)
    } else {
        seed_entry(line)
    }
}

/// A name table read from lines, a later line for an ASN replacing an earlier one.
pub open spec fn table_of(ls: Seq<Seq<char>>, cymru: bool) -> Map<u32, Seq<char>>
    decreases ls.len(),
{
    if ls.len() == 0 {
        Map::empty()
    } else {
        let m = table_of(ls.drop_last(), cymru);
        match table_entry(ls.last(), cymru) {
            Some((a, n)) => m.insert(a, n),
            None => m,
        }
    }
}

/// The abstract value of a name map.
pub open spec fn names_view(m: Map<u32, String>) -> Map<u32, Seq<char>> {
    m.map_values(|s: String| s@)
}

fn seed_line(line: &[char]) -> (r: Option<(u32, String)>)
    ensures
        match r {
            Some((a, n)) => seed_entry(line@) == Some((a, n@)),
            None => seed_entry(line@) is None,
        },
{
    let l = trim_chars(line);
    if l.len() == 0 || l[0] == '#' {
        return None;
    }
    let n = l.len();
    match crate::prefix::find_char(l.as_slice(), '|') {
        None => None,
        Some(k) => match parse_dec(vstd::slice::slice_subrange(l.as_slice(), 0, k), 0xffff_ffff) {
            Some(a) => Some((a as u32, string_of(vstd::slice::slice_subrange(l.as_slice(), k + 1, n)))),
            None => None,
        },
    }
}

fn cymru_seed_line(line: &[char]) -> (r: Option<(u32, String)>)
    ensures
        match r {
            Some((a, n)) => cymru_seed_entry(line@) == Some((a, n@)),
            None => cymru_seed_entry(line@) is None,
        },
{
    let l = trim_chars(line);
    if l.len() == 0 {
        return None;
    }
    let p = split_chars(l.as_slice(), '|');
    if p.len() < 5 {
        return None;
    }
    proof {
        assert(p@[0]@ == split_on(l@, '|')[0]);
        assert(p@[4]@ == split_on(l@, '|')[4]);
    }
    match parse_dec(p[0].as_slice(), 0xffff_ffff) {
        Some(a) => {
            let raw = string_of(trim_chars(p[4].as_slice()).as_slice());
            let name = normalize_cymru_name(a as u32, raw.as_str());
            if name.as_str().unicode_len() > 0 {
                Some((a as u32, name))
            } else {
                None
            }
        },
        None => None,
    }
}

/// Reads a name table (the curated seed, or with `cymru` the Team Cymru
/// seed) from its text.
pub fn parse_name_table(text: &str, cymru: bool) -> (r: BTreeMap<u32, String>)
    ensures
        names_view(r@) == table_of(lines_of(text@), cymru),
{
    let cs = chars_of(text);
    let ls = lines(cs.as_slice());
    let ghost lv = lines_of(text@);
    let mut m: BTreeMap<u32, String> = BTreeMap::new();
    let mut i: usize = 0;
    proof {
        assert(names_view(m@) =~= table_of(lv.subrange(0, 0), cymru));
    }
    while i < ls.len()
        invariant
            i <= ls@.len(),
            ls@.map_values(|l: Vec<char>| l@) == lv,
            names_view(m@) == table_of(lv.subrange(0, i as int), cymru),
        decreases ls@.len() - i,
    {
        proof {
            assert(ls@[i as int]@ == lv[i as int]);
            assert(lv.subrange(0, i + 1).drop_last() =~= lv.subrange(0, i as int));
        }
        let entry = if cymru {
            cymru_seed_line(ls[i].as_slice())
        } else {
            seed_line(ls[i].as_slice())
        };
        match entry {
            Some((a, n)) => {
                let ghost before = m@;
                let ghost nv = n@;
                m.insert(a, n);
                proof {
                    assert(names_view(m@) =~= names_view(before).insert(a, nv));
                }
            },
            None => {},
        }
        i = i + 1;
    }
    proof {
        assert(lv.subrange(0, ls@.len() as int) =~= lv);
    }
    m
}

/// A row of the bundled RouteViews peer table: tab-separated, with the
/// collector key, ASN, prefix count and peer name in columns 1, 2, 4 and 7;
/// rows that do not read, or have no name, carry nothing.
pub open spec fn peer_row(line: Seq<char>) -> Option<(Seq<char>, u32, Seq<char>, u64)> {
    let l = trimmed(line);
    if l.len() == 0 {
        None
    } else {
        let p = split_on(l, '\t');
        if p.len() < 7 {
            None
        } else {
            match (parse_dec_text(p[1], u32::MAX as nat), parse_dec_text(p[3], u64::MAX as nat)) {
                (Some(a), Some(x)) => {
                    let name = trimmed(p[6]);
                    if name.len() == 0 {
                        None
                    } else {
                        Some((p[0], a as u32, name, x as u64))
                    }
                },
                _ => None,
            }
        }
    }
}

/// Position of the entry for (`c`, `a`) in a peer table.
pub open spec fn peer_slot(t: Seq<(Seq<char>, u32, Seq<char>, u64)>, c: Seq<char>, a: u32) -> Option<int> {
    if exists|i: int| 0 <= i < t.len() && t[i].0 == c && t[i].1 == a {
        Some(choose|i: int| 0 <= i < t.len() && t[i].0 == c && t[i].1 == a)
    } else {
        None
    }
}

/// Peer keys are distinct.
pub open spec fn peer_keys_distinct(t: Seq<(Seq<char>, u32, Seq<char>, u64)>) -> bool {
    forall|i: int, j: int| 0 <= i < j < t.len() ==> !(t[i].0 == t[j].0 && t[i].1 == t[j].1)
}

/// The peer table after a row: a session seen before keeps the row with
/// more prefixes (the earlier one on a tie); a new session is appended.
pub open spec fn with_row(t: Seq<(Seq<char>, u32, Seq<char>, u64)>, r: (Seq<char>, u32, Seq<char>, u64)) -> Seq<(Seq<char>, u32, Seq<char>, u64)> {
    match peer_slot(t, r.0, r.1) {
        Some(i) => if t[i].3 >= r.3 {
            t
        } else {
            t.update(i, r)
        },
        None => t.push(r),
    }
}

/// The peer table read from lines.
pub open spec fn peers_of(ls: Seq<Seq<char>>) -> Seq<(Seq<char>, u32, Seq<char>, u64)>
    decreases ls.len(),
{
    if ls.len() == 0 {
        Seq::empty()
    } else {
        let t = peers_of(ls.drop_last());
        match peer_row(ls.last()) {
            Some(r) => with_row(t, r),
            None => t,
        }
    }
}

/// One session of the bundled RouteViews peer table.
#[derive(Debug, Clone)]
pub struct RouteViewsPeer {
    pub collector: String,
    pub asn: u32,
    pub as_name: String,
    pub prefixes: u64,
}

/// The abstract value of a peer table.
pub open spec fn rv_view(v: Seq<RouteViewsPeer>) -> Seq<(Seq<char>, u32, Seq<char>, u64)> {
    v.map_values(|p: RouteViewsPeer| (p.collector@, p.asn, p.as_name@, p.prefixes))
}

fn peer_line(line: &[char]) -> (r: Option<RouteViewsPeer>)
    ensures
        match r {
            Some(p) => peer_row(line@) == Some((p.collector@, p.asn, p.as_name@, p.prefixes)),
            None => peer_row(line@) is None,
        },
{
    let l = trim_chars(line);
    if l.len() == 0 {
        return None;
    }
    let p = split_chars(l.as_slice(), '\t');
    if p.len() < 7 {
        return None;
    }
    proof {
        assert(p@[0]@ == split_on(l@, '\t')[0]);
        assert(p@[1]@ == split_on(l@, '\t')[1]);
        assert(p@[3]@ == split_on(l@, '\t')[3]);
        assert(p@[6]@ == split_on(l@, '\t')[6]);
    }
    let asn = match parse_dec(p[1].as_slice(), 0xffff_ffff) {
        Some(a) => a,
        None => {
            return None;
        },
    };
    let prefixes = match parse_dec(p[3].as_slice(), 0xffff_ffff_ffff_ffff) {
        Some(x) => x,
        None => {
            return None;
        },
    };
    let name = trim_chars(p[6].as_slice());
    if name.len() == 0 {
        return None;
    }
    Some(RouteViewsPeer {
        collector: string_of(p[0].as_slice()),
        asn: asn as u32,
        as_name: string_of(name.as_slice()),
        prefixes,
    })
}

fn find_peer_row(v: &Vec<RouteViewsPeer>, c: &str, a: u32) -> (r: Option<usize>)
    requires
        peer_keys_distinct(rv_view(v@)),
    ensures
        match r {
            Some(i) => i < v@.len() && peer_slot(rv_view(v@), c@, a) == Some(i as int),
            None => peer_slot(rv_view(v@), c@, a) is None,
        },
{
    let ghost t = rv_view(v@);
    let mut i: usize = 0;
    while i < v.len()
        invariant
            i <= v@.len(),
            t == rv_view(v@),
            peer_keys_distinct(t),
            forall|j: int| 0 <= j < i ==> !(t[j].0 == c@ && t[j].1 == a),
        decreases v@.len() - i,
    {
        if v[i].asn == a && crate::text::str_eq(v[i].collector.as_str(), c) {
            proof {
                assert(t[i as int].0 == c@ && t[i as int].1 == a);
                let k = choose|k: int| 0 <= k < t.len() && t[k].0 == c@ && t[k].1 == a;
                if k != i {
                    if k < i {
                    } else {
                        assert(!(t[i as int].0 == t[k].0 && t[i as int].1 == t[k].1));
                    }
                }
            }
            return Some(i);
        }
        i = i + 1;
    }
    None
}

/// Reads the bundled RouteViews peer table from its text.
pub fn parse_routeviews_peers(text: &str) -> (r: Vec<RouteViewsPeer>)
    ensures
        rv_view(r@) == peers_of(lines_of(text@)),
        peer_keys_distinct(rv_view(r@)),
{
    let cs = chars_of(text);
    let ls = lines(cs.as_slice());
    let ghost lv = lines_of(text@);
    let mut t: Vec<RouteViewsPeer> = Vec::new();
    let mut i: usize = 0;
    proof {
        assert(rv_view(t@) =~= peers_of(lv.subrange(0, 0)));
    }
    while i < ls.len()
        invariant
            i <= ls@.len(),
            ls@.map_values(|l: Vec<char>| l@) == lv,
            rv_view(t@) == peers_of(lv.subrange(0, i as int)),
            peer_keys_distinct(rv_view(t@)),
        decreases ls@.len() - i,
    {
        proof {
            assert(ls@[i as int]@ == lv[i as int]);
            assert(lv.subrange(0, i + 1).drop_last() =~= lv.subrange(0, i as int));
        }
        let ghost tv = rv_view(t@);
        match peer_line(ls[i].as_slice()) {
            Some(row) => {
                let ghost rv = (row.collector@, row.asn, row.as_name@, row.prefixes);
                match find_peer_row(&t, row.collector.as_str(), row.asn) {
                    Some(k) => {
                        if t[k].prefixes >= row.prefixes {
                        } else {
                            t.set(k, row);
                            proof {
                                assert(rv_view(t@) =~= tv.update(k as int, rv));
                                assert forall|a: int, b: int| 0 <= a < b < rv_view(t@).len() implies !(rv_view(t@)[a].0
                                    == rv_view(t@)[b].0 && rv_view(t@)[a].1 == rv_view(t@)[b].1) by {
                                    if a == k {
                                        assert(!(tv[k as int].0 == tv[b].0 && tv[k as int].1 == tv[b].1));
                                    } else if b == k {
                                        assert(!(tv[a].0 == tv[k as int].0 && tv[a].1 == tv[k as int].1));
                                    }
                                }
                            }
                        }
                    },
                    None => {
                        t.push(row);
                        proof {
                            assert(rv_view(t@) =~= tv.push(rv));
                            assert forall|a: int, b: int| 0 <= a < b < rv_view(t@).len() implies !(rv_view(t@)[a].0
                                == rv_view(t@)[b].0 && rv_view(t@)[a].1 == rv_view(t@)[b].1) by {
                                if b == tv.len() {
                                    if tv[a].0 == rv.0 && tv[a].1 == rv.1 {
                                        assert(exists|i: int| 0 <= i < tv.len() && tv[i].0 == rv.0 && tv[i].1 == rv.1);
                                    }
                                }
                            }
                        }
                    },
                }
            },
            None => {},
        }
        i = i + 1;
    }
    proof {
        assert(lv.subrange(0, ls@.len() as int) =~= lv);
    }
    t
}

/// The prefix count of the session (`collector`, `asn`).
pub fn routeviews_prefix_count(peers: &Vec<RouteViewsPeer>, collector: &str, asn: u32) -> (r: Option<u64>)
    requires
        peer_keys_distinct(rv_view(peers@)),
    ensures
        r == match peer_slot(rv_view(peers@), collector@, asn) {
            Some(i) => Some(rv_view(peers@)[i].3),
            None => None::<u64>,
        },
{
    match find_peer_row(peers, collector, asn) {
        Some(i) => Some(peers[i].prefixes),
        None => None,
    }
}

/// The peer name of the session (`collector`, `asn`).
pub fn routeviews_peer_name(peers: &Vec<RouteViewsPeer>, collector: &str, asn: u32) -> (r: Option<String>)
    requires
        peer_keys_distinct(rv_view(peers@)),
    ensures
        match peer_slot(rv_view(peers@), collector@, asn) {
            Some(i) => r matches Some(n) && n@ == rv_view(peers@)[i].2,
            None => r is None,
        },
{
    match find_peer_row(peers, collector, asn) {
        Some(i) => Some(peers[i].as_name.clone()),
        None => None,
    }
}

/// The sessions with prefixes, as (collector key, ASN).
pub fn bundled_active_set(peers: &Vec<RouteViewsPeer>) -> (r: Vec<(String, u32)>)
    ensures
        r@.map_values(|e: (String, u32)| (e.0@, e.1)) == rv_view(peers@).filter(
            |p: (Seq<char>, u32, Seq<char>, u64)| p.3 > 0,
        ).map_values(|p: (Seq<char>, u32, Seq<char>, u64)| (p.0, p.1)),
{
    let ghost t = rv_view(peers@);
    let ghost pred = |p: (Seq<char>, u32, Seq<char>, u64)| p.3 > 0;
    let mut out: Vec<(String, u32)> = Vec::new();
    let mut i: usize = 0;
    while i < peers.len()
        invariant
            i <= peers@.len(),
            t == rv_view(peers@),
            pred == (|p: (Seq<char>, u32, Seq<char>, u64)| p.3 > 0),
            out@.map_values(|e: (String, u32)| (e.0@, e.1)) == t.subrange(0, i as int).filter(pred).map_values(
                |p: (Seq<char>, u32, Seq<char>, u64)| (p.0, p.1),
            ),
        decreases peers@.len() - i,
    {
        proof {
            reveal(Seq::filter);
            assert(t.subrange(0, i + 1).drop_last() =~= t.subrange(0, i as int));
        }
        let ghost before = out@.map_values(|e: (String, u32)| (e.0@, e.1));
        if peers[i].prefixes > 0 {
            out.push((peers[i].collector.clone(), peers[i].asn));
            proof {
                assert(out@.map_values(|e: (String, u32)| (e.0@, e.1)) =~= before.push(
                    (t[i as int].0, t[i as int].1),
                ));
                assert(t.subrange(0, i + 1).filter(pred) == t.subrange(0, i as int).filter(pred).push(t[i as int]));
                assert(t.subrange(0, i + 1).filter(pred).map_values(|p: (Seq<char>, u32, Seq<char>, u64)| (p.0, p.1))
                    =~= t.subrange(0, i as int).filter(pred).map_values(
                    |p: (Seq<char>, u32, Seq<char>, u64)| (p.0, p.1),
                ).push((t[i as int].0, t[i as int].1)));
            }
        }
        i = i + 1;
    }
    proof {
        assert(t.subrange(0, peers@.len() as int) =~= t);
    }
    out
}

/// Name fallback by ASN alone: over the peer table in order, the name of
/// the session with the most prefixes (the earlier on a tie).
pub open spec fn fallback_of(t: Seq<(Seq<char>, u32, Seq<char>, u64)>) -> Map<u32, (Seq<char>, u64)>
    decreases t.len(),
{
    if t.len() == 0 {
        Map::empty()
    } else {
        let m = fallback_of(t.drop_last());
        let p = t.last();
        if m.contains_key(p.1) && m[p.1].1 >= p.3 {
            m
        } else {
            m.insert(p.1, (p.2, p.3))
        }
    }
}

/// Builds the by-ASN name fallback from the peer table.
pub fn routeviews_asn_fallback(peers: &Vec<RouteViewsPeer>) -> (r: BTreeMap<u32, (String, u64)>)
    ensures
        r@.map_values(|e: (String, u64)| (e.0@, e.1)) == fallback_of(rv_view(peers@)),
{
    let ghost t = rv_view(peers@);
    let mut m: BTreeMap<u32, (String, u64)> = BTreeMap::new();
    let mut i: usize = 0;
    proof {
        assert(m@.map_values(|e: (String, u64)| (e.0@, e.1)) =~= fallback_of(t.subrange(0, 0)));
    }
    while i < peers.len()
        invariant
            i <= peers@.len(),
            t == rv_view(peers@),
            m@.map_values(|e: (String, u64)| (e.0@, e.1)) == fallback_of(t.subrange(0, i as int)),
        decreases peers@.len() - i,
    {
        proof {
            assert(t.subrange(0, i + 1).drop_last() =~= t.subrange(0, i as int));
        }
        let p = &peers[i];
        let keep = match m.get(&p.asn) {
            Some(e) => e.1 >= p.prefixes,
            None => false,
        };
        if !keep {
            let ghost before = m@;
            m.insert(p.asn, (p.as_name.clone(), p.prefixes));
            proof {
                assert(m@.map_values(|e: (String, u64)| (e.0@, e.1)) =~= before.map_values(
                    |e: (String, u64)| (e.0@, e.1),
                ).insert(p.asn, (p.as_name@, p.prefixes)));
            }
        }
        i = i + 1;
    }
    proof {
        assert(t.subrange(0, peers@.len() as int) =~= t);
    }
    m
}

} // verus!

verus! {

// ───────────────────────── resolving names ─────────────────────────

/// Abstract value of a [`NameBook`].
pub struct NameBookV {
    pub cache: Map<u32, Seq<char>>,
    pub seed: Map<u32, Seq<char>>,
    pub cymru_cache: Map<u32, Seq<char>>,
    pub cymru_seed: Map<u32, Seq<char>>,
    pub fallback: Map<u32, (Seq<char>, u64)>,
}

/// The name of an ASN and the book after looking it up: the name resolved
/// before (an empty one standing for none), else the curated seed, the
/// Team Cymru cache, the Team Cymru seed and the RouteViews fallback in
/// that order, remembering what was found; `AS<asn>` when nothing names it.
pub open spec fn resolution(b: NameBookV, asn: u32) -> (Seq<char>, NameBookV) {
    let raw = "AS"@ + dec_str(asn as nat);
    if b.cache.contains_key(asn) {
        (if b.cache[asn].len() > 0 {
            b.cache[asn]
        } else {
            raw
        }, b)
    } else if b.seed.contains_key(asn) {
        (b.seed[asn], NameBookV { cache: b.cache.insert(asn, b.seed[asn]), ..b })
    } else if b.cymru_cache.contains_key(asn) {
        (b.cymru_cache[asn], NameBookV { cache: b.cache.insert(asn, b.cymru_cache[asn]), ..b })
    } else if b.cymru_seed.contains_key(asn) {
        (b.cymru_seed[asn], NameBookV { cache: b.cache.insert(asn, b.cymru_seed[asn]), ..b })
    } else if b.fallback.contains_key(asn) {
        (b.fallback[asn].0, NameBookV { cache: b.cache.insert(asn, b.fallback[asn].0), ..b })
    } else {
        (raw, NameBookV { cache: b.cache.insert(asn, Seq::empty()), ..b })
    }
}

/// The name of an ASN given as text (empty when the text is no `u32`).
pub open spec fn name_text(b: NameBookV, asn_str: Seq<char>) -> Seq<char> {
    match parse_dec_text(asn_str, u32::MAX as nat) {
        Some(a) => resolution(b, a as u32).0,
        None => Seq::empty(),
    }
}

/// The name tables and the names resolved so far.
pub struct NameBook {
    cache: BTreeMap<u32, String>,
    seed: BTreeMap<u32, String>,
    cymru_cache: BTreeMap<u32, String>,
    cymru_seed: BTreeMap<u32, String>,
    fallback: BTreeMap<u32, (String, u64)>,
}

impl View for NameBook {
    type V = NameBookV;

    closed spec fn view(&self) -> NameBookV {
        NameBookV {
            cache: names_view(self.cache@),
            seed: names_view(self.seed@),
            cymru_cache: names_view(self.cymru_cache@),
            cymru_seed: names_view(self.cymru_seed@),
            fallback: self.fallback@.map_values(|e: (String, u64)| (e.0@, e.1)),
        }
    }
}

impl NameBook {
    /// A book over the given tables, with nothing resolved yet.
    pub fn new(
        seed: BTreeMap<u32, String>,
        cymru_cache: BTreeMap<u32, String>,
        cymru_seed: BTreeMap<u32, String>,
        fallback: BTreeMap<u32, (String, u64)>,
    ) -> (r: Self)
        ensures
            r@ == (NameBookV {
                cache: Map::empty(),
                seed: names_view(seed@),
                cymru_cache: names_view(cymru_cache@),
                cymru_seed: names_view(cymru_seed@),
                fallback: fallback@.map_values(|e: (String, u64)| (e.0@, e.1)),
            }),
    {
        let r = NameBook { cache: BTreeMap::new(), seed, cymru_cache, cymru_seed, fallback };
        proof {
            assert(names_view(r.cache@) =~= Map::empty());
        }
        r
    }

    fn remember(&mut self, asn: u32, name: &String)
        ensures
            final(self)@ == (NameBookV { cache: old(self)@.cache.insert(asn, name@), ..old(self)@ }),
    {
        let ghost before = self.cache@;
        self.cache.insert(asn, name.clone());
        proof {
            assert(names_view(self.cache@) =~= names_view(before).insert(asn, name@));
        }
    }

    /// Resolves an ASN to a name (never fails: `AS<asn>` for unknowns).
    pub fn as_name_resolve(&mut self, asn: u32) -> (r: String)
        ensures
            (r@, final(self)@) == resolution(old(self)@, asn),
    {
        proof {
            reveal_strlit("AS");
        }
        let mut raw = String::from_str("AS");
        crate::text::append_decimal(&mut raw, asn as u64);
        match self.cache.get(&asn) {
            Some(n) => {
                if n.as_str().unicode_len() > 0 {
                    return n.clone();
                }
                return raw;
            },
            None => {},
        }
        let found: Option<String> = match self.seed.get(&asn) {
            Some(n) => Some(n.clone()),
            None => match self.cymru_cache.get(&asn) {
                Some(n) => Some(n.clone()),
                None => match self.cymru_seed.get(&asn) {
                    Some(n) => Some(n.clone()),
                    None => match self.fallback.get(&asn) {
                        Some(e) => Some(e.0.clone()),
                        None => None,
                    },
                },
            },
        };
        match found {
            Some(n) => {
                self.remember(asn, &n);
                n
            },
            None => {
                let empty = String::new();
                self.remember(asn, &empty);
                raw
            },
        }
    }

    /// The name that [`as_name_resolve`](Self::as_name_resolve) gives for
    /// an ASN, without remembering it.
    pub fn resolved_name(&self, asn: u32) -> (r: String)
        ensures
            r@ == resolution(self@, asn).0,
    {
        proof {
            reveal_strlit("AS");
        }
        let mut raw = String::from_str("AS");
        crate::text::append_decimal(&mut raw, asn as u64);
        match self.cache.get(&asn) {
            Some(n) => {
                if n.as_str().unicode_len() > 0 {
                    return n.clone();
                }
                return raw;
            },
            None => {},
        }
        match self.seed.get(&asn) {
            Some(n) => n.clone(),
            None => match self.cymru_cache.get(&asn) {
                Some(n) => n.clone(),
                None => match self.cymru_seed.get(&asn) {
                    Some(n) => n.clone(),
                    None => match self.fallback.get(&asn) {
                        Some(e) => e.0.clone(),
                        None => raw,
                    },
                },
            },
        }
    }

    /// The name that [`as_name`](Self::as_name) gives for an ASN given as
    /// text, without remembering it.
    pub fn name_of(&self, asn_str: &str) -> (r: String)
        ensures
            r@ == name_text(self@, asn_str@),
    {
        let cs = chars_of(asn_str);
        match parse_dec(cs.as_slice(), 0xffff_ffff) {
            Some(a) => self.resolved_name(a as u32),
            None => String::new(),
        }
    }

    /// The name of an ASN given as text; empty when the text is no `u32`.
    pub fn as_name(&mut self, asn_str: &str) -> (r: String)
        ensures
            match parse_dec_text(asn_str@, u32::MAX as nat) {
                Some(a) => (r@, final(self)@) == resolution(old(self)@, a as u32),
                None => r@ == Seq::<char>::empty() && final(self)@ == old(self)@,
            },
    {
        let cs = chars_of(asn_str);
        match parse_dec(cs.as_slice(), 0xffff_ffff) {
            Some(a) => self.as_name_resolve(a as u32),
            None => String::new(),
        }
    }
}

} // verus!
