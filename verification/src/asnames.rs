//! The Team Cymru AS-name cache: its entries, reading a bulk WHOIS
//! response into it, and choosing which ASNs to query.

use vstd::prelude::*;

use crate::names::{cymru_name, normalize_cymru_name};
use crate::prefix::{chars_of, split_chars, split_on};
use crate::text::{contains, ends_with, starts_with, str_contains, str_starts_with};
use crate::textparse::{lines, lines_of, lowercased, parse_dec, parse_dec_text, to_lowercase, trim_chars, trimmed};
use crate::topics::{last_pos, rfind_char, string_of};

verus! {

/// Entries older than this many days are stale.
pub const STALE_DAYS: u64 = 90;

/// One cached AS name.
#[derive(Debug, Clone)]
pub struct AsNameEntry {
    pub name: String,
    pub country_code: String,
    pub registry: String,
    pub allocated: String,
    pub refreshed_unix: u64,
}

/// Abstract value of an [`AsNameEntry`].
pub struct AsNameEntryV {
    pub name: Seq<char>,
    pub country_code: Seq<char>,
    pub registry: Seq<char>,
    pub allocated: Seq<char>,
    pub refreshed_unix: u64,
}

impl View for AsNameEntry {
    type V = AsNameEntryV;

    open spec fn view(&self) -> AsNameEntryV {
        AsNameEntryV {
            name: self.name@,
            country_code: self.country_code@,
            registry: self.registry@,
            allocated: self.allocated@,
            refreshed_unix: self.refreshed_unix,
        }
    }
}

impl AsNameEntry {
    /// A copy with the same fields.
    pub fn duplicate(&self) -> (r: Self)
        ensures
            r@ == self@,
    {
        AsNameEntry {
            name: self.name.clone(),
            country_code: self.country_code.clone(),
            registry: self.registry.clone(),
            allocated: self.allocated.clone(),
            refreshed_unix: self.refreshed_unix,
        }
    }
}

/// The abstract value of a cache's entries.
pub open spec fn entries_view(v: Seq<(u32, AsNameEntry)>) -> Seq<(u32, AsNameEntryV)> {
    v.map_values(|e: (u32, AsNameEntry)| (e.0, e.1@))
}

/// Each ASN appears once.
pub open spec fn asns_distinct(v: Seq<(u32, AsNameEntryV)>) -> bool {
    forall|i: int, j: int| 0 <= i < j < v.len() ==> v[i].0 != v[j].0
}

/// The entry of `asn`, if any.
pub open spec fn entry_of(v: Seq<(u32, AsNameEntryV)>, asn: u32) -> Option<AsNameEntryV> {
    if exists|i: int| 0 <= i < v.len() && v[i].0 == asn {
        Some(v[choose|i: int| 0 <= i < v.len() && v[i].0 == asn].1)
    } else {
        None
    }
}

/// The entries with `asn` set to `e`: in place, or appended.
pub open spec fn with_entry(v: Seq<(u32, AsNameEntryV)>, asn: u32, e: AsNameEntryV) -> Seq<(u32, AsNameEntryV)> {
    if exists|i: int| 0 <= i < v.len() && v[i].0 == asn {
        v.update(choose|i: int| 0 <= i < v.len() && v[i].0 == asn, (asn, e))
    } else {
        v.push((asn, e))
    }
}

/// Cached AS names by ASN, each ASN once.
pub struct AsNameCache {
    entries: Vec<(u32, AsNameEntry)>,
}

impl View for AsNameCache {
    type V = Seq<(u32, AsNameEntryV)>;

    closed spec fn view(&self) -> Seq<(u32, AsNameEntryV)> {
        entries_view(self.entries@)
    }
}

impl AsNameCache {
    /// The invariant: each ASN once.
    pub closed spec fn wf(&self) -> bool {
        asns_distinct(self@)
    }

    /// An empty cache.
    pub fn new() -> (r: Self)
        ensures
            r.wf(),
            r@ == Seq::<(u32, AsNameEntryV)>::empty(),
    {
        let r = AsNameCache { entries: Vec::new() };
        proof {
            assert(entries_view(r.entries@) =~= Seq::empty());
        }
        r
    }

    fn find(&self, asn: u32) -> (r: Option<usize>)
        requires
            self.wf(),
        ensures
            match r {
                Some(i) => i < self@.len() && self@[i as int].0 == asn && (choose|k: int| 0 <= k < self@.len() && self@[k].0
                    == asn) == i,
                None => forall|k: int| 0 <= k < self@.len() ==> self@[k].0 != asn,
            },
    {
        let mut i: usize = 0;
        while i < self.entries.len()
            invariant
                i <= self.entries@.len(),
                asns_distinct(self@),
                forall|k: int| 0 <= k < i ==> self@[k].0 != asn,
            decreases self.entries@.len() - i,
        {
            if self.entries[i].0 == asn {
                proof {
                    assert(self@[i as int].0 == asn);
                    let c = choose|k: int| 0 <= k < self@.len() && self@[k].0 == asn;
                    if c != i {
                        if c > i {
                            assert(self@[i as int].0 != self@[c].0);
                        }
                    }
                }
                return Some(i);
            }
            i = i + 1;
        }
        None
    }

    /// The cached entry of `asn`, stale or not.
    pub fn get(&self, asn: u32) -> (r: Option<&AsNameEntry>)
        requires
            self.wf(),
        ensures
            match r {
                Some(e) => entry_of(self@, asn) == Some(e@),
                None => entry_of(self@, asn) is None,
            },
    {
        match self.find(asn) {
            Some(i) => Some(&self.entries[i].1),
            None => None,
        }
    }

    /// Sets the entry of `asn`.
    pub fn insert(&mut self, asn: u32, e: AsNameEntry)
        requires
            old(self).wf(),
        ensures
            final(self).wf(),
            final(self)@ == with_entry(old(self)@, asn, e@),
    {
        let ghost v = self@;
        let ghost ev = e@;
        match self.find(asn) {
            Some(i) => {
                self.entries.set(i, (asn, e));
                proof {
                    assert(self@ =~= v.update(i as int, (asn, ev)));
                }
            },
            None => {
                self.entries.push((asn, e));
                proof {
                    assert(self@ =~= v.push((asn, ev)));
                }
            },
        }
    }

    /// All entries, in the order they were first added.
    pub fn entries(&self) -> (r: &Vec<(u32, AsNameEntry)>)
        ensures
            entries_view(r@) == self@,
    {
        &self.entries
    }
}

/// The cached name of `asn`.
pub fn lookup_cached_name(cache: &AsNameCache, asn: u32) -> (r: Option<String>)
    requires
        cache.wf(),
    ensures
        match entry_of(cache@, asn) {
            Some(e) => r matches Some(n) && n@ == e.name,
            None => r is None,
        },
{
    match cache.get(asn) {
        Some(e) => Some(e.name.clone()),
        None => None,
    }
}

/// The ASNs whose entries were refreshed at least 90 days before `now`.
pub fn stale_asns(cache: &AsNameCache, now: u64) -> (r: Vec<u32>)
    ensures
        r@ == cache@.filter(|e: (u32, AsNameEntryV)| (if now >= e.1.refreshed_unix {
            now - e.1.refreshed_unix
        } else {
            0
        }) >= 90 * 86400).map_values(|e: (u32, AsNameEntryV)| e.0),
{
    let ghost v = cache@;
    let ghost pred = |e: (u32, AsNameEntryV)| (if now >= e.1.refreshed_unix {
        now - e.1.refreshed_unix
    } else {
        0
    }) >= 90 * 86400;
    let es = cache.entries();
    let mut out: Vec<u32> = Vec::new();
    let mut i: usize = 0;
    while i < es.len()
        invariant
            i <= es@.len(),
            entries_view(es@) == v,
            pred == (|e: (u32, AsNameEntryV)| (if now >= e.1.refreshed_unix {
                now - e.1.refreshed_unix
            } else {
                0
            }) >= 90 * 86400),
            out@ == v.subrange(0, i as int).filter(pred).map_values(|e: (u32, AsNameEntryV)| e.0),
        decreases es@.len() - i,
    {
        proof {
            reveal(Seq::filter);
            assert(v.subrange(0, i + 1).drop_last() =~= v.subrange(0, i as int));
        }
        let t = es[i].1.refreshed_unix;
        let age: u64 = if now >= t {
            now - t
        } else {
            0
        };
        if age >= STALE_DAYS * 86400 {
            let ghost before = out@;
            out.push(es[i].0);
            proof {
                assert(v.subrange(0, i + 1).filter(pred) == v.subrange(0, i as int).filter(pred).push(v[i as int]));
                assert(out@ =~= v.subrange(0, i + 1).filter(pred).map_values(|e: (u32, AsNameEntryV)| e.0));
            }
        }
        i = i + 1;
    }
    proof {
        assert(v.subrange(0, es@.len() as int) =~= v);
    }
    out
}

/// The peer ASN of a topic: after the last `.` before `.bmp_raw`, when it
/// reads as a `u32` above 0.
pub open spec fn topic_peer_asn(t: Seq<char>) -> Option<u32> {
    if ends_with(t, ".bmp_raw"@) {
        let s = t.subrange(0, t.len() - 8);
        let last = match last_pos(s, '.') {
            Some(k) => s.subrange(k + 1, s.len() as int),
            None => s,
        };
        match parse_dec_text(last, u32::MAX as nat) {
            Some(a) => if a > 0 {
                Some(a as u32)
            } else {
                None
            },
            None => None,
        }
    } else {
        None
    }
}

/// The peer ASN of a topic `routeviews.<collector>.<ASN>.bmp_raw`.
pub fn asn_from_topic(t: &str) -> (r: Option<u32>)
    ensures
        r == topic_peer_asn(t@),
{
    proof {
        reveal_strlit(".bmp_raw");
    }
    if !crate::text::str_ends_with(t, ".bmp_raw") {
        return None;
    }
    let cs = chars_of(t);
    let n = cs.len();
    let s = vstd::slice::slice_subrange(cs.as_slice(), 0, n - 8);
    let m = s.len();
    let last = match rfind_char(s, '.') {
        Some(k) => vstd::slice::slice_subrange(s, k + 1, m),
        None => s,
    };
    match parse_dec(last, 0xffff_ffff) {
        Some(a) => {
            if a > 0 {
                Some(a as u32)
            } else {
                None
            }
        },
        None => None,
    }
}

/// `x` added to a strictly increasing sequence, if absent.
pub open spec fn insert_asc(s: Seq<u32>, x: u32) -> Seq<u32>
    decreases s.len(),
{
    if s.len() == 0 {
        seq![x]
    } else if s.last() == x {
        s
    } else if s.last() < x {
        s.push(x)
    } else {
        insert_asc(s.drop_last(), x).push(s.last())
    }
}

/// The distinct values of `s`, ascending.
pub open spec fn sorted_unique(s: Seq<u32>) -> Seq<u32>
    decreases s.len(),
{
    if s.len() == 0 {
        s
    } else {
        insert_asc(sorted_unique(s.drop_last()), s.last())
    }
}

/// Strictly increasing.
pub open spec fn ascending(s: Seq<u32>) -> bool {
    forall|i: int, j: int| 0 <= i < j < s.len() ==> s[i] < s[j]
}

proof fn lemma_insert_asc(s: Seq<u32>, x: u32)
    requires
        ascending(s),
    ensures
        ascending(insert_asc(s, x)),
        insert_asc(s, x).to_set() == s.to_set().insert(x),
    decreases s.len(),
{
    if s.len() == 0 {
        assert(seq![x].to_set() =~= Set::<u32>::empty().insert(x)) by {
            assert(seq![x][0] == x);
            assert(seq![x].contains(x));
        }
        assert(s.to_set() =~= Set::<u32>::empty());
    } else if s.last() == x {
        assert(s.to_set() =~= s.to_set().insert(x)) by {
            assert(s.contains(x));
        }
    } else if s.last() < x {
        assert(s.push(x).to_set() =~= s.to_set().insert(x)) by {
            assert forall|y: u32| s.push(x).contains(y) <==> s.to_set().insert(x).contains(y) by {
                if s.push(x).contains(y) && y != x {
                    let i = choose|i: int| 0 <= i < s.push(x).len() && s.push(x)[i] == y;
                    assert(s[i] == y);
                }
                if s.contains(y) {
                    let i = choose|i: int| 0 <= i < s.len() && s[i] == y;
                    assert(s.push(x)[i] == y);
                }
                if y == x {
                    assert(s.push(x)[s.len() as int] == x);
                }
            }
        }
    } else {
        let p = s.drop_last();
        lemma_insert_asc(p, x);
        let t = insert_asc(p, x);
        assert forall|i: int, j: int| 0 <= i < j < t.push(s.last()).len() implies t.push(s.last())[i] < t.push(
            s.last(),
        )[j] by {
            if j == t.len() {
                let u = t[i];
                assert(t.to_set().contains(u)) by {
                    assert(t.contains(u));
                }
                if u == x {
                } else {
                    assert(p.to_set().contains(u));
                    let a = choose|a: int| 0 <= a < p.len() && p[a] == u;
                    assert(s[a] < s[s.len() - 1]);
                }
            }
        }
        assert(t.push(s.last()).to_set() =~= s.to_set().insert(x)) by {
            assert(s =~= p.push(s.last()));
            assert forall|y: u32| t.push(s.last()).contains(y) <==> s.to_set().insert(x).contains(y) by {
                if t.push(s.last()).contains(y) {
                    let i = choose|i: int| 0 <= i < t.push(s.last()).len() && t.push(s.last())[i] == y;
                    if i < t.len() {
                        assert(t.contains(y));
                        assert(t.to_set().contains(y));
                        if y != x {
                            assert(p.to_set().contains(y));
                            let a = choose|a: int| 0 <= a < p.len() && p[a] == y;
                            assert(s[a] == y);
                        }
                    } else {
                        assert(s[s.len() - 1] == y);
                    }
                }
                if s.contains(y) {
                    let a = choose|a: int| 0 <= a < s.len() && s[a] == y;
                    if a == s.len() - 1 {
                        assert(t.push(s.last())[t.len() as int] == y);
                    } else {
                        assert(p[a] == y);
                        assert(p.to_set().insert(x).contains(y));
                        assert(t.to_set().contains(y));
                        let b = choose|b: int| 0 <= b < t.len() && t[b] == y;
                        assert(t.push(s.last())[b] == y);
                    }
                }
                if y == x {
                    assert(t.to_set().contains(x));
                    let b = choose|b: int| 0 <= b < t.len() && t[b] == x;
                    assert(t.push(s.last())[b] == x);
                }
            }
        }
    }
}

/// The distinct ASNs, ascending, are exactly those given.
pub proof fn law_sorted_unique(s: Seq<u32>)
    ensures
        ascending(sorted_unique(s)),
        sorted_unique(s).to_set() == s.to_set(),
    decreases s.len(),
{
    if s.len() == 0 {
        assert(sorted_unique(s).to_set() =~= s.to_set());
    } else {
        law_sorted_unique(s.drop_last());
        lemma_insert_asc(sorted_unique(s.drop_last()), s.last());
        assert(s.drop_last().to_set().insert(s.last()) =~= s.to_set()) by {
            assert(s =~= s.drop_last().push(s.last()));
            assert forall|y: u32| s.drop_last().to_set().insert(s.last()).contains(y) <==> s.contains(y) by {
                if s.contains(y) {
                    let a = choose|a: int| 0 <= a < s.len() && s[a] == y;
                    if a < s.len() - 1 {
                        assert(s.drop_last()[a] == y);
                    }
                }
                if s.drop_last().contains(y) {
                    let a = choose|a: int| 0 <= a < s.drop_last().len() && s.drop_last()[a] == y;
                    assert(s[a] == y);
                }
                if y == s.last() {
                    assert(s[s.len() - 1] == y);
                }
            }
        }
    }
}

/// The ASNs to query: distinct, ascending, the first `limit` of them; and
/// how many distinct ASNs there were.
pub fn dedup_sort_limit(asns: &Vec<u32>, limit: usize) -> (r: (Vec<u32>, usize))
    ensures
        r.1 == sorted_unique(asns@).len(),
        r.0@ == sorted_unique(asns@).take(if limit < r.1 { limit as int } else { r.1 as int }),
{
    let mut out: Vec<u32> = Vec::new();
    let mut i: usize = 0;
    while i < asns.len()
        invariant
            i <= asns@.len(),
            out@ == sorted_unique(asns@.subrange(0, i as int)),
            out@.len() <= i,
        decreases asns@.len() - i,
    {
        proof {
            assert(asns@.subrange(0, i + 1).drop_last() =~= asns@.subrange(0, i as int));
        }
        let x = asns[i];
        let ghost s = out@;
        let mut k: usize = out.len();
        while k > 0 && out[k - 1] > x
            invariant
                k <= out@.len(),
                s == out@,
                forall|j: int| k <= j < s.len() ==> s[j] > x,
            decreases k,
        {
            k = k - 1;
        }
        proof {
            lemma_insert_asc_at(s, x, k as int);
        }
        if k > 0 && out[k - 1] == x {
        } else {
            out.insert(k, x);
            proof {
                assert(out@ =~= s.subrange(0, k as int) + seq![x] + s.subrange(k as int, s.len() as int));
            }
        }
        i = i + 1;
    }
    proof {
        assert(asns@.subrange(0, asns@.len() as int) =~= asns@);
    }
    let n = out.len();
    if n > limit {
        out.truncate(limit);
    }
    proof {
        assert(out@ =~= sorted_unique(asns@).take(if limit < n { limit as int } else { n as int }));
    }
    (out, n)
}

proof fn lemma_insert_asc_at(s: Seq<u32>, x: u32, k: int)
    requires
        0 <= k <= s.len(),
        forall|j: int| k <= j < s.len() ==> s[j] > x,
        k > 0 ==> s[k - 1] <= x,
    ensures
        insert_asc(s, x) == if k > 0 && s[k - 1] == x {
            s
        } else {
            s.subrange(0, k) + seq![x] + s.subrange(k, s.len() as int)
        },
    decreases s.len(),
{
    if s.len() == 0 {
        assert(s.subrange(0, k) + seq![x] + s.subrange(k, s.len() as int) =~= seq![x]);
    } else if s.last() == x {
        assert(k == s.len());
    } else if s.last() < x {
        assert(k == s.len());
        assert(s.subrange(0, k) + seq![x] + s.subrange(k, s.len() as int) =~= s.push(x));
    } else {
        lemma_insert_asc_at(s.drop_last(), x, k);
        if k > 0 && s[k - 1] == x {
            assert(s.drop_last().push(s.last()) =~= s);
        } else {
            assert(s.subrange(0, k) + seq![x] + s.subrange(k, s.len() as int) =~= (s.drop_last().subrange(0, k)
                + seq![x] + s.drop_last().subrange(k, s.drop_last().len() as int)).push(s.last()));
        }
    }
}

// ───────────────────────── bulk WHOIS responses ─────────────────────────

/// What one line of a bulk WHOIS response is.
pub enum CymruLineV {
    /// Blank, or a header line.
    Ignored,
    /// A row that does not read.
    Bad,
    /// ASN, name, country code, registry, allocation date.
    Entry(u32, Seq<char>, Seq<char>, Seq<char>, Seq<char>),
}

/// A line of a bulk WHOIS response: `ASN | CC | Registry | Allocated | AS Name`
/// (fields trimmed, the name cleaned); blank and header lines are ignored;
/// rows with fewer fields, an ASN that does not read or an empty name are bad.
pub open spec fn cymru_line(line: Seq<char>) -> CymruLineV {
    let l = trimmed(line);
    let lower = lowercased(l);
    if l.len() == 0 {
        CymruLineV::Ignored
    } else if contains(lower, "bulk mode"@) || (starts_with(lower, "asn"@) && contains(lower, "|"@) && contains(
        lower,
        "description"@,
    )) {
        CymruLineV::Ignored
    } else {
        let p = split_on(l, '|');
        if p.len() < 5 {
            CymruLineV::Bad
        } else {
            match parse_dec_text(trimmed(p[0]), u32::MAX as nat) {
                Some(a) => {
                    let name = cymru_name(a as u32, trimmed(p[4]));
                    if name.len() == 0 {
                        CymruLineV::Bad
                    } else {
                        CymruLineV::Entry(a as u32, name, trimmed(p[1]), trimmed(p[2]), trimmed(p[3]))
                    }
                },
                None => CymruLineV::Bad,
            }
        }
    }
}

/// Reads one line of a bulk WHOIS response.
pub fn parse_cymru_line(line: &[char]) -> (r: Option<Option<(u32, String, String, String, String)>>)
    ensures
        match r {
            None => cymru_line(line@) is Ignored,
            Some(None) => cymru_line(line@) is Bad,
            Some(Some((a, n, c, g, d))) => cymru_line(line@) == CymruLineV::Entry(a, n@, c@, g@, d@),
        },
{
    let l = trim_chars(line);
    if l.len() == 0 {
        return None;
    }
    let ls = string_of(l.as_slice());
    let lower = to_lowercase(ls.as_str());
    if str_contains(lower.as_str(), "bulk mode") || (str_starts_with(lower.as_str(), "asn") && str_contains(
        lower.as_str(),
        "|",
    ) && str_contains(lower.as_str(), "description")) {
        return None;
    }
    let p = split_chars(l.as_slice(), '|');
    if p.len() < 5 {
        return Some(None);
    }
    proof {
        assert(p@[0]@ == split_on(l@, '|')[0]);
        assert(p@[1]@ == split_on(l@, '|')[1]);
        assert(p@[2]@ == split_on(l@, '|')[2]);
        assert(p@[3]@ == split_on(l@, '|')[3]);
        assert(p@[4]@ == split_on(l@, '|')[4]);
    }
    let asn_text = trim_chars(p[0].as_slice());
    match parse_dec(asn_text.as_slice(), 0xffff_ffff) {
        Some(a) => {
            let raw = string_of(trim_chars(p[4].as_slice()).as_slice());
            let name = normalize_cymru_name(a as u32, raw.as_str());
            if name.as_str().unicode_len() == 0 {
                return Some(None);
            }
            Some(
                Some(
                    (
                        a as u32,
                        name,
                        string_of(trim_chars(p[1].as_slice()).as_slice()),
                        string_of(trim_chars(p[2].as_slice()).as_slice()),
                        string_of(trim_chars(p[3].as_slice()).as_slice()),
                    ),
                ),
            )
        },
        None => Some(None),
    }
}

/// The cache after the lines of a response, with the numbers of rows stored
/// and of bad rows.
pub open spec fn cymru_fold(v: Seq<(u32, AsNameEntryV)>, ls: Seq<Seq<char>>, now: u64) -> (Seq<(u32, AsNameEntryV)>, nat, nat)
    decreases ls.len(),
{
    if ls.len() == 0 {
        (v, 0, 0)
    } else {
        let (w, p, s) = cymru_fold(v, ls.drop_last(), now);
        match cymru_line(ls.last()) {
            CymruLineV::Ignored => (w, p, s),
            CymruLineV::Bad => (w, p, s + 1),
            CymruLineV::Entry(a, n, c, g, d) => (
                with_entry(w, a, AsNameEntryV { name: n, country_code: c, registry: g, allocated: d, refreshed_unix: now }),
                p + 1,
                s,
            ),
        }
    }
}

impl AsNameCache {
    /// Stores the rows of a bulk WHOIS response, stamped `now`; gives the
    /// numbers of rows stored and of bad rows (each held at `u64::MAX`).
    pub fn apply_cymru_response(&mut self, response: &str, now: u64) -> (r: (u64, u64))
        requires
            old(self).wf(),
        ensures
            final(self).wf(),
            ({
                let (w, p, s) = cymru_fold(old(self)@, lines_of(response@), now);
                &&& final(self)@ == w
                &&& r.0 == if p > u64::MAX { u64::MAX as nat } else { p }
                &&& r.1 == if s > u64::MAX { u64::MAX as nat } else { s }
            }),
    {
        let cs = chars_of(response);
        let ls = lines(cs.as_slice());
        let ghost lv = lines_of(response@);
        let ghost v0 = self@;
        let mut parsed: u64 = 0;
        let mut skipped: u64 = 0;
        let mut i: usize = 0;
        while i < ls.len()
            invariant
                i <= ls@.len(),
                ls@.map_values(|l: Vec<char>| l@) == lv,
                self.wf(),
                ({
                    let (w, p, s) = cymru_fold(v0, lv.subrange(0, i as int), now);
                    &&& self@ == w
                    &&& parsed == if p > u64::MAX { u64::MAX as nat } else { p }
                    &&& skipped == if s > u64::MAX { u64::MAX as nat } else { s }
                }),
            decreases ls@.len() - i,
        {
            proof {
                assert(ls@[i as int]@ == lv[i as int]);
                assert(lv.subrange(0, i + 1).drop_last() =~= lv.subrange(0, i as int));
            }
            match parse_cymru_line(ls[i].as_slice()) {
                None => {},
                Some(None) => {
                    if skipped < u64::MAX {
                        skipped = skipped + 1;
                    }
                },
                Some(Some((a, n, c, g, d))) => {
                    self.insert(
                        a,
                        AsNameEntry { name: n, country_code: c, registry: g, allocated: d, refreshed_unix: now },
                    );
                    if parsed < u64::MAX {
                        parsed = parsed + 1;
                    }
                },
            }
            i = i + 1;
        }
        proof {
            assert(lv.subrange(0, ls@.len() as int) =~= lv);
        }
        (parsed, skipped)
    }
}

/// The lines of a bulk WHOIS query for `asns`.
pub fn whois_query(asns: &Vec<u32>) -> (r: String)
    ensures
        r@ == "begin\r\nverbose\r\n"@ + whois_lines(asns@) + "end\r\n"@,
{
    let mut q = String::from_str("begin\r\nverbose\r\n");
    let mut i: usize = 0;
    let ghost head = q@;
    while i < asns.len()
        invariant
            i <= asns@.len(),
            q@ == head + whois_lines(asns@.subrange(0, i as int)),
        decreases asns@.len() - i,
    {
        proof {
            assert(asns@.subrange(0, i + 1).drop_last() =~= asns@.subrange(0, i as int));
        }
        q.append("as");
        crate::text::append_decimal(&mut q, asns[i] as u64);
        q.append("\r\n");
        proof {
            assert(q@ =~= head + whois_lines(asns@.subrange(0, i + 1)));
        }
        i = i + 1;
    }
    proof {
        assert(asns@.subrange(0, asns@.len() as int) =~= asns@);
    }
    q.append("end\r\n");
    q
}

/// `as<asn>\r\n` for each ASN.
pub open spec fn whois_lines(asns: Seq<u32>) -> Seq<char>
    decreases asns.len(),
{
    if asns.len() == 0 {
        Seq::empty()
    } else {
        whois_lines(asns.drop_last()) + "as"@ + crate::text::dec_str(asns.last() as nat) + "\r\n"@
    }
}

} // verus!
