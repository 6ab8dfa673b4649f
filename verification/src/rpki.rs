//! RPKI route-origin validation against Validated ROA Payloads (VRPs):
//! the validation rule, the VRP table, its cache-file encoding and the
//! decisions of an RTR (RFC 8210) session.

use vstd::prelude::*;

use crate::doctor::sat_add;
use crate::prefix::{ipv4_prefix_of, ipv6_prefix_of, parse_ipv4_prefix, parse_ipv6_prefix};

verus! {

/// RPKI validation status for a BGP announcement.
#[derive(Debug, Clone, Copy, PartialEq, Eq, Structural)]
pub enum Status {
    Valid,
    InvalidWrongAsn,
    InvalidTooLong,
    Invalid,
    NotFound,
}

/// The three-letter label of a status.
pub open spec fn status_label(s: Status) -> Seq<char> {
    match s {
        Status::Valid => "VAL"@,
        Status::InvalidWrongAsn => "ASN"@,
        Status::InvalidTooLong => "LEN"@,
        Status::Invalid => "INV"@,
        Status::NotFound => "NF "@,
    }
}

impl Status {
    /// `VAL`, `ASN`, `LEN`, `INV` or `NF `.
    pub fn as_str(&self) -> (r: &'static str)
        ensures
            r@ == status_label(*self),
    {
        match self {
            Status::Valid => "VAL",
            Status::InvalidWrongAsn => "ASN",
            Status::InvalidTooLong => "LEN",
            Status::Invalid => "INV",
            Status::NotFound => "NF ",
        }
    }
}

/// Extra detail for an invalid result: the ASN that is authorized, or the
/// longest length allowed.
#[derive(Debug, Clone, Copy, PartialEq, Eq, Structural)]
pub struct RPKIDetail {
    pub expected_asn: Option<u32>,
    pub max_prefix_len: Option<u8>,
}

/// One Validated ROA Payload: prefix (an IPv4 prefix in the low 32 bits),
/// its length, the longest length allowed, and the origin ASN.
#[derive(Debug, Clone, Copy, PartialEq, Eq, Structural)]
pub struct Vrp {
    pub prefix: u128,
    pub prefix_len: u8,
    pub max_len: u8,
    pub asn: u32,
}

/// The network mask of an IPv4 length.
pub open spec fn mask32(l: u8) -> u32 {
    if l == 0 {
        0
    } else {
        (!0u32) << ((32 - l) as u32)
    }
}

/// The network mask of an IPv6 length.
pub open spec fn mask128(l: u8) -> u128 {
    if l == 0 {
        0
    } else {
        (!0u128) << ((128 - l) as u128)
    }
}

fn mask_v4(l: u8) -> (r: u32)
    requires
        l <= 32,
    ensures
        r == mask32(l),
{
    if l == 0 {
        0
    } else {
        (!0u32) << ((32 - l) as u32)
    }
}

fn mask_v6(l: u8) -> (r: u128)
    requires
        l <= 128,
    ensures
        r == mask128(l),
{
    if l == 0 {
        0
    } else {
        (!0u128) << ((128 - l) as u128)
    }
}

/// The key looked up for length `l` of network `net` in one family.
pub open spec fn key_at(v6: bool, net: u128, l: u8) -> u128 {
    if v6 {
        net & mask128(l)
    } else {
        ((net as u32) & mask32(l)) as u128
    }
}

/// Table entry `i` has prefix `key`, length `l` and (when asked) allows
/// length `need`.
pub open spec fn matches_at(vs: Seq<Vrp>, i: int, key: u128, l: u8, need: Option<u8>) -> bool {
    &&& 0 <= i < vs.len()
    &&& vs[i].prefix == key
    &&& vs[i].prefix_len == l
    &&& (need matches Some(m) ==> vs[i].max_len >= m)
}

/// The first table entry that matches.
pub open spec fn first_vrp(vs: Seq<Vrp>, key: u128, l: u8, need: Option<u8>) -> Option<int> {
    if exists|i: int| matches_at(vs, i, key, l, need) {
        Some(choose|i: int| matches_at(vs, i, key, l, need) && forall|j: int| 0 <= j < i ==> !matches_at(vs, j, key, l, need))
    } else {
        None
    }
}

/// The entry that decides for network `net`: trying lengths from `l` down
/// to 0, the first match at the longest length that has one.
pub open spec fn search(vs: Seq<Vrp>, v6: bool, net: u128, l: int, need: Option<u8>) -> Option<int>
    decreases l + 1,
{
    if l < 0 {
        None
    } else {
        match first_vrp(vs, key_at(v6, net, l as u8), l as u8, need) {
            Some(i) => Some(i),
            None => search(vs, v6, net, l - 1, need),
        }
    }
}

/// The masked network of an announcement.
pub open spec fn network_of(v6: bool, addr: u128, plen: u8) -> u128 {
    if v6 {
        addr & mask128(plen)
    } else {
        ((addr as u32) & mask32(plen)) as u128
    }
}

/// Some VRP covering network `net` (announced with length `plen`) allows
/// that length and names `asn`.
pub open spec fn authorized_by_some(vs: Seq<Vrp>, v6: bool, net: u128, plen: u8, asn: u32) -> bool {
    exists|i: int|
        0 <= i < vs.len() && #[trigger] covers(vs[i], v6, net, plen) && vs[i].max_len >= plen && vs[i].asn == asn
}

/// The status of an announcement of `addr/plen` by `asn`: valid when any
/// covering VRP allows the length and names the ASN; otherwise a wrong
/// ASN when some covering VRP allows the length, too long when covering
/// VRPs exist but none allows it; not found without a covering VRP.
pub open spec fn status_of(vs: Seq<Vrp>, v6: bool, addr: u128, plen: u8, asn: u32) -> Status {
    let net = network_of(v6, addr, plen);
    if authorized_by_some(vs, v6, net, plen, asn) {
        Status::Valid
    } else if search(vs, v6, net, plen as int, Some(plen)) is Some {
        Status::InvalidWrongAsn
    } else if search(vs, v6, net, plen as int, None) is Some {
        Status::InvalidTooLong
    } else {
        Status::NotFound
    }
}

/// The ASN of the most specific covering entry that allows the length.
pub open spec fn authorized_asn(vs: Seq<Vrp>, v6: bool, addr: u128, plen: u8) -> Option<u32> {
    match search(vs, v6, network_of(v6, addr, plen), plen as int, Some(plen)) {
        Some(i) => Some(vs[i].asn),
        None => None,
    }
}

/// The longest length allowed by the most specific covering entry.
pub open spec fn allowed_len(vs: Seq<Vrp>, v6: bool, addr: u128, plen: u8) -> Option<u8> {
    match search(vs, v6, network_of(v6, addr, plen), plen as int, None) {
        Some(i) => Some(vs[i].max_len),
        None => None,
    }
}

/// Entries are in non-decreasing prefix order.
pub open spec fn sorted_by_prefix(vs: Seq<Vrp>) -> bool {
    forall|i: int, j: int| 0 <= i <= j < vs.len() ==> vs[i].prefix <= vs[j].prefix
}

/// Finds the first matching entry of a sorted table by binary search.
fn find_first(vs: &Vec<Vrp>, key: u128, l: u8, need: Option<u8>) -> (r: Option<usize>)
    requires
        sorted_by_prefix(vs@),
    ensures
        match r {
            Some(i) => first_vrp(vs@, key, l, need) == Some(i as int) && i < vs@.len(),
            None => first_vrp(vs@, key, l, need) is None,
        },
{
    let n = vs.len();
    let mut lo: usize = 0;
    let mut hi: usize = n;
    while lo < hi
        invariant
            n == vs@.len(),
            lo <= hi <= n,
            sorted_by_prefix(vs@),
            forall|j: int| 0 <= j < lo ==> vs@[j].prefix < key,
            forall|j: int| hi <= j < n ==> vs@[j].prefix >= key,
        decreases hi - lo,
    {
        let mid = lo + (hi - lo) / 2;
        if vs[mid].prefix < key {
            lo = mid + 1;
        } else {
            hi = mid;
        }
    }
    let mut i: usize = lo;
    while i < n && vs[i].prefix == key
        invariant
            n == vs@.len(),
            lo <= i <= n,
            sorted_by_prefix(vs@),
            forall|j: int| 0 <= j < lo ==> vs@[j].prefix < key,
            forall|j: int| 0 <= j < i ==> !matches_at(vs@, j, key, l, need),
        decreases n - i,
    {
        let v = vs[i];
        let ok = v.prefix_len == l && match need {
            Some(m) => v.max_len >= m,
            None => true,
        };
        if ok {
            proof {
                assert(matches_at(vs@, i as int, key, l, need));
                let c = choose|c: int| matches_at(vs@, c, key, l, need) && forall|j: int| 0 <= j < c ==> !matches_at(vs@, j, key, l, need);
                if c < i {
                    assert(!matches_at(vs@, c, key, l, need));
                } else if c > i {
                    assert(!matches_at(vs@, i as int, key, l, need));
                }
            }
            return Some(i);
        }
        i = i + 1;
    }
    proof {
        assert forall|j: int| !matches_at(vs@, j, key, l, need) by {
            if 0 <= j < n && j >= i {
                assert(vs@[i as int].prefix <= vs@[j].prefix);
                assert(vs@[i as int].prefix != key);
                assert(vs@[i as int].prefix >= key);
            }
        }
    }
    None
}

/// The entry that decides, by trying lengths from `plen` down.
fn search_exec(vs: &Vec<Vrp>, v6: bool, net: u128, plen: u8, need: Option<u8>) -> (r: Option<usize>)
    requires
        sorted_by_prefix(vs@),
        v6 ==> plen <= 128,
        !v6 ==> plen <= 32,
    ensures
        match r {
            Some(i) => search(vs@, v6, net, plen as int, need) == Some(i as int) && i < vs@.len(),
            None => search(vs@, v6, net, plen as int, need) is None,
        },
{
    let mut l: u8 = plen;
    loop
        invariant
            l <= plen,
            sorted_by_prefix(vs@),
            v6 ==> plen <= 128,
            !v6 ==> plen <= 32,
            search(vs@, v6, net, plen as int, need) == search(vs@, v6, net, l as int, need),
        decreases l,
    {
        let key: u128 = if v6 {
            net & mask_v6(l)
        } else {
            ((net as u32) & mask_v4(l)) as u128
        };
        match find_first(vs, key, l, need) {
            Some(i) => {
                return Some(i);
            },
            None => {
                if l == 0 {
                    proof {
                        assert(search(vs@, v6, net, -1, need) is None);
                    }
                    return None;
                }
                l = l - 1;
            },
        }
    }
}

/// Whether an entry with prefix `key` and length `l` allows length `m`
/// and names `asn` (binary search in a sorted table).
fn authorizing_at(vs: &Vec<Vrp>, key: u128, l: u8, m: u8, asn: u32) -> (r: bool)
    requires
        sorted_by_prefix(vs@),
    ensures
        r == exists|i: int| #[trigger] matches_at(vs@, i, key, l, Some(m)) && vs@[i].asn == asn,
{
    let n = vs.len();
    let mut lo: usize = 0;
    let mut hi: usize = n;
    while lo < hi
        invariant
            n == vs@.len(),
            lo <= hi <= n,
            sorted_by_prefix(vs@),
            forall|j: int| 0 <= j < lo ==> vs@[j].prefix < key,
            forall|j: int| hi <= j < n ==> vs@[j].prefix >= key,
        decreases hi - lo,
    {
        let mid = lo + (hi - lo) / 2;
        if vs[mid].prefix < key {
            lo = mid + 1;
        } else {
            hi = mid;
        }
    }
    let mut i: usize = lo;
    while i < n && vs[i].prefix == key
        invariant
            n == vs@.len(),
            lo <= i <= n,
            sorted_by_prefix(vs@),
            forall|j: int| 0 <= j < lo ==> vs@[j].prefix < key,
            forall|j: int| 0 <= j < i ==> !(matches_at(vs@, j, key, l, Some(m)) && vs@[j].asn == asn),
        decreases n - i,
    {
        let v = vs[i];
        if v.prefix_len == l && v.max_len >= m && v.asn == asn {
            assert(matches_at(vs@, i as int, key, l, Some(m)) && vs@[i as int].asn == asn);
            return true;
        }
        i = i + 1;
    }
    proof {
        assert forall|j: int| !(#[trigger] matches_at(vs@, j, key, l, Some(m)) && vs@[j].asn == asn) by {
            if 0 <= j < n && j >= i {
                assert(vs@[i as int].prefix <= vs@[j].prefix);
                assert(vs@[i as int].prefix != key);
                assert(vs@[i as int].prefix >= key);
            }
        }
    }
    false
}

/// Whether any entry covering `net` (announced with length `plen`) allows
/// the length and names `asn`, trying each covering length.
fn authorized_exec(vs: &Vec<Vrp>, v6: bool, net: u128, plen: u8, asn: u32) -> (r: bool)
    requires
        sorted_by_prefix(vs@),
        v6 ==> plen <= 128,
        !v6 ==> plen <= 32,
    ensures
        r == authorized_by_some(vs@, v6, net, plen, asn),
{
    let mut l: u8 = plen;
    loop
        invariant
            l <= plen,
            sorted_by_prefix(vs@),
            v6 ==> plen <= 128,
            !v6 ==> plen <= 32,
            forall|i: int|
                0 <= i < vs@.len() && l < vs@[i].prefix_len <= plen ==> !(#[trigger] covers(vs@[i], v6, net, plen)
                    && vs@[i].max_len >= plen && vs@[i].asn == asn),
        decreases l,
    {
        let key: u128 = if v6 {
            net & mask_v6(l)
        } else {
            ((net as u32) & mask_v4(l)) as u128
        };
        assert(key == key_at(v6, net, l));
        if authorizing_at(vs, key, l, plen, asn) {
            proof {
                let w = choose|i: int| #[trigger] matches_at(vs@, i, key, l, Some(plen)) && vs@[i].asn == asn;
                assert(covers(vs@[w], v6, net, plen));
            }
            return true;
        }
        if l == 0 {
            proof {
                assert forall|i: int| 0 <= i < vs@.len() implies !(#[trigger] covers(vs@[i], v6, net, plen)
                    && vs@[i].max_len >= plen && vs@[i].asn == asn) by {
                    if vs@[i].prefix_len == 0 && covers(vs@[i], v6, net, plen) && vs@[i].max_len >= plen
                        && vs@[i].asn == asn {
                        assert(matches_at(vs@, i, key, l, Some(plen)));
                    }
                }
            }
            return false;
        }
        proof {
            assert forall|i: int|
                0 <= i < vs@.len() && l - 1 < vs@[i].prefix_len <= plen implies !(#[trigger] covers(
                    vs@[i],
                    v6,
                    net,
                    plen,
                ) && vs@[i].max_len >= plen && vs@[i].asn == asn) by {
                if vs@[i].prefix_len == l && covers(vs@[i], v6, net, plen) && vs@[i].max_len >= plen
                    && vs@[i].asn == asn {
                    assert(matches_at(vs@, i, key, l, Some(plen)));
                }
            }
        }
        l = l - 1;
    }
}

/// Abstract value of an [`RPKICache`].
pub struct RpkiV {
    pub v4: Seq<Vrp>,
    pub v6: Seq<Vrp>,
    pub valid: u64,
    pub invalid: u64,
    pub not_found: u64,
}

/// The table of VRPs, IPv4 and IPv6 each sorted by prefix, with counters
/// of validation outcomes.
pub struct RPKICache {
    vrps4: Vec<Vrp>,
    vrps6: Vec<Vrp>,
    valid_count: u64,
    invalid_count: u64,
    not_found_count: u64,
}

impl View for RPKICache {
    type V = RpkiV;

    closed spec fn view(&self) -> RpkiV {
        RpkiV {
            v4: self.vrps4@,
            v6: self.vrps6@,
            valid: self.valid_count,
            invalid: self.invalid_count,
            not_found: self.not_found_count,
        }
    }
}

/// The counters after one outcome.
pub open spec fn counted(c: RpkiV, s: Status) -> RpkiV {
    match s {
        Status::Valid => RpkiV { valid: sat_add(c.valid, 1), ..c },
        Status::NotFound => RpkiV { not_found: sat_add(c.not_found, 1), ..c },
        _ => RpkiV { invalid: sat_add(c.invalid, 1), ..c },
    }
}

/// No detail.
pub open spec fn no_detail() -> RPKIDetail {
    RPKIDetail { expected_asn: None, max_prefix_len: None }
}

/// The detail of an outcome in one family.
pub open spec fn detail_of(vs: Seq<Vrp>, v6: bool, addr: u128, plen: u8, s: Status) -> RPKIDetail {
    match s {
        Status::InvalidWrongAsn => RPKIDetail { expected_asn: authorized_asn(vs, v6, addr, plen), max_prefix_len: None },
        Status::InvalidTooLong => RPKIDetail { expected_asn: None, max_prefix_len: allowed_len(vs, v6, addr, plen) },
        _ => no_detail(),
    }
}

/// The outcome of validating the announcement of `prefix` (text) by `asn`:
/// an IPv4 prefix is checked against the IPv4 table, else an IPv6 prefix
/// against the IPv6 table; text that is neither is not found.
pub open spec fn validation(c: RpkiV, prefix: Seq<char>, asn: u32) -> (Status, RPKIDetail) {
    match ipv4_prefix_of(prefix) {
        Some((a, p)) => {
            let s = status_of(c.v4, false, a as u128, p, asn);
            (s, detail_of(c.v4, false, a as u128, p, s))
        },
        None => match ipv6_prefix_of(prefix) {
            Some((a, p)) => {
                let s = status_of(c.v6, true, a, p, asn);
                (s, detail_of(c.v6, true, a, p, s))
            },
            None => (Status::NotFound, no_detail()),
        },
    }
}

impl RPKICache {
    /// Both tables are sorted by prefix.
    pub closed spec fn wf(&self) -> bool {
        sorted_by_prefix(self.vrps4@) && sorted_by_prefix(self.vrps6@)
    }

    fn count(&mut self, s: Status)
        ensures
            final(self)@ == counted(old(self)@, s),
            final(self).vrps4 == old(self).vrps4,
            final(self).vrps6 == old(self).vrps6,
    {
        match s {
            Status::Valid => {
                self.valid_count = if self.valid_count == u64::MAX { u64::MAX } else { self.valid_count + 1 };
            },
            Status::NotFound => {
                self.not_found_count = if self.not_found_count == u64::MAX {
                    u64::MAX
                } else {
                    self.not_found_count + 1
                };
            },
            _ => {
                self.invalid_count = if self.invalid_count == u64::MAX {
                    u64::MAX
                } else {
                    self.invalid_count + 1
                };
            },
        }
    }

    /// Status and detail of `addr/plen` by `asn` in one family.
    fn decide(vs: &Vec<Vrp>, v6: bool, addr: u128, plen: u8, asn: u32) -> (r: (Status, RPKIDetail))
        requires
            sorted_by_prefix(vs@),
            v6 ==> plen <= 128,
            !v6 ==> plen <= 32,
        ensures
            r.0 == status_of(vs@, v6, addr, plen, asn),
            r.1 == detail_of(vs@, v6, addr, plen, r.0),
    {
        let net: u128 = if v6 {
            addr & mask_v6(plen)
        } else {
            ((addr as u32) & mask_v4(plen)) as u128
        };
        let status = if authorized_exec(vs, v6, net, plen, asn) {
            Status::Valid
        } else {
            match search_exec(vs, v6, net, plen, Some(plen)) {
                Some(_) => Status::InvalidWrongAsn,
                None => match search_exec(vs, v6, net, plen, None) {
                    Some(_) => Status::InvalidTooLong,
                    None => Status::NotFound,
                },
            }
        };
        let detail = match status {
            Status::InvalidWrongAsn => RPKIDetail {
                expected_asn: match search_exec(vs, v6, net, plen, Some(plen)) {
                    Some(i) => Some(vs[i].asn),
                    None => None,
                },
                max_prefix_len: None,
            },
            Status::InvalidTooLong => RPKIDetail {
                expected_asn: None,
                max_prefix_len: match search_exec(vs, v6, net, plen, None) {
                    Some(i) => Some(vs[i].max_len),
                    None => None,
                },
            },
            _ => RPKIDetail { expected_asn: None, max_prefix_len: None },
        };
        (status, detail)
    }

    /// Validates the announcement of `prefix_str` (`a.b.c.d/len` or an IPv6
    /// prefix) by `asn`, counting the outcome.
    pub fn validate(&mut self, prefix_str: &str, asn: u32) -> (r: (Status, RPKIDetail))
        requires
            old(self).wf(),
        ensures
            final(self).wf(),
            r == validation(old(self)@, prefix_str@, asn),
            final(self)@ == counted(old(self)@, r.0),
    {
        match parse_ipv4_prefix(prefix_str) {
            Some((addr, prefix_len)) => {
                let r = Self::decide(&self.vrps4, false, addr as u128, prefix_len, asn);
                self.count(r.0);
                return r;
            },
            None => {},
        }
        match parse_ipv6_prefix(prefix_str) {
            Some((addr, prefix_len)) => {
                let r = Self::decide(&self.vrps6, true, addr, prefix_len, asn);
                self.count(r.0);
                r
            },
            None => {
                self.count(Status::NotFound);
                (Status::NotFound, RPKIDetail { expected_asn: None, max_prefix_len: None })
            },
        }
    }

    /// Number of VRPs, both families.
    pub fn vrp_count(&self) -> (r: usize)
        requires
            self@.v4.len() + self@.v6.len() <= usize::MAX,
        ensures
            r == self@.v4.len() + self@.v6.len(),
    {
        self.vrps4.len() + self.vrps6.len()
    }

    /// Announcements found valid.
    pub fn valid_count(&self) -> (r: u64)
        ensures
            r == self@.valid,
    {
        self.valid_count
    }

    /// Announcements found invalid.
    pub fn invalid_count(&self) -> (r: u64)
        ensures
            r == self@.invalid,
    {
        self.invalid_count
    }

    /// Announcements without a covering VRP.
    pub fn not_found_count(&self) -> (r: u64)
        ensures
            r == self@.not_found,
    {
        self.not_found_count
    }
}

} // verus!

verus! {

// ───────────────────────── building tables ─────────────────────────

/// `x` placed after the last entry whose prefix is at most its own (the
/// step of a stable insertion sort).
pub open spec fn insert_by_prefix(s: Seq<Vrp>, x: Vrp) -> Seq<Vrp>
    decreases s.len(),
{
    if s.len() == 0 {
        seq![x]
    } else if s.last().prefix <= x.prefix {
        s.push(x)
    } else {
        insert_by_prefix(s.drop_last(), x).push(s.last())
    }
}

/// `s` sorted by prefix, entries with equal prefixes keeping their order
/// (what `sort_by_key` on the prefix gives).
pub open spec fn sort_by_prefix(s: Seq<Vrp>) -> Seq<Vrp>
    decreases s.len(),
{
    if s.len() == 0 {
        s
    } else {
        insert_by_prefix(sort_by_prefix(s.drop_last()), s.last())
    }
}

proof fn lemma_insert_at(s: Seq<Vrp>, x: Vrp, k: int)
    requires
        0 <= k <= s.len(),
        forall|j: int| k <= j < s.len() ==> s[j].prefix > x.prefix,
        k > 0 ==> s[k - 1].prefix <= x.prefix,
    ensures
        insert_by_prefix(s, x) == s.subrange(0, k) + seq![x] + s.subrange(k, s.len() as int),
    decreases s.len(),
{
    if s.len() == 0 {
        assert(s.subrange(0, k) + seq![x] + s.subrange(k, s.len() as int) =~= seq![x]);
    } else if s.last().prefix <= x.prefix {
        assert(k == s.len());
        assert(s.subrange(0, k) + seq![x] + s.subrange(k, s.len() as int) =~= s.push(x));
    } else {
        lemma_insert_at(s.drop_last(), x, k);
        assert(s.subrange(0, k) + seq![x] + s.subrange(k, s.len() as int) =~= (s.drop_last().subrange(0, k) + seq![x]
            + s.drop_last().subrange(k, s.drop_last().len() as int)).push(s.last()));
    }
}

proof fn lemma_insert_sorted(s: Seq<Vrp>, x: Vrp)
    requires
        sorted_by_prefix(s),
    ensures
        sorted_by_prefix(insert_by_prefix(s, x)),
        insert_by_prefix(s, x).len() == s.len() + 1,
    decreases s.len(),
{
    if s.len() > 0 && s.last().prefix > x.prefix {
        lemma_insert_sorted(s.drop_last(), x);
        let t = insert_by_prefix(s.drop_last(), x);
        lemma_insert_members(s.drop_last(), x);
        let e = t.push(s.last());
        assert forall|i: int, j: int| 0 <= i <= j < e.len() implies e[i].prefix <= e[j].prefix by {
            if j == t.len() as int && i < j {
                let u = t[i];
                if u == x {
                } else {
                    let a = choose|a: int| 0 <= a < s.drop_last().len() && s.drop_last()[a] == u;
                    assert(s[a].prefix <= s[s.len() - 1].prefix);
                }
            }
        }
    }
}

proof fn lemma_insert_members(s: Seq<Vrp>, x: Vrp)
    ensures
        forall|i: int| 0 <= i < insert_by_prefix(s, x).len() ==> insert_by_prefix(s, x)[i] == x || exists|a: int|
            0 <= a < s.len() && s[a] == #[trigger] insert_by_prefix(s, x)[i],
        insert_by_prefix(s, x).len() == s.len() + 1,
    decreases s.len(),
{
    if s.len() > 0 && s.last().prefix > x.prefix {
        lemma_insert_members(s.drop_last(), x);
        let t = insert_by_prefix(s.drop_last(), x);
        assert forall|i: int| 0 <= i < t.push(s.last()).len() implies t.push(s.last())[i] == x || exists|a: int|
            0 <= a < s.len() && s[a] == #[trigger] t.push(s.last())[i] by {
            if i == t.len() {
                assert(s[s.len() - 1] == t.push(s.last())[i]);
            } else {
                if t[i] != x {
                    let a = choose|a: int| 0 <= a < s.drop_last().len() && s.drop_last()[a] == #[trigger] t[i];
                    assert(s[a] == t.push(s.last())[i]);
                }
            }
        }
    } else if s.len() > 0 {
        assert forall|i: int| 0 <= i < s.push(x).len() implies s.push(x)[i] == x || exists|a: int|
            0 <= a < s.len() && s[a] == #[trigger] s.push(x)[i] by {
            if i < s.len() {
                assert(s[i] == s.push(x)[i]);
            }
        }
    }
}

/// A stably sorted table is sorted.
pub proof fn law_sort_sorted(s: Seq<Vrp>)
    ensures
        sorted_by_prefix(sort_by_prefix(s)),
        sort_by_prefix(s).len() == s.len(),
    decreases s.len(),
{
    if s.len() > 0 {
        law_sort_sorted(s.drop_last());
        lemma_insert_sorted(sort_by_prefix(s.drop_last()), s.last());
    }
}

/// Sorting a table that is already sorted changes nothing.
pub proof fn law_sort_idempotent(s: Seq<Vrp>)
    requires
        sorted_by_prefix(s),
    ensures
        sort_by_prefix(s) == s,
    decreases s.len(),
{
    if s.len() > 0 {
        law_sort_idempotent(s.drop_last());
        assert(s.drop_last().push(s.last()) =~= s);
        if s.len() > 1 {
            assert(s.drop_last().last().prefix <= s.last().prefix);
        }
    }
}

/// Inserts `x` into a sorted table after every entry whose prefix is at
/// most its own.
fn insert_sorted(v: &mut Vec<Vrp>, x: Vrp)
    requires
        sorted_by_prefix(old(v)@),
    ensures
        final(v)@ == insert_by_prefix(old(v)@, x),
        sorted_by_prefix(final(v)@),
{
    let ghost s = v@;
    let mut k: usize = v.len();
    while k > 0 && v[k - 1].prefix > x.prefix
        invariant
            k <= v@.len(),
            v@ == s,
            forall|j: int| k <= j < v@.len() ==> v@[j].prefix > x.prefix,
        decreases k,
    {
        k = k - 1;
    }
    proof {
        lemma_insert_at(s, x, k as int);
        lemma_insert_sorted(s, x);
    }
    v.insert(k, x);
    proof {
        assert(v@ =~= s.subrange(0, k as int) + seq![x] + s.subrange(k as int, s.len() as int));
    }
}

/// Sorts a table by prefix, keeping the order of equal prefixes.
fn sort_vrps(input: Vec<Vrp>) -> (r: Vec<Vrp>)
    ensures
        r@ == sort_by_prefix(input@),
        sorted_by_prefix(r@),
{
    let mut out: Vec<Vrp> = Vec::new();
    let mut i: usize = 0;
    while i < input.len()
        invariant
            i <= input@.len(),
            out@ == sort_by_prefix(input@.subrange(0, i as int)),
            sorted_by_prefix(out@),
        decreases input@.len() - i,
    {
        proof {
            assert(input@.subrange(0, i + 1).drop_last() =~= input@.subrange(0, i as int));
        }
        insert_sorted(&mut out, input[i]);
        i = i + 1;
    }
    proof {
        assert(input@.subrange(0, input@.len() as int) =~= input@);
    }
    out
}

/// Two entries with the same prefix, length and ASN.
pub open spec fn same_roa(a: Vrp, b: Vrp) -> bool {
    a.prefix == b.prefix && a.prefix_len == b.prefix_len && a.asn == b.asn
}

/// `s` without entries equal (same prefix, length and ASN) to the entry
/// kept just before them (what `dedup_by` gives).
pub open spec fn dedup_roas(s: Seq<Vrp>) -> Seq<Vrp>
    decreases s.len(),
{
    if s.len() == 0 {
        s
    } else {
        let d = dedup_roas(s.drop_last());
        if d.len() > 0 && same_roa(d.last(), s.last()) {
            d
        } else {
            d.push(s.last())
        }
    }
}

proof fn lemma_dedup_sorted(s: Seq<Vrp>)
    requires
        sorted_by_prefix(s),
    ensures
        sorted_by_prefix(dedup_roas(s)),
        forall|i: int| 0 <= i < dedup_roas(s).len() ==> exists|a: int| 0 <= a < s.len() && s[a] == #[trigger] dedup_roas(s)[i],
        s.len() > 0 ==> dedup_roas(s).len() > 0 && dedup_roas(s).last() == s.last() || same_roa(dedup_roas(s).last(), s.last()),
    decreases s.len(),
{
    if s.len() > 0 {
        let p = s.drop_last();
        lemma_dedup_sorted(p);
        let d = dedup_roas(p);
        if !(d.len() > 0 && same_roa(d.last(), s.last())) {
            let e = d.push(s.last());
            assert forall|i: int| 0 <= i < e.len() implies exists|a: int| 0 <= a < s.len() && s[a] == #[trigger] e[i] by {
                if i < d.len() {
                    let a = choose|a: int| 0 <= a < p.len() && p[a] == #[trigger] d[i];
                    assert(s[a] == e[i]);
                } else {
                    assert(s[s.len() - 1] == e[i]);
                }
            }
            assert forall|i: int, j: int| 0 <= i <= j < e.len() implies e[i].prefix <= e[j].prefix by {
                if j == d.len() && i < j {
                    let a = choose|a: int| 0 <= a < p.len() && p[a] == #[trigger] d[i];
                    assert(s[a].prefix <= s[s.len() - 1].prefix);
                }
            }
        }
    }
}

/// Removes entries equal to the one kept just before them.
fn dedup_vrps(input: Vec<Vrp>) -> (r: Vec<Vrp>)
    ensures
        r@ == dedup_roas(input@),
{
    let mut out: Vec<Vrp> = Vec::new();
    let mut i: usize = 0;
    while i < input.len()
        invariant
            i <= input@.len(),
            out@ == dedup_roas(input@.subrange(0, i as int)),
        decreases input@.len() - i,
    {
        proof {
            assert(input@.subrange(0, i + 1).drop_last() =~= input@.subrange(0, i as int));
        }
        let x = input[i];
        let n = out.len();
        if n > 0 && out[n - 1].prefix == x.prefix && out[n - 1].prefix_len == x.prefix_len && out[n - 1].asn == x.asn {
        } else {
            out.push(x);
        }
        i = i + 1;
    }
    proof {
        assert(input@.subrange(0, input@.len() as int) =~= input@);
    }
    out
}

/// An IPv4 entry from its fields.
pub open spec fn vrp4_of(t: (u32, u8, u8, u32)) -> Vrp {
    Vrp { prefix: t.0 as u128, prefix_len: t.1, max_len: t.2, asn: t.3 }
}

/// An IPv6 entry from its fields.
pub open spec fn vrp6_of(t: (u128, u8, u8, u32)) -> Vrp {
    Vrp { prefix: t.0, prefix_len: t.1, max_len: t.2, asn: t.3 }
}

impl RPKICache {
    /// A table of the given entries, `(prefix, length, max length, ASN)`,
    /// each family sorted by prefix; no validation counted yet.
    pub fn from_vrps(v4: Vec<(u32, u8, u8, u32)>, v6: Vec<(u128, u8, u8, u32)>) -> (r: Self)
        ensures
            r.wf(),
            r@ == (RpkiV {
                v4: sort_by_prefix(v4@.map_values(|t: (u32, u8, u8, u32)| vrp4_of(t))),
                v6: sort_by_prefix(v6@.map_values(|t: (u128, u8, u8, u32)| vrp6_of(t))),
                valid: 0,
                invalid: 0,
                not_found: 0,
            }),
    {
        let mut a: Vec<Vrp> = Vec::new();
        let mut i: usize = 0;
        while i < v4.len()
            invariant
                i <= v4@.len(),
                a@ == v4@.subrange(0, i as int).map_values(|t: (u32, u8, u8, u32)| vrp4_of(t)),
            decreases v4@.len() - i,
        {
            let t = v4[i];
            a.push(Vrp { prefix: t.0 as u128, prefix_len: t.1, max_len: t.2, asn: t.3 });
            proof {
                assert(a@ =~= v4@.subrange(0, i + 1).map_values(|t: (u32, u8, u8, u32)| vrp4_of(t)));
            }
            i = i + 1;
        }
        let mut b: Vec<Vrp> = Vec::new();
        let mut j: usize = 0;
        while j < v6.len()
            invariant
                j <= v6@.len(),
                b@ == v6@.subrange(0, j as int).map_values(|t: (u128, u8, u8, u32)| vrp6_of(t)),
            decreases v6@.len() - j,
        {
            let t = v6[j];
            b.push(Vrp { prefix: t.0, prefix_len: t.1, max_len: t.2, asn: t.3 });
            proof {
                assert(b@ =~= v6@.subrange(0, j + 1).map_values(|t: (u128, u8, u8, u32)| vrp6_of(t)));
            }
            j = j + 1;
        }
        proof {
            assert(v4@.subrange(0, v4@.len() as int) =~= v4@);
            assert(v6@.subrange(0, v6@.len() as int) =~= v6@);
        }
        RPKICache { vrps4: sort_vrps(a), vrps6: sort_vrps(b), valid_count: 0, invalid_count: 0, not_found_count: 0 }
    }
}

} // verus!

verus! {

// ───────────────────────── the cache file ─────────────────────────

/// Four big-endian bytes of the low 32 bits of `n`.
pub open spec fn word_bytes(n: nat) -> Seq<u8> {
    crate::obmp_writer::be32_bytes(n)
}

/// Sixteen big-endian bytes of `n`.
pub open spec fn be128_bytes(n: u128) -> Seq<u8> {
    word_bytes((n >> 96u128) as nat) + word_bytes(((n >> 64u128) & 0xffff_ffff) as nat) + word_bytes(
        ((n >> 32u128) & 0xffff_ffff) as nat,
    ) + word_bytes((n & 0xffff_ffff) as nat)
}

/// Big-endian 128-bit value at `i`.
pub open spec fn be128(s: Seq<u8>, i: int) -> nat {
    crate::raw_bmp::be32(s, i) * 0x1_0000_0000_0000_0000_0000_0000 + crate::raw_bmp::be32(s, i + 4)
        * 0x1_0000_0000_0000_0000 + crate::raw_bmp::be32(s, i + 8) * 0x1_0000_0000 + crate::raw_bmp::be32(s, i + 12)
}

/// The bytes of one entry: its prefix (4 bytes for IPv4, 16 for IPv6),
/// length, max length and ASN.
pub open spec fn entry_bytes(v: Vrp, v6: bool) -> Seq<u8> {
    (if v6 {
        be128_bytes(v.prefix)
    } else {
        word_bytes((v.prefix % 0x1_0000_0000) as nat)
    }) + seq![v.prefix_len, v.max_len] + word_bytes(v.asn as nat)
}

/// The bytes of a list of entries.
pub open spec fn entries_bytes(vs: Seq<Vrp>, v6: bool) -> Seq<u8>
    decreases vs.len(),
{
    if vs.len() == 0 {
        Seq::empty()
    } else {
        entries_bytes(vs.drop_last(), v6) + entry_bytes(vs.last(), v6)
    }
}

/// The cache file of a table: the IPv4 count (low 32 bits), the IPv4
/// entries (10 bytes each), the IPv6 count and the IPv6 entries (22 bytes each).
pub open spec fn cache_bytes(c: RpkiV) -> Seq<u8> {
    word_bytes(c.v4.len()) + entries_bytes(c.v4, false) + word_bytes(c.v6.len()) + entries_bytes(c.v6, true)
}

/// The entry read at `pos`.
pub open spec fn entry_at(d: Seq<u8>, pos: int, v6: bool) -> Vrp {
    if v6 {
        Vrp {
            prefix: be128(d, pos) as u128,
            prefix_len: d[pos + 16],
            max_len: d[pos + 17],
            asn: crate::raw_bmp::be32(d, pos + 18) as u32,
        }
    } else {
        Vrp {
            prefix: crate::raw_bmp::be32(d, pos) as u128,
            prefix_len: d[pos + 4],
            max_len: d[pos + 5],
            asn: crate::raw_bmp::be32(d, pos + 6) as u32,
        }
    }
}

/// Size of an entry.
pub open spec fn entry_size(v6: bool) -> nat {
    if v6 {
        22
    } else {
        10
    }
}

/// Entries read from `pos`, at most `count` and while whole entries
/// remain; and the position after them.
pub open spec fn read_entries(d: Seq<u8>, pos: nat, count: nat, v6: bool) -> (Seq<Vrp>, nat)
    decreases count,
{
    if count == 0 || pos + entry_size(v6) > d.len() {
        (Seq::empty(), pos)
    } else {
        let (rest, end) = read_entries(d, pos + entry_size(v6), (count - 1) as nat, v6);
        (seq![entry_at(d, pos as int, v6)] + rest, end)
    }
}

/// The table read from a cache file: an error when it is shorter than
/// 8 bytes; else as many entries as the counts announce and the bytes
/// hold, each family sorted by prefix.
pub open spec fn decoded_cache(d: Seq<u8>) -> Result<RpkiV, Seq<char>> {
    if d.len() < 8 {
        Err("cache too short"@)
    } else {
        let (v4, pos) = read_entries(d, 4, crate::raw_bmp::be32(d, 0), false);
        let v6 = if pos + 4 <= d.len() {
            read_entries(d, pos + 4, crate::raw_bmp::be32(d, pos as int), true).0
        } else {
            Seq::empty()
        };
        Ok(RpkiV { v4: sort_by_prefix(v4), v6: sort_by_prefix(v6), valid: 0, invalid: 0, not_found: 0 })
    }
}

fn push_word(out: &mut Vec<u8>, w: u32)
    ensures
        final(out)@ == old(out)@ + word_bytes(w as nat),
{
    out.push((w / 16777216) as u8);
    out.push(((w / 65536) % 256) as u8);
    out.push(((w / 256) % 256) as u8);
    out.push((w % 256) as u8);
    proof {
        assert((w as nat) % 4294967296 == w);
        assert(final(out)@ =~= old(out)@ + word_bytes(w as nat));
    }
}

fn push_entry(out: &mut Vec<u8>, v: Vrp, v6: bool)
    ensures
        final(out)@ == old(out)@ + entry_bytes(v, v6),
{
    let ghost o = out@;
    if v6 {
        let p: u128 = v.prefix;
        proof {
            assert((p >> 96u128) < 0x1_0000_0000) by (bit_vector);
            assert(((p >> 64u128) & 0xffff_ffff) < 0x1_0000_0000) by (bit_vector);
            assert(((p >> 32u128) & 0xffff_ffff) < 0x1_0000_0000) by (bit_vector);
            assert((p & 0xffff_ffff) < 0x1_0000_0000) by (bit_vector);
        }
        push_word(out, (p >> 96u128) as u32);
        push_word(out, ((p >> 64u128) & 0xffff_ffff) as u32);
        push_word(out, ((p >> 32u128) & 0xffff_ffff) as u32);
        push_word(out, (p & 0xffff_ffff) as u32);
    } else {
        push_word(out, (v.prefix % 0x1_0000_0000) as u32);
    }
    out.push(v.prefix_len);
    out.push(v.max_len);
    push_word(out, v.asn);
    proof {
        assert(final(out)@ =~= o + entry_bytes(v, v6));
    }
}

fn push_entries(out: &mut Vec<u8>, vs: &Vec<Vrp>, v6: bool)
    ensures
        final(out)@ == old(out)@ + entries_bytes(vs@, v6),
{
    let mut i: usize = 0;
    let ghost base = out@;
    while i < vs.len()
        invariant
            i <= vs@.len(),
            out@ == base + entries_bytes(vs@.subrange(0, i as int), v6),
        decreases vs@.len() - i,
    {
        proof {
            assert(vs@.subrange(0, i + 1).drop_last() =~= vs@.subrange(0, i as int));
        }
        push_entry(out, vs[i], v6);
        proof {
            assert(out@ =~= base + entries_bytes(vs@.subrange(0, i + 1), v6));
        }
        i = i + 1;
    }
    proof {
        assert(vs@.subrange(0, vs@.len() as int) =~= vs@);
    }
}

fn count_word(n: usize) -> (r: u32)
    ensures
        word_bytes(r as nat) == word_bytes(n as nat),
{
    let r = (n as u64 % 0x1_0000_0000) as u32;
    proof {
        assert((r as nat) % 4294967296 == (n as nat) % 4294967296);
    }
    r
}

impl RPKICache {
    /// The cache-file bytes of this table.
    pub fn encode(&self) -> (r: Vec<u8>)
        ensures
            r@ == cache_bytes(self@),
    {
        let mut out: Vec<u8> = Vec::new();
        push_word(&mut out, count_word(self.vrps4.len()));
        push_entries(&mut out, &self.vrps4, false);
        push_word(&mut out, count_word(self.vrps6.len()));
        push_entries(&mut out, &self.vrps6, true);
        proof {
            assert(out@ =~= cache_bytes(self@));
        }
        out
    }
}

} // verus!

verus! {

fn read_be128(d: &[u8], i: usize) -> (r: u128)
    requires
        i + 16 <= d@.len(),
    ensures
        r as nat == be128(d@, i as int),
{
    let _n = d.len();
    let a = crate::raw_bmp::read_be32(d, i) as u128;
    let b = crate::raw_bmp::read_be32(d, i + 4) as u128;
    let c = crate::raw_bmp::read_be32(d, i + 8) as u128;
    let e = crate::raw_bmp::read_be32(d, i + 12) as u128;
    a * 0x1_0000_0000_0000_0000_0000_0000 + b * 0x1_0000_0000_0000_0000 + c * 0x1_0000_0000 + e
}

fn read_entry(d: &[u8], pos: usize, v6: bool) -> (r: Vrp)
    requires
        pos + entry_size(v6) <= d@.len(),
    ensures
        r == entry_at(d@, pos as int, v6),
{
    let _n = d.len();
    if v6 {
        Vrp {
            prefix: read_be128(d, pos),
            prefix_len: d[pos + 16],
            max_len: d[pos + 17],
            asn: crate::raw_bmp::read_be32(d, pos + 18),
        }
    } else {
        Vrp {
            prefix: crate::raw_bmp::read_be32(d, pos) as u128,
            prefix_len: d[pos + 4],
            max_len: d[pos + 5],
            asn: crate::raw_bmp::read_be32(d, pos + 6),
        }
    }
}

fn read_entries_at(d: &[u8], start: usize, count: u32, v6: bool) -> (r: (Vec<Vrp>, usize))
    requires
        start <= d@.len(),
    ensures
        (r.0@, r.1 as nat) == read_entries(d@, start as nat, count as nat, v6),
        r.1 <= d@.len(),
{
    let size: usize = if v6 {
        22
    } else {
        10
    };
    let n = d.len();
    let ghost goal = read_entries(d@, start as nat, count as nat, v6);
    let mut out: Vec<Vrp> = Vec::new();
    let mut pos: usize = start;
    let mut k: u32 = 0;
    while k < count && n - pos >= size
        invariant
            n == d@.len(),
            pos <= n,
            k <= count,
            size == entry_size(v6),
            (out@ + read_entries(d@, pos as nat, (count - k) as nat, v6).0, read_entries(
                d@,
                pos as nat,
                (count - k) as nat,
                v6,
            ).1) == goal,
        decreases count - k,
    {
        let e = read_entry(d, pos, v6);
        let ghost rest = read_entries(d@, (pos + size) as nat, (count - k - 1) as nat, v6);
        proof {
            assert(read_entries(d@, pos as nat, (count - k) as nat, v6) == (seq![e] + rest.0, rest.1));
            assert(out@.push(e) + rest.0 =~= out@ + (seq![e] + rest.0));
        }
        out.push(e);
        pos = pos + size;
        k = k + 1;
    }
    proof {
        assert(read_entries(d@, pos as nat, (count - k) as nat, v6) == (Seq::<Vrp>::empty(), pos as nat));
        assert(out@ + Seq::<Vrp>::empty() =~= out@);
    }
    (out, pos)
}

impl RPKICache {
    /// Reads a table from cache-file bytes: an error when they are shorter
    /// than 8 bytes; otherwise as many entries as the counts announce and
    /// the bytes hold, each family sorted by prefix.
    pub fn decode(data: &[u8]) -> (r: Result<RPKICache, String>)
        ensures
            match r {
                Ok(c) => decoded_cache(data@) == Ok::<RpkiV, Seq<char>>(c@) && c.wf(),
                Err(e) => decoded_cache(data@) == Err::<RpkiV, Seq<char>>(e@),
            },
    {
        if data.len() < 8 {
            return Err(String::from_str("cache too short"));
        }
        let count4 = crate::raw_bmp::read_be32(data, 0);
        let (v4, pos) = read_entries_at(data, 4, count4, false);
        let n = data.len();
        let v6: Vec<Vrp> = if n - pos >= 4 {
            let count6 = crate::raw_bmp::read_be32(data, pos);
            let (v6, _end) = read_entries_at(data, pos + 4, count6, true);
            v6
        } else {
            Vec::new()
        };
        let r = RPKICache {
            vrps4: sort_vrps(v4),
            vrps6: sort_vrps(v6),
            valid_count: 0,
            invalid_count: 0,
            not_found_count: 0,
        };
        proof {
            assert(r@.v6 == decoded_cache(data@)->Ok_0.v6);
        }
        Ok(r)
    }
}

} // verus!

verus! {

proof fn lemma_word_at(d: Seq<u8>, i: int, n: nat)
    requires
        n < 4294967296,
        0 <= i,
        i + 4 <= d.len(),
        d.subrange(i, i + 4) == word_bytes(n),
    ensures
        crate::raw_bmp::be32(d, i) == n,
{
    crate::obmp_reader::lemma_be32_roundtrip(n);
    let w = word_bytes(n);
    assert(d[i] == w[0] && d[i + 1] == w[1] && d[i + 2] == w[2] && d[i + 3] == w[3]) by {
        assert(d.subrange(i, i + 4)[0] == d[i]);
        assert(d.subrange(i, i + 4)[1] == d[i + 1]);
        assert(d.subrange(i, i + 4)[2] == d[i + 2]);
        assert(d.subrange(i, i + 4)[3] == d[i + 3]);
    }
}

proof fn lemma_be128_at(d: Seq<u8>, i: int, n: u128)
    requires
        0 <= i,
        i + 16 <= d.len(),
        d.subrange(i, i + 16) == be128_bytes(n),
    ensures
        be128(d, i) == n,
{
    let a = n >> 96u128;
    let b = (n >> 64u128) & 0xffff_ffff;
    let c = (n >> 32u128) & 0xffff_ffff;
    let e = n & 0xffff_ffff;
    assert(a < 0x1_0000_0000 && b < 0x1_0000_0000 && c < 0x1_0000_0000 && e < 0x1_0000_0000) by (bit_vector)
        requires
            a == n >> 96u128,
            b == (n >> 64u128) & 0xffff_ffff,
            c == (n >> 32u128) & 0xffff_ffff,
            e == n & 0xffff_ffff,
    ;
    let bytes = be128_bytes(n);
    assert(d.subrange(i, i + 4) =~= bytes.subrange(0, 4));
    assert(d.subrange(i + 4, i + 8) =~= bytes.subrange(4, 8));
    assert(d.subrange(i + 8, i + 12) =~= bytes.subrange(8, 12));
    assert(d.subrange(i + 12, i + 16) =~= bytes.subrange(12, 16));
    assert(bytes.subrange(0, 4) =~= word_bytes(a as nat));
    assert(bytes.subrange(4, 8) =~= word_bytes(b as nat));
    assert(bytes.subrange(8, 12) =~= word_bytes(c as nat));
    assert(bytes.subrange(12, 16) =~= word_bytes(e as nat));
    lemma_word_at(d, i, a as nat);
    lemma_word_at(d, i + 4, b as nat);
    lemma_word_at(d, i + 8, c as nat);
    lemma_word_at(d, i + 12, e as nat);
    assert(a * 0x1_0000_0000_0000_0000_0000_0000 + b * 0x1_0000_0000_0000_0000 + c * 0x1_0000_0000 + e == n)
        by (bit_vector)
        requires
            a == n >> 96u128,
            b == (n >> 64u128) & 0xffff_ffff,
            c == (n >> 32u128) & 0xffff_ffff,
            e == n & 0xffff_ffff,
    ;
}

/// An entry whose prefix fits its family.
pub open spec fn entry_fits(v: Vrp, v6: bool) -> bool {
    v6 || v.prefix < 0x1_0000_0000
}

proof fn lemma_entry_at(d: Seq<u8>, pos: int, v: Vrp, v6: bool)
    requires
        0 <= pos,
        pos + entry_size(v6) <= d.len(),
        d.subrange(pos, pos + entry_size(v6)) == entry_bytes(v, v6),
        entry_fits(v, v6),
    ensures
        entry_at(d, pos, v6) == v,
{
    let eb = entry_bytes(v, v6);
    if v6 {
        assert(d.subrange(pos, pos + 16) =~= eb.subrange(0, 16));
        assert(eb.subrange(0, 16) =~= be128_bytes(v.prefix));
        lemma_be128_at(d, pos, v.prefix);
        assert(d[pos + 16] == eb[16]);
        assert(d[pos + 17] == eb[17]);
        assert(d.subrange(pos + 18, pos + 22) =~= eb.subrange(18, 22));
        assert(eb.subrange(18, 22) =~= word_bytes(v.asn as nat));
        lemma_word_at(d, pos + 18, v.asn as nat);
    } else {
        assert(d.subrange(pos, pos + 4) =~= eb.subrange(0, 4));
        assert(eb.subrange(0, 4) =~= word_bytes((v.prefix % 0x1_0000_0000) as nat));
        lemma_word_at(d, pos, (v.prefix % 0x1_0000_0000) as nat);
        assert(d[pos + 4] == eb[4]);
        assert(d[pos + 5] == eb[5]);
        assert(d.subrange(pos + 6, pos + 10) =~= eb.subrange(6, 10));
        assert(eb.subrange(6, 10) =~= word_bytes(v.asn as nat));
        lemma_word_at(d, pos + 6, v.asn as nat);
    }
}

proof fn lemma_entries_len(vs: Seq<Vrp>, v6: bool)
    ensures
        entries_bytes(vs, v6).len() == vs.len() * entry_size(v6),
    decreases vs.len(),
{
    if vs.len() > 0 {
        lemma_entries_len(vs.drop_last(), v6);
        let n = vs.len();
        let e = entry_size(v6);
        assert(entry_bytes(vs.last(), v6).len() == e);
        assert((n - 1) * e + e == n * e) by (nonlinear_arith);
    }
}

proof fn lemma_entries_front(vs: Seq<Vrp>, v6: bool)
    requires
        vs.len() > 0,
    ensures
        entries_bytes(vs, v6) == entry_bytes(vs[0], v6) + entries_bytes(vs.drop_first(), v6),
    decreases vs.len(),
{
    let first = entry_bytes(vs[0], v6);
    if vs.len() == 1 {
        assert(vs.drop_last() =~= Seq::<Vrp>::empty());
        assert(vs.drop_first() =~= Seq::<Vrp>::empty());
        assert(entries_bytes(Seq::<Vrp>::empty(), v6) == Seq::<u8>::empty());
        assert(entries_bytes(vs, v6) == Seq::<u8>::empty() + entry_bytes(vs.last(), v6));
        assert(Seq::<u8>::empty() + first =~= first + Seq::<u8>::empty());
    } else {
        let init = vs.drop_last();
        let tail = vs.drop_first();
        let last = entry_bytes(vs.last(), v6);
        lemma_entries_front(init, v6);
        assert(init.drop_first() =~= tail.drop_last());
        assert(tail.last() == vs.last());
        assert(init[0] == vs[0]);
        let x = entries_bytes(tail.drop_last(), v6);
        assert(entries_bytes(init, v6) == first + x);
        assert(entries_bytes(tail, v6) == x + last);
        assert(entries_bytes(vs, v6) == entries_bytes(init, v6) + last);
        assert((first + x) + last =~= first + (x + last));
    }
}

proof fn lemma_read_entries(d: Seq<u8>, pos: nat, vs: Seq<Vrp>, v6: bool)
    requires
        pos + entries_bytes(vs, v6).len() <= d.len(),
        d.subrange(pos as int, (pos + entries_bytes(vs, v6).len()) as int) == entries_bytes(vs, v6),
        forall|i: int| 0 <= i < vs.len() ==> entry_fits(#[trigger] vs[i], v6),
    ensures
        read_entries(d, pos, vs.len(), v6) == (vs, pos + vs.len() * entry_size(v6)),
    decreases vs.len(),
{
    lemma_entries_len(vs, v6);
    if vs.len() > 0 {
        lemma_entries_front(vs, v6);
        let size = entry_size(v6);
        let eb = entries_bytes(vs, v6);
        let rest = entries_bytes(vs.drop_first(), v6);
        lemma_entries_len(vs.drop_first(), v6);
        assert(d.subrange(pos as int, (pos + size) as int) =~= eb.subrange(0, size as int));
        assert(eb.subrange(0, size as int) =~= entry_bytes(vs[0], v6));
        assert(entry_fits(vs[0], v6));
        lemma_entry_at(d, pos as int, vs[0], v6);
        assert(d.subrange((pos + size) as int, (pos + size + rest.len()) as int) =~= eb.subrange(size as int, eb.len() as int));
        assert(eb.subrange(size as int, eb.len() as int) =~= rest);
        assert forall|i: int| 0 <= i < vs.drop_first().len() implies entry_fits(#[trigger] vs.drop_first()[i], v6) by {
            assert(vs.drop_first()[i] == vs[i + 1]);
        }
        lemma_read_entries(d, pos + size, vs.drop_first(), v6);
        assert(seq![vs[0]] + vs.drop_first() =~= vs);
        assert(pos + size + (vs.len() - 1) * size == pos + vs.len() * size) by (nonlinear_arith);
    }
}

/// What a read gives back of a write: the cache file of a table that is
/// sorted by prefix, whose IPv4 prefixes fit 32 bits and whose families
/// hold fewer than 2^32 entries each, decodes to that table (with its
/// outcome counters at zero).
pub proof fn law_cache_roundtrip(c: RpkiV)
    requires
        sorted_by_prefix(c.v4),
        sorted_by_prefix(c.v6),
        c.v4.len() < 4294967296,
        c.v6.len() < 4294967296,
        forall|i: int| 0 <= i < c.v4.len() ==> (#[trigger] c.v4[i]).prefix < 0x1_0000_0000,
    ensures
        decoded_cache(cache_bytes(c)) == Ok::<RpkiV, Seq<char>>(
            RpkiV { v4: c.v4, v6: c.v6, valid: 0, invalid: 0, not_found: 0 },
        ),
{
    let d = cache_bytes(c);
    let e4 = entries_bytes(c.v4, false);
    let e6 = entries_bytes(c.v6, true);
    lemma_entries_len(c.v4, false);
    lemma_entries_len(c.v6, true);
    let p1 = 4 + e4.len();
    assert(d.len() == p1 + 4 + e6.len());
    assert(d.subrange(0, 4) =~= word_bytes(c.v4.len()));
    lemma_word_at(d, 0, c.v4.len());
    assert(d.subrange(4, p1 as int) =~= e4);
    assert forall|i: int| 0 <= i < c.v4.len() implies entry_fits(#[trigger] c.v4[i], false) by {}
    lemma_read_entries(d, 4, c.v4, false);
    assert(d.subrange(p1 as int, (p1 + 4) as int) =~= word_bytes(c.v6.len()));
    lemma_word_at(d, p1 as int, c.v6.len());
    assert(d.subrange((p1 + 4) as int, d.len() as int) =~= e6);
    lemma_read_entries(d, (p1 + 4) as nat, c.v6, true);
    law_sort_idempotent(c.v4);
    law_sort_idempotent(c.v6);
}

// ───────────────────────── RTR sessions ─────────────────────────

/// What to do after a PDU of an RTR session.
#[derive(Debug, Clone, PartialEq, Eq)]
pub enum RtrStep {
    /// Read the next PDU.
    Continue,
    /// End of Data: the table is complete.
    Done,
    /// The server reported an error; the text describes it.
    Failed(String),
}

/// Abstract value of an [`RtrStep`].
pub enum RtrStepV {
    Continue,
    Done,
    Failed(Seq<char>),
}

impl View for RtrStep {
    type V = RtrStepV;

    open spec fn view(&self) -> RtrStepV {
        match self {
            RtrStep::Continue => RtrStepV::Continue,
            RtrStep::Done => RtrStepV::Done,
            RtrStep::Failed(m) => RtrStepV::Failed(m@),
        }
    }
}

/// The Reset Query PDU (version 0) that opens a session.
pub fn reset_query() -> (r: Vec<u8>)
    ensures
        r@ == seq![0u8, 2, 0, 0, 0, 0, 0, 8],
{
    let r = vec![0u8, 2, 0, 0, 0, 0, 0, 8];
    proof {
        assert(r@ =~= seq![0u8, 2, 0, 0, 0, 0, 0, 8]);
    }
    r
}

/// The message for a PDU length below the header size.
pub open spec fn bad_length_message(len: nat) -> Seq<char> {
    "RTR: bad PDU length "@ + crate::text::dec_str(len)
}

/// Longest PDU accepted from an RTR server, header included.
pub const MAX_RTR_PDU_LEN: u32 = 65536;

/// The message for a PDU length above [`MAX_RTR_PDU_LEN`].
pub open spec fn oversized_pdu_message(len: nat) -> Seq<char> {
    "RTR: PDU length "@ + crate::text::dec_str(len) + " exceeds 65536"@
}

/// The body length announced by a PDU header: its length field less the
/// 8 header bytes; an error below 8 or above [`MAX_RTR_PDU_LEN`] (so a
/// server cannot make the reader allocate a huge body).
pub fn pdu_body_len(header: &[u8]) -> (r: Result<usize, String>)
    requires
        header@.len() >= 8,
    ensures
        match r {
            Ok(n) => 8 <= crate::raw_bmp::be32(header@, 4) <= 65536 && n == crate::raw_bmp::be32(header@, 4) - 8,
            Err(m) => if crate::raw_bmp::be32(header@, 4) < 8 {
                m@ == bad_length_message(crate::raw_bmp::be32(header@, 4))
            } else {
                crate::raw_bmp::be32(header@, 4) > 65536 && m@ == oversized_pdu_message(
                    crate::raw_bmp::be32(header@, 4),
                )
            },
        },
{
    let length = crate::raw_bmp::read_be32(header, 4);
    if length < 8 {
        let mut m = String::from_str("RTR: bad PDU length ");
        crate::text::append_decimal(&mut m, length as u64);
        return Err(m);
    }
    if length > MAX_RTR_PDU_LEN {
        let mut m = String::from_str("RTR: PDU length ");
        crate::text::append_decimal(&mut m, length as u64);
        m.append(" exceeds 65536");
        proof {
            reveal_strlit(" exceeds 65536");
        }
        return Err(m);
    }
    Ok((length - 8) as usize)
}

/// The larger of two lengths.
pub open spec fn max_u8(a: u8, b: u8) -> u8 {
    if a >= b {
        a
    } else {
        b
    }
}

/// The table entry an IPv4 Prefix PDU body announces, if well formed.
pub open spec fn v4_pdu_entry(body: Seq<u8>) -> Option<Vrp> {
    if body.len() >= 12 && 0 < body[1] <= 32 {
        let plen = body[1];
        Some(Vrp {
            prefix: ((crate::raw_bmp::be32(body, 4) as u32) & mask32(plen)) as u128,
            prefix_len: plen,
            max_len: max_u8(body[2], plen),
            asn: crate::raw_bmp::be32(body, 8) as u32,
        })
    } else {
        None
    }
}

/// The table entry an IPv6 Prefix PDU body announces, if well formed.
pub open spec fn v6_pdu_entry(body: Seq<u8>) -> Option<Vrp> {
    if body.len() >= 24 && 0 < body[1] <= 128 {
        let plen = body[1];
        Some(Vrp {
            prefix: (be128(body, 4) as u128) & mask128(plen),
            prefix_len: plen,
            max_len: max_u8(body[2], plen),
            asn: crate::raw_bmp::be32(body, 20) as u32,
        })
    } else {
        None
    }
}

/// The text of an Error Report body.
pub open spec fn error_report_text(body: Seq<u8>) -> Seq<char> {
    "RTR error report: "@ + if vstd::utf8::valid_utf8(body) {
        vstd::utf8::decode_utf8(body)
    } else {
        "(binary)"@
    }
}

/// The entries collected so far in a session.
pub struct RtrV {
    pub v4: Seq<Vrp>,
    pub v6: Seq<Vrp>,
}

/// A session after one PDU, and what to do next: Prefix PDUs add their
/// entry, End of Data ends, an Error Report fails, anything else is passed over.
pub open spec fn pdu_effect(s: RtrV, pdu_type: u8, body: Seq<u8>) -> (RtrV, RtrStepV) {
    if pdu_type == 4 {
        match v4_pdu_entry(body) {
            Some(v) => if s.v4.len() + s.v6.len() >= MAX_VRPS {
                (s, RtrStepV::Failed(too_many_vrps_message()))
            } else {
                (RtrV { v4: s.v4.push(v), ..s }, RtrStepV::Continue)
            },
            None => (s, RtrStepV::Continue),
        }
    } else if pdu_type == 6 {
        match v6_pdu_entry(body) {
            Some(v) => if s.v4.len() + s.v6.len() >= MAX_VRPS {
                (s, RtrStepV::Failed(too_many_vrps_message()))
            } else {
                (RtrV { v6: s.v6.push(v), ..s }, RtrStepV::Continue)
            },
            None => (s, RtrStepV::Continue),
        }
    } else if pdu_type == 7 {
        (s, RtrStepV::Done)
    } else if pdu_type == 10 {
        (s, RtrStepV::Failed(error_report_text(body)))
    } else {
        (s, RtrStepV::Continue)
    }
}

/// Most VRPs an RTR session takes.
pub const MAX_VRPS: usize = 2000000;

/// The message when a server sends more than [`MAX_VRPS`] VRPs.
pub open spec fn too_many_vrps_message() -> Seq<char> {
    "RTR: more than 2000000 VRPs"@
}

/// A session never holds more than [`MAX_VRPS`] VRPs: a PDU keeps a
/// session within the cap within it.
pub proof fn law_vrps_capped(s: RtrV, pdu_type: u8, body: Seq<u8>)
    requires
        s.v4.len() + s.v6.len() <= MAX_VRPS,
    ensures
        pdu_effect(s, pdu_type, body).0.v4.len() + pdu_effect(s, pdu_type, body).0.v6.len() <= MAX_VRPS,
{
}

/// A session over PDUs in order: each taken in until one ends or fails the
/// session; the session and the last step.
pub open spec fn rtr_run(s: RtrV, pdus: Seq<(u8, Seq<u8>)>) -> (RtrV, RtrStepV)
    decreases pdus.len(),
{
    if pdus.len() == 0 {
        (s, RtrStepV::Continue)
    } else {
        let (s2, st) = pdu_effect(s, pdus[0].0, pdus[0].1);
        match st {
            RtrStepV::Continue => rtr_run(s2, pdus.drop_first()),
            _ => (s2, st),
        }
    }
}

/// An IPv4 entry as a session takes it: a length of 1 to 32, a maximum
/// length no shorter, and no bits set past the length.
pub open spec fn v4_entry_ok(v: Vrp) -> bool {
    &&& 0 < v.prefix_len <= 32
    &&& v.prefix_len <= v.max_len
    &&& v.prefix <= u32::MAX
    &&& ((v.prefix as u32) & mask32(v.prefix_len)) == v.prefix as u32
}

/// An IPv6 entry as a session takes it: a length of 1 to 128, a maximum
/// length no shorter, and no bits set past the length.
pub open spec fn v6_entry_ok(v: Vrp) -> bool {
    &&& 0 < v.prefix_len <= 128
    &&& v.prefix_len <= v.max_len
    &&& (v.prefix & mask128(v.prefix_len)) == v.prefix
}

/// A session within the VRP cap whose entries are all well formed.
pub open spec fn session_ok(s: RtrV) -> bool {
    &&& s.v4.len() + s.v6.len() <= MAX_VRPS
    &&& forall|i: int| 0 <= i < s.v4.len() ==> v4_entry_ok(#[trigger] s.v4[i])
    &&& forall|i: int| 0 <= i < s.v6.len() ==> v6_entry_ok(#[trigger] s.v6[i])
}

proof fn lemma_pdu_keeps_ok(s: RtrV, pdu_type: u8, body: Seq<u8>)
    requires
        session_ok(s),
    ensures
        session_ok(pdu_effect(s, pdu_type, body).0),
{
    if pdu_type == 4 {
        if let Some(v) = v4_pdu_entry(body) {
            let x = crate::raw_bmp::be32(body, 4) as u32;
            let m = mask32(body[1]);
            let y = x & m;
            assert((y & m) == y) by (bit_vector)
                requires
                    y == x & m,
            ;
            assert(((y as u128) as u32) == y) by (bit_vector);
            let s2 = pdu_effect(s, pdu_type, body).0;
            assert forall|i: int| 0 <= i < s2.v4.len() implies v4_entry_ok(#[trigger] s2.v4[i]) by {
                if i < s.v4.len() {
                    assert(s2.v4[i] == s.v4[i]);
                }
            }
        }
    } else if pdu_type == 6 {
        if let Some(v) = v6_pdu_entry(body) {
            let x = be128(body, 4) as u128;
            let m = mask128(body[1]);
            let y = x & m;
            assert((y & m) == y) by (bit_vector)
                requires
                    y == x & m,
            ;
            let s2 = pdu_effect(s, pdu_type, body).0;
            assert forall|i: int| 0 <= i < s2.v6.len() implies v6_entry_ok(#[trigger] s2.v6[i]) by {
                if i < s.v6.len() {
                    assert(s2.v6[i] == s.v6[i]);
                }
            }
        }
    }
}

/// Over any stream of PDUs, a session that starts empty (or well formed
/// and within the cap) never holds more than [`MAX_VRPS`] VRPs, and every
/// entry it holds has a length within its family, a maximum length no
/// shorter, and no bits set past the length.
pub proof fn law_rtr_stream_ok(s: RtrV, pdus: Seq<(u8, Seq<u8>)>)
    requires
        session_ok(s),
    ensures
        session_ok(rtr_run(s, pdus).0),
        session_ok(RtrV { v4: Seq::empty(), v6: Seq::empty() }),
    decreases pdus.len(),
{
    if pdus.len() > 0 {
        lemma_pdu_keeps_ok(s, pdus[0].0, pdus[0].1);
        let (s2, st) = pdu_effect(s, pdus[0].0, pdus[0].1);
        if st is Continue {
            law_rtr_stream_ok(s2, pdus.drop_first());
        }
    }
}

/// The VRPs received in an RTR session so far.
pub struct RtrSession {
    vrps4: Vec<Vrp>,
    vrps6: Vec<Vrp>,
}

impl View for RtrSession {
    type V = RtrV;

    closed spec fn view(&self) -> RtrV {
        RtrV { v4: self.vrps4@, v6: self.vrps6@ }
    }
}

fn too_many_vrps() -> (r: String)
    ensures
        r@ == too_many_vrps_message(),
{
    String::from_str("RTR: more than 2000000 VRPs")
}

impl RtrSession {
    /// A session with nothing received.
    pub fn new() -> (r: Self)
        ensures
            r@ == (RtrV { v4: Seq::empty(), v6: Seq::empty() }),
    {
        RtrSession { vrps4: Vec::new(), vrps6: Vec::new() }
    }

    /// Takes in one PDU (its type and body) and says what to do next.
    pub fn handle_pdu(&mut self, pdu_type: u8, body: &[u8]) -> (r: RtrStep)
        ensures
            (final(self)@, r@) == pdu_effect(old(self)@, pdu_type, body@),
    {
        let n = body.len();
        if pdu_type == 4 {
            if n >= 12 && body[1] > 0 && body[1] <= 32 {
                let plen = body[1];
                let max_len = if body[2] >= plen {
                    body[2]
                } else {
                    plen
                };
                if self.vrps4.len() >= MAX_VRPS || self.vrps6.len() >= MAX_VRPS - self.vrps4.len() {
                    return RtrStep::Failed(too_many_vrps());
                }
                let prefix = crate::raw_bmp::read_be32(body, 4);
                let asn = crate::raw_bmp::read_be32(body, 8);
                self.vrps4.push(Vrp { prefix: (prefix & mask_v4(plen)) as u128, prefix_len: plen, max_len, asn });
            }
            RtrStep::Continue
        } else if pdu_type == 6 {
            if n >= 24 && body[1] > 0 && body[1] <= 128 {
                let plen = body[1];
                let max_len = if body[2] >= plen {
                    body[2]
                } else {
                    plen
                };
                if self.vrps4.len() >= MAX_VRPS || self.vrps6.len() >= MAX_VRPS - self.vrps4.len() {
                    return RtrStep::Failed(too_many_vrps());
                }
                let prefix = read_be128(body, 4);
                let asn = crate::raw_bmp::read_be32(body, 20);
                self.vrps6.push(Vrp { prefix: prefix & mask_v6(plen), prefix_len: plen, max_len, asn });
            }
            RtrStep::Continue
        } else if pdu_type == 7 {
            RtrStep::Done
        } else if pdu_type == 10 {
            let mut m = String::from_str("RTR error report: ");
            match crate::obmp_reader::utf8_or_none(body) {
                Some(t) => m.append(t.as_str()),
                None => m.append("(binary)"),
            }
            RtrStep::Failed(m)
        } else {
            RtrStep::Continue
        }
    }

    /// The table of the session: each family sorted by prefix, then
    /// entries equal to the one kept before them removed.
    pub fn finish(self) -> (r: RPKICache)
        ensures
            r.wf(),
            r@ == (RpkiV {
                v4: dedup_roas(sort_by_prefix(self@.v4)),
                v6: dedup_roas(sort_by_prefix(self@.v6)),
                valid: 0,
                invalid: 0,
                not_found: 0,
            }),
    {
        let a = sort_vrps(self.vrps4);
        let b = sort_vrps(self.vrps6);
        proof {
            lemma_dedup_sorted(a@);
            lemma_dedup_sorted(b@);
        }
        RPKICache {
            vrps4: dedup_vrps(a),
            vrps6: dedup_vrps(b),
            valid_count: 0,
            invalid_count: 0,
            not_found_count: 0,
        }
    }
}


// ───────────────────────── what an outcome means ─────────────────────────

/// VRP `v` covers an announcement of network `net` with length `plen`:
/// its length is at most `plen` and its prefix is `net` cut to it.
pub open spec fn covers(v: Vrp, v6: bool, net: u128, plen: u8) -> bool {
    v.prefix_len <= plen && v.prefix == key_at(v6, net, v.prefix_len)
}

/// A matching entry has a least matching index, which `first_vrp` gives.
proof fn lemma_least_match(vs: Seq<Vrp>, key: u128, l: u8, need: Option<u8>, i: int)
    requires
        matches_at(vs, i, key, l, need),
    ensures
        first_vrp(vs, key, l, need) matches Some(c) && matches_at(vs, c, key, l, need) && c <= i && forall|j: int|
            0 <= j < c ==> !matches_at(vs, j, key, l, need),
    decreases i,
{
    if exists|j: int| 0 <= j < i && matches_at(vs, j, key, l, need) {
        let j = choose|j: int| 0 <= j < i && matches_at(vs, j, key, l, need);
        lemma_least_match(vs, key, l, need, j);
    } else {
        assert(matches_at(vs, i, key, l, need) && forall|j: int| 0 <= j < i ==> !matches_at(vs, j, key, l, need));
        let c = choose|c: int|
            matches_at(vs, c, key, l, need) && forall|j: int| 0 <= j < c ==> !matches_at(vs, j, key, l, need);
        if c > i {
            assert(!matches_at(vs, i, key, l, need));
        }
    }
}

/// What `search` finds: an entry that matches at its own length, no
/// longer than `l`; nothing exactly when no entry does.
proof fn lemma_search(vs: Seq<Vrp>, v6: bool, net: u128, l: int, need: Option<u8>)
    requires
        l <= 255,
    ensures
        search(vs, v6, net, l, need) matches Some(i) ==> vs[i].prefix_len <= l && matches_at(
            vs,
            i,
            key_at(v6, net, vs[i].prefix_len),
            vs[i].prefix_len,
            need,
        ),
        search(vs, v6, net, l, need) is None <==> forall|i: int|
            0 <= i < vs.len() ==> !(vs[i].prefix_len <= l && #[trigger] matches_at(
                vs,
                i,
                key_at(v6, net, vs[i].prefix_len),
                vs[i].prefix_len,
                need,
            )),
    decreases l + 1,
{
    if l >= 0 {
        lemma_search(vs, v6, net, l - 1, need);
        let lu = l as u8;
        let key = key_at(v6, net, lu);
        if exists|w: int| matches_at(vs, w, key, lu, need) {
            let w = choose|w: int| matches_at(vs, w, key, lu, need);
            lemma_least_match(vs, key, lu, need, w);
        } else {
            assert forall|i: int|
                0 <= i < vs.len() && vs[i].prefix_len <= l && #[trigger] matches_at(
                    vs,
                    i,
                    key_at(v6, net, vs[i].prefix_len),
                    vs[i].prefix_len,
                    need,
                ) implies vs[i].prefix_len <= l - 1 by {
                if vs[i].prefix_len == l {
                    assert(matches_at(vs, i, key, lu, need));
                }
            }
        }
    }
}

/// What an RPKI outcome means (in one address family, for an announcement
/// of `addr/plen` by `asn`): it is valid exactly when some covering VRP
/// allows its length and names its ASN; it is not found exactly when no
/// VRP covers it; a wrong-ASN outcome comes with the ASN of a covering VRP
/// that allows the length, which differs from the announcing one; a
/// too-long outcome comes with the longest length allowed by the most
/// specific covering VRP, which is below the announced one.
pub proof fn law_rpki_outcome(vs: Seq<Vrp>, v6: bool, addr: u128, plen: u8, asn: u32)
    ensures
        status_of(vs, v6, addr, plen, asn) == Status::Valid <==> exists|i: int|
            0 <= i < vs.len() && covers(#[trigger] vs[i], v6, network_of(v6, addr, plen), plen) && vs[i].max_len
                >= plen && vs[i].asn == asn,
        status_of(vs, v6, addr, plen, asn) == Status::NotFound <==> forall|i: int|
            0 <= i < vs.len() ==> !covers(#[trigger] vs[i], v6, network_of(v6, addr, plen), plen),
        status_of(vs, v6, addr, plen, asn) == Status::InvalidWrongAsn ==> (authorized_asn(vs, v6, addr, plen) matches Some(
            e,
        ) && e != asn),
        status_of(vs, v6, addr, plen, asn) == Status::InvalidTooLong ==> (allowed_len(vs, v6, addr, plen) matches Some(
            ml,
        ) && ml < plen),
{
    let net = network_of(v6, addr, plen);
    lemma_search(vs, v6, net, plen as int, None);
    lemma_search(vs, v6, net, plen as int, Some(plen));
    assert forall|i: int| 0 <= i < vs.len() implies (covers(vs[i], v6, net, plen) <==> (vs[i].prefix_len <= plen
        && matches_at(vs, i, key_at(v6, net, vs[i].prefix_len), vs[i].prefix_len, None))) by {}
    assert forall|i: int| 0 <= i < vs.len() implies ((covers(vs[i], v6, net, plen) && vs[i].max_len >= plen) <==> (
    vs[i].prefix_len <= plen && matches_at(vs, i, key_at(v6, net, vs[i].prefix_len), vs[i].prefix_len, Some(plen)))) by {}
    match search(vs, v6, net, plen as int, Some(plen)) {
        Some(i) => {
            assert(covers(vs[i], v6, net, plen));
        },
        None => {
            match search(vs, v6, net, plen as int, None) {
                Some(i) => {
                    assert(covers(vs[i], v6, net, plen));
                    if vs[i].max_len >= plen {
                        assert(matches_at(vs, i, key_at(v6, net, vs[i].prefix_len), vs[i].prefix_len, Some(plen)));
                    }
                },
                None => {
                    if authorized_by_some(vs, v6, net, plen, asn) {
                        let w = choose|i: int|
                            0 <= i < vs.len() && #[trigger] covers(vs[i], v6, net, plen) && vs[i].max_len >= plen
                                && vs[i].asn == asn;
                        assert(matches_at(vs, w, key_at(v6, net, vs[w].prefix_len), vs[w].prefix_len, None));
                    }
                },
            }
        },
    }
}

} // verus!
