//! Choosing RouteViews topics: by regular expression, by collector
//! fragment and peer ASN, and in display order.

use vstd::prelude::*;

use crate::prefix::chars_of;
use crate::text::{contains, ends_with, str_contains, str_ends_with};
use crate::textparse::{lowercased, to_lowercase};

verus! {

/// Whether the pattern compiles with `regex::Regex::new`.
pub uninterp spec fn regex_valid(pattern: Seq<char>) -> bool;

/// Whether the compiled pattern matches `text` (`regex::Regex::is_match`).
pub uninterp spec fn regex_match(pattern: Seq<char>, text: Seq<char>) -> bool;

/// Compiles `pattern` with `regex::Regex::new` and tests each name with
/// `Regex::is_match`. Claimed: `None` exactly when the pattern does not
/// compile, otherwise one answer per name, the match of that name.
#[verifier::external_body]
fn match_names(pattern: &str, names: &Vec<String>) -> (r: Option<Vec<bool>>)
    ensures
        r is None <==> !regex_valid(pattern@),
        r matches Some(v) ==> v@.len() == names@.len() && forall|i: int|
            0 <= i < names@.len() ==> v@[i] == regex_match(pattern@, #[trigger] names@[i]@),
{
    let re = regex::Regex::new(pattern).ok()?;
    Some(names.iter().map(|n| re.is_match(n)).collect())
}

/// Lexicographic order of texts by character (that of `String`'s `Ord`,
/// since UTF-8 keeps code point order).
pub open spec fn text_le(a: Seq<char>, b: Seq<char>) -> bool
    decreases a.len(),
{
    if a.len() == 0 {
        true
    } else if b.len() == 0 {
        false
    } else if a[0] != b[0] {
        (a[0] as int) < (b[0] as int)
    } else {
        text_le(a.drop_first(), b.drop_first())
    }
}

/// Whether `a` comes no later than `b`.
pub fn chars_le(a: &[char], b: &[char]) -> (r: bool)
    ensures
        r == text_le(a@, b@),
{
    let n = a.len();
    let m = b.len();
    let mut i: usize = 0;
    proof {
        assert(a@.subrange(0, n as int) =~= a@);
        assert(b@.subrange(0, m as int) =~= b@);
    }
    while i < n && i < m && a[i] == b[i]
        invariant
            i <= n,
            i <= m,
            n == a@.len(),
            m == b@.len(),
            text_le(a@, b@) == text_le(a@.subrange(i as int, n as int), b@.subrange(i as int, m as int)),
        decreases n - i,
    {
        proof {
            assert(a@.subrange(i + 1, n as int) =~= a@.subrange(i as int, n as int).drop_first());
            assert(b@.subrange(i + 1, m as int) =~= b@.subrange(i as int, m as int).drop_first());
        }
        i = i + 1;
    }
    proof {
        if i < n && i < m {
            assert(a@.subrange(i as int, n as int)[0] == a@[i as int]);
            assert(b@.subrange(i as int, m as int)[0] == b@[i as int]);
        }
    }
    if i == n {
        true
    } else if i == m {
        false
    } else {
        a[i] < b[i]
    }
}

/// Order of topics for display: those of the UNDEFINED_ROUTER_GROUP last,
/// then by name.
pub open spec fn topic_le(a: Seq<char>, b: Seq<char>) -> bool {
    let ua = contains(a, "UNDEFINED_ROUTER_GROUP"@);
    let ub = contains(b, "UNDEFINED_ROUTER_GROUP"@);
    (!ua && ub) || (ua == ub && text_le(a, b))
}

/// The order to sort by.
pub open spec fn order_le(undefined_last: bool, a: Seq<char>, b: Seq<char>) -> bool {
    if undefined_last {
        topic_le(a, b)
    } else {
        text_le(a, b)
    }
}

/// `x` placed after the last text not after it.
pub open spec fn insert_text(s: Seq<Seq<char>>, x: Seq<char>, undefined_last: bool) -> Seq<Seq<char>>
    decreases s.len(),
{
    if s.len() == 0 {
        seq![x]
    } else if order_le(undefined_last, s.last(), x) {
        s.push(x)
    } else {
        insert_text(s.drop_last(), x, undefined_last).push(s.last())
    }
}

/// Texts sorted by insertion, equal ones keeping their order.
pub open spec fn sort_texts(s: Seq<Seq<char>>, undefined_last: bool) -> Seq<Seq<char>>
    decreases s.len(),
{
    if s.len() == 0 {
        s
    } else {
        insert_text(sort_texts(s.drop_last(), undefined_last), s.last(), undefined_last)
    }
}

/// The abstract values of a list of strings.
pub open spec fn texts(v: Seq<String>) -> Seq<Seq<char>> {
    v.map_values(|s: String| s@)
}

fn topic_order(a: &String, b: &String, undefined_last: bool) -> (r: bool)
    ensures
        r == order_le(undefined_last, a@, b@),
{
    let ac = chars_of(a.as_str());
    let bc = chars_of(b.as_str());
    let le = chars_le(ac.as_slice(), bc.as_slice());
    if undefined_last {
        let ua = str_contains(a.as_str(), "UNDEFINED_ROUTER_GROUP");
        let ub = str_contains(b.as_str(), "UNDEFINED_ROUTER_GROUP");
        (!ua && ub) || (ua == ub && le)
    } else {
        le
    }
}

proof fn lemma_insert_text_at(s: Seq<Seq<char>>, x: Seq<char>, u: bool, k: int)
    requires
        0 <= k <= s.len(),
        forall|j: int| k <= j < s.len() ==> !order_le(u, s[j], x),
        k > 0 ==> order_le(u, s[k - 1], x),
    ensures
        insert_text(s, x, u) == s.subrange(0, k) + seq![x] + s.subrange(k, s.len() as int),
    decreases s.len(),
{
    if s.len() == 0 {
        assert(s.subrange(0, k) + seq![x] + s.subrange(k, s.len() as int) =~= seq![x]);
    } else if order_le(u, s.last(), x) {
        assert(k == s.len());
        assert(s.subrange(0, k) + seq![x] + s.subrange(k, s.len() as int) =~= s.push(x));
    } else {
        lemma_insert_text_at(s.drop_last(), x, u, k);
        assert(s.subrange(0, k) + seq![x] + s.subrange(k, s.len() as int) =~= (s.drop_last().subrange(0, k) + seq![x]
            + s.drop_last().subrange(k, s.drop_last().len() as int)).push(s.last()));
    }
}

/// Texts are totally ordered.
pub(crate) proof fn lemma_text_le_total(a: Seq<char>, b: Seq<char>)
    ensures
        text_le(a, b) || text_le(b, a),
    decreases a.len(),
{
    if a.len() > 0 && b.len() > 0 {
        if a[0] == b[0] {
            lemma_text_le_total(a.drop_first(), b.drop_first());
        } else {
            assert((a[0] as int) != (b[0] as int));
        }
    }
}

/// Each text is no earlier, in the order to sort by, than the one before.
pub open spec fn texts_sorted(s: Seq<Seq<char>>, undefined_last: bool) -> bool
    decreases s.len(),
{
    if s.len() <= 1 {
        true
    } else {
        order_le(undefined_last, s[s.len() - 2], s.last()) && texts_sorted(s.drop_last(), undefined_last)
    }
}

proof fn lemma_insert_text_sorted(s: Seq<Seq<char>>, x: Seq<char>, u: bool)
    requires
        texts_sorted(s, u),
    ensures
        texts_sorted(insert_text(s, x, u), u),
        insert_text(s, x, u).to_multiset() =~= s.to_multiset().insert(x),
        insert_text(s, x, u).len() == s.len() + 1,
        insert_text(s, x, u).last() == x || (s.len() > 0 && insert_text(s, x, u).last() == s.last()),
    decreases s.len(),
{
    broadcast use vstd::seq_lib::group_to_multiset_ensures;

    if s.len() == 0 {
        assert(seq![x] =~= Seq::<Seq<char>>::empty().push(x));
    } else if order_le(u, s.last(), x) {
        assert(s.push(x).drop_last() =~= s);
    } else {
        let d = s.drop_last();
        let t = insert_text(d, x, u);
        lemma_insert_text_sorted(d, x, u);
        assert(d.push(s.last()) =~= s);
        assert(t.push(s.last()).drop_last() =~= t);
        if t.len() >= 1 {
            if t.last() == x {
                lemma_text_le_total(x, s.last());
                lemma_text_le_total(s.last(), x);
            } else {
                assert(s[s.len() - 2] == d.last());
            }
        }
    }
}

/// Sorting topics orders them: the result holds the same topics, each no
/// earlier than the one before it (by name, or with the
/// UNDEFINED_ROUTER_GROUP ones last).
pub proof fn law_topics_sorted(s: Seq<Seq<char>>, undefined_last: bool)
    ensures
        texts_sorted(sort_texts(s, undefined_last), undefined_last),
        sort_texts(s, undefined_last).to_multiset() =~= s.to_multiset(),
    decreases s.len(),
{
    broadcast use vstd::seq_lib::group_to_multiset_ensures;

    if s.len() > 0 {
        law_topics_sorted(s.drop_last(), undefined_last);
        lemma_insert_text_sorted(sort_texts(s.drop_last(), undefined_last), s.last(), undefined_last);
        assert(s.drop_last().push(s.last()) =~= s);
    }
}

/// Sorts names by insertion: by name, or with UNDEFINED_ROUTER_GROUP
/// topics last.
pub fn sort_topics(v: Vec<String>, undefined_last: bool) -> (r: Vec<String>)
    ensures
        texts(r@) == sort_texts(texts(v@), undefined_last),
{
    let ghost tv = texts(v@);
    let mut out: Vec<String> = Vec::new();
    let mut i: usize = 0;
    while i < v.len()
        invariant
            i <= v@.len(),
            tv == texts(v@),
            texts(out@) == sort_texts(tv.subrange(0, i as int), undefined_last),
        decreases v@.len() - i,
    {
        proof {
            assert(tv.subrange(0, i + 1).drop_last() =~= tv.subrange(0, i as int));
        }
        let x = v[i].clone();
        let ghost s = texts(out@);
        let mut k: usize = out.len();
        while k > 0 && !topic_order(&out[k - 1], &x, undefined_last)
            invariant
                k <= out@.len(),
                s == texts(out@),
                forall|j: int| k <= j < s.len() ==> !order_le(undefined_last, s[j], x@),
            decreases k,
        {
            k = k - 1;
        }
        proof {
            lemma_insert_text_at(s, x@, undefined_last, k as int);
        }
        out.insert(k, x);
        proof {
            assert(texts(out@) =~= s.subrange(0, k as int) + seq![x@] + s.subrange(k as int, s.len() as int));
        }
        i = i + 1;
    }
    proof {
        assert(tv.subrange(0, v@.len() as int) =~= tv);
    }
    out
}

/// The names that match `pattern`, sorted; an error naming the pattern
/// when it does not compile.
pub fn select_topics(names: Vec<String>, pattern: &str) -> (r: Result<Vec<String>, String>)
    ensures
        match r {
            Ok(v) => regex_valid(pattern@) && texts(v@) == sort_texts(
                texts(names@).filter(|t: Seq<char>| regex_match(pattern@, t)),
                false,
            ),
            Err(e) => !regex_valid(pattern@) && e@ == "Invalid topic regex: "@ + pattern@,
        },
{
    let hits = match match_names(pattern, &names) {
        Some(h) => h,
        None => {
            let mut m = String::from_str("Invalid topic regex: ");
            m.append(pattern);
            return Err(m);
        },
    };
    let ghost tv = texts(names@);
    let ghost pred = |t: Seq<char>| regex_match(pattern@, t);
    let mut matched: Vec<String> = Vec::new();
    let mut i: usize = 0;
    while i < names.len()
        invariant
            i <= names@.len(),
            hits@.len() == names@.len(),
            forall|j: int| 0 <= j < names@.len() ==> hits@[j] == regex_match(pattern@, #[trigger] names@[j]@),
            tv == texts(names@),
            pred == (|t: Seq<char>| regex_match(pattern@, t)),
            texts(matched@) == tv.subrange(0, i as int).filter(pred),
        decreases names@.len() - i,
    {
        proof {
            reveal(Seq::filter);
            assert(tv.subrange(0, i + 1).drop_last() =~= tv.subrange(0, i as int));
            assert(tv.subrange(0, i + 1).last() == names@[i as int]@);
        }
        let ghost before = texts(matched@);
        if hits[i] {
            matched.push(names[i].clone());
            proof {
                assert(texts(matched@) =~= before.push(names@[i as int]@));
            }
        }
        i = i + 1;
    }
    proof {
        assert(tv.subrange(0, names@.len() as int) =~= tv);
    }
    Ok(sort_topics(matched, false))
}

/// A topic kept by the collector filter: its lower-case name contains the
/// lower-case fragment.
pub open spec fn collector_ok(t: Seq<char>, frag: Seq<char>) -> bool {
    contains(lowercased(t), lowercased(frag))
}

/// A topic kept by the ASN filter: it ends with `.<asn>.bmp_raw`.
pub open spec fn asn_ok(t: Seq<char>, asn: Seq<char>) -> bool {
    ends_with(t, "."@ + asn + ".bmp_raw"@)
}

/// Keeps the topics whose name contains the collector fragment (ignoring
/// case) and ends with `.<asn>.bmp_raw`, each filter only when given.
pub fn apply_filters(topics: Vec<String>, collector: Option<&str>, asn: Option<&str>) -> (r: Vec<String>)
    ensures
        texts(r@) == texts(topics@).filter(
            |t: Seq<char>|
                (match collector {
                    Some(f) => collector_ok(t, f@),
                    None => true,
                }) && (match asn {
                    Some(a) => asn_ok(t, a@),
                    None => true,
                }),
        ),
{
    let ghost pred = |t: Seq<char>|
        (match collector {
            Some(f) => collector_ok(t, f@),
            None => true,
        }) && (match asn {
            Some(a) => asn_ok(t, a@),
            None => true,
        });
    let lower_frag: Option<String> = match collector {
        Some(f) => Some(to_lowercase(f)),
        None => None,
    };
    let suffix: Option<String> = match asn {
        Some(a) => {
            let mut s = String::from_str(".");
            s.append(a);
            s.append(".bmp_raw");
            Some(s)
        },
        None => None,
    };
    let ghost tv = texts(topics@);
    let mut out: Vec<String> = Vec::new();
    let mut i: usize = 0;
    while i < topics.len()
        invariant
            i <= topics@.len(),
            tv == texts(topics@),
            pred == (|t: Seq<char>|
                (match collector {
                    Some(f) => collector_ok(t, f@),
                    None => true,
                }) && (match asn {
                    Some(a) => asn_ok(t, a@),
                    None => true,
                })),
            match collector {
                Some(f) => lower_frag matches Some(l) && l@ == lowercased(f@),
                None => lower_frag is None,
            },
            match asn {
                Some(a) => suffix matches Some(x) && x@ == "."@ + a@ + ".bmp_raw"@,
                None => suffix is None,
            },
            texts(out@) == tv.subrange(0, i as int).filter(pred),
        decreases topics@.len() - i,
    {
        proof {
            reveal(Seq::filter);
            assert(tv.subrange(0, i + 1).drop_last() =~= tv.subrange(0, i as int));
            assert(tv.subrange(0, i + 1).last() == topics@[i as int]@);
        }
        let t = &topics[i];
        let ok_c = match &lower_frag {
            Some(l) => {
                let lt = to_lowercase(t.as_str());
                str_contains(lt.as_str(), l.as_str())
            },
            None => true,
        };
        let ok_a = match &suffix {
            Some(x) => str_ends_with(t.as_str(), x.as_str()),
            None => true,
        };
        let ghost before = texts(out@);
        if ok_c && ok_a {
            out.push(t.clone());
            proof {
                assert(texts(out@) =~= before.push(t@));
            }
        }
        i = i + 1;
    }
    proof {
        assert(tv.subrange(0, topics@.len() as int) =~= tv);
    }
    out
}

} // verus!
