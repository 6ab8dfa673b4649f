//! Splitting and reading text as Rust's `str` methods do: lines, trimmed
//! whitespace, whitespace-separated words, unsigned decimals, and
//! lower-casing through `str::to_lowercase`.

use vstd::prelude::*;

use crate::prefix::{all_dec, digits_val, is_dec, split_on};

verus! {

/// `char::is_whitespace`: the Unicode White_Space characters.
pub open spec fn is_ws(c: char) -> bool {
    ('\u{9}' <= c && c <= '\u{d}') || c == ' ' || c == '\u{85}' || c == '\u{a0}' || c == '\u{1680}' || ('\u{2000}'
        <= c && c <= '\u{200a}') || c == '\u{2028}' || c == '\u{2029}' || c == '\u{202f}' || c == '\u{205f}' || c
        == '\u{3000}'
}

/// Whether `c` is Unicode whitespace.
pub fn is_whitespace(c: char) -> (r: bool)
    ensures
        r == is_ws(c),
{
    ('\u{9}' <= c && c <= '\u{d}') || c == ' ' || c == '\u{85}' || c == '\u{a0}' || c == '\u{1680}' || ('\u{2000}'
        <= c && c <= '\u{200a}') || c == '\u{2028}' || c == '\u{2029}' || c == '\u{202f}' || c == '\u{205f}' || c
        == '\u{3000}'
}

/// Number of leading whitespace characters.
pub open spec fn lead_ws(s: Seq<char>) -> nat
    decreases s.len(),
{
    if s.len() > 0 && is_ws(s[0]) {
        1 + lead_ws(s.drop_first())
    } else {
        0
    }
}

/// Number of trailing whitespace characters.
pub open spec fn trail_ws(s: Seq<char>) -> nat
    decreases s.len(),
{
    if s.len() > 0 && is_ws(s.last()) {
        1 + trail_ws(s.drop_last())
    } else {
        0
    }
}

/// `str::trim`: without leading and trailing whitespace.
pub open spec fn trimmed(s: Seq<char>) -> Seq<char> {
    let a = lead_ws(s);
    let rest = s.subrange(a as int, s.len() as int);
    rest.subrange(0, rest.len() - trail_ws(rest))
}

proof fn lemma_lead_bound(s: Seq<char>)
    ensures
        lead_ws(s) <= s.len(),
        forall|i: int| 0 <= i < lead_ws(s) ==> is_ws(s[i]),
        lead_ws(s) < s.len() ==> !is_ws(s[lead_ws(s) as int]),
    decreases s.len(),
{
    if s.len() > 0 && is_ws(s[0]) {
        lemma_lead_bound(s.drop_first());
        assert forall|i: int| 0 <= i < lead_ws(s) implies is_ws(s[i]) by {
            if i > 0 {
                assert(s[i] == s.drop_first()[i - 1]);
            }
        }
    }
}

proof fn lemma_trail_bound(s: Seq<char>)
    ensures
        trail_ws(s) <= s.len(),
        forall|i: int| s.len() - trail_ws(s) <= i < s.len() ==> is_ws(s[i]),
        trail_ws(s) < s.len() ==> !is_ws(s[s.len() - 1 - trail_ws(s)]),
    decreases s.len(),
{
    if s.len() > 0 && is_ws(s.last()) {
        lemma_trail_bound(s.drop_last());
        assert forall|i: int| s.len() - trail_ws(s) <= i < s.len() implies is_ws(s[i]) by {
            if i < s.len() - 1 {
                assert(s[i] == s.drop_last()[i]);
            }
        }
    }
}

proof fn lemma_lead_from(s: Seq<char>, k: int)
    requires
        0 <= k <= s.len(),
        forall|i: int| 0 <= i < k ==> is_ws(s[i]),
        k < s.len() ==> !is_ws(s[k]),
    ensures
        lead_ws(s) == k,
    decreases k,
{
    if k > 0 {
        lemma_lead_from(s.drop_first(), k - 1);
    }
}

proof fn lemma_trail_from(s: Seq<char>, k: int)
    requires
        0 <= k <= s.len(),
        forall|i: int| s.len() - k <= i < s.len() ==> is_ws(s[i]),
        k < s.len() ==> !is_ws(s[s.len() - 1 - k]),
    ensures
        trail_ws(s) == k,
    decreases k,
{
    if k > 0 {
        lemma_trail_from(s.drop_last(), k - 1);
    }
}

/// Trimming twice is trimming once.
pub proof fn lemma_trim_idem(s: Seq<char>)
    ensures
        trimmed(trimmed(s)) == trimmed(s),
{
    let t = trimmed(s);
    lemma_lead_bound(s);
    let a = lead_ws(s);
    let rest = s.subrange(a as int, s.len() as int);
    lemma_trail_bound(rest);
    if t.len() > 0 {
        assert(t[0] == rest[0]);
        lemma_lead_from(t, 0);
        let tl = t.subrange(0, t.len() as int);
        assert(tl =~= t);
        assert(t[t.len() - 1] == rest[rest.len() - 1 - trail_ws(rest)]);
        lemma_trail_from(t, 0);
        assert(trimmed(t) =~= t);
    } else {
        assert(trimmed(t) =~= t);
    }
}

/// `s` without leading and trailing whitespace.
pub fn trim_chars(s: &[char]) -> (r: Vec<char>)
    ensures
        r@ == trimmed(s@),
{
    let n = s.len();
    let mut a: usize = 0;
    while a < n && is_whitespace(s[a])
        invariant
            a <= n,
            n == s@.len(),
            forall|i: int| 0 <= i < a ==> is_ws(s@[i]),
        decreases n - a,
    {
        a = a + 1;
    }
    proof {
        lemma_lead_from(s@, a as int);
    }
    let mut b: usize = n;
    while b > a && is_whitespace(s[b - 1])
        invariant
            a <= b <= n,
            n == s@.len(),
            forall|i: int| b <= i < n ==> is_ws(s@[i]),
        decreases b,
    {
        b = b - 1;
    }
    let ghost rest = s@.subrange(a as int, n as int);
    proof {
        lemma_trail_from(rest, (n - b) as int);
    }
    let mut out: Vec<char> = Vec::new();
    let mut i: usize = a;
    while i < b
        invariant
            a <= i <= b,
            b <= n,
            n == s@.len(),
            out@ == s@.subrange(a as int, i as int),
        decreases b - i,
    {
        out.push(s[i]);
        proof {
            assert(out@ =~= s@.subrange(a as int, i + 1));
        }
        i = i + 1;
    }
    proof {
        assert(out@ =~= trimmed(s@));
    }
    out
}

/// A line without one trailing `\r`.
pub open spec fn strip_cr(l: Seq<char>) -> Seq<char> {
    if l.len() > 0 && l.last() == '\r' {
        l.drop_last()
    } else {
        l
    }
}

/// `str::lines`: pieces between `\n`, each without one trailing `\r`, and
/// no final empty piece after a closing `\n`.
pub open spec fn lines_of(s: Seq<char>) -> Seq<Seq<char>> {
    let p = split_on(s, '\n');
    let q = if s.len() > 0 && s.last() == '\n' {
        p.drop_last()
    } else if s.len() == 0 {
        Seq::empty()
    } else {
        p
    };
    q.map_values(|l: Seq<char>| strip_cr(l))
}

/// Splits text into lines as `str::lines` does.
pub fn lines(s: &[char]) -> (r: Vec<Vec<char>>)
    ensures
        r@.map_values(|l: Vec<char>| l@) == lines_of(s@),
{
    let parts = crate::prefix::split_chars(s, '\n');
    let ghost p = split_on(s@, '\n');
    let n = s.len();
    let count: usize = if n > 0 && s[n - 1] == '\n' {
        parts.len() - 1
    } else if n == 0 {
        0
    } else {
        parts.len()
    };
    proof {
        crate::prefix::lemma_split_len(s@, '\n');
        assert(parts@.len() == p.len());
    }
    let ghost q = if s@.len() > 0 && s@.last() == '\n' {
        p.drop_last()
    } else if s@.len() == 0 {
        Seq::empty()
    } else {
        p
    };
    let mut out: Vec<Vec<char>> = Vec::new();
    let mut i: usize = 0;
    while i < count
        invariant
            i <= count,
            count == q.len(),
            count <= parts@.len(),
            parts@.map_values(|x: Vec<char>| x@) == p,
            forall|j: int| 0 <= j < q.len() ==> q[j] == p[j],
            out@.map_values(|l: Vec<char>| l@) == q.subrange(0, i as int).map_values(|l: Seq<char>| strip_cr(l)),
        decreases count - i,
    {
        let piece = &parts[i];
        let m = piece.len();
        let mut line: Vec<char> = Vec::new();
        let keep: usize = if m > 0 && piece[m - 1] == '\r' {
            m - 1
        } else {
            m
        };
        let mut j: usize = 0;
        while j < keep
            invariant
                j <= keep <= m,
                m == piece@.len(),
                line@ == piece@.subrange(0, j as int),
            decreases keep - j,
        {
            line.push(piece[j]);
            proof {
                assert(line@ =~= piece@.subrange(0, j + 1));
            }
            j = j + 1;
        }
        let ghost before = out@.map_values(|l: Vec<char>| l@);
        out.push(line);
        proof {
            assert(piece@ == q[i as int]);
            if m > 0 && piece@.last() == '\r' {
                assert(line@ =~= piece@.drop_last());
            } else {
                assert(line@ =~= piece@);
            }
            assert(line@ == strip_cr(q[i as int]));
            assert(q.subrange(0, i + 1).map_values(|l: Seq<char>| strip_cr(l)) =~= q.subrange(0, i as int).map_values(
                |l: Seq<char>| strip_cr(l),
            ).push(strip_cr(q[i as int])));
            assert(out@.map_values(|l: Vec<char>| l@) =~= before.push(line@));
            
        }
        i = i + 1;
    }
    proof {
        assert(q.subrange(0, count as int) =~= q);
    }
    out
}

/// `str::split_whitespace`: the non-empty runs between whitespace.
pub open spec fn words_of(s: Seq<char>) -> Seq<Seq<char>>
    decreases s.len(),
{
    if s.len() == 0 {
        Seq::empty()
    } else {
        let w = words_of(s.drop_last());
        let c = s.last();
        if is_ws(c) {
            w
        } else if s.len() >= 2 && !is_ws(s[s.len() - 2]) {
            w.update(w.len() - 1, w.last().push(c))
        } else {
            w.push(seq![c])
        }
    }
}

proof fn lemma_words_nonempty(s: Seq<char>)
    ensures
        s.len() > 0 && !is_ws(s.last()) ==> words_of(s).len() > 0,
    decreases s.len(),
{
    if s.len() > 0 {
        lemma_words_nonempty(s.drop_last());
    }
}

/// Splits text into whitespace-separated words.
pub fn split_words(s: &[char]) -> (r: Vec<Vec<char>>)
    ensures
        r@.map_values(|w: Vec<char>| w@) == words_of(s@),
{
    let mut out: Vec<Vec<char>> = Vec::new();
    let mut i: usize = 0;
    while i < s.len()
        invariant
            i <= s@.len(),
            out@.map_values(|w: Vec<char>| w@) == words_of(s@.subrange(0, i as int)),
        decreases s@.len() - i,
    {
        let ghost pre = s@.subrange(0, i as int);
        let ghost cur = s@.subrange(0, i + 1);
        let ghost before = out@.map_values(|w: Vec<char>| w@);
        proof {
            assert(cur.drop_last() =~= pre);
            lemma_words_nonempty(pre);
        }
        let c = s[i];
        if is_whitespace(c) {
        } else if i >= 1 && !is_whitespace(s[i - 1]) {
            proof {
                assert(pre.last() == s@[i - 1]);
                assert(cur[cur.len() - 2] == s@[i - 1]);
            }
            let last = out.len() - 1;
            let mut w = out.remove(last);
            w.push(c);
            out.push(w);
            proof {
                assert(out@.map_values(|w: Vec<char>| w@) =~= before.update(before.len() - 1, before.last().push(c)));
            }
        } else {
            let mut w: Vec<char> = Vec::new();
            w.push(c);
            out.push(w);
            proof {
                if i >= 1 {
                    assert(cur[cur.len() - 2] == s@[i - 1]);
                }
                assert(out@.map_values(|w: Vec<char>| w@) =~= before.push(seq![c]));
            }
        }
        i = i + 1;
    }
    proof {
        assert(s@.subrange(0, s@.len() as int) =~= s@);
    }
    out
}

/// What `str::parse` gives for an unsigned type whose largest value is
/// `max`: an optional `+`, then at least one decimal digit, with a value of
/// at most `max`.
pub open spec fn parse_dec_text(s: Seq<char>, max: nat) -> Option<nat> {
    let d = if s.len() > 0 && s[0] == '+' {
        s.drop_first()
    } else {
        s
    };
    if d.len() > 0 && all_dec(d) && digits_val(d, 10) <= max {
        Some(digits_val(d, 10))
    } else {
        None
    }
}

/// Reads an unsigned decimal of at most `max`, as `str::parse` does.
pub fn parse_dec(s: &[char], max: u64) -> (r: Option<u64>)
    ensures
        match r {
            Some(v) => parse_dec_text(s@, max as nat) == Some(v as nat),
            None => parse_dec_text(s@, max as nat) is None,
        },
{
    let n = s.len();
    let start: usize = if n > 0 && s[0] == '+' {
        1
    } else {
        0
    };
    let ghost d = if s@.len() > 0 && s@[0] == '+' {
        s@.drop_first()
    } else {
        s@
    };
    proof {
        assert(d =~= s@.subrange(start as int, n as int));
    }
    if start >= n {
        return None;
    }
    let mut v: u64 = 0;
    let mut i: usize = start;
    while i < n
        invariant
            start <= i <= n,
            n == s@.len(),
            start < n,
            d == s@.subrange(start as int, n as int),
            d == (if s@.len() > 0 && s@[0] == '+' {
                s@.drop_first()
            } else {
                s@
            }),
            forall|j: int| start <= j < i ==> is_dec(s@[j]),
            v == digits_val(s@.subrange(start as int, i as int), 10),
            v <= max,
        decreases n - i,
    {
        let c = s[i];
        let ghost sub = s@.subrange(start as int, i + 1);
        proof {
            assert(sub.drop_last() =~= s@.subrange(start as int, i as int));
        }
        if !('0' <= c && c <= '9') {
            proof {
                assert(d[i - start] == c);
                assert(!is_dec(d[i - start]));
                assert(!all_dec(d));
            }
            return None;
        }
        let digit: u64 = (c as u64) - ('0' as u64);
        if digit > max || v > (max - digit) / 10 {
            proof {
                assert(v * 10 + digit > max) by (nonlinear_arith)
                    requires
                        digit > max || v > (max - digit) / 10,
                        digit <= 9,
                ;
                assert(digits_val(sub, 10) == v * 10 + digit);
                crate::prefix::lemma_digits_prefix_bound(d, 10, i + 1 - start);
                assert(d.subrange(0, i + 1 - start) =~= sub);
                assert(digits_val(d, 10) > max);
            }
            return None;
        }
        proof {
            assert(v * 10 + digit <= max) by (nonlinear_arith)
                requires
                    v <= (max - digit) / 10,
                    digit <= max,
            ;
        }
        v = v * 10 + digit;
        i = i + 1;
    }
    Some(v)
}

/// The lower-case text of `s`, as `str::to_lowercase` gives it.
pub uninterp spec fn lowercased(s: Seq<char>) -> Seq<char>;

/// Lower-cases text with `str::to_lowercase` (Unicode case mapping).
/// Claimed: the result is the function's value on these characters.
#[verifier::external_body]
pub(crate) fn to_lowercase(s: &str) -> (r: String)
    ensures
        r@ == lowercased(s@),
{
    s.to_lowercase()
}

} // verus!
