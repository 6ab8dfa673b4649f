//! Text helpers with exact character-level specifications: decimal and
//! hexadecimal rendering, string building and simple matching.

use vstd::prelude::*;

verus! {

/// The character of a decimal digit.
pub open spec fn digit_char(d: nat) -> char {
    if d == 0 { '0' }
    else if d == 1 { '1' }
    else if d == 2 { '2' }
    else if d == 3 { '3' }
    else if d == 4 { '4' }
    else if d == 5 { '5' }
    else if d == 6 { '6' }
    else if d == 7 { '7' }
    else if d == 8 { '8' }
    else { '9' }
}

/// The character of a lower-case hexadecimal digit.
pub open spec fn hex_char(d: nat) -> char {
    if d < 10 { digit_char(d) }
    else if d == 10 { 'a' }
    else if d == 11 { 'b' }
    else if d == 12 { 'c' }
    else if d == 13 { 'd' }
    else if d == 14 { 'e' }
    else { 'f' }
}

/// Decimal rendering of a natural number, without leading zeros.
pub open spec fn dec_str(n: nat) -> Seq<char>
    decreases n,
{
    if n < 10 {
        seq![digit_char(n)]
    } else {
        dec_str(n / 10).push(digit_char(n % 10))
    }
}

/// Two lower-case hexadecimal digits of a byte.
pub open spec fn hex2(b: u8) -> Seq<char> {
    seq![hex_char((b / 16) as nat), hex_char((b % 16) as nat)]
}

/// Lower-case hexadecimal rendering of a byte sequence, two digits per byte.
pub open spec fn hex_str(bytes: Seq<u8>) -> Seq<char>
    decreases bytes.len(),
{
    if bytes.len() == 0 {
        Seq::empty()
    } else {
        hex_str(bytes.drop_last()) + hex2(bytes.last())
    }
}

/// `s` ends with `suffix`.
pub open spec fn ends_with(s: Seq<char>, suffix: Seq<char>) -> bool {
    suffix.len() <= s.len() && s.subrange(s.len() - suffix.len(), s.len() as int) == suffix
}

/// `s` starts with `prefix`.
pub open spec fn starts_with(s: Seq<char>, prefix: Seq<char>) -> bool {
    prefix.len() <= s.len() && s.subrange(0, prefix.len() as int) == prefix
}

/// `needle` occurs in `s` starting at position `i`.
pub open spec fn occurs_at(s: Seq<char>, needle: Seq<char>, i: int) -> bool {
    0 <= i && i + needle.len() <= s.len() && s.subrange(i, i + needle.len()) == needle
}

/// `needle` occurs somewhere in `s`.
pub open spec fn contains(s: Seq<char>, needle: Seq<char>) -> bool {
    exists|i: int| occurs_at(s, needle, i)
}

/// Appends one character to a string.
#[verifier::external_body]
pub(crate) fn push_char(s: &mut String, c: char)
    ensures
        final(s)@ == old(s)@.push(c),
{
    s.push(c);
}

/// The digit character of `d`.
pub fn digit(d: u64) -> (c: char)
    requires
        d < 16,
    ensures
        c == hex_char(d as nat),
{
    match d {
        0 => '0',
        1 => '1',
        2 => '2',
        3 => '3',
        4 => '4',
        5 => '5',
        6 => '6',
        7 => '7',
        8 => '8',
        9 => '9',
        10 => 'a',
        11 => 'b',
        12 => 'c',
        13 => 'd',
        14 => 'e',
        _ => 'f',
    }
}

/// Appends the decimal rendering of `n`.
pub fn append_decimal(s: &mut String, n: u64)
    ensures
        final(s)@ == old(s)@ + dec_str(n as nat),
    decreases n,
{
    if n >= 10 {
        append_decimal(s, n / 10);
    }
    let c = digit(n % 10);
    push_char(s, c);
    proof {
        if n >= 10 {
            assert(old(s)@ + dec_str(n as nat) =~= old(s)@ + dec_str((n / 10) as nat) + seq![c]);
        } else {
            assert(old(s)@ + dec_str(n as nat) =~= old(s)@.push(c));
        }
    }
}

/// The decimal rendering of `n`.
pub fn decimal(n: u64) -> (r: String)
    ensures
        r@ == dec_str(n as nat),
{
    let mut s = String::new();
    append_decimal(&mut s, n);
    proof {
        assert(Seq::<char>::empty() + dec_str(n as nat) =~= dec_str(n as nat));
    }
    s
}

/// Appends two lower-case hexadecimal digits of `b`.
pub fn append_hex2(s: &mut String, b: u8)
    ensures
        final(s)@ == old(s)@ + hex2(b),
{
    let hi = digit((b / 16) as u64);
    let lo = digit((b % 16) as u64);
    push_char(s, hi);
    push_char(s, lo);
    proof {
        assert(old(s)@ + hex2(b) =~= old(s)@.push(hi).push(lo));
    }
}

/// Whether `s` ends with `suffix`.
pub fn str_ends_with(s: &str, suffix: &str) -> (r: bool)
    ensures
        r == ends_with(s@, suffix@),
{
    let n = s.unicode_len();
    let m = suffix.unicode_len();
    if m > n {
        return false;
    }
    let mut i: usize = 0;
    while i < m
        invariant
            n == s@.len(),
            m == suffix@.len(),
            m <= n,
            i <= m,
            forall|j: int| 0 <= j < i ==> s@[n - m + j] == suffix@[j],
        decreases m - i,
    {
        if s.get_char(n - m + i) != suffix.get_char(i) {
            proof {
                assert(s@.subrange(n - m, n as int)[i as int] != suffix@[i as int]);
            }
            return false;
        }
        i = i + 1;
    }
    proof {
        assert(s@.subrange(n - m, n as int) =~= suffix@);
    }
    true
}

/// Whether `s` starts with `prefix`.
pub fn str_starts_with(s: &str, prefix: &str) -> (r: bool)
    ensures
        r == starts_with(s@, prefix@),
{
    let n = s.unicode_len();
    let m = prefix.unicode_len();
    if m > n {
        return false;
    }
    let mut i: usize = 0;
    while i < m
        invariant
            n == s@.len(),
            m == prefix@.len(),
            m <= n,
            i <= m,
            forall|j: int| 0 <= j < i ==> s@[j] == prefix@[j],
        decreases m - i,
    {
        if s.get_char(i) != prefix.get_char(i) {
            proof {
                assert(s@.subrange(0, m as int)[i as int] != prefix@[i as int]);
            }
            return false;
        }
        i = i + 1;
    }
    proof {
        assert(s@.subrange(0, m as int) =~= prefix@);
    }
    true
}

/// Whether `needle` occurs in `s` at position `i`.
pub(crate) fn str_occurs_at(s: &str, needle: &str, i: usize) -> (r: bool)
    requires
        i + needle@.len() <= s@.len(),
    ensures
        r == occurs_at(s@, needle@, i as int),
{
    let n = s.unicode_len();
    let m = needle.unicode_len();
    let mut j: usize = 0;
    while j < m
        invariant
            n == s@.len(),
            m == needle@.len(),
            i + m <= s@.len(),
            j <= m,
            forall|k: int| 0 <= k < j ==> s@[i + k] == needle@[k],
        decreases m - j,
    {
        if s.get_char(i + j) != needle.get_char(j) {
            proof {
                assert(s@.subrange(i as int, i + m)[j as int] != needle@[j as int]);
            }
            return false;
        }
        j = j + 1;
    }
    proof {
        assert(s@.subrange(i as int, i + m) =~= needle@);
    }
    true
}

/// Whether `needle` occurs anywhere in `s`.
pub fn str_contains(s: &str, needle: &str) -> (r: bool)
    ensures
        r == contains(s@, needle@),
{
    let n = s.unicode_len();
    let m = needle.unicode_len();
    if m > n {
        return false;
    }
    let last = n - m;
    let mut i: usize = 0;
    loop
        invariant
            n == s@.len(),
            m == needle@.len(),
            last == n - m,
            i <= last,
            forall|k: int| 0 <= k < i ==> !occurs_at(s@, needle@, k),
        decreases last - i,
    {
        if str_occurs_at(s, needle, i) {
            return true;
        }
        if i == last {
            proof {
                assert forall|k: int| !occurs_at(s@, needle@, k) by {
                    if 0 <= k <= i {
                    }
                }
            }
            return false;
        }
        i = i + 1;
    }
}

/// Whether two strings hold the same characters.
pub fn str_eq(a: &str, b: &str) -> (r: bool)
    ensures
        r == (a@ == b@),
{
    if a.unicode_len() != b.unicode_len() {
        return false;
    }
    let r = str_starts_with(a, b);
    proof {
        assert(a@.subrange(0, a@.len() as int) =~= a@);
        if r {
            assert(a@ =~= a@.subrange(0, b@.len() as int));
        }
    }
    r
}


/// A control character: C0 (U+0000 to U+001F), DEL, or C1 (U+0080 to
/// U+009F), any of which can drive a terminal.
pub open spec fn is_control(c: char) -> bool {
    (c as u32) < 0x20 || (0x7f <= (c as u32) && (c as u32) <= 0x9f)
}

/// Text made safe for a terminal: each control character replaced by `?`.
pub open spec fn sanitized(s: Seq<char>) -> Seq<char> {
    s.map_values(|c: char| if is_control(c) { '?' } else { c })
}

/// `s` with each control character replaced by `?`, so that text read from
/// a capture or a stream cannot inject terminal escape sequences.
pub fn sanitize_text(s: &str) -> (r: String)
    ensures
        r@ == sanitized(s@),
{
    let n = s.unicode_len();
    let mut out = String::new();
    let mut i: usize = 0;
    while i < n
        invariant
            n == s@.len(),
            i <= n,
            out@ == sanitized(s@.subrange(0, i as int)),
        decreases n - i,
    {
        let c = s.get_char(i);
        let code = c as u32;
        let d = if code < 0x20 || (0x7f <= code && code <= 0x9f) {
            '?'
        } else {
            c
        };
        push_char(&mut out, d);
        proof {
            assert(sanitized(s@.subrange(0, i + 1)) =~= sanitized(s@.subrange(0, i as int)).push(d));
        }
        i = i + 1;
    }
    proof {
        assert(s@.subrange(0, n as int) =~= s@);
    }
    out
}


/// Bytes in the UTF-8 encoding of a character.
pub open spec fn char_utf8_len(c: char) -> nat {
    if (c as u32) < 0x80 {
        1
    } else if (c as u32) < 0x800 {
        2
    } else if (c as u32) < 0x10000 {
        3
    } else {
        4
    }
}

/// Bytes in the UTF-8 encoding of a text.
pub open spec fn utf8_len(s: Seq<char>) -> nat
    decreases s.len(),
{
    if s.len() == 0 {
        0
    } else {
        char_utf8_len(s[0]) + utf8_len(s.drop_first())
    }
}

/// How many leading characters of `s` fit, encoded, in `budget` bytes.
pub open spec fn chars_within(s: Seq<char>, budget: int) -> nat
    decreases s.len(),
{
    if s.len() == 0 || char_utf8_len(s[0]) > budget {
        0
    } else {
        1 + chars_within(s.drop_first(), budget - char_utf8_len(s[0]))
    }
}

/// `utf8_len` is the length of the text's UTF-8 bytes.
pub proof fn lemma_utf8_len_is_byte_len(s: Seq<char>)
    ensures
        utf8_len(s) == vstd::utf8::encode_utf8(s).len(),
    decreases s.len(),
{
    if s.len() > 0 {
        lemma_utf8_len_is_byte_len(s.drop_first());
        vstd::utf8::char_is_scalar(s[0]);
        assert(vstd::utf8::encode_scalar(s[0] as u32).len() == char_utf8_len(s[0]));
    }
}

pub proof fn lemma_utf8_len_push(s: Seq<char>, c: char)
    ensures
        utf8_len(s.push(c)) == utf8_len(s) + char_utf8_len(c),
    decreases s.len(),
{
    if s.len() > 0 {
        assert(s.push(c).drop_first() =~= s.drop_first().push(c));
        assert(s.push(c)[0] == s[0]);
        lemma_utf8_len_push(s.drop_first(), c);
    } else {
        assert(s.push(c).drop_first() =~= Seq::<char>::empty());
        assert(s.push(c)[0] == c);
        assert(utf8_len(Seq::<char>::empty()) == 0);
    }
}

/// The `chars_within` prefix is the longest prefix that fits: it fits in
/// the budget, and one character more would not.
pub proof fn lemma_chars_within_longest(s: Seq<char>, budget: int)
    requires
        budget >= 0,
    ensures
        chars_within(s, budget) <= s.len(),
        utf8_len(s.subrange(0, chars_within(s, budget) as int)) <= budget,
        chars_within(s, budget) < s.len() ==> utf8_len(s.subrange(0, chars_within(s, budget) as int + 1)) > budget,
    decreases s.len(),
{
    if s.len() == 0 {
        assert(s.subrange(0, 0) =~= Seq::<char>::empty());
    } else if char_utf8_len(s[0]) > budget {
        assert(s.subrange(0, 0) =~= Seq::<char>::empty());
        assert(s.subrange(0, 1).drop_first() =~= Seq::<char>::empty());
    } else {
        let t = s.drop_first();
        let b2 = budget - char_utf8_len(s[0]);
        lemma_chars_within_longest(t, b2);
        let k = chars_within(t, b2) as int;
        assert(s.subrange(0, k + 1).drop_first() =~= t.subrange(0, k));
        if k < t.len() {
            assert(s.subrange(0, k + 2).drop_first() =~= t.subrange(0, k + 1));
        }
    }
}

fn char_len(c: char) -> (r: usize)
    ensures
        r == char_utf8_len(c),
{
    let v = c as u32;
    if v < 0x80 {
        1
    } else if v < 0x800 {
        2
    } else if v < 0x10000 {
        3
    } else {
        4
    }
}

/// Whether the UTF-8 encoding of `s` is longer than `limit` bytes.
pub fn utf8_len_exceeds(s: &str, limit: usize) -> (r: bool)
    requires
        limit <= 1048576,
    ensures
        r == (utf8_len(s@) > limit),
{
    let n = s.unicode_len();
    let mut total: usize = 0;
    let mut i: usize = 0;
    proof {
        assert(s@.subrange(0, 0) =~= Seq::<char>::empty());
    }
    while i < n
        invariant
            n == s@.len(),
            i <= n,
            total == utf8_len(s@.subrange(0, i as int)),
            total <= limit,
            limit <= 1048576,
        decreases n - i,
    {
        let c = s.get_char(i);
        proof {
            assert(s@.subrange(0, i + 1) =~= s@.subrange(0, i as int).push(c));
            lemma_utf8_len_push(s@.subrange(0, i as int), c);
        }
        total = total + char_len(c);
        i = i + 1;
        if total > limit {
            proof {
                lemma_utf8_prefix_le(s@, i as int);
            }
            return true;
        }
    }
    proof {
        assert(s@.subrange(0, n as int) =~= s@);
    }
    false
}

/// A prefix is never longer, encoded, than the whole text.
pub proof fn lemma_utf8_prefix_le(s: Seq<char>, k: int)
    requires
        0 <= k <= s.len(),
    ensures
        utf8_len(s.subrange(0, k)) <= utf8_len(s),
    decreases s.len(),
{
    if k > 0 {
        assert(s.subrange(0, k).drop_first() =~= s.drop_first().subrange(0, k - 1));
        lemma_utf8_prefix_le(s.drop_first(), k - 1);
    }
}

/// How many leading characters of `s` fit, encoded, in `budget` bytes.
pub fn count_chars_within(s: &str, budget: usize) -> (r: usize)
    ensures
        r == chars_within(s@, budget as int),
{
    let n = s.unicode_len();
    let mut left: usize = budget;
    let mut i: usize = 0;
    proof {
        assert(s@.skip(0) =~= s@);
    }
    while i < n
        invariant
            n == s@.len(),
            i <= n,
            left <= budget,
            chars_within(s@, budget as int) == i + chars_within(s@.skip(i as int), left as int),
        decreases n - i,
    {
        let c = s.get_char(i);
        let w = char_len(c);
        proof {
            let t = s@.skip(i as int);
            assert(t[0] == c);
            assert(t.drop_first() =~= s@.skip(i + 1));
        }
        if w > left {
            return i;
        }
        left = left - w;
        i = i + 1;
    }
    proof {
        assert(s@.skip(n as int) =~= Seq::<char>::empty());
    }
    i
}

} // verus!
