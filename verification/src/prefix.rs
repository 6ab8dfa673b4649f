//! Reading IP prefixes from text (`a.b.c.d/len`, IPv6 `x:x::x/len`), with
//! the grammar of Rust's `u8` and `Ipv6Addr` parsers.

use vstd::prelude::*;

use crate::text::{dec_str, digit_char};

verus! {

// ───────────────────────── characters ─────────────────────────

/// The characters of a string slice.
pub fn chars_of(s: &str) -> (r: Vec<char>)
    ensures
        r@ == s@,
{
    let n = s.unicode_len();
    let mut v: Vec<char> = Vec::new();
    let mut i: usize = 0;
    while i < n
        invariant
            n == s@.len(),
            i <= n,
            v@ == s@.subrange(0, i as int),
        decreases n - i,
    {
        v.push(s.get_char(i));
        proof {
            assert(v@ =~= s@.subrange(0, i + 1));
        }
        i = i + 1;
    }
    proof {
        assert(s@.subrange(0, n as int) =~= s@);
    }
    v
}

/// A vector holding the same characters.
pub fn copy_chars(s: &[char]) -> (r: Vec<char>)
    ensures
        r@ == s@,
{
    let mut v: Vec<char> = Vec::new();
    let mut i: usize = 0;
    while i < s.len()
        invariant
            i <= s@.len(),
            v@ == s@.subrange(0, i as int),
        decreases s@.len() - i,
    {
        v.push(s[i]);
        proof {
            assert(v@ =~= s@.subrange(0, i + 1));
        }
        i = i + 1;
    }
    proof {
        assert(s@.subrange(0, s@.len() as int) =~= s@);
    }
    v
}

/// The pieces of `s` between occurrences of `c` (as `str::split`).
pub open spec fn split_on(s: Seq<char>, c: char) -> Seq<Seq<char>>
    decreases s.len(),
{
    if s.len() == 0 {
        seq![Seq::empty()]
    } else {
        let p = split_on(s.drop_last(), c);
        if s.last() == c {
            p.push(Seq::empty())
        } else {
            p.update(p.len() - 1, p.last().push(s.last()))
        }
    }
}

/// Splitting gives at least one piece.
pub proof fn lemma_split_len(s: Seq<char>, c: char)
    ensures
        split_on(s, c).len() >= 1,
{
    lemma_split_nonempty(s, c);
}

proof fn lemma_split_nonempty(s: Seq<char>, c: char)
    ensures
        split_on(s, c).len() >= 1,
    decreases s.len(),
{
    if s.len() > 0 {
        lemma_split_nonempty(s.drop_last(), c);
    }
}

/// Splits `s` at every `c`.
pub fn split_chars(s: &[char], c: char) -> (r: Vec<Vec<char>>)
    ensures
        r@.map_values(|p: Vec<char>| p@) == split_on(s@, c),
{
    let mut parts: Vec<Vec<char>> = Vec::new();
    parts.push(Vec::new());
    let mut i: usize = 0;
    proof {
        assert(parts@.map_values(|p: Vec<char>| p@) =~= split_on(s@.subrange(0, 0), c));
    }
    while i < s.len()
        invariant
            i <= s@.len(),
            parts@.len() >= 1,
            parts@.map_values(|p: Vec<char>| p@) == split_on(s@.subrange(0, i as int), c),
        decreases s@.len() - i,
    {
        let ghost before = parts@.map_values(|p: Vec<char>| p@);
        proof {
            assert(s@.subrange(0, i + 1).drop_last() =~= s@.subrange(0, i as int));
            lemma_split_nonempty(s@.subrange(0, i as int), c);
        }
        if s[i] == c {
            parts.push(Vec::new());
            proof {
                assert(parts@.map_values(|p: Vec<char>| p@) =~= before.push(Seq::empty()));
            }
        } else {
            let last = parts.len() - 1;
            let mut piece = parts.remove(last);
            piece.push(s[i]);
            parts.push(piece);
            proof {
                assert(parts@.map_values(|p: Vec<char>| p@) =~= before.update(
                    before.len() - 1,
                    before.last().push(s@[i as int]),
                ));
            }
        }
        i = i + 1;
    }
    proof {
        assert(s@.subrange(0, s@.len() as int) =~= s@);
    }
    parts
}

/// Position of the first `c` in `s`.
pub open spec fn first_pos(s: Seq<char>, c: char) -> Option<int> {
    if exists|i: int| 0 <= i < s.len() && s[i] == c {
        Some(choose|i: int| 0 <= i < s.len() && s[i] == c && forall|j: int| 0 <= j < i ==> s[j] != c)
    } else {
        None
    }
}

/// Finds the first `c` in `s`.
pub fn find_char(s: &[char], c: char) -> (r: Option<usize>)
    ensures
        match r {
            Some(i) => {
                &&& first_pos(s@, c) == Some(i as int)
                &&& i < s@.len()
                &&& s@[i as int] == c
                &&& forall|j: int| 0 <= j < i ==> s@[j] != c
            },
            None => first_pos(s@, c) is None,
        },
{
    let mut i: usize = 0;
    while i < s.len()
        invariant
            i <= s@.len(),
            forall|j: int| 0 <= j < i ==> s@[j] != c,
        decreases s@.len() - i,
    {
        if s[i] == c {
            proof {
                let k = choose|k: int| 0 <= k < s@.len() && s@[k] == c && forall|j: int| 0 <= j < k ==> s@[j] != c;
                assert(0 <= i < s@.len() && s@[i as int] == c && forall|j: int| 0 <= j < i ==> s@[j] != c);
                if k < i {
                    assert(s@[k] != c);
                } else if k > i {
                    assert(s@[i as int] != c);
                }
            }
            return Some(i);
        }
        i = i + 1;
    }
    None
}

// ───────────────────────── numbers ─────────────────────────

/// A decimal digit.
pub open spec fn is_dec(c: char) -> bool {
    '0' <= c && c <= '9'
}

/// A hexadecimal digit, either case.
pub open spec fn is_hex(c: char) -> bool {
    is_dec(c) || ('a' <= c && c <= 'f') || ('A' <= c && c <= 'F')
}

/// Value of a hexadecimal digit.
pub open spec fn hex_val(c: char) -> nat {
    if is_dec(c) {
        (c as int - '0' as int) as nat
    } else if 'a' <= c && c <= 'f' {
        (c as int - 'a' as int + 10) as nat
    } else {
        (c as int - 'A' as int + 10) as nat
    }
}

/// Value of digits in base `radix`.
pub open spec fn digits_val(s: Seq<char>, radix: nat) -> nat
    decreases s.len(),
{
    if s.len() == 0 {
        0
    } else {
        digits_val(s.drop_last(), radix) * radix + hex_val(s.last())
    }
}

/// Every character is a decimal digit.
pub open spec fn all_dec(s: Seq<char>) -> bool {
    forall|i: int| 0 <= i < s.len() ==> is_dec(s[i])
}

/// What `str::parse::<u8>` gives: an optional `+` then at least one
/// decimal digit, with a value of at most 255.
pub open spec fn parse_u8_text(s: Seq<char>) -> Option<u8> {
    let d = if s.len() > 0 && s[0] == '+' {
        s.drop_first()
    } else {
        s
    };
    if d.len() > 0 && all_dec(d) && digits_val(d, 10) <= 255 {
        Some(digits_val(d, 10) as u8)
    } else {
        None
    }
}

proof fn lemma_digits_grow(s: Seq<char>, radix: nat)
    requires
        s.len() > 0,
        radix >= 1,
    ensures
        digits_val(s, radix) >= digits_val(s.drop_last(), radix),
{
    assert(digits_val(s.drop_last(), radix) * radix >= digits_val(s.drop_last(), radix)) by (nonlinear_arith)
        requires
            radix >= 1,
    ;
}

pub proof fn lemma_digits_prefix_bound(s: Seq<char>, radix: nat, k: int)
    requires
        radix >= 1,
        0 <= k <= s.len(),
    ensures
        digits_val(s, radix) >= digits_val(s.subrange(0, k), radix),
    decreases s.len() - k,
{
    if k < s.len() {
        lemma_digits_prefix_bound(s, radix, k + 1);
        let t = s.subrange(0, k + 1);
        assert(t.drop_last() =~= s.subrange(0, k));
        lemma_digits_grow(t, radix);
    } else {
        assert(s.subrange(0, k) =~= s);
    }
}

/// Reads a `u8` as `str::parse::<u8>` does.
pub fn parse_u8(s: &[char]) -> (r: Option<u8>)
    ensures
        r == parse_u8_text(s@),
{
    let n = s.len();
    let start: usize = if n > 0 && s[0] == '+' {
        1
    } else {
        0
    };
    let ghost d = if s@.len() > 0 && s@[0] == '+' {
        s@.drop_first()
    } else {
        s@
    };
    proof {
        assert(d =~= s@.subrange(start as int, n as int));
    }
    if start >= n {
        return None;
    }
    let mut v: u32 = 0;
    let mut i: usize = start;
    while i < n
        invariant
            start <= i <= n,
            n == s@.len(),
            start < n,
            d == s@.subrange(start as int, n as int),
            d == (if s@.len() > 0 && s@[0] == '+' {
                s@.drop_first()
            } else {
                s@
            }),
            forall|j: int| start <= j < i ==> is_dec(s@[j]),
            v == digits_val(s@.subrange(start as int, i as int), 10),
            v <= 255,
        decreases n - i,
    {
        let c = s[i];
        let ghost sub = s@.subrange(start as int, i + 1);
        proof {
            assert(sub.drop_last() =~= s@.subrange(start as int, i as int));
        }
        if !('0' <= c && c <= '9') {
            proof {
                assert(d[i - start] == c);
                assert(!is_dec(d[i - start]));
                assert(0 <= i - start < d.len());
                assert(!all_dec(d));
                assert(parse_u8_text(s@) is None);
            }
            return None;
        }
        let digit = (c as u32) - ('0' as u32);
        let nv = v * 10 + digit;
        if nv > 255 {
            proof {
                assert(digits_val(sub, 10) == nv);
                lemma_digits_prefix_bound(d, 10, i + 1 - start);
                assert(d.subrange(0, i + 1 - start) =~= sub);
                assert(digits_val(d, 10) > 255);
                assert(parse_u8_text(s@) is None);
            }
            return None;
        }
        v = nv;
        i = i + 1;
    }
    Some(v as u8)
}

// ───────────────────────── IPv4 ─────────────────────────

/// One octet of a dotted quad as `Ipv4Addr` reads it: one to three decimal
/// digits, no leading zero unless the octet is `0`, at most 255.
pub open spec fn v4_octet(p: Seq<char>) -> Option<u8> {
    if 1 <= p.len() <= 3 && all_dec(p) && !(p.len() > 1 && p[0] == '0')
        && digits_val(p, 10) <= 255 {
        Some(digits_val(p, 10) as u8)
    } else {
        None
    }
}

/// Value of four octets, big-endian.
pub open spec fn quad_value(a: u8, b: u8, c: u8, d: u8) -> u32 {
    (a as int * 16777216 + b as int * 65536 + c as int * 256 + d as int) as u32
}

/// A dotted-quad IPv4 address as embedded in IPv6 text.
pub open spec fn v4_quad(s: Seq<char>) -> Option<u32> {
    let p = split_on(s, '.');
    if p.len() == 4 && v4_octet(p[0]) is Some && v4_octet(p[1]) is Some && v4_octet(p[2]) is Some && v4_octet(
        p[3],
    ) is Some {
        Some(
            quad_value(
                v4_octet(p[0])->Some_0,
                v4_octet(p[1])->Some_0,
                v4_octet(p[2])->Some_0,
                v4_octet(p[3])->Some_0,
            ),
        )
    } else {
        None
    }
}

fn parse_octet(p: &[char]) -> (r: Option<u8>)
    ensures
        r == v4_octet(p@),
{
    let n = p.len();
    if n < 1 || n > 3 {
        return None;
    }
    if n > 1 && p[0] == '0' {
        return None;
    }
    let mut v: u32 = 0;
    let mut i: usize = 0;
    while i < n
        invariant
            i <= n,
            n == p@.len(),
            1 <= n <= 3,
            forall|j: int| 0 <= j < i ==> is_dec(p@[j]),
            v == digits_val(p@.subrange(0, i as int), 10),
            i == 0 ==> v == 0,
            i == 1 ==> v < 10,
            i == 2 ==> v < 100,
            i == 3 ==> v < 1000,
        decreases n - i,
    {
        let c = p[i];
        proof {
            assert(p@.subrange(0, i + 1).drop_last() =~= p@.subrange(0, i as int));
        }
        if !('0' <= c && c <= '9') {
            return None;
        }
        v = v * 10 + ((c as u32) - ('0' as u32));
        i = i + 1;
    }
    proof {
        assert(p@.subrange(0, n as int) =~= p@);
    }
    if v > 255 {
        None
    } else {
        Some(v as u8)
    }
}

/// Reads a dotted quad.
pub fn parse_quad(s: &[char]) -> (r: Option<u32>)
    ensures
        r == v4_quad(s@),
{
    let parts = split_chars(s, '.');
    proof {
        assert(parts@.len() == split_on(s@, '.').len());
    }
    if parts.len() != 4 {
        return None;
    }
    proof {
        assert(parts@[0]@ == split_on(s@, '.')[0]);
        assert(parts@[1]@ == split_on(s@, '.')[1]);
        assert(parts@[2]@ == split_on(s@, '.')[2]);
        assert(parts@[3]@ == split_on(s@, '.')[3]);
    }
    let a = parse_octet(parts[0].as_slice());
    let b = parse_octet(parts[1].as_slice());
    let c = parse_octet(parts[2].as_slice());
    let d = parse_octet(parts[3].as_slice());
    match (a, b, c, d) {
        (Some(a), Some(b), Some(c), Some(d)) => {
            Some((a as u32) * 16777216 + (b as u32) * 65536 + (c as u32) * 256 + (d as u32))
        },
        _ => None,
    }
}

/// What `parse_ipv4_prefix` gives: `a.b.c.d/len` with four `u8` fields
/// (as `str::parse::<u8>` reads them) and a length of at most 32.
pub open spec fn ipv4_prefix_of(s: Seq<char>) -> Option<(u32, u8)> {
    match first_pos(s, '/') {
        None => None,
        Some(k) => {
            let ip = s.subrange(0, k);
            let len = parse_u8_text(s.subrange(k + 1, s.len() as int));
            let p = split_on(ip, '.');
            if len is Some && len->Some_0 <= 32 && p.len() == 4 && parse_u8_text(p[0]) is Some && parse_u8_text(
                p[1],
            ) is Some && parse_u8_text(p[2]) is Some && parse_u8_text(p[3]) is Some {
                Some(
                    (
                        quad_value(
                            parse_u8_text(p[0])->Some_0,
                            parse_u8_text(p[1])->Some_0,
                            parse_u8_text(p[2])->Some_0,
                            parse_u8_text(p[3])->Some_0,
                        ),
                        len->Some_0,
                    ),
                )
            } else {
                None
            }
        },
    }
}

/// Dotted-quad text of four octets, each written in decimal.
pub open spec fn quad_text(a: u8, b: u8, c: u8, d: u8) -> Seq<char> {
    dec_str(a as nat) + seq!['.'] + dec_str(b as nat) + seq!['.'] + dec_str(c as nat) + seq!['.'] + dec_str(
        d as nat,
    )
}

/// No character of `s` is `c`.
pub open spec fn lacks(s: Seq<char>, c: char) -> bool {
    forall|i: int| 0 <= i < s.len() ==> s[i] != c
}

/// Decimal text reads back as the number it renders: one to three digits
/// for a byte, with no leading zero.
proof fn lemma_dec_str_reads_back(n: nat)
    ensures
        dec_str(n).len() >= 1,
        all_dec(dec_str(n)),
        digits_val(dec_str(n), 10) == n,
        n >= 1 ==> dec_str(n)[0] != '0',
        n < 10 ==> dec_str(n).len() == 1,
        n < 100 ==> dec_str(n).len() <= 2,
        n <= 255 ==> dec_str(n).len() <= 3,
    decreases n,
{
    if n < 10 {
        let t = dec_str(n);
        assert(t.drop_last() =~= Seq::<char>::empty());
        assert(hex_val(digit_char(n)) == n);
        assert(digits_val(t, 10) == digits_val(t.drop_last(), 10) * 10 + hex_val(t.last()));
    } else {
        lemma_dec_str_reads_back(n / 10);
        let t = dec_str(n);
        let h = dec_str(n / 10);
        assert(t.drop_last() =~= h);
        assert(t[0] == h[0]);
        assert forall|i: int| 0 <= i < t.len() implies is_dec(#[trigger] t[i]) by {
            if i < h.len() {
                assert(t[i] == h[i]);
            }
        }
        assert(hex_val(digit_char(n % 10)) == n % 10);
        assert(t.last() == digit_char(n % 10));
        assert(digits_val(t, 10) == digits_val(h, 10) * 10 + hex_val(t.last()));
        assert((n / 10) * 10 + n % 10 == n);
    }
}

/// Text without `c` is one piece.
proof fn lemma_split_single(y: Seq<char>, c: char)
    requires
        lacks(y, c),
    ensures
        split_on(y, c) == seq![y],
    decreases y.len(),
{
    if y.len() > 0 {
        lemma_split_single(y.drop_last(), c);
        assert(y[y.len() - 1] != c);
        assert(y.drop_last().push(y.last()) =~= y);
        assert(split_on(y, c) =~= seq![y]);
    } else {
        assert(y =~= Seq::<char>::empty());
    }
}

/// Text, a separator, then text without the separator: the pieces of the
/// first text, then the last text as one more piece.
proof fn lemma_split_append(s: Seq<char>, c: char, y: Seq<char>)
    requires
        lacks(y, c),
    ensures
        split_on(s + seq![c] + y, c) == split_on(s, c).push(y),
    decreases y.len(),
{
    let t = s + seq![c] + y;
    if y.len() == 0 {
        assert(y =~= Seq::<char>::empty());
        assert(t =~= s.push(c));
        assert(t.drop_last() =~= s);
        assert(t.last() == c);
    } else {
        lemma_split_append(s, c, y.drop_last());
        assert(t.drop_last() =~= s + seq![c] + y.drop_last());
        assert(y[y.len() - 1] != c);
        assert(t.last() == y.last());
        assert(y.drop_last().push(y.last()) =~= y);
        assert(split_on(t, c) =~= split_on(s, c).push(y));
    }
}

proof fn lemma_dec_str_lacks(n: nat)
    ensures
        lacks(dec_str(n), '.'),
        lacks(dec_str(n), '/'),
{
    lemma_dec_str_reads_back(n);
}

/// The pieces of a dotted quad are the decimal texts of its four octets.
pub(crate) proof fn lemma_quad_text_pieces(a: u8, b: u8, c: u8, d: u8)
    ensures
        split_on(quad_text(a, b, c, d), '.') == seq![
            dec_str(a as nat),
            dec_str(b as nat),
            dec_str(c as nat),
            dec_str(d as nat),
        ],
        lacks(quad_text(a, b, c, d), '/'),
{
    let da = dec_str(a as nat);
    let db = dec_str(b as nat);
    let dc = dec_str(c as nat);
    let dd = dec_str(d as nat);
    lemma_dec_str_lacks(a as nat);
    lemma_dec_str_lacks(b as nat);
    lemma_dec_str_lacks(c as nat);
    lemma_dec_str_lacks(d as nat);
    lemma_split_single(da, '.');
    lemma_split_append(da, '.', db);
    lemma_split_append(da + seq!['.'] + db, '.', dc);
    lemma_split_append(da + seq!['.'] + db + seq!['.'] + dc, '.', dd);
    let q = quad_text(a, b, c, d);
    assert forall|i: int| 0 <= i < q.len() implies q[i] != '/' by {
        let l1 = da.len() as int;
        let l2 = l1 + 1 + db.len();
        let l3 = l2 + 1 + dc.len();
        if i < l1 {
            assert(q[i] == da[i]);
        } else if i == l1 || i == l2 || i == l3 {
            assert(q[i] == '.');
        } else if i < l2 {
            assert(q[i] == db[i - l1 - 1]);
        } else if i < l3 {
            assert(q[i] == dc[i - l2 - 1]);
        } else {
            assert(q[i] == dd[i - l3 - 1]);
        }
    }
}

/// Each octet written in decimal reads back as that octet, both as a
/// dotted-quad field and as `str::parse::<u8>` reads it.
pub(crate) proof fn lemma_octet_reads_back(n: u8)
    ensures
        v4_octet(dec_str(n as nat)) == Some(n),
        parse_u8_text(dec_str(n as nat)) == Some(n),
{
    lemma_dec_str_reads_back(n as nat);
}

/// A dotted quad written from four octets reads back as the address whose
/// big-endian bytes are those octets, in that order.
pub proof fn law_quad_text_reads_back(a: u8, b: u8, c: u8, d: u8)
    ensures
        v4_quad(quad_text(a, b, c, d)) == Some((a * 16777216 + b * 65536 + c * 256 + d) as u32),
{
    lemma_quad_text_pieces(a, b, c, d);
    lemma_octet_reads_back(a);
    lemma_octet_reads_back(b);
    lemma_octet_reads_back(c);
    lemma_octet_reads_back(d);
}

/// A prefix written as `a.b.c.d/l`, with a length of at most 32, reads back
/// as the address whose big-endian bytes are `a`, `b`, `c`, `d` in that
/// order, and the length `l`.
pub proof fn law_ipv4_prefix_reads_back(a: u8, b: u8, c: u8, d: u8, l: u8)
    requires
        l <= 32,
    ensures
        ipv4_prefix_of(quad_text(a, b, c, d) + seq!['/'] + dec_str(l as nat)) == Some(
            ((a * 16777216 + b * 65536 + c * 256 + d) as u32, l),
        ),
{
    let q = quad_text(a, b, c, d);
    let s = q + seq!['/'] + dec_str(l as nat);
    lemma_quad_text_pieces(a, b, c, d);
    lemma_octet_reads_back(a);
    lemma_octet_reads_back(b);
    lemma_octet_reads_back(c);
    lemma_octet_reads_back(d);
    lemma_octet_reads_back(l);
    let k = q.len() as int;
    assert(s[k] == '/');
    assert(forall|j: int| 0 <= j < k ==> s[j] == q[j]);
    let f = choose|i: int| 0 <= i < s.len() && s[i] == '/' && forall|j: int| 0 <= j < i ==> s[j] != '/';
    assert(0 <= k < s.len() && s[k] == '/' && forall|j: int| 0 <= j < k ==> s[j] != '/');
    if f < k {
        assert(s[f] == q[f]);
    } else if f > k {
        assert(s[k] != '/');
    }
    assert(first_pos(s, '/') == Some(k));
    assert(s.subrange(0, k) =~= q);
    assert(s.subrange(k + 1, s.len() as int) =~= dec_str(l as nat));
}

/// Reads an IPv4 prefix `a.b.c.d/len`.
pub fn parse_ipv4_prefix(s: &str) -> (r: Option<(u32, u8)>)
    ensures
        r == ipv4_prefix_of(s@),
{
    let cs = chars_of(s);
    let k = match find_char(cs.as_slice(), '/') {
        Some(k) => k,
        None => {
            return None;
        },
    };
    let n = cs.len();
    let ip = vstd::slice::slice_subrange(cs.as_slice(), 0, k);
    let len_part = vstd::slice::slice_subrange(cs.as_slice(), k + 1, n);
    let len = match parse_u8(len_part) {
        Some(l) => l,
        None => {
            return None;
        },
    };
    if len > 32 {
        return None;
    }
    let parts = split_chars(ip, '.');
    proof {
        assert(parts@.len() == split_on(ip@, '.').len());
    }
    if parts.len() != 4 {
        return None;
    }
    proof {
        assert(parts@[0]@ == split_on(ip@, '.')[0]);
        assert(parts@[1]@ == split_on(ip@, '.')[1]);
        assert(parts@[2]@ == split_on(ip@, '.')[2]);
        assert(parts@[3]@ == split_on(ip@, '.')[3]);
    }
    let a = parse_u8(parts[0].as_slice());
    let b = parse_u8(parts[1].as_slice());
    let c = parse_u8(parts[2].as_slice());
    let d = parse_u8(parts[3].as_slice());
    match (a, b, c, d) {
        (Some(a), Some(b), Some(c), Some(d)) => {
            Some(((a as u32) * 16777216 + (b as u32) * 65536 + (c as u32) * 256 + (d as u32), len))
        },
        _ => None,
    }
}

// ───────────────────────── IPv6 ─────────────────────────

/// Every character is a hexadecimal digit.
pub open spec fn all_hex(s: Seq<char>) -> bool {
    forall|i: int| 0 <= i < s.len() ==> is_hex(s[i])
}

/// A group of one to four hexadecimal digits.
pub open spec fn hex_group(p: Seq<char>) -> Option<u16> {
    if 1 <= p.len() <= 4 && all_hex(p) {
        Some(digits_val(p, 16) as u16)
    } else {
        None
    }
}

/// The 16-bit groups written in `s`: pieces separated by `:`, each a hex
/// group, except that the last may be a dotted quad (two groups) when
/// `v4_last`. Empty text holds no group.
#[verifier::opaque]
pub open spec fn groups_of(s: Seq<char>, v4_last: bool) -> Option<Seq<u16>> {
    if s.len() == 0 {
        Some(Seq::empty())
    } else {
        let p = split_on(s, ':');
        let init = p.drop_last();
        if forall|i: int| 0 <= i < init.len() ==> #[trigger] hex_group(init[i]) is Some {
            let hs = init.map_values(|q: Seq<char>| hex_group(q)->Some_0);
            match hex_group(p.last()) {
                Some(g) => Some(hs.push(g)),
                None => if v4_last && v4_quad(p.last()) is Some {
                    let q = v4_quad(p.last())->Some_0;
                    Some(hs.push((q / 65536) as u16).push((q % 65536) as u16))
                } else {
                    None
                },
            }
        } else {
            None
        }
    }
}

/// `::` starts at `j`.
pub open spec fn double_colon_at(s: Seq<char>, j: int) -> bool {
    0 <= j && j + 1 < s.len() && s[j] == ':' && s[j + 1] == ':'
}

/// Position of the first `::`.
#[verifier::opaque]
pub open spec fn first_double_colon(s: Seq<char>) -> Option<int> {
    if exists|j: int| double_colon_at(s, j) {
        Some(choose|j: int| double_colon_at(s, j) && forall|k: int| 0 <= k < j ==> !double_colon_at(s, k))
    } else {
        None
    }
}

/// The eight groups of an IPv6 address text as `Ipv6Addr` reads it:
/// either eight groups, or groups before and after one `::` that stands
/// for at least one group of zeros; a dotted quad may end the address.
pub open spec fn ipv6_groups(s: Seq<char>) -> Option<Seq<u16>> {
    match first_double_colon(s) {
        None => match groups_of(s, true) {
            Some(g) => if g.len() == 8 {
                Some(g)
            } else {
                None
            },
            None => None,
        },
        Some(j) => match (groups_of(s.subrange(0, j), false), groups_of(s.subrange(j + 2, s.len() as int), true)) {
            (Some(h), Some(t)) => if h.len() + t.len() <= 7 {
                Some(h + Seq::new((8 - h.len() - t.len()) as nat, |i: int| 0u16) + t)
            } else {
                None
            },
            _ => None,
        },
    }
}

/// Big-endian value of 16-bit groups.
pub open spec fn groups_value(g: Seq<u16>) -> nat
    decreases g.len(),
{
    if g.len() == 0 {
        0
    } else {
        groups_value(g.drop_last()) * 65536 + g.last() as nat
    }
}

/// 65536 to the power `i`.
pub open spec fn p16(i: nat) -> nat
    decreases i,
{
    if i == 0 {
        1
    } else {
        p16((i - 1) as nat) * 65536
    }
}

/// The value of an IPv6 address text.
pub open spec fn ipv6_value(s: Seq<char>) -> Option<u128> {
    match ipv6_groups(s) {
        Some(g) => Some(groups_value(g) as u128),
        None => None,
    }
}

fn parse_hex_group(p: &[char]) -> (r: Option<u16>)
    ensures
        r == hex_group(p@),
{
    let n = p.len();
    if n < 1 || n > 4 {
        return None;
    }
    let mut v: u32 = 0;
    let mut i: usize = 0;
    while i < n
        invariant
            i <= n,
            n == p@.len(),
            1 <= n <= 4,
            forall|j: int| 0 <= j < i ==> is_hex(p@[j]),
            v == digits_val(p@.subrange(0, i as int), 16),
            i == 0 ==> v == 0,
            i == 1 ==> v < 16,
            i == 2 ==> v < 256,
            i == 3 ==> v < 4096,
            i == 4 ==> v < 65536,
        decreases n - i,
    {
        let c = p[i];
        proof {
            assert(p@.subrange(0, i + 1).drop_last() =~= p@.subrange(0, i as int));
        }
        let d: u32 = if '0' <= c && c <= '9' {
            (c as u32) - ('0' as u32)
        } else if 'a' <= c && c <= 'f' {
            (c as u32) - ('a' as u32) + 10
        } else if 'A' <= c && c <= 'F' {
            (c as u32) - ('A' as u32) + 10
        } else {
            proof {
                assert(!is_hex(p@[i as int]));
            }
            return None;
        };
        v = v * 16 + d;
        i = i + 1;
    }
    proof {
        assert(p@.subrange(0, n as int) =~= p@);
    }
    Some(v as u16)
}

/// Reads the groups of `s` (see [`groups_of`]).
fn parse_groups(s: &[char], v4_last: bool) -> (r: Option<Vec<u16>>)
    ensures
        match r {
            Some(v) => groups_of(s@, v4_last) == Some(v@),
            None => groups_of(s@, v4_last) is None,
        },
{
    reveal(groups_of);
    if s.len() == 0 {
        let v: Vec<u16> = Vec::new();
        proof {
            assert(v@ =~= Seq::<u16>::empty());
        }
        return Some(v);
    }
    let parts = split_chars(s, ':');
    let ghost p = split_on(s@, ':');
    proof {
        lemma_split_nonempty(s@, ':');
        assert(parts@.len() == p.len());
    }
    let last = parts.len() - 1;
    let ghost init = p.drop_last();
    let mut out: Vec<u16> = Vec::new();
    let mut i: usize = 0;
    while i < last
        invariant
            s@.len() > 0,
            p == split_on(s@, ':'),
            i <= last,
            last == parts@.len() - 1,
            parts@.map_values(|q: Vec<char>| q@) == p,
            init == p.drop_last(),
            forall|j: int| 0 <= j < i ==> #[trigger] hex_group(init[j]) is Some,
            out@ == init.subrange(0, i as int).map_values(|q: Seq<char>| hex_group(q)->Some_0),
        decreases last - i,
    {
        proof {
            assert(parts@[i as int]@ == init[i as int]);
        }
        match parse_hex_group(parts[i].as_slice()) {
            Some(g) => {
                out.push(g);
                proof {
                    assert(out@ =~= init.subrange(0, i + 1).map_values(|q: Seq<char>| hex_group(q)->Some_0));
                }
            },
            None => {
                proof {
                    reveal(groups_of);
                    assert(hex_group(init[i as int]) is None);
                    assert(!(forall|j: int| 0 <= j < init.len() ==> #[trigger] hex_group(init[j]) is Some));
                    assert(groups_of(s@, v4_last) is None);
                }
                return None;
            },
        }
        i = i + 1;
    }
    proof {
        assert(init.subrange(0, last as int) =~= init);
        assert(parts@[last as int]@ == p.last());
    }
    match parse_hex_group(parts[last].as_slice()) {
        Some(g) => {
            out.push(g);
            Some(out)
        },
        None => {
            if v4_last {
                match parse_quad(parts[last].as_slice()) {
                    Some(q) => {
                        out.push((q / 65536) as u16);
                        out.push((q % 65536) as u16);
                        Some(out)
                    },
                    None => None,
                }
            } else {
                None
            }
        },
    }
}

fn find_double_colon(s: &[char]) -> (r: Option<usize>)
    ensures
        match r {
            Some(j) => {
                &&& first_double_colon(s@) == Some(j as int)
                &&& double_colon_at(s@, j as int)
            },
            None => first_double_colon(s@) is None,
        },
{
    reveal(first_double_colon);
    let n = s.len();
    let mut j: usize = 0;
    while n - j > 1
        invariant
            n == s@.len(),
            j <= n,
            forall|k: int| 0 <= k < j ==> !double_colon_at(s@, k),
        decreases n - j,
    {
        if s[j] == ':' && s[j + 1] == ':' {
            proof {
                reveal(first_double_colon);
                let c = choose|c: int| double_colon_at(s@, c) && forall|k: int| 0 <= k < c ==> !double_colon_at(s@, k);
                assert(double_colon_at(s@, j as int));
                if c < j {
                    assert(!double_colon_at(s@, c));
                } else if c > j {
                    assert(!double_colon_at(s@, j as int));
                }
            }
            return Some(j);
        }
        j = j + 1;
    }
    proof {
        assert forall|k: int| !double_colon_at(s@, k) by {
            if 0 <= k < j {
            }
        }
    }
    None
}

proof fn lemma_groups_value_bound(g: Seq<u16>)
    ensures
        groups_value(g) < p16(g.len()),
    decreases g.len(),
{
    if g.len() > 0 {
        lemma_groups_value_bound(g.drop_last());
        let a = groups_value(g.drop_last());
        let b = p16(g.drop_last().len());
        assert(a * 65536 + g.last() < b * 65536) by (nonlinear_arith)
            requires
                a < b,
                g.last() < 65536,
        ;
    }
}

/// `h`, then `8 - |h| - |t|` zero groups, then `t`.
fn fill_groups(h: Vec<u16>, t: &Vec<u16>) -> (r: Vec<u16>)
    requires
        h@.len() + t@.len() <= 7,
    ensures
        r@ == h@ + Seq::new((8 - h@.len() - t@.len()) as nat, |i: int| 0u16) + t@,
{
    let zeros = 8 - h.len() - t.len();
    let mut g = h;
    let ghost h0 = g@;
    let mut k: usize = 0;
    while k < zeros
        invariant
            k <= zeros,
            g@ == h0 + Seq::new(k as nat, |i: int| 0u16),
        decreases zeros - k,
    {
        g.push(0);
        proof {
            assert(g@ =~= h0 + Seq::new((k + 1) as nat, |i: int| 0u16));
        }
        k = k + 1;
    }
    let mut i: usize = 0;
    let ghost g0 = g@;
    while i < t.len()
        invariant
            i <= t@.len(),
            g@ == g0 + t@.subrange(0, i as int),
        decreases t@.len() - i,
    {
        g.push(t[i]);
        proof {
            assert(g@ =~= g0 + t@.subrange(0, i + 1));
        }
        i = i + 1;
    }
    proof {
        assert(t@.subrange(0, t@.len() as int) =~= t@);
    }
    g
}

/// The big-endian value of eight groups.
fn groups_to_u128(groups: &Vec<u16>) -> (r: u128)
    requires
        groups@.len() == 8,
    ensures
        r == groups_value(groups@),
{
    proof {
        reveal_with_fuel(p16, 9);
        assert(p16(8) == 0x1_0000_0000_0000_0000_0000_0000_0000_0000);
    }
    let mut acc: u128 = 0;
    let mut i: usize = 0;
    while i < 8
        invariant
            i <= 8,
            groups@.len() == 8,
            acc == groups_value(groups@.subrange(0, i as int)),
            p16(8) == 0x1_0000_0000_0000_0000_0000_0000_0000_0000,
        decreases 8 - i,
    {
        proof {
            assert(groups@.subrange(0, i + 1).drop_last() =~= groups@.subrange(0, i as int));
            lemma_groups_value_bound(groups@.subrange(0, i + 1));
            lemma_p16_mono(i as nat + 1, 8);
        }
        acc = acc * 65536 + (groups[i] as u128);
        i = i + 1;
    }
    proof {
        assert(groups@.subrange(0, 8) =~= groups@);
    }
    acc
}

/// The eight groups of an IPv6 address text.
fn ipv6_groups_of(s: &[char]) -> (r: Option<Vec<u16>>)
    ensures
        match r {
            Some(g) => ipv6_groups(s@) == Some(g@) && g@.len() == 8,
            None => ipv6_groups(s@) is None,
        },
{
    match find_double_colon(s) {
        None => match parse_groups(s, true) {
            Some(g) => {
                if g.len() != 8 {
                    None
                } else {
                    Some(g)
                }
            },
            None => None,
        },
        Some(j) => {
            let n = s.len();
            proof {
                assert(double_colon_at(s@, j as int));
                assert(j + 2 <= n);
            }
            let head = vstd::slice::slice_subrange(s, 0, j);
            let tail = vstd::slice::slice_subrange(s, j + 2, n);
            let h = match parse_groups(head, false) {
                Some(h) => h,
                None => {
                    return None;
                },
            };
            let t = match parse_groups(tail, true) {
                Some(t) => t,
                None => {
                    return None;
                },
            };
            if h.len() > 7 || t.len() > 7 - h.len() {
                return None;
            }
            let g = fill_groups(h, &t);
            Some(g)
        },
    }
}

/// Reads an IPv6 address text as `Ipv6Addr` does.
pub fn parse_ipv6(s: &[char]) -> (r: Option<u128>)
    ensures
        r == ipv6_value(s@),
{
    match ipv6_groups_of(s) {
        Some(g) => Some(groups_to_u128(&g)),
        None => None,
    }
}

proof fn lemma_p16_mono(a: nat, b: nat)
    requires
        a <= b,
    ensures
        p16(a) <= p16(b),
    decreases b,
{
    if a < b {
        lemma_p16_mono(a, (b - 1) as nat);
    }
}

/// What `parse_ipv6_prefix` gives: an IPv6 address text, `/` and a length
/// of at most 128.
pub open spec fn ipv6_prefix_of(s: Seq<char>) -> Option<(u128, u8)> {
    match first_pos(s, '/') {
        None => None,
        Some(k) => {
            let len = parse_u8_text(s.subrange(k + 1, s.len() as int));
            let a = ipv6_value(s.subrange(0, k));
            if len is Some && len->Some_0 <= 128 && a is Some {
                Some((a->Some_0, len->Some_0))
            } else {
                None
            }
        },
    }
}

/// Reads an IPv6 prefix `addr/len`.
pub fn parse_ipv6_prefix(s: &str) -> (r: Option<(u128, u8)>)
    ensures
        r == ipv6_prefix_of(s@),
{
    let cs = chars_of(s);
    let k = match find_char(cs.as_slice(), '/') {
        Some(k) => k,
        None => {
            return None;
        },
    };
    let n = cs.len();
    let ip = vstd::slice::slice_subrange(cs.as_slice(), 0, k);
    let len_part = vstd::slice::slice_subrange(cs.as_slice(), k + 1, n);
    let len = match parse_u8(len_part) {
        Some(l) => l,
        None => {
            return None;
        },
    };
    if len > 128 {
        return None;
    }
    match parse_ipv6(ip) {
        Some(a) => Some((a, len)),
        None => None,
    }
}

} // verus!