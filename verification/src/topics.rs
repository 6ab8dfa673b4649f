//! RouteViews Kafka topic names (`routeviews.<collector>.<asn>.bmp_raw`),
//! their ordering, and short display helpers.

use vstd::prelude::*;

use crate::prefix::chars_of;
use crate::textparse::parse_dec_text;
use crate::text::{ends_with, push_char, starts_with, str_ends_with, str_starts_with};

verus! {

/// A string holding exactly these characters.
pub fn string_of(cs: &[char]) -> (r: String)
    ensures
        r@ == cs@,
{
    let mut s = String::new();
    let mut i: usize = 0;
    while i < cs.len()
        invariant
            i <= cs@.len(),
            s@ == cs@.subrange(0, i as int),
        decreases cs@.len() - i,
    {
        push_char(&mut s, cs[i]);
        proof {
            assert(s@ =~= cs@.subrange(0, i + 1));
        }
        i = i + 1;
    }
    proof {
        assert(cs@.subrange(0, cs@.len() as int) =~= cs@);
    }
    s
}

/// Position of the last `c` in `s`.
pub open spec fn last_pos(s: Seq<char>, c: char) -> Option<int> {
    if exists|i: int| 0 <= i < s.len() && s[i] == c {
        Some(choose|i: int| 0 <= i < s.len() && s[i] == c && forall|j: int| i < j < s.len() ==> s[j] != c)
    } else {
        None
    }
}

/// Finds the last `c` in `s`.
pub fn rfind_char(s: &[char], c: char) -> (r: Option<usize>)
    ensures
        match r {
            Some(i) => {
                &&& last_pos(s@, c) == Some(i as int)
                &&& i < s@.len()
                &&& s@[i as int] == c
            },
            None => last_pos(s@, c) is None,
        },
{
    let mut i: usize = s.len();
    while i > 0
        invariant
            i <= s@.len(),
            forall|j: int| i <= j < s@.len() ==> s@[j] != c,
        decreases i,
    {
        if s[i - 1] == c {
            proof {
                let k = (i - 1) as int;
                let w = choose|w: int| 0 <= w < s@.len() && s@[w] == c && forall|j: int| w < j < s@.len() ==> s@[j] != c;
                assert(0 <= k < s@.len() && s@[k] == c && forall|j: int| k < j < s@.len() ==> s@[j] != c);
                if w < k {
                    assert(s@[k] != c);
                } else if w > k {
                    assert(s@[w] != c);
                }
            }
            return Some(i - 1);
        }
        i = i - 1;
    }
    None
}

/// A topic name split into collector and peer ASN text.
#[derive(Debug, Clone)]
pub struct ParsedTopic {
    pub collector: String,
    pub asn_str: String,
    pub full: String,
}

/// Abstract value of a [`ParsedTopic`].
pub struct ParsedTopicV {
    pub collector: Seq<char>,
    pub asn_str: Seq<char>,
    pub full: Seq<char>,
}

impl View for ParsedTopic {
    type V = ParsedTopicV;

    open spec fn view(&self) -> ParsedTopicV {
        ParsedTopicV { collector: self.collector@, asn_str: self.asn_str@, full: self.full@ }
    }
}

/// What a topic name holds: after `routeviews.` and before `.bmp_raw`,
/// the collector is the text before the last `.` (it must not be empty)
/// and the ASN the text after it; without a `.`, the whole is the
/// collector and the ASN is `-`.
pub open spec fn topic_of(t: Seq<char>) -> Option<ParsedTopicV> {
    if t.len() >= 19 && starts_with(t, "routeviews."@) && ends_with(t, ".bmp_raw"@) {
        let body = t.subrange(11, t.len() - 8);
        match last_pos(body, '.') {
            None => Some(ParsedTopicV { collector: body, asn_str: "-"@, full: t }),
            Some(k) => if k == 0 {
                None
            } else {
                Some(ParsedTopicV { collector: body.subrange(0, k), asn_str: body.subrange(k + 1, body.len() as int), full: t })
            },
        }
    } else {
        None
    }
}

/// Reads a topic name.
pub fn parse_topic(t: &str) -> (r: Option<ParsedTopic>)
    ensures
        match r {
            Some(p) => topic_of(t@) == Some(p@),
            None => topic_of(t@) is None,
        },
{
    proof {
        reveal_strlit("routeviews.");
        reveal_strlit(".bmp_raw");
        reveal_strlit("-");
    }
    let cs = chars_of(t);
    let n = cs.len();
    if n < 19 || !str_starts_with(t, "routeviews.") || !str_ends_with(t, ".bmp_raw") {
        return None;
    }
    let body = vstd::slice::slice_subrange(cs.as_slice(), 11, n - 8);
    match rfind_char(body, '.') {
        None => Some(ParsedTopic {
            collector: string_of(body),
            asn_str: String::from_str("-"),
            full: String::from_str(t),
        }),
        Some(k) => {
            if k == 0 {
                return None;
            }
            let m = body.len();
            let col = vstd::slice::slice_subrange(body, 0, k);
            let asn = vstd::slice::slice_subrange(body, k + 1, m);
            Some(ParsedTopic { collector: string_of(col), asn_str: string_of(asn), full: String::from_str(t) })
        },
    }
}

/// `s` cut to `max_chars` characters, with `…` appended when cut.
pub open spec fn truncated(s: Seq<char>, max_chars: nat) -> Seq<char> {
    if s.len() <= max_chars {
        s
    } else {
        s.subrange(0, max_chars as int).push('…')
    }
}

/// Cuts `s` to `max_chars` characters, marking a cut with `…`.
pub fn truncate_str(s: &str, max_chars: usize) -> (r: String)
    ensures
        r@ == truncated(s@, max_chars as nat),
{
    let cs = chars_of(s);
    if cs.len() <= max_chars {
        return String::from_str(s);
    }
    let head = vstd::slice::slice_subrange(cs.as_slice(), 0, max_chars);
    let mut r = string_of(head);
    push_char(&mut r, '…');
    r
}


/// How the dashboard picks its topic among those listed.
#[derive(Debug, Clone, Copy, PartialEq, Eq, Structural)]
pub enum TopicChoice {
    /// No topic is listed: report it and stop.
    NoTopics,
    /// Exactly one topic is listed: watch it.
    OnlyOne,
    /// Several topics are listed: let the user browse them.
    Browse,
}

/// The choice for `n` listed topics.
pub open spec fn topic_choice_of(n: nat) -> TopicChoice {
    if n == 0 {
        TopicChoice::NoTopics
    } else if n == 1 {
        TopicChoice::OnlyOne
    } else {
        TopicChoice::Browse
    }
}

/// How to pick a topic among `n` listed ones.
pub fn choose_topic(n: usize) -> (r: TopicChoice)
    ensures
        r == topic_choice_of(n as nat),
{
    if n == 0 {
        TopicChoice::NoTopics
    } else if n == 1 {
        TopicChoice::OnlyOne
    } else {
        TopicChoice::Browse
    }
}

/// What to say when no topic is listed: a hint to broaden the filters when
/// a collector or ASN filter was given.
pub open spec fn no_topics_text(filtered: bool) -> Seq<char> {
    if filtered {
        "No topics matched filters. Try broader --collector/--asn, or run without filters."@
    } else {
        "No RouteViews topics found on this broker."@
    }
}

/// The message shown when no topic is listed.
pub fn no_topics_message(filtered: bool) -> (r: &'static str)
    ensures
        r@ == no_topics_text(filtered),
{
    if filtered {
        "No topics matched filters. Try broader --collector/--asn, or run without filters."
    } else {
        "No RouteViews topics found on this broker."
    }
}

} // verus!
