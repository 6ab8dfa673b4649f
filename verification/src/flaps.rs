//! The "Prefix Flaps" panel of the dashboard: every prefix seen with its
//! origin ASN and churn, origins with the most churned prefix first, and
//! within an origin its most churned prefixes first.

use vstd::prelude::*;

use crate::dashboard::{find_text, key_index, lemma_first_key, lemma_no_key, pairs_view, text_counts, Dashboard};
use crate::kafka::{chars_le, lemma_text_le_total, text_le};
use crate::prefix::chars_of;

verus! {

/// The count kept for text `k` in a table, 0 when it has none.
pub open spec fn count_for(t: Seq<(Seq<char>, u64)>, k: Seq<char>) -> u64 {
    match key_index(t, k) {
        Some(i) => t[i].1,
        None => 0,
    }
}

/// The largest churn among the prefixes that `po` gives origin `o`
/// (0 when it gives it none).
pub open spec fn top_churn(po: Seq<(Seq<char>, u32)>, churn: Seq<(Seq<char>, u64)>, o: u32) -> u64
    decreases po.len(),
{
    if po.len() == 0 {
        0
    } else {
        let m = top_churn(po.drop_last(), churn, o);
        let c = count_for(churn, po.last().0);
        if po.last().1 == o && c > m {
            c
        } else {
            m
        }
    }
}

/// One prefix of the panel.
pub struct FlapRow {
    pub prefix: String,
    /// Its origin ASN.
    pub origin: u32,
    /// Its announcements and withdrawals.
    pub churn: u64,
    /// The largest churn among the prefixes of its origin.
    pub top: u64,
}

/// Abstract value of a [`FlapRow`].
pub struct FlapRowV {
    pub prefix: Seq<char>,
    pub origin: u32,
    pub churn: u64,
    pub top: u64,
}

impl View for FlapRow {
    type V = FlapRowV;

    open spec fn view(&self) -> FlapRowV {
        FlapRowV { prefix: self.prefix@, origin: self.origin, churn: self.churn, top: self.top }
    }
}

pub open spec fn rows_view(v: Seq<FlapRow>) -> Seq<FlapRowV> {
    v.map_values(|r: FlapRow| r@)
}

/// The row of prefix entry `e` of the origins table `po`.
pub open spec fn flap_row(po: Seq<(Seq<char>, u32)>, churn: Seq<(Seq<char>, u64)>, e: (Seq<char>, u32)) -> FlapRowV {
    FlapRowV { prefix: e.0, origin: e.1, churn: count_for(churn, e.0), top: top_churn(po, churn, e.1) }
}

/// The order of the panel: origins by their most churned prefix (most
/// first), then by ASN; within an origin, prefixes by churn (most first),
/// then by text.
pub open spec fn flap_le(a: FlapRowV, b: FlapRowV) -> bool {
    if a.top != b.top {
        a.top > b.top
    } else if a.origin != b.origin {
        a.origin < b.origin
    } else if a.churn != b.churn {
        a.churn > b.churn
    } else {
        text_le(a.prefix, b.prefix)
    }
}

pub open spec fn insert_row(s: Seq<FlapRowV>, x: FlapRowV) -> Seq<FlapRowV>
    decreases s.len(),
{
    if s.len() == 0 {
        seq![x]
    } else if flap_le(s.last(), x) {
        s.push(x)
    } else {
        insert_row(s.drop_last(), x).push(s.last())
    }
}

/// Rows sorted in the panel's order, equal ones keeping their order.
pub open spec fn sort_rows(s: Seq<FlapRowV>) -> Seq<FlapRowV>
    decreases s.len(),
{
    if s.len() == 0 {
        s
    } else {
        insert_row(sort_rows(s.drop_last()), s.last())
    }
}

/// Each row is no earlier, in the panel's order, than the one before.
pub open spec fn rows_sorted(s: Seq<FlapRowV>) -> bool
    decreases s.len(),
{
    if s.len() <= 1 {
        true
    } else {
        flap_le(s[s.len() - 2], s.last()) && rows_sorted(s.drop_last())
    }
}

proof fn lemma_insert_row_sorted(s: Seq<FlapRowV>, x: FlapRowV)
    requires
        rows_sorted(s),
    ensures
        rows_sorted(insert_row(s, x)),
        insert_row(s, x).to_multiset() =~= s.to_multiset().insert(x),
        insert_row(s, x).len() == s.len() + 1,
        insert_row(s, x).last() == x || (s.len() > 0 && insert_row(s, x).last() == s.last()),
    decreases s.len(),
{
    broadcast use vstd::seq_lib::group_to_multiset_ensures;

    if s.len() == 0 {
        assert(seq![x] =~= Seq::<FlapRowV>::empty().push(x));
    } else if flap_le(s.last(), x) {
        assert(s.push(x).drop_last() =~= s);
    } else {
        let d = s.drop_last();
        let t = insert_row(d, x);
        lemma_insert_row_sorted(d, x);
        assert(d.push(s.last()) =~= s);
        assert(t.push(s.last()).drop_last() =~= t);
        if t.len() >= 1 {
            if t.last() == x {
                lemma_text_le_total(x.prefix, s.last().prefix);
            } else {
                assert(s[s.len() - 2] == d.last());
            }
        }
    }
}

/// The panel is ordered: its rows are those of the prefixes, each no
/// earlier than the one before it (origins by their most churned prefix,
/// then by ASN; within an origin, by churn, then by prefix).
pub proof fn law_flaps_sorted(po: Seq<(Seq<char>, u32)>, churn: Seq<(Seq<char>, u64)>)
    ensures
        rows_sorted(flap_rows(po, churn)),
        flap_rows(po, churn).to_multiset() =~= po.map_values(|e: (Seq<char>, u32)| flap_row(po, churn, e)).to_multiset(),
{
    lemma_sort_rows(po.map_values(|e: (Seq<char>, u32)| flap_row(po, churn, e)));
}

proof fn lemma_sort_rows(s: Seq<FlapRowV>)
    ensures
        rows_sorted(sort_rows(s)),
        sort_rows(s).to_multiset() =~= s.to_multiset(),
    decreases s.len(),
{
    broadcast use vstd::seq_lib::group_to_multiset_ensures;

    if s.len() > 0 {
        lemma_sort_rows(s.drop_last());
        lemma_insert_row_sorted(sort_rows(s.drop_last()), s.last());
        assert(s.drop_last().push(s.last()) =~= s);
    }
}

/// The rows of the panel for the origins table `po` and churn table
/// `churn`: one per prefix, in the panel's order.
pub open spec fn flap_rows(po: Seq<(Seq<char>, u32)>, churn: Seq<(Seq<char>, u64)>) -> Seq<FlapRowV> {
    sort_rows(po.map_values(|e: (Seq<char>, u32)| flap_row(po, churn, e)))
}

/// The churn counted for prefix `k`.
fn churn_of(t: &Vec<(String, u64)>, k: &str) -> (r: u64)
    ensures
        r == count_for(text_counts(t@), k@),
{
    let ghost tv = text_counts(t@);
    match find_text(t, k) {
        Some(i) => {
            proof {
                lemma_first_key(tv, k@, i as int);
            }
            t[i].1
        },
        None => {
            proof {
                lemma_no_key(tv, k@);
            }
            0
        },
    }
}

/// The largest churn among the prefixes of origin `o`.
fn top_of(po: &Vec<(String, u32)>, churn: &Vec<(String, u64)>, o: u32) -> (r: u64)
    ensures
        r == top_churn(pairs_view(po@), text_counts(churn@), o),
{
    let ghost pv = pairs_view(po@);
    let mut m: u64 = 0;
    let mut i: usize = 0;
    proof {
        assert(pv.subrange(0, 0) =~= Seq::<(Seq<char>, u32)>::empty());
    }
    while i < po.len()
        invariant
            i <= po@.len(),
            pv == pairs_view(po@),
            m == top_churn(pv.subrange(0, i as int), text_counts(churn@), o),
        decreases po@.len() - i,
    {
        proof {
            assert(pv.subrange(0, i + 1).drop_last() =~= pv.subrange(0, i as int));
            assert(pv.subrange(0, i + 1).last() == (po@[i as int].0@, po@[i as int].1));
        }
        let c = churn_of(churn, po[i].0.as_str());
        if po[i].1 == o && c > m {
            m = c;
        }
        i = i + 1;
    }
    proof {
        assert(pv.subrange(0, i as int) =~= pv);
    }
    m
}

fn row_order(a: &FlapRow, b: &FlapRow) -> (r: bool)
    ensures
        r == flap_le(a@, b@),
{
    if a.top != b.top {
        a.top > b.top
    } else if a.origin != b.origin {
        a.origin < b.origin
    } else if a.churn != b.churn {
        a.churn > b.churn
    } else {
        let ac = chars_of(a.prefix.as_str());
        let bc = chars_of(b.prefix.as_str());
        chars_le(ac.as_slice(), bc.as_slice())
    }
}

fn insert_row_vec(v: Vec<FlapRow>, x: FlapRow) -> (r: Vec<FlapRow>)
    ensures
        rows_view(r@) == insert_row(rows_view(v@), x@),
    decreases v@.len(),
{
    let ghost tv = rows_view(v@);
    let ghost xv = x@;
    let mut v = v;
    match v.pop() {
        None => {
            let mut r: Vec<FlapRow> = Vec::new();
            r.push(x);
            proof {
                assert(rows_view(r@) =~= seq![xv]);
            }
            r
        },
        Some(last) => {
            proof {
                assert(rows_view(v@) =~= tv.drop_last());
            }
            if row_order(&last, &x) {
                v.push(last);
                v.push(x);
                proof {
                    assert(rows_view(v@) =~= tv.push(xv));
                }
                v
            } else {
                let ghost lv = last@;
                let mut r = insert_row_vec(v, x);
                let ghost rb = r@;
                r.push(last);
                proof {
                    assert(rows_view(r@) =~= rows_view(rb).push(lv));
                }
                r
            }
        },
    }
}

/// The rows of the dashboard's Prefix Flaps panel: each prefix that has
/// an origin, with its churn and the top churn of its origin, sorted so
/// that an origin's prefixes stand together, origins with the most
/// churned prefix first (then by ASN), and within an origin the most
/// churned prefixes first (then by text).
pub fn prefix_flaps(dash: &Dashboard) -> (r: Vec<FlapRow>)
    ensures
        rows_view(r@) == flap_rows(dash@.prefix_origins, dash@.churn_counts),
{
    let po = &dash.prefix_origins;
    let churn = &dash.churn_counts;
    let ghost pv = pairs_view(po@);
    let ghost cv = text_counts(churn@);
    let ghost all = pv.map_values(|e: (Seq<char>, u32)| flap_row(pv, cv, e));
    let mut out: Vec<FlapRow> = Vec::new();
    let mut i: usize = 0;
    proof {
        assert(all.subrange(0, 0) =~= Seq::<FlapRowV>::empty());
        assert(rows_view(out@) =~= Seq::<FlapRowV>::empty());
    }
    while i < po.len()
        invariant
            i <= po@.len(),
            pv == pairs_view(po@),
            cv == text_counts(churn@),
            all == pv.map_values(|e: (Seq<char>, u32)| flap_row(pv, cv, e)),
            rows_view(out@) == sort_rows(all.subrange(0, i as int)),
        decreases po@.len() - i,
    {
        let churn_i = churn_of(churn, po[i].0.as_str());
        let top_i = top_of(po, churn, po[i].1);
        let row = FlapRow { prefix: po[i].0.clone(), origin: po[i].1, churn: churn_i, top: top_i };
        proof {
            assert(pv[i as int] == (po@[i as int].0@, po@[i as int].1));
            assert(row@ == all[i as int]);
            assert(all.subrange(0, i + 1).drop_last() =~= all.subrange(0, i as int));
            assert(all.subrange(0, i + 1).last() == row@);
        }
        out = insert_row_vec(out, row);
        i = i + 1;
    }
    proof {
        assert(all.subrange(0, i as int) =~= all);
    }
    out
}


/// The runs of equal origins in `os`: each a range `[start, end)` of
/// positions, in order, covering `os`.
pub open spec fn origin_runs(os: Seq<u32>) -> Seq<(usize, usize)>
    decreases os.len(),
{
    if os.len() == 0 {
        Seq::empty()
    } else {
        let r = origin_runs(os.drop_last());
        let n = os.len() as int;
        if n >= 2 && os[n - 2] == os[n - 1] && r.len() > 0 {
            r.update(r.len() - 1, (r.last().0, n as usize))
        } else {
            r.push(((n - 1) as usize, n as usize))
        }
    }
}

/// The origin ASNs of the rows, in order.
pub open spec fn row_origins(rows: Seq<FlapRow>) -> Seq<u32> {
    rows.map_values(|r: FlapRow| r.origin)
}

/// The rows of the flaps panel grouped by origin: the ranges of
/// consecutive rows that share an origin.
pub fn origin_groups(rows: &Vec<FlapRow>) -> (r: Vec<(usize, usize)>)
    ensures
        r@ == origin_runs(row_origins(rows@)),
{
    let ghost os = row_origins(rows@);
    let mut out: Vec<(usize, usize)> = Vec::new();
    let mut i: usize = 0;
    proof {
        assert(os.subrange(0, 0) =~= Seq::<u32>::empty());
    }
    while i < rows.len()
        invariant
            i <= rows@.len(),
            os == row_origins(rows@),
            out@ == origin_runs(os.subrange(0, i as int)),
            i > 0 ==> out@.len() > 0,
        decreases rows@.len() - i,
    {
        let ghost sub = os.subrange(0, i + 1);
        proof {
            assert(sub.drop_last() =~= os.subrange(0, i as int));
            assert(sub[i as int] == rows@[i as int].origin);
            if i >= 1 {
                assert(sub[i - 1] == rows@[i - 1].origin);
            }
        }
        if i >= 1 && rows[i - 1].origin == rows[i].origin && out.len() > 0 {
            let last = out.len() - 1;
            let start = out[last].0;
            out.set(last, (start, i + 1));
        } else {
            out.push((i, i + 1));
        }
        i = i + 1;
    }
    proof {
        assert(os.subrange(0, i as int) =~= os);
    }
    out
}

} // verus!
