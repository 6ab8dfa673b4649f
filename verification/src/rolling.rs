//! A rolling window over the last N messages, with counts that always equal
//! a recount of what is in the window.

use std::collections::{BTreeMap, VecDeque};
use vstd::prelude::*;

use crate::doctor::sat_add;
use crate::obmp_reader::{OpenBmpMetadata, OpenBmpMetadataV};
use crate::report::{buckets_match, compute_buckets, FindingsBuckets};
use crate::state::{findings_view, opt_key, Finding, FindingV, PeerKey, PeerKeyV};

verus! {

/// Abstract value of one message in the window.
pub struct SlotV {
    pub msg_type: u8,
    pub findings: Seq<FindingV>,
    pub malformed: bool,
    pub peer: Option<PeerKeyV>,
}

/// What the window keeps of one message.
struct MessageSlot {
    msg_type: u8,
    findings: Vec<Finding>,
    malformed: bool,
    peer_key: Option<PeerKey>,
}

impl View for MessageSlot {
    type V = SlotV;

    closed spec fn view(&self) -> SlotV {
        SlotV {
            msg_type: self.msg_type,
            findings: findings_view(self.findings@),
            malformed: self.malformed,
            peer: opt_key(self.peer_key),
        }
    }
}

/// Number of messages of raw type `t` in a window.
pub open spec fn type_count(w: Seq<SlotV>, t: u8) -> nat
    decreases w.len(),
{
    if w.len() == 0 {
        0
    } else {
        type_count(w.drop_last(), t) + if w.last().msg_type == t {
            1nat
        } else {
            0nat
        }
    }
}

/// Number of malformed messages in a window.
pub open spec fn malformed_count(w: Seq<SlotV>) -> nat
    decreases w.len(),
{
    if w.len() == 0 {
        0
    } else {
        malformed_count(w.drop_last()) + if w.last().malformed {
            1nat
        } else {
            0nat
        }
    }
}

/// Number of messages of peer `k` in a window.
pub open spec fn peer_count(w: Seq<SlotV>, k: PeerKeyV) -> nat
    decreases w.len(),
{
    if w.len() == 0 {
        0
    } else {
        peer_count(w.drop_last(), k) + if w.last().peer == Some(k) {
            1nat
        } else {
            0nat
        }
    }
}

/// The peers with a message in a window.
pub open spec fn window_peers(w: Seq<SlotV>) -> Set<PeerKeyV> {
    Set::new(|k: PeerKeyV| peer_count(w, k) > 0)
}

/// The findings of a window's messages, oldest first.
pub open spec fn window_findings(w: Seq<SlotV>) -> Seq<FindingV>
    decreases w.len(),
{
    if w.len() == 0 {
        Seq::empty()
    } else {
        window_findings(w.drop_last()) + w.last().findings
    }
}

proof fn lemma_counts_drop_first(w: Seq<SlotV>)
    requires
        w.len() > 0,
    ensures
        forall|t: u8| #[trigger] type_count(w, t) == type_count(w.drop_first(), t) + if w[0].msg_type == t {
            1nat
        } else {
            0nat
        },
        malformed_count(w) == malformed_count(w.drop_first()) + if w[0].malformed {
            1nat
        } else {
            0nat
        },
        forall|k: PeerKeyV| #[trigger] peer_count(w, k) == peer_count(w.drop_first(), k) + if w[0].peer == Some(k) {
            1nat
        } else {
            0nat
        },
        window_findings(w) == w[0].findings + window_findings(w.drop_first()),
    decreases w.len(),
{
    if w.len() == 1 {
        assert(w.drop_first() =~= Seq::empty());
        assert(w.drop_last() =~= Seq::empty());
        assert(w[0].findings + Seq::<FindingV>::empty() =~= w[0].findings);
        assert(Seq::<FindingV>::empty() + w[0].findings =~= w[0].findings);
        assert forall|t: u8| #[trigger] type_count(w, t) == type_count(w.drop_first(), t) + if w[0].msg_type == t {
            1nat
        } else {
            0nat
        } by {
            assert(type_count(w, t) == type_count(w.drop_last(), t) + if w.last().msg_type == t {
                1nat
            } else {
                0nat
            });
        }
        assert forall|k: PeerKeyV| #[trigger] peer_count(w, k) == peer_count(w.drop_first(), k) + if w[0].peer == Some(k) {
            1nat
        } else {
            0nat
        } by {
            assert(peer_count(w, k) == peer_count(w.drop_last(), k) + if w.last().peer == Some(k) {
                1nat
            } else {
                0nat
            });
        }
    } else {
        lemma_counts_drop_first(w.drop_last());
        let a = w.drop_last().drop_first();
        assert(a =~= w.drop_first().drop_last());
        assert(w.drop_first().last() == w.last());
        assert(w.drop_last()[0] == w[0]);
        assert(w[0].findings + window_findings(w.drop_first()) =~= w[0].findings + window_findings(
            w.drop_last().drop_first(),
        ) + w.last().findings);
        assert forall|t: u8| #[trigger] type_count(w, t) == type_count(w.drop_first(), t) + if w[0].msg_type == t {
            1nat
        } else {
            0nat
        } by {
            assert(type_count(w.drop_last(), t) == type_count(a, t) + if w[0].msg_type == t {
                1nat
            } else {
                0nat
            });
            assert(type_count(w.drop_first(), t) == type_count(a, t) + if w.last().msg_type == t {
                1nat
            } else {
                0nat
            });
        }
        assert forall|k: PeerKeyV| #[trigger] peer_count(w, k) == peer_count(w.drop_first(), k) + if w[0].peer == Some(k) {
            1nat
        } else {
            0nat
        } by {
            assert(peer_count(w.drop_last(), k) == peer_count(a, k) + if w[0].peer == Some(k) {
                1nat
            } else {
                0nat
            });
            assert(peer_count(w.drop_first(), k) == peer_count(a, k) + if w.last().peer == Some(k) {
                1nat
            } else {
                0nat
            });
        }
    }
}

/// Abstract value of a [`RollingSummary`].
pub struct RollingV {
    /// Window size N; 0 keeps no window.
    pub window_messages: nat,
    /// Messages pushed so far.
    pub total_seen: u64,
    /// The last (at most N) messages, oldest first.
    pub window: Seq<SlotV>,
    /// Raw types pushed while a window was kept.
    pub seen_types: Set<u8>,
    /// The first OpenBMP metadata set.
    pub metadata: Option<OpenBmpMetadataV>,
}

/// Rolling window summary of the last N messages: totals, counts by type,
/// malformed messages, distinct peers and findings, all over the window.
pub struct RollingSummary {
    window_messages: usize,
    total_seen: u64,
    slots: VecDeque<MessageSlot>,
    by_type: BTreeMap<u8, u64>,
    malformed_messages: u64,
    peer_counts: Vec<(PeerKey, usize)>,
    metadata: Option<OpenBmpMetadata>,
    seen_types: Ghost<Set<u8>>,
}

/// The abstract values of the peer counters.
pub open spec fn counts_view(pc: Seq<(PeerKey, usize)>) -> Seq<(PeerKeyV, usize)> {
    pc.map_values(|e: (PeerKey, usize)| (e.0@, e.1))
}

/// The peer counters hold each window peer once, with its count.
pub open spec fn counts_ok(pc: Seq<(PeerKeyV, usize)>, w: Seq<SlotV>) -> bool {
    &&& forall|i: int, j: int| 0 <= i < j < pc.len() ==> pc[i].0 != pc[j].0
    &&& forall|i: int| 0 <= i < pc.len() ==> pc[i].1 == peer_count(w, #[trigger] pc[i].0) && pc[i].1 > 0
    &&& forall|k: PeerKeyV| peer_count(w, k) > 0 ==> exists|i: int| 0 <= i < pc.len() && #[trigger] pc[i].0 == k
}

impl RollingSummary {
    /// The abstract value.
    pub closed spec fn view_of(&self) -> RollingV {
        RollingV {
            window_messages: self.window_messages as nat,
            total_seen: self.total_seen,
            window: self.slots@.map_values(|s: MessageSlot| s@),
            seen_types: self.seen_types@,
            metadata: match self.metadata {
                Some(m) => Some(m@),
                None => None,
            },
        }
    }

    /// Every counter equals a recount of `w`.
    closed spec fn agg_ok(&self, w: Seq<SlotV>) -> bool {
        &&& self.by_type@.dom() == self.seen_types@
        &&& forall|t: u8| #[trigger] self.by_type@.contains_key(t) ==> self.by_type@[t] == type_count(w, t)
        &&& forall|t: u8| type_count(w, t) > 0 ==> #[trigger] self.seen_types@.contains(t)
        &&& self.malformed_messages == malformed_count(w)
        &&& counts_ok(counts_view(self.peer_counts@), w)
    }

    /// The invariant: the window holds at most N messages and every counter
    /// equals a recount of the window.
    pub closed spec fn wf(&self) -> bool {
        let w = self.view_of().window;
        &&& w.len() <= self.window_messages
        &&& self.agg_ok(w)
    }
}

impl View for RollingSummary {
    type V = RollingV;

    open spec fn view(&self) -> RollingV {
        self.view_of()
    }
}

/// The summary after one more message: counted in the total, and, with a
/// window, appended to it (the oldest leaving once N are held).
pub open spec fn pushed(r: RollingV, s: SlotV) -> RollingV {
    if r.window_messages == 0 {
        RollingV { total_seen: sat_add(r.total_seen, 1), ..r }
    } else {
        let w = r.window.push(s);
        RollingV {
            total_seen: sat_add(r.total_seen, 1),
            window: if w.len() > r.window_messages {
                w.drop_first()
            } else {
                w
            },
            seen_types: r.seen_types.insert(s.msg_type),
            ..r
        }
    }
}

/// The summary after pushing `ss` in order.
pub open spec fn pushed_all(r: RollingV, ss: Seq<SlotV>) -> RollingV
    decreases ss.len(),
{
    if ss.len() == 0 {
        r
    } else {
        pushed(pushed_all(r, ss.drop_last()), ss.last())
    }
}

/// The last `n` slots of `w` (all of them if it is shorter).
pub open spec fn newest(w: Seq<SlotV>, n: nat) -> Seq<SlotV> {
    if w.len() > n {
        w.subrange(w.len() - n, w.len() as int)
    } else {
        w
    }
}

/// Over any number of pushes the summary counts every message (held at
/// `u64::MAX`) and its window is exactly the newest N of the messages held
/// before and those pushed, oldest first (none when N is 0).
pub proof fn law_window_is_newest(r: RollingV, ss: Seq<SlotV>)
    requires
        r.window.len() <= r.window_messages,
    ensures
        pushed_all(r, ss).total_seen == sat_add(r.total_seen, ss.len() as int),
        pushed_all(r, ss).window_messages == r.window_messages,
        pushed_all(r, ss).window == if r.window_messages == 0 {
            r.window
        } else {
            newest(r.window + ss, r.window_messages)
        },
    decreases ss.len(),
{
    if ss.len() == 0 {
        assert(r.window + ss =~= r.window);
    } else {
        law_window_is_newest(r, ss.drop_last());
        let all0 = r.window + ss.drop_last();
        let all = r.window + ss;
        assert(all.drop_last() =~= all0);
        assert(all0.push(ss.last()) =~= all);
        if r.window_messages > 0 {
            let n = r.window_messages;
            let w0 = newest(all0, n);
            if all0.len() >= n {
                assert(w0.push(ss.last()).drop_first() =~= all.subrange(all.len() - n, all.len() as int));
            }
        }
    }
}

fn find_count(pc: &Vec<(PeerKey, usize)>, k: &PeerKey) -> (r: Option<usize>)
    ensures
        match r {
            Some(i) => i < pc@.len() && counts_view(pc@)[i as int].0 == k@,
            None => forall|i: int| 0 <= i < pc@.len() ==> counts_view(pc@)[i].0 != k@,
        },
{
    let mut i: usize = 0;
    while i < pc.len()
        invariant
            i <= pc@.len(),
            forall|j: int| 0 <= j < i ==> counts_view(pc@)[j].0 != k@,
        decreases pc@.len() - i,
    {
        if pc[i].0.same_peer(k) {
            return Some(i);
        }
        i = i + 1;
    }
    None
}

impl RollingSummary {
    /// An empty summary over windows of `window_messages` messages.
    pub fn new(window_messages: usize) -> (r: Self)
        ensures
            r.wf(),
            r@ == (RollingV {
                window_messages: window_messages as nat,
                total_seen: 0,
                window: Seq::empty(),
                seen_types: Set::empty(),
                metadata: None,
            }),
    {
        let r = RollingSummary {
            window_messages,
            total_seen: 0,
            slots: VecDeque::new(),
            by_type: BTreeMap::new(),
            malformed_messages: 0,
            peer_counts: Vec::new(),
            metadata: None,
            seen_types: Ghost(Set::empty()),
        };
        proof {
            assert(r.view_of().window =~= Seq::empty());
            assert(r.by_type@.dom() =~= Set::empty());
        }
        r
    }

    /// Messages pushed so far.
    pub fn total_seen(&self) -> (r: u64)
        ensures
            r == self@.total_seen,
    {
        self.total_seen
    }

    /// The window never holds more than N messages (the summary keeps the
    /// last N).
    pub proof fn law_window_bounded(&self)
        requires
            self.wf(),
        ensures
            self@.window.len() <= self@.window_messages,
    {
    }

    /// The window size N.
    pub fn window_messages(&self) -> (r: usize)
        ensures
            r == self@.window_messages,
    {
        self.window_messages
    }

    /// The OpenBMP metadata last set.
    pub fn metadata(&self) -> (r: &Option<OpenBmpMetadata>)
        ensures
            self@.metadata == match *r {
                Some(m) => Some(m@),
                None => None::<OpenBmpMetadataV>,
            },
    {
        &self.metadata
    }

    /// Messages in the window.
    pub fn window_seen(&self) -> (r: u64)
        requires
            self.wf(),
        ensures
            r == self@.window.len(),
    {
        self.slots.len() as u64
    }

    /// Messages in the window by raw type: every type pushed while a window
    /// was kept, with its count in the window.
    pub fn by_type(&self) -> (r: &BTreeMap<u8, u64>)
        requires
            self.wf(),
        ensures
            r@.dom() == self@.seen_types,
            forall|t: u8| #[trigger] r@.contains_key(t) ==> r@[t] == type_count(self@.window, t),
            forall|t: u8| type_count(self@.window, t) > 0 ==> #[trigger] r@.contains_key(t),
    {
        &self.by_type
    }

    /// Malformed messages in the window.
    pub fn malformed_messages(&self) -> (r: u64)
        requires
            self.wf(),
        ensures
            r == malformed_count(self@.window),
    {
        self.malformed_messages
    }

    /// Distinct peers with a message in the window.
    pub fn peers_observed(&self) -> (r: usize)
        requires
            self.wf(),
        ensures
            r == window_peers(self@.window).len(),
    {
        proof {
            let pc = counts_view(self.peer_counts@);
            let keys = pc.map_values(|e: (PeerKeyV, usize)| e.0);
            assert(keys.no_duplicates()) by {
                assert forall|i: int, j: int| 0 <= i < keys.len() && 0 <= j < keys.len() && i != j implies keys[i]
                    != keys[j] by {
                    if i < j {
                        assert(pc[i].0 != pc[j].0);
                    } else {
                        assert(pc[j].0 != pc[i].0);
                    }
                }
            }
            assert(keys.to_set() =~= window_peers(self@.window)) by {
                assert forall|k: PeerKeyV| keys.to_set().contains(k) <==> window_peers(self@.window).contains(k) by {
                    if keys.to_set().contains(k) {
                        let i = choose|i: int| 0 <= i < keys.len() && keys[i] == k;
                        assert(pc[i].0 == k);
                    }
                    if window_peers(self@.window).contains(k) {
                        let i = choose|i: int| 0 <= i < pc.len() && #[trigger] pc[i].0 == k;
                        assert(keys[i] == k);
                    }
                }
            }
            keys.unique_seq_to_set();
        }
        self.peer_counts.len()
    }

    /// Records OpenBMP metadata unless some was recorded before.
    pub fn set_metadata(&mut self, meta: OpenBmpMetadata)
        requires
            old(self).wf(),
        ensures
            final(self).wf(),
            final(self)@ == (RollingV {
                metadata: if old(self)@.metadata is None {
                    Some(meta@)
                } else {
                    old(self)@.metadata
                },
                ..old(self)@
            }),
    {
        if self.metadata.is_none() {
            self.metadata = Some(meta);
        }
    }

    /// Findings of the messages in the window, by bucket.
    pub fn findings_buckets(&self) -> (r: FindingsBuckets)
        requires
            self.wf(),
        ensures
            buckets_match(r, window_findings(self@.window)),
    {
        let ghost w = self@.window;
        let mut all: Vec<Finding> = Vec::new();
        let mut i: usize = 0;
        while i < self.slots.len()
            invariant
                i <= self.slots@.len(),
                w == self.slots@.map_values(|s: MessageSlot| s@),
                findings_view(all@) == window_findings(w.subrange(0, i as int)),
            decreases self.slots@.len() - i,
        {
            let slot = &self.slots[i];
            let mut j: usize = 0;
            let ghost base = all@;
            while j < slot.findings.len()
                invariant
                    j <= slot.findings@.len(),
                    findings_view(all@) == findings_view(base) + findings_view(slot.findings@.subrange(0, j as int)),
                decreases slot.findings@.len() - j,
            {
                let ghost before = all@;
                all.push(slot.findings[j].duplicate());
                proof {
                    assert(findings_view(all@) =~= findings_view(before).push(slot.findings@[j as int]@));
                    assert(findings_view(slot.findings@.subrange(0, j + 1)) =~= findings_view(
                        slot.findings@.subrange(0, j as int),
                    ).push(slot.findings@[j as int]@));
                }
                j = j + 1;
            }
            proof {
                assert(slot.findings@.subrange(0, slot.findings@.len() as int) =~= slot.findings@);
                assert(w.subrange(0, i + 1).drop_last() =~= w.subrange(0, i as int));
                assert(w.subrange(0, i + 1).last() == slot@);
            }
            i = i + 1;
        }
        proof {
            assert(w.subrange(0, w.len() as int) =~= w);
        }
        compute_buckets(all.as_slice())
    }

    /// Counts one more message of peer `k` in the peer counters.
    fn count_peer(&mut self, k: PeerKey, ghost_w: Ghost<Seq<SlotV>>)
        requires
            counts_ok(counts_view(old(self).peer_counts@), ghost_w@.drop_last()),
            ghost_w@.len() > 0,
            ghost_w@.last().peer == Some(k@),
            ghost_w@.len() <= usize::MAX,
        ensures
            counts_ok(counts_view(final(self).peer_counts@), ghost_w@),
            final(self).window_messages == old(self).window_messages,
            final(self).total_seen == old(self).total_seen,
            final(self).slots == old(self).slots,
            final(self).by_type == old(self).by_type,
            final(self).malformed_messages == old(self).malformed_messages,
            final(self).metadata == old(self).metadata,
            final(self).seen_types == old(self).seen_types,
    {
        let ghost w = ghost_w@;
        let ghost w0 = w.drop_last();
        let ghost pc0 = counts_view(self.peer_counts@);
        proof {
            lemma_peer_count_bound(w, k@);
        }
        match find_count(&self.peer_counts, &k) {
            Some(i) => {
                let c = self.peer_counts[i].1;
                let key = self.peer_counts[i].0.duplicate();
                self.peer_counts.set(i, (key, c + 1));
                proof {
                    let pc = counts_view(self.peer_counts@);
                    assert(pc =~= pc0.update(i as int, (k@, (c + 1) as usize)));
                    assert forall|q: PeerKeyV| peer_count(w, q) > 0 implies exists|j: int|
                        0 <= j < pc.len() && #[trigger] pc[j].0 == q by {
                        if q == k@ {
                            assert(pc[i as int].0 == q);
                        } else {
                            assert(peer_count(w0, q) > 0);
                            let j = choose|j: int| 0 <= j < pc0.len() && #[trigger] pc0[j].0 == q;
                            assert(pc[j].0 == q);
                        }
                    }
                }
            },
            None => {
                self.peer_counts.push((k, 1));
                proof {
                    let pc = counts_view(self.peer_counts@);
                    assert(pc =~= pc0.push((k@, 1usize)));
                    assert(peer_count(w0, k@) == 0) by {
                        if peer_count(w0, k@) > 0 {
                            let j = choose|j: int| 0 <= j < pc0.len() && #[trigger] pc0[j].0 == k@;
                        }
                    }
                    assert forall|q: PeerKeyV| peer_count(w, q) > 0 implies exists|j: int|
                        0 <= j < pc.len() && #[trigger] pc[j].0 == q by {
                        if q == k@ {
                            assert(pc[pc0.len() as int].0 == q);
                        } else {
                            assert(peer_count(w0, q) > 0);
                            let j = choose|j: int| 0 <= j < pc0.len() && #[trigger] pc0[j].0 == q;
                            assert(pc[j].0 == q);
                        }
                    }
                }
            },
        }
    }

    /// Removes one message of peer `k` from the peer counters.
    fn uncount_peer(&mut self, k: &PeerKey, ghost_w: Ghost<Seq<SlotV>>)
        requires
            counts_ok(counts_view(old(self).peer_counts@), ghost_w@),
            ghost_w@.len() > 0,
            ghost_w@[0].peer == Some(k@),
        ensures
            counts_ok(counts_view(final(self).peer_counts@), ghost_w@.drop_first()),
            final(self).window_messages == old(self).window_messages,
            final(self).total_seen == old(self).total_seen,
            final(self).slots == old(self).slots,
            final(self).by_type == old(self).by_type,
            final(self).malformed_messages == old(self).malformed_messages,
            final(self).metadata == old(self).metadata,
            final(self).seen_types == old(self).seen_types,
    {
        let ghost w = ghost_w@;
        let ghost w1 = w.drop_first();
        let ghost pc0 = counts_view(self.peer_counts@);
        proof {
            lemma_counts_drop_first(w);
            assert(peer_count(w, k@) > 0);
        }
        match find_count(&self.peer_counts, k) {
            Some(i) => {
                let c = self.peer_counts[i].1;
                if c <= 1 {
                    self.peer_counts.remove(i);
                    proof {
                        let pc = counts_view(self.peer_counts@);
                        assert(pc =~= pc0.remove(i as int));
                        assert forall|a: int, b: int| 0 <= a < b < pc.len() implies pc[a].0 != pc[b].0 by {
                            let a0 = if a < i { a } else { a + 1 };
                            let b0 = if b < i { b } else { b + 1 };
                            assert(pc[a] == pc0[a0]);
                            assert(pc[b] == pc0[b0]);
                        }
                        assert forall|a: int| 0 <= a < pc.len() implies pc[a].1 == peer_count(w1, #[trigger] pc[a].0)
                            && pc[a].1 > 0 by {
                            let a0 = if a < i { a } else { a + 1 };
                            assert(pc[a] == pc0[a0]);
                            assert(pc0[a0].0 != pc0[i as int].0);
                        }
                        assert forall|q: PeerKeyV| peer_count(w1, q) > 0 implies exists|j: int|
                            0 <= j < pc.len() && #[trigger] pc[j].0 == q by {
                            assert(peer_count(w, q) > 0);
                            let j = choose|j: int| 0 <= j < pc0.len() && #[trigger] pc0[j].0 == q;
                            if j == i {
                                assert(q == k@);
                            } else if j < i {
                                assert(pc[j].0 == q);
                            } else {
                                assert(pc[j - 1].0 == q);
                            }
                        }
                    }
                } else {
                    let key = self.peer_counts[i].0.duplicate();
                    self.peer_counts.set(i, (key, c - 1));
                    proof {
                        let pc = counts_view(self.peer_counts@);
                        assert(pc =~= pc0.update(i as int, (k@, (c - 1) as usize)));
                        assert forall|q: PeerKeyV| peer_count(w1, q) > 0 implies exists|j: int|
                            0 <= j < pc.len() && #[trigger] pc[j].0 == q by {
                            assert(peer_count(w, q) > 0);
                            let j = choose|j: int| 0 <= j < pc0.len() && #[trigger] pc0[j].0 == q;
                            assert(pc[j].0 == q);
                        }
                    }
                }
            },
            None => {
                proof {
                    let j = choose|j: int| 0 <= j < pc0.len() && #[trigger] pc0[j].0 == k@;
                    assert(false);
                }
            },
        }
    }
}

proof fn lemma_peer_count_bound(w: Seq<SlotV>, k: PeerKeyV)
    ensures
        peer_count(w, k) <= w.len(),
    decreases w.len(),
{
    if w.len() > 0 {
        lemma_peer_count_bound(w.drop_last(), k);
    }
}

proof fn lemma_counts_le(w: Seq<SlotV>)
    ensures
        forall|t: u8| #[trigger] type_count(w, t) <= w.len(),
        malformed_count(w) <= w.len(),
    decreases w.len(),
{
    if w.len() > 0 {
        lemma_counts_le(w.drop_last());
        assert forall|t: u8| #[trigger] type_count(w, t) <= w.len() by {
            assert(type_count(w.drop_last(), t) <= w.drop_last().len());
        }
    }
}

impl RollingSummary {
    /// Drops the oldest message of a non-empty window.
    fn evict_oldest(&mut self)
        requires
            old(self).agg_ok(old(self).view_of().window),
            old(self).slots@.len() > 0,
        ensures
            final(self).agg_ok(old(self).view_of().window.drop_first()),
            final(self).view_of() == (RollingV { window: old(self).view_of().window.drop_first(), ..old(self).view_of() }),
    {
        let ghost w = self.view_of().window;
        let ghost seen = self.seen_types@;
        proof {
            lemma_counts_drop_first(w);
        }
        let old_slot = match self.slots.pop_front() {
            Some(x) => x,
            None => {
                proof {
                    assert(false);
                }
                return;
            },
        };
        proof {
            assert(self.slots@.map_values(|s: MessageSlot| s@) =~= w.drop_first());
            assert(type_count(w, old_slot.msg_type) > 0);
        }
        let t = old_slot.msg_type;
        let c: u64 = match self.by_type.get(&t) {
            Some(v) => *v,
            None => 0,
        };
        self.by_type.insert(t, c - 1);
        proof {
            assert(self.by_type@.dom() =~= seen);
            assert forall|q: u8| #[trigger] self.by_type@.contains_key(q) implies self.by_type@[q] == type_count(
                w.drop_first(),
                q,
            ) by {
                assert(type_count(w, q) == type_count(w.drop_first(), q) + if w[0].msg_type == q {
                    1nat
                } else {
                    0nat
                });
            }
            assert forall|q: u8| type_count(w.drop_first(), q) > 0 implies #[trigger] seen.contains(q) by {
                assert(type_count(w, q) == type_count(w.drop_first(), q) + if w[0].msg_type == q {
                    1nat
                } else {
                    0nat
                });
            }
        }
        if old_slot.malformed {
            self.malformed_messages = self.malformed_messages - 1;
        }
        match &old_slot.peer_key {
            Some(pk) => {
                self.uncount_peer(pk, Ghost(w));
            },
            None => {
                proof {
                    let pc = counts_view(self.peer_counts@);
                    assert forall|i: int| 0 <= i < pc.len() implies pc[i].1 == peer_count(w.drop_first(), #[trigger] pc[i].0)
                        && pc[i].1 > 0 by {
                        assert(peer_count(w, pc[i].0) == peer_count(w.drop_first(), pc[i].0) + 0);
                    }
                    assert forall|q: PeerKeyV| peer_count(w.drop_first(), q) > 0 implies exists|j: int|
                        0 <= j < pc.len() && #[trigger] pc[j].0 == q by {
                        assert(peer_count(w, q) == peer_count(w.drop_first(), q) + 0);
                    }
                }
            },
        }
    }

    /// Appends a message to the window.
    fn append_newest(&mut self, slot: MessageSlot)
        requires
            old(self).agg_ok(old(self).view_of().window),
            old(self).view_of().window.len() < old(self).window_messages,
        ensures
            final(self).agg_ok(old(self).view_of().window.push(slot@)),
            final(self).view_of() == (RollingV {
                window: old(self).view_of().window.push(slot@),
                seen_types: old(self).view_of().seen_types.insert(slot@.msg_type),
                ..old(self).view_of()
            }),
    {
        let ghost w = self.view_of().window;
        let ghost w2 = w.push(slot@);
        let ghost seen = self.seen_types@;
        proof {
            lemma_counts_le(w);
            assert(w2.drop_last() =~= w);
        }
        let t = slot.msg_type;
        let c: u64 = match self.by_type.get(&t) {
            Some(v) => *v,
            None => 0,
        };
        proof {
            if !self.by_type@.contains_key(t) {
                assert(type_count(w, t) == 0);
            }
        }
        self.by_type.insert(t, c + 1);
        self.seen_types = Ghost(seen.insert(t));
        proof {
            assert(self.by_type@.dom() =~= self.seen_types@);
            assert forall|q: u8| #[trigger] self.by_type@.contains_key(q) implies self.by_type@[q] == type_count(w2, q) by {
                assert(type_count(w2, q) == type_count(w, q) + if slot@.msg_type == q {
                    1nat
                } else {
                    0nat
                });
                if q != t && !seen.contains(q) {
                    assert(type_count(w, q) == 0);
                }
            }
            assert forall|q: u8| type_count(w2, q) > 0 implies #[trigger] self.seen_types@.contains(q) by {
                assert(type_count(w2, q) == type_count(w, q) + if slot@.msg_type == q {
                    1nat
                } else {
                    0nat
                });
            }
        }
        if slot.malformed {
            self.malformed_messages = self.malformed_messages + 1;
        }
        let pk = match &slot.peer_key {
            Some(k) => Some(k.duplicate()),
            None => None,
        };
        self.slots.push_back(slot);
        proof {
            assert(self.slots@.map_values(|s: MessageSlot| s@) =~= w2);
        }
        match pk {
            Some(k) => {
                self.count_peer(k, Ghost(w2));
            },
            None => {
                proof {
                    let pc = counts_view(self.peer_counts@);
                    assert forall|i: int| 0 <= i < pc.len() implies pc[i].1 == peer_count(w2, #[trigger] pc[i].0)
                        && pc[i].1 > 0 by {
                        assert(peer_count(w2, pc[i].0) == peer_count(w, pc[i].0) + 0);
                    }
                    assert forall|q: PeerKeyV| peer_count(w2, q) > 0 implies exists|j: int|
                        0 <= j < pc.len() && #[trigger] pc[j].0 == q by {
                        assert(peer_count(w2, q) == peer_count(w, q) + 0);
                    }
                }
            },
        }
    }

    /// Adds a message: `msg_type` is its raw type byte, `malformed` marks a
    /// frame-level error, `findings` are its findings and `peer_key` its
    /// peer. With a window, the oldest message leaves once N are held and
    /// its contributions leave every counter.
    pub fn push(&mut self, msg_type: u8, malformed: bool, findings: Vec<Finding>, peer_key: Option<PeerKey>)
        requires
            old(self).wf(),
        ensures
            final(self).wf(),
            final(self)@ == pushed(
                old(self)@,
                SlotV { msg_type, findings: findings_view(findings@), malformed, peer: opt_key(peer_key) },
            ),
    {
        let ghost r0 = self@;
        self.total_seen = if self.total_seen == u64::MAX {
            u64::MAX
        } else {
            self.total_seen + 1
        };
        if self.window_messages == 0 {
            return;
        }
        let slot = MessageSlot { msg_type, findings, malformed, peer_key };
        let ghost s = slot@;
        if self.slots.len() >= self.window_messages {
            self.evict_oldest();
        }
        self.append_newest(slot);
        proof {
            let w = r0.window.push(s);
            if r0.window.len() >= r0.window_messages {
                assert(r0.window.drop_first().push(s) =~= w.drop_first());
            }
        }
    }
}

} // verus!