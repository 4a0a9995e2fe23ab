//! Majorities.

use vstd::prelude::*;

use crate::types::PeerId;

verus! {

/// Whether `peer` is among `peers`.
pub fn contains(peers: &Vec<PeerId>, peer: PeerId) -> (r: bool)
    ensures
        r == peers@.contains(peer),
{
    let mut i: usize = 0;
    while i < peers.len()
        invariant
            i <= peers@.len(),
            forall|j: int| 0 <= j < i ==> peers@[j] != peer,
        decreases peers@.len() - i,
    {
        if peers[i] == peer {
            return true;
        }
        i = i + 1;
    }
    false
}

/// The votes that a strict majority of `nodes` takes.
pub open spec fn quorum_spec(nodes: nat) -> nat {
    nodes / 2 + 1
}

pub fn quorum(nodes: usize) -> (r: usize)
    ensures
        r == quorum_spec(nodes as nat),
{
    nodes / 2 + 1
}

/// How many of `peers` are in `acked`.
pub open spec fn count_in(peers: Seq<PeerId>, acked: Seq<PeerId>) -> nat
    decreases peers.len(),
{
    if peers.len() == 0 {
        0
    } else {
        count_in(peers.drop_last(), acked) + if acked.contains(peers.last()) {
            1nat
        } else {
            0nat
        }
    }
}

/// Whether a strict majority of `peers` is in `acked`.
pub open spec fn majority_of(peers: Seq<PeerId>, acked: Seq<PeerId>) -> bool {
    count_in(peers, acked) >= quorum_spec(peers.len())
}

/// The majority rule of a configuration: a majority of the voters, or of both
/// voter sets independently while a transition is under way.
pub open spec fn voter_majority_spec(
    peers: Seq<PeerId>,
    joint: Option<(Seq<PeerId>, Seq<PeerId>)>,
    acked: Seq<PeerId>,
) -> bool {
    match joint {
        Some((old_peers, new_peers)) => majority_of(old_peers, acked) && majority_of(
            new_peers,
            acked,
        ),
        None => majority_of(peers, acked),
    }
}

/// Whether a strict majority of `peers` is in `acked`.
pub fn has_majority(peers: &Vec<PeerId>, acked: &Vec<PeerId>) -> (r: bool)
    ensures
        r == majority_of(peers@, acked@),
{
    let mut count: usize = 0;
    let mut i: usize = 0;
    while i < peers.len()
        invariant
            i <= peers@.len(),
            count <= i,
            count == count_in(peers@.take(i as int), acked@),
        decreases peers@.len() - i,
    {
        assert(peers@.take(i + 1).drop_last() =~= peers@.take(i as int));
        if contains(acked, peers[i]) {
            count = count + 1;
        }
        i = i + 1;
    }
    assert(peers@.take(i as int) =~= peers@);
    count >= quorum(peers.len())
}

/// How many of `acks` are at least `v`.
pub open spec fn count_ge(acks: Seq<u64>, v: int) -> nat
    decreases acks.len(),
{
    if acks.len() == 0 {
        0
    } else {
        count_ge(acks.drop_last(), v) + if acks.last() >= v {
            1nat
        } else {
            0nat
        }
    }
}

/// Whether `v` is the highest value that at least `q` of `acks` reach.
pub open spec fn is_quorum_value(acks: Seq<u64>, q: nat, v: u64) -> bool {
    &&& count_ge(acks, v as int) >= q
    &&& forall|w: int| w > v ==> #[trigger] count_ge(acks, w) < q
}

/// Fewer values reach a higher bar.
pub proof fn lemma_count_ge_monotone(acks: Seq<u64>, low: int, high: int)
    requires
        low <= high,
    ensures
        count_ge(acks, high) <= count_ge(acks, low),
        count_ge(acks, low) <= acks.len(),
    decreases acks.len(),
{
    if acks.len() > 0 {
        lemma_count_ge_monotone(acks.drop_last(), low, high);
    }
}

pub(crate) proof fn lemma_count_ge_all(acks: Seq<u64>)
    ensures
        count_ge(acks, 0) == acks.len(),
    decreases acks.len(),
{
    if acks.len() > 0 {
        lemma_count_ge_all(acks.drop_last());
    }
}

/// If no ack lies between `low` and `high`, both bars are reached by as many.
proof fn lemma_count_ge_gap(acks: Seq<u64>, low: int, high: int)
    requires
        low <= high,
        forall|i: int| 0 <= i < acks.len() ==> !(low <= #[trigger] acks[i] < high),
    ensures
        count_ge(acks, low) == count_ge(acks, high),
    decreases acks.len(),
{
    if acks.len() > 0 {
        assert(!(low <= acks[acks.len() - 1] < high));
        assert forall|i: int| 0 <= i < acks.drop_last().len() implies !(low
            <= #[trigger] acks.drop_last()[i] < high) by {
            assert(acks.drop_last()[i] == acks[i]);
        }
        lemma_count_ge_gap(acks.drop_last(), low, high);
    }
}

fn count_reaching(acks: &Vec<u64>, v: u64) -> (r: usize)
    ensures
        r == count_ge(acks@, v as int),
        r <= acks@.len(),
{
    let mut count: usize = 0;
    let mut i: usize = 0;
    while i < acks.len()
        invariant
            i <= acks@.len(),
            count <= i,
            count == count_ge(acks@.take(i as int), v as int),
        decreases acks@.len() - i,
    {
        assert(acks@.take(i + 1).drop_last() =~= acks@.take(i as int));
        if acks[i] >= v {
            count = count + 1;
        }
        i = i + 1;
    }
    assert(acks@.take(i as int) =~= acks@);
    count
}

/// The highest value that at least `q` of `acks` reach.
pub fn quorum_value(acks: &Vec<u64>, q: usize) -> (r: Option<u64>)
    ensures
        q > acks@.len() ==> r is None,
        1 <= q <= acks@.len() ==> (r matches Some(v) && is_quorum_value(acks@, q as nat, v)),
{
    if q > acks.len() {
        return None;
    }
    let mut best: u64 = 0;
    let mut i: usize = 0;
    proof {
        lemma_count_ge_all(acks@);
    }
    while i < acks.len()
        invariant
            i <= acks@.len(),
            q <= acks@.len(),
            count_ge(acks@, best as int) >= q,
            forall|j: int| 0 <= j < i ==> (#[trigger] acks@[j]) <= best || count_ge(
                acks@,
                acks@[j] as int,
            ) < q,
        decreases acks@.len() - i,
    {
        let a: u64 = acks[i];
        if a > best && count_reaching(acks, a) >= q {
            best = a;
        }
        i = i + 1;
    }
    proof {
        if q >= 1 {
            assert forall|w: int| w > best implies #[trigger] count_ge(acks@, w) < q by {
                lemma_bar_is_an_ack(acks@, w);
                if count_ge(acks@, w) >= q {
                    let a = choose|a: u64|
                        acks@.contains(a) && a >= w && #[trigger] count_ge(acks@, a as int)
                            == count_ge(acks@, w);
                    let j = choose|j: int| 0 <= j < acks@.len() && acks@[j] == a;
                    assert(acks@[j] <= best || count_ge(acks@, acks@[j] as int) < q);
                }
            }
        }
    }
    Some(best)
}

/// A bar that some ack reaches is reached by as many as some ack's own value.
pub(crate) proof fn lemma_bar_is_an_ack(acks: Seq<u64>, w: int)
    ensures
        count_ge(acks, w) > 0 ==> exists|a: u64|
            acks.contains(a) && a >= w && #[trigger] count_ge(acks, a as int) == count_ge(acks, w),
{
    if count_ge(acks, w) > 0 {
        let a = lemma_least_reaching(acks, w);
        assert forall|i: int| 0 <= i < acks.len() implies !(w <= #[trigger] acks[i] < a) by {}
        lemma_count_ge_gap(acks, w, a as int);
    }
}

proof fn lemma_least_reaching(acks: Seq<u64>, w: int) -> (a: u64)
    requires
        count_ge(acks, w) > 0,
    ensures
        acks.contains(a),
        a >= w,
        forall|i: int| 0 <= i < acks.len() && #[trigger] acks[i] >= w ==> a <= acks[i],
    decreases acks.len(),
{
    let front = acks.drop_last();
    if count_ge(front, w) > 0 {
        let a = lemma_least_reaching(front, w);
        let j = choose|j: int| 0 <= j < front.len() && front[j] == a;
        assert(acks[j] == a);
        assert forall|i: int| 0 <= i < front.len() && #[trigger] acks[i] >= w implies a <= acks[i] by {
            assert(front[i] == acks[i]);
        }
        if w <= acks.last() < a {
            assert(acks[acks.len() - 1] == acks.last());
            acks.last()
        } else {
            a
        }
    } else {
        assert(acks[acks.len() - 1] == acks.last());
        assert forall|i: int| 0 <= i < acks.len() && #[trigger] acks[i] >= w implies acks.last()
            <= acks[i] by {
            if i < front.len() {
                lemma_reaching_counts(front, w, i);
            }
        }
        acks.last()
    }
}

proof fn lemma_reaching_counts(acks: Seq<u64>, w: int, i: int)
    requires
        0 <= i < acks.len(),
        acks[i] >= w,
    ensures
        count_ge(acks, w) > 0,
    decreases acks.len(),
{
    if i < acks.len() - 1 {
        lemma_reaching_counts(acks.drop_last(), w, i);
    }
}

/// Peers in both of two sets.
pub open spec fn in_both(a: Seq<PeerId>, b: Seq<PeerId>) -> Seq<PeerId> {
    a.filter(|p: PeerId| b.contains(p))
}

proof fn lemma_in_both(a: Seq<PeerId>, b: Seq<PeerId>, p: PeerId)
    ensures
        in_both(a, b).contains(p) <==> a.contains(p) && b.contains(p),
{
    broadcast use vstd::seq_lib::group_filter_ensures;

    if a.contains(p) && b.contains(p) {
        let pred = |q: PeerId| b.contains(q);
        let i = choose|i: int| 0 <= i < a.len() && a[i] == p;
        assert(pred(a[i]));
    }
    if in_both(a, b).contains(p) {
        let pred = |q: PeerId| b.contains(q);
        let k = choose|k: int| 0 <= k < in_both(a, b).len() && in_both(a, b)[k] == p;
        assert(pred(a.filter(pred)[k]));
        a.lemma_filter_contains_rev(pred, p);
    }
}

proof fn lemma_counts_overlap(peers: Seq<PeerId>, a: Seq<PeerId>, b: Seq<PeerId>)
    ensures
        count_in(peers, a) + count_in(peers, b) <= peers.len() + count_in(peers, in_both(a, b)),
    decreases peers.len(),
{
    if peers.len() > 0 {
        lemma_counts_overlap(peers.drop_last(), a, b);
        lemma_in_both(a, b, peers.last());
    }
}

proof fn lemma_counted_member(peers: Seq<PeerId>, acked: Seq<PeerId>)
    requires
        count_in(peers, acked) > 0,
    ensures
        exists|p: PeerId| #[trigger] peers.contains(p) && acked.contains(p),
    decreases peers.len(),
{
    if acked.contains(peers.last()) {
        assert(peers[peers.len() - 1] == peers.last());
        assert(peers.contains(peers.last()));
    } else {
        lemma_counted_member(peers.drop_last(), acked);
        let p = choose|p: PeerId| #[trigger]
            peers.drop_last().contains(p) && acked.contains(p);
        let i = choose|i: int| 0 <= i < peers.drop_last().len() && peers.drop_last()[i] == p;
        assert(peers[i] == p);
        assert(peers.contains(p));
    }
}

/// Any two majorities of one voter set have a voter in common.
pub proof fn law_majorities_intersect(peers: Seq<PeerId>, a: Seq<PeerId>, b: Seq<PeerId>)
    requires
        majority_of(peers, a),
        majority_of(peers, b),
    ensures
        exists|p: PeerId| #[trigger] peers.contains(p) && a.contains(p) && b.contains(p),
{
    lemma_counts_overlap(peers, a, b);
    lemma_counted_member(peers, in_both(a, b));
    let p = choose|p: PeerId| #[trigger] peers.contains(p) && in_both(a, b).contains(p);
    lemma_in_both(a, b, p);
}

/// While a transition is under way, a majority of the transition shares a voter
/// with every majority of the old set and with every majority of the new one.
pub proof fn law_joint_majority_meets_both(
    peers: Seq<PeerId>,
    old_peers: Seq<PeerId>,
    new_peers: Seq<PeerId>,
    a: Seq<PeerId>,
    b: Seq<PeerId>,
)
    requires
        voter_majority_spec(peers, Some((old_peers, new_peers)), a),
        majority_of(old_peers, b) || majority_of(new_peers, b),
    ensures
        exists|p: PeerId| #[trigger]
            (old_peers + new_peers).contains(p) && a.contains(p) && b.contains(p),
{
    let set = if majority_of(old_peers, b) {
        old_peers
    } else {
        new_peers
    };
    law_majorities_intersect(set, a, b);
    let p = choose|p: PeerId| #[trigger] set.contains(p) && a.contains(p) && b.contains(p);
    let i = choose|i: int| 0 <= i < set.len() && set[i] == p;
    let both = old_peers + new_peers;
    if majority_of(old_peers, b) {
        assert(both[i] == p);
    } else {
        assert(both[old_peers.len() + i] == p);
    }
    assert(both.contains(p));
}

proof fn lemma_count_ignores_strangers(peers: Seq<PeerId>, acked: Seq<PeerId>, p: PeerId)
    requires
        !peers.contains(p),
    ensures
        count_in(peers, acked.push(p)) == count_in(peers, acked),
    decreases peers.len(),
{
    if peers.len() > 0 {
        let last = peers.last();
        assert(peers[peers.len() - 1] == last);
        assert(!peers.drop_last().contains(p)) by {
            if peers.drop_last().contains(p) {
                let i = choose|i: int|
                    0 <= i < peers.drop_last().len() && peers.drop_last()[i] == p;
                assert(peers[i] == p);
            }
        }
        lemma_count_ignores_strangers(peers.drop_last(), acked, p);
        assert(acked.push(p).contains(last) == acked.contains(last)) by {
            if acked.contains(last) {
                let i = choose|i: int| 0 <= i < acked.len() && acked[i] == last;
                assert(acked.push(p)[i] == last);
            }
            if acked.push(p).contains(last) {
                let i = choose|i: int|
                    0 <= i < acked.push(p).len() && acked.push(p)[i] == last;
                assert(peers.contains(last));
                assert(i < acked.len());
                assert(acked[i] == last);
            }
        }
    }
}

/// An ack from a peer outside the voter sets, such as a learner, decides
/// nothing.
pub proof fn law_strangers_do_not_count(
    peers: Seq<PeerId>,
    joint: Option<(Seq<PeerId>, Seq<PeerId>)>,
    acked: Seq<PeerId>,
    p: PeerId,
)
    requires
        joint is None ==> !peers.contains(p),
        joint matches Some((o, n)) ==> !o.contains(p) && !n.contains(p),
    ensures
        voter_majority_spec(peers, joint, acked.push(p)) == voter_majority_spec(
            peers,
            joint,
            acked,
        ),
{
    match joint {
        Some((o, n)) => {
            lemma_count_ignores_strangers(o, acked, p);
            lemma_count_ignores_strangers(n, acked, p);
        },
        None => {
            lemma_count_ignores_strangers(peers, acked, p);
        },
    }
}

/// Whether more than half of `peers` have a property.
pub open spec fn more_than_half(peers: Seq<PeerId>, has: spec_fn(PeerId) -> bool) -> bool {
    2 * peers.filter(has).len() > peers.len()
}

proof fn lemma_count_in_is_filter(
    peers: Seq<PeerId>,
    acked: Seq<PeerId>,
    has: spec_fn(PeerId) -> bool,
)
    requires
        forall|p: PeerId| #[trigger] has(p) == acked.contains(p),
    ensures
        count_in(peers, acked) == peers.filter(has).len(),
    decreases peers.len(),
{
    reveal(Seq::filter);
    if peers.len() > 0 {
        lemma_count_in_is_filter(peers.drop_last(), acked, has);
    }
}

/// A majority is more than half of the voters, no more and no less; while a
/// transition is under way it is more than half of the old voters and more than half
/// of the new ones.
pub proof fn law_majorities_are_more_than_half(
    peers: Seq<PeerId>,
    joint: Option<(Seq<PeerId>, Seq<PeerId>)>,
    acked: Seq<PeerId>,
)
    ensures
        voter_majority_spec(peers, joint, acked) <==> match joint {
            Some((old_peers, new_peers)) => {
                &&& more_than_half(old_peers, |p: PeerId| acked.contains(p))
                &&& more_than_half(new_peers, |p: PeerId| acked.contains(p))
            },
            None => more_than_half(peers, |p: PeerId| acked.contains(p)),
        },
{
    let has = |p: PeerId| acked.contains(p);
    lemma_count_in_is_filter(peers, acked, has);
    match joint {
        Some((old_peers, new_peers)) => {
            lemma_count_in_is_filter(old_peers, acked, has);
            lemma_count_in_is_filter(new_peers, acked, has);
        },
        None => {},
    }
}

} // verus!
