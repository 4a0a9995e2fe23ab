//! What holds of every command in flight.

use vstd::prelude::*;

use super::handle::{recorded, responded, DispatchTx};
use super::state::{
    accepts_needed, lemma_shares, lemma_standings_add_up, Outcome, TxModel,
};
use super::types::{
    standing_count, standing_of, DispatchPeerResult, DispatchPeerState, PeerStanding,
};
use crate::dispatch::context::{DispatchResponse, DispatchResponseKind};
use crate::dispatch::spec::{DispatchAckPolicy, DispatchFailPolicy, DispatchOptions};
use crate::error::RaftError;
use crate::types::PeerId;

verus! {

/// Whatever is recorded, a command has completed exactly when the answers so
/// far decide it, and the way they decide it.
pub proof fn law_completion_follows_the_answers<R>(
    before: TxModel<R>,
    peer: PeerId,
    next: spec_fn(DispatchPeerState<R>) -> DispatchPeerState<R>,
    r: Result<(), RaftError>,
    after: TxModel<R>,
)
    requires
        before.wf(),
        recorded(before, peer, next, r, after),
    ensures
        after.wf(),
        after.peers.len() == before.peers.len(),
        after.options == before.options,
        before.completion is Some ==> after == before,
{
}

/// Giving up on a command settles it, and does nothing to one that is settled.
pub proof fn law_giving_up_settles<R>(m: TxModel<R>, lost: bool)
    requires
        m.wf(),
    ensures
        ({
            let n = m.given_up(
                if lost {
                    Outcome::LostLeadership
                } else {
                    Outcome::TimedOut
                },
            );
            &&& n.wf()
            &&& n.completion is Some
            &&& m.completion is Some ==> n == m
        }),
{
}

/// A command completes at the latest when nobody is left to wait for.
pub proof fn law_settled_commands_complete<R>(m: TxModel<R>)
    requires
        m.wf(),
        m.count(PeerStanding::Waiting) == 0,
    ensures
        m.completion is Some,
{
}

/// What success takes is never more than the connected targets can give, and
/// where there are some, at least one accept; under the quorum policy it is a
/// strict majority of them.
pub proof fn law_success_is_within_reach<R>(m: TxModel<R>)
    ensures
        m.required() <= m.active(),
        m.active() > 0 ==> m.required() > 0,
        m.active() > 0 && m.options.ack.policy is Quorum ==> 2 * m.required() > m.active(),
        m.count(PeerStanding::Accepted) == m.active() ==> m.verdict() == Some(Outcome::Succeeded),
{
    let percent: nat = if m.options.ack.percent == 0 {
        1
    } else if m.options.ack.percent > 100 {
        100
    } else {
        m.options.ack.percent as nat
    };
    lemma_shares(m.active(), percent);
    lemma_standings_add_up(m.peers);
}

/// A command that succeeded has the accepts its policy asks for.
pub proof fn law_success_is_earned<R>(m: TxModel<R>)
    requires
        m.wf(),
        m.completion == Some(Outcome::Succeeded),
    ensures
        m.count(PeerStanding::Accepted) >= m.required(),
{
}

/// Without a failure policy that forbids them, failures alone never end a
/// command that can still get its accepts.
pub proof fn law_failures_can_be_survived<R>(m: TxModel<R>)
    requires
        m.options.fail.policy is AllowFailures,
        m.peers.len() <= usize::MAX,
        m.count(PeerStanding::Accepted) + m.count(PeerStanding::Waiting) >= m.required(),
    ensures
        m.verdict() is None || m.verdict() == Some(Outcome::Succeeded),
{
    lemma_standings_add_up(m.peers);
}

/// One target in another state moves the counts by itself alone.
proof fn lemma_one_moves<R>(
    peers: Seq<DispatchPeerResult<R>>,
    i: int,
    next: DispatchPeerResult<R>,
    standing: PeerStanding,
)
    requires
        0 <= i < peers.len(),
    ensures
        standing_count(peers.update(i, next), standing) + (if standing_of(peers[i].state)
            == standing {
            1nat
        } else {
            0nat
        }) == standing_count(peers, standing) + (if standing_of(next.state) == standing {
            1nat
        } else {
            0nat
        }),
    decreases peers.len(),
{
    let now = peers.update(i, next);
    if i < peers.len() - 1 {
        assert(now.drop_last() =~= peers.drop_last().update(i, next));
        lemma_one_moves(peers.drop_last(), i, next, standing);
    } else {
        assert(now.drop_last() =~= peers.drop_last());
    }
}

/// Where nobody has answered, everybody is waited for.
proof fn lemma_all_wait<R>(peers: Seq<DispatchPeerResult<R>>)
    requires
        forall|i: int| 0 <= i < peers.len() ==> (#[trigger] peers[i]).state is Pending,
    ensures
        standing_count(peers, PeerStanding::Waiting) == peers.len(),
        standing_count(peers, PeerStanding::Accepted) == 0,
        standing_count(peers, PeerStanding::Failed) == 0,
        standing_count(peers, PeerStanding::Disconnected) == 0,
    decreases peers.len(),
{
    if peers.len() > 0 {
        assert(peers[peers.len() - 1].state is Pending);
        assert forall|i: int| 0 <= i < peers.drop_last().len() implies (
        #[trigger] peers.drop_last()[i]).state is Pending by {
            assert(peers.drop_last()[i] == peers[i]);
        }
        lemma_all_wait(peers.drop_last());
    }
}

/// A command as it begins: every target is yet to answer.
pub open spec fn begun<R>(
    tx_id: u64,
    command: u8,
    options: DispatchOptions,
    targets: Seq<PeerId>,
) -> TxModel<R> {
    (TxModel {
        tx_id,
        command,
        options,
        peers: targets.map_values(
            |peer: PeerId| DispatchPeerResult { peer, state: DispatchPeerState::<R>::Pending },
        ),
        completion: None,
    }).evaluated()
}

/// Whether `states` is what a command over `targets` goes through as the peers in
/// `who` accept it one after the other.
pub open spec fn accepted_by_turns<R>(
    states: Seq<TxModel<R>>,
    targets: Seq<PeerId>,
    who: Seq<PeerId>,
    values: Seq<R>,
    outcomes: Seq<Result<(), RaftError>>,
) -> bool {
    &&& states.len() == who.len() + 1
    &&& values.len() == who.len()
    &&& outcomes.len() == who.len()
    &&& states[0] == begun::<R>(
        states[0].tx_id,
        states[0].command,
        states[0].options,
        targets,
    )
    &&& forall|j: int|
        0 <= j < who.len() ==> recorded(
            #[trigger] states[j],
            who[j],
            |_current: DispatchPeerState<R>| DispatchPeerState::Accepted(values[j]),
            outcomes[j],
            states[j + 1],
        )
}

/// A command over distinct targets completes at exactly the accept that makes the
/// number its policy asks for, which is at least one and at most all: after `k`
/// distinct accepts and nothing else it has completed if and only if `k` is at
/// least that number, and then with success.
pub proof fn law_accepts_complete_a_command<R>(
    states: Seq<TxModel<R>>,
    targets: Seq<PeerId>,
    who: Seq<PeerId>,
    values: Seq<R>,
    outcomes: Seq<Result<(), RaftError>>,
    k: int,
)
    requires
        targets.len() > 0,
        targets.no_duplicates(),
        who.no_duplicates(),
        forall|j: int| 0 <= j < who.len() ==> targets.contains(#[trigger] who[j]),
        accepted_by_turns(states, targets, who, values, outcomes),
        0 <= k <= who.len(),
    ensures
        1 <= accepts_needed(states[0].options, targets.len()) <= targets.len(),
        states[k].completion is Some <==> k >= accepts_needed(states[0].options, targets.len()),
        states[k].completion is Some ==> states[k].completion == Some(Outcome::Succeeded),
{
    lemma_accepts_so_far(states, targets, who, values, outcomes, k);
    law_success_is_within_reach(states[0]);
    lemma_accepts_so_far(states, targets, who, values, outcomes, 0);
    assert(states[0].count(PeerStanding::Disconnected) == 0);
}

/// The state of a command after `k` accepts.
proof fn lemma_accepts_so_far<R>(
    states: Seq<TxModel<R>>,
    targets: Seq<PeerId>,
    who: Seq<PeerId>,
    values: Seq<R>,
    outcomes: Seq<Result<(), RaftError>>,
    k: int,
)
    requires
        targets.len() > 0,
        targets.no_duplicates(),
        who.no_duplicates(),
        forall|j: int| 0 <= j < who.len() ==> targets.contains(#[trigger] who[j]),
        accepted_by_turns(states, targets, who, values, outcomes),
        0 <= k <= who.len(),
    ensures
        ({
            let m = states[k];
            let needed = accepts_needed(states[0].options, targets.len());
            &&& m.options == states[0].options
            &&& m.peers.len() == targets.len()
            &&& m.count(PeerStanding::Disconnected) == 0
            &&& k < needed ==> m.completion is None && m.count(PeerStanding::Accepted) == k
                && m.count(PeerStanding::Waiting) == targets.len() - k
            &&& k >= needed ==> m.completion == Some(Outcome::Succeeded)
            &&& forall|i: int|
                0 <= i < targets.len() ==> (#[trigger] m.peers[i]).peer == targets[i] && (
                !who.take(k).contains(targets[i]) ==> m.peers[i].state is Pending)
        }),
    decreases k,
{
    let needed = accepts_needed(states[0].options, targets.len());
    if k == 0 {
        let m = states[0];
        assert forall|i: int| 0 <= i < m.peers.len() implies (#[trigger] m.peers[i]).state
            is Pending by {}
        lemma_all_wait(m.peers);
        law_success_is_within_reach(m);
    } else {
        lemma_accepts_so_far(states, targets, who, values, outcomes, k - 1);
        let before = states[k - 1];
        let peer = who[k - 1];
        let after = states[k];
        assert(who.take(k).drop_last() =~= who.take(k - 1));
        assert(recorded(
            states[k - 1],
            who[k - 1],
            |_current: DispatchPeerState<R>| DispatchPeerState::Accepted(values[k - 1]),
            outcomes[k - 1],
            states[k - 1 + 1],
        ));
        assert forall|p: PeerId| #[trigger] who.take(k - 1).contains(p) implies who.take(
            k,
        ).contains(p) by {
            let earlier = who.take(k - 1);
            let j = choose|j: int| 0 <= j < earlier.len() && earlier[j] == p;
            assert(who.take(k)[j] == p);
        }
        if before.completion is None {
            assert(targets.contains(peer));
            let t = choose|t: int| 0 <= t < targets.len() && targets[t] == peer;
            assert(before.peers[t].peer == peer);
            assert(before.targets(peer));
            let i = choose|i: int| #[trigger]
                before.is_slot(peer, i) && after == before.with_state(
                    i,
                    DispatchPeerState::Accepted(values[k - 1]),
                );
            assert(targets[i] == peer);
            assert(!who.take(k - 1).contains(peer)) by {
                if who.take(k - 1).contains(peer) {
                    let earlier = who.take(k - 1);
                    let j = choose|j: int| 0 <= j < earlier.len() && earlier[j] == peer;
                    assert(who[j] == who[k - 1]);
                }
            }
            assert(before.peers[i].state is Pending);
            let next = DispatchPeerResult {
                peer,
                state: DispatchPeerState::Accepted(values[k - 1]),
            };
            lemma_one_moves(before.peers, i, next, PeerStanding::Accepted);
            lemma_one_moves(before.peers, i, next, PeerStanding::Waiting);
            lemma_one_moves(before.peers, i, next, PeerStanding::Disconnected);
            lemma_one_moves(before.peers, i, next, PeerStanding::Failed);
            lemma_standings_add_up(before.peers);
            lemma_standings_add_up(after.peers);
            law_success_is_within_reach(after);
            assert(who.take(k)[k - 1] == peer);
        }
    }
}

/// How many targets have a property.
pub open spec fn tally<R>(
    peers: Seq<DispatchPeerResult<R>>,
    has: spec_fn(DispatchPeerResult<R>) -> bool,
) -> nat {
    peers.filter(has).len()
}

proof fn lemma_standings_are_tallies<R>(
    peers: Seq<DispatchPeerResult<R>>,
    standing: PeerStanding,
    has: spec_fn(DispatchPeerResult<R>) -> bool,
)
    requires
        forall|p: DispatchPeerResult<R>| #[trigger] has(p) == (standing_of(p.state) == standing),
    ensures
        standing_count(peers, standing) == tally(peers, has),
    decreases peers.len(),
{
    reveal(Seq::filter);
    if peers.len() > 0 {
        lemma_standings_are_tallies(peers.drop_last(), standing, has);
    }
}

/// What decides a command: it succeeds once as many targets have accepted as its policy
/// asks of those still connected; short of that it fails once more of them have rejected
/// it or failed than its failure policy allows, and it is given up as impossible once too
/// few are left to answer. Until then it is open.
pub proof fn law_answers_decide_a_command<R>(m: TxModel<R>)
    ensures
        ({
            let accepted = tally(m.peers, |p: DispatchPeerResult<R>| p.state is Accepted);
            let failed = tally(
                m.peers,
                |p: DispatchPeerResult<R>| p.state is Rejected || p.state is Failed,
            );
            let waiting = tally(
                m.peers,
                |p: DispatchPeerResult<R>| p.state is Pending || p.state is Progress,
            );
            let gone = tally(m.peers, |p: DispatchPeerResult<R>| p.state is Disconnected);
            let connected = m.peers.len() - gone;
            let need = m.required();
            let allowed = m.allowed_failures();
            &&& m.active() == connected
            &&& m.verdict() == Some(Outcome::Succeeded) <==> accepted >= need
            &&& (m.verdict() is Some && m.verdict()->0 is Failed) <==> accepted < need && failed
                > allowed
            &&& (m.verdict() is Some && m.verdict()->0 is Impossible) <==> accepted < need
                && failed <= allowed && accepted + waiting < need
            &&& m.verdict() is None <==> accepted < need && failed <= allowed && accepted + waiting
                >= need
            &&& connected == 0 ==> need == 0
            &&& connected > 0 ==> match m.options.ack.policy {
                DispatchAckPolicy::All => need == connected,
                DispatchAckPolicy::Quorum => 2 * need > connected && 2 * (need - 1) <= connected,
                DispatchAckPolicy::AtLeast => {
                    &&& 1 <= need <= connected
                    &&& 1 <= m.options.ack.count <= connected ==> need == m.options.ack.count
                    &&& m.options.ack.count > connected ==> need == connected
                    &&& m.options.ack.count == 0 ==> need == 1
                },
                DispatchAckPolicy::Percent => {
                    let share = if m.options.ack.percent == 0 {
                        1
                    } else if m.options.ack.percent > 100 {
                        100
                    } else {
                        m.options.ack.percent as int
                    };
                    need * 100 >= connected * share && (need - 1) * 100 < connected * share
                },
                DispatchAckPolicy::BestEffort => need == 1,
            }
            &&& match m.options.fail.policy {
                DispatchFailPolicy::AllowFailures => allowed == usize::MAX,
                DispatchFailPolicy::NoFailures => allowed == 0,
                DispatchFailPolicy::FailFast => allowed == 0,
                DispatchFailPolicy::MaxFailures => allowed == m.options.fail.count,
                DispatchFailPolicy::MaxFailurePercent => {
                    let share = if m.options.fail.percent > 100 {
                        100
                    } else {
                        m.options.fail.percent as int
                    };
                    allowed * 100 <= connected * share && (allowed + 1) * 100 > connected * share
                },
            }
        }),
{
    lemma_standings_are_tallies(
        m.peers,
        PeerStanding::Accepted,
        |p: DispatchPeerResult<R>| p.state is Accepted,
    );
    lemma_standings_are_tallies(
        m.peers,
        PeerStanding::Failed,
        |p: DispatchPeerResult<R>| p.state is Rejected || p.state is Failed,
    );
    lemma_standings_are_tallies(
        m.peers,
        PeerStanding::Waiting,
        |p: DispatchPeerResult<R>| p.state is Pending || p.state is Progress,
    );
    lemma_standings_are_tallies(
        m.peers,
        PeerStanding::Disconnected,
        |p: DispatchPeerResult<R>| p.state is Disconnected,
    );
    lemma_standings_add_up(m.peers);
}

/// An answer is recorded once, for the target it comes from, and for no other; nothing is
/// recorded for a stranger or once the command has completed. A progress report does not
/// take back an answer that is in; any other answer replaces what was there.
pub proof fn law_answers_are_recorded_for_their_sender<R, F>(
    tx: DispatchTx<R, F>,
    peer: PeerId,
    response: DispatchResponse,
    r: Result<(), RaftError>,
    after: TxModel<R>,
    i: int,
) where F: Fn(&[u8]) -> Result<R, RaftError>
    requires
        responded(tx, peer, response, r, after),
        0 <= i < tx.state@.peers.len(),
        tx.state@.peers[i].peer == peer,
        forall|j: int| 0 <= j < i ==> (#[trigger] tx.state@.peers[j]).peer != peer,
    ensures
        tx.state@.completion is Some ==> after == tx.state@,
        after.peers.len() == tx.state@.peers.len(),
        forall|j: int|
            0 <= j < after.peers.len() && j != i ==> #[trigger] after.peers[j]
                == tx.state@.peers[j],
        after.peers[i].peer == peer,
        tx.state@.completion is None ==> match response.kind {
            DispatchResponseKind::Accepted => {
                &&& r is Ok ==> after.peers[i].state is Accepted
                &&& r is Err ==> after == tx.state@
            },
            DispatchResponseKind::Rejected => r is Ok && after.peers[i].state
                == DispatchPeerState::<R>::Rejected(response.payload),
            DispatchResponseKind::Failed => r is Ok && after.peers[i].state
                == DispatchPeerState::<R>::Failed(response.payload),
            DispatchResponseKind::Progress => r is Ok && after.peers[i].state == match tx.state@.peers[
                i
            ].state {
                DispatchPeerState::Pending => DispatchPeerState::<R>::Progress(response.payload),
                DispatchPeerState::Progress(_) => DispatchPeerState::<R>::Progress(
                    response.payload,
                ),
                other => other,
            },
        },
{
    let m = tx.state@;
    assert(m.targets(peer));
    assert forall|k: int| #[trigger] m.is_slot(peer, k) implies k == i by {}
}

} // verus!
