//! The policies that decide how a command comes out.

use vstd::prelude::*;

use super::types::{
    failure_text, standing_count, DispatchFailure, DispatchPeerResult, DispatchPeerState,
    DispatchResult, PeerStanding,
};
use crate::dispatch::spec::{DispatchAckPolicy, DispatchFailPolicy, DispatchOptions};
use crate::text::{decimal, text_number, text_two_numbers};
use crate::types::PeerId;

verus! {

/// How a command came out.
#[derive(Clone, Debug, PartialEq, Eq)]
pub enum DispatchCompletion {
    Succeeded,
    Failed(DispatchFailure),
}

/// A command in flight. Its peers are frozen once it has completed.
#[derive(Debug)]
pub struct DispatchState<R> {
    pub result: DispatchResult<R>,
    pub completion: Option<DispatchCompletion>,
}

/// An outcome, with what a failure says.
#[verifier::ext_equal]
pub enum Outcome {
    Succeeded,
    Impossible(Seq<char>),
    Failed(Seq<char>),
    TimedOut,
    LostLeadership,
}

/// What a completion stands for.
pub open spec fn outcome_of(c: DispatchCompletion) -> Outcome {
    match c {
        DispatchCompletion::Succeeded => Outcome::Succeeded,
        DispatchCompletion::Failed(f) => match f {
            DispatchFailure::Timeout => Outcome::TimedOut,
            DispatchFailure::LostLeadership => Outcome::LostLeadership,
            DispatchFailure::Impossible(_) => Outcome::Impossible(failure_text(f)),
            DispatchFailure::Failed(_) => Outcome::Failed(failure_text(f)),
        },
    }
}

/// What a [`DispatchState`] stands for.
#[verifier::ext_equal]
pub struct TxModel<R> {
    pub tx_id: u64,
    pub command: u8,
    pub options: DispatchOptions,
    pub peers: Seq<DispatchPeerResult<R>>,
    pub completion: Option<Outcome>,
}

impl<R> View for DispatchState<R> {
    type V = TxModel<R>;

    open spec fn view(&self) -> TxModel<R> {
        TxModel {
            tx_id: self.result.tx_id,
            command: self.result.command,
            options: self.result.options,
            peers: self.result.peers@,
            completion: match self.completion {
                Some(c) => Some(outcome_of(c)),
                None => None,
            },
        }
    }
}

/// `n` percent of `total`, rounded up.
pub open spec fn percent_up(total: nat, n: nat) -> nat {
    (total * n + 99) / 100
}

/// `n` percent of `total`, rounded down.
pub open spec fn percent_down(total: nat, n: nat) -> nat {
    (total * n) / 100
}

/// How many accepts success takes of `n` connected targets: none of none, and
/// otherwise what the policy says.
pub open spec fn accepts_needed(options: DispatchOptions, n: nat) -> nat {
    let count = if options.ack.count == 0 {
        1
    } else {
        options.ack.count as nat
    };
    let percent = if options.ack.percent == 0 {
        1
    } else if options.ack.percent > 100 {
        100
    } else {
        options.ack.percent as nat
    };
    if n == 0 {
        0
    } else {
        match options.ack.policy {
            DispatchAckPolicy::All => n,
            DispatchAckPolicy::Quorum => n / 2 + 1,
            DispatchAckPolicy::AtLeast => if count < n {
                count
            } else {
                n
            },
            DispatchAckPolicy::Percent => percent_up(n, percent),
            DispatchAckPolicy::BestEffort => 1,
        }
    }
}

impl<R> TxModel<R> {
    /// How many targets stand so.
    pub open spec fn count(self, standing: PeerStanding) -> nat {
        standing_count(self.peers, standing)
    }

    /// How many targets are still connected.
    pub open spec fn active(self) -> nat {
        (self.peers.len() - self.count(PeerStanding::Disconnected)) as nat
    }

    /// How many accepts success takes. Without a connected target none are
    /// needed.
    pub open spec fn required(self) -> nat {
        accepts_needed(self.options, self.active())
    }

    /// How many failures are tolerated.
    pub open spec fn allowed_failures(self) -> nat {
        let percent = if self.options.fail.percent > 100 {
            100
        } else {
            self.options.fail.percent as nat
        };
        match self.options.fail.policy {
            DispatchFailPolicy::AllowFailures => usize::MAX as nat,
            DispatchFailPolicy::NoFailures => 0,
            DispatchFailPolicy::FailFast => 0,
            DispatchFailPolicy::MaxFailures => self.options.fail.count as nat,
            DispatchFailPolicy::MaxFailurePercent => percent_down(self.active(), percent),
        }
    }

    /// How the command stands: enough accepts, too many failures, or too few
    /// targets left for enough accepts.
    pub open spec fn verdict(self) -> Option<Outcome> {
        let accepted = self.count(PeerStanding::Accepted);
        let failed = self.count(PeerStanding::Failed);
        let waiting = self.count(PeerStanding::Waiting);
        if accepted >= self.required() {
            Some(Outcome::Succeeded)
        } else if failed > self.allowed_failures() {
            Some(
                Outcome::Failed(
                    "dispatch failure policy exceeded: failed="@ + decimal(failed) + ", allowed="@
                        + decimal(self.allowed_failures()),
                ),
            )
        } else if accepted + waiting < self.required() {
            Some(
                Outcome::Impossible(
                    "dispatch can no longer reach required accepts: accepted="@ + decimal(accepted)
                        + ", pending="@ + decimal(waiting) + (", required="@ + decimal(
                        self.required(),
                    )),
                ),
            )
        } else {
            None
        }
    }

    /// The command with its completion decided, unless it was before.
    pub open spec fn evaluated(self) -> TxModel<R> {
        if self.completion is Some {
            self
        } else {
            TxModel { completion: self.verdict(), ..self }
        }
    }

    /// Whether some target is `peer`.
    pub open spec fn targets(self, peer: PeerId) -> bool {
        exists|i: int| 0 <= i < self.peers.len() && (#[trigger] self.peers[i]).peer == peer
    }

    /// Whether target number `i` is the first that is `peer`.
    pub open spec fn is_slot(self, peer: PeerId, i: int) -> bool {
        &&& 0 <= i < self.peers.len()
        &&& self.peers[i].peer == peer
        &&& forall|j: int| 0 <= j < i ==> (#[trigger] self.peers[j]).peer != peer
    }

    /// The command with target number `i` in another state, and its completion
    /// decided.
    pub open spec fn with_state(self, i: int, state: DispatchPeerState<R>) -> TxModel<R> {
        TxModel {
            peers: self.peers.update(i, DispatchPeerResult { peer: self.peers[i].peer, state }),
            ..self
        }.evaluated()
    }

    /// The command given up on with `outcome`, unless it has completed.
    pub open spec fn given_up(self, outcome: Outcome) -> TxModel<R> {
        if self.completion is Some {
            self
        } else {
            TxModel { completion: Some(outcome), ..self }
        }
    }

    /// Whether the completion is what the targets' states call for. A command
    /// is given up on only while they call for nothing.
    pub open spec fn wf(self) -> bool {
        match self.completion {
            Some(Outcome::TimedOut) | Some(Outcome::LostLeadership) => self.verdict() is None,
            _ => self.completion == self.verdict(),
        }
    }
}

/// No more targets stand one way than there are, and the four standings
/// account for all of them.
pub proof fn lemma_standings_add_up<R>(peers: Seq<DispatchPeerResult<R>>)
    ensures
        standing_count(peers, PeerStanding::Accepted) + standing_count(
            peers,
            PeerStanding::Failed,
        ) + standing_count(peers, PeerStanding::Waiting) + standing_count(
            peers,
            PeerStanding::Disconnected,
        ) == peers.len(),
    decreases peers.len(),
{
    if peers.len() > 0 {
        lemma_standings_add_up(peers.drop_last());
    }
}

/// A share of at most all of them fits.
pub proof fn lemma_shares(total: nat, n: nat)
    requires
        n <= 100,
    ensures
        percent_up(total, n) <= total,
        percent_down(total, n) <= total,
        total > 0 && n > 0 ==> percent_up(total, n) > 0,
        total * n <= total * 100,
{
    assert(total * n <= total * 100) by (nonlinear_arith)
        requires
            n <= 100,
    ;
    if total > 0 && n > 0 {
        assert(total * n >= 1) by (nonlinear_arith)
            requires
                total > 0,
                n > 0,
        ;
    }
}

impl<R> DispatchState<R> {
    /// A command whose targets have not answered yet.
    pub fn begin(
        tx_id: u64,
        command: u8,
        options: DispatchOptions,
        targets: &Vec<PeerId>,
    ) -> (r: Self)
        ensures
            r@ == (TxModel {
                tx_id,
                command,
                options,
                peers: targets@.map_values(
                    |peer: PeerId|
                        DispatchPeerResult { peer, state: DispatchPeerState::<R>::Pending },
                ),
                completion: None,
            }).evaluated(),
            r@.wf(),
    {
        let size: usize = targets.len();
        let mut peers: Vec<DispatchPeerResult<R>> = Vec::new();
        let mut i: usize = 0;
        while i < size
            invariant
                i <= size,
                size == targets@.len(),
                peers@.len() == i,
                forall|j: int| 0 <= j < i ==> #[trigger] peers@[j] == (DispatchPeerResult {
                    peer: targets@[j],
                    state: DispatchPeerState::<R>::Pending,
                }),
            decreases size - i,
        {
            peers.push(DispatchPeerResult { peer: targets[i], state: DispatchPeerState::Pending });
            i = i + 1;
        }
        assert(peers@ =~= targets@.map_values(
            |peer: PeerId| DispatchPeerResult { peer, state: DispatchPeerState::<R>::Pending },
        ));
        let mut state = DispatchState {
            result: DispatchResult { tx_id, command, options, peers },
            completion: None,
        };
        state.evaluate();
        state
    }

    fn active_count(&self) -> (r: usize)
        ensures
            r == self@.active(),
            r <= self@.peers.len(),
    {
        proof {
            lemma_standings_add_up(self.result.peers@);
        }
        self.result.peers.len() - self.result.count(PeerStanding::Disconnected)
    }

    fn required_accepts(&self) -> (r: usize)
        ensures
            r == self@.required(),
    {
        let active: usize = self.active_count();
        if active == 0 {
            return 0;
        }
        match self.result.options.ack.policy {
            DispatchAckPolicy::All => active,
            DispatchAckPolicy::Quorum => active / 2 + 1,
            DispatchAckPolicy::AtLeast => {
                let count: usize = if self.result.options.ack.count == 0 {
                    1
                } else {
                    self.result.options.ack.count as usize
                };
                if count < active {
                    count
                } else {
                    active
                }
            },
            DispatchAckPolicy::Percent => {
                let set: u8 = self.result.options.ack.percent;
                let percent: u128 = if set == 0 {
                    1
                } else if set > 100 {
                    100
                } else {
                    set as u128
                };
                proof {
                    lemma_shares(active as nat, percent as nat);
                }
                ((active as u128 * percent + 99) / 100) as usize
            },
            DispatchAckPolicy::BestEffort => 1,
        }
    }

    fn allowed_failures(&self) -> (r: usize)
        ensures
            r == self@.allowed_failures(),
    {
        match self.result.options.fail.policy {
            DispatchFailPolicy::AllowFailures => usize::MAX,
            DispatchFailPolicy::NoFailures => 0,
            DispatchFailPolicy::FailFast => 0,
            DispatchFailPolicy::MaxFailures => self.result.options.fail.count as usize,
            DispatchFailPolicy::MaxFailurePercent => {
                let active: usize = self.active_count();
                let set: u8 = self.result.options.fail.percent;
                let percent: u128 = if set > 100 {
                    100
                } else {
                    set as u128
                };
                proof {
                    lemma_shares(active as nat, percent as nat);
                }
                ((active as u128 * percent) / 100) as usize
            },
        }
    }

    /// Gives up on the command because its time is up.
    pub fn time_out(&mut self)
        ensures
            final(self)@ == old(self)@.given_up(Outcome::TimedOut),
    {
        if self.completion.is_none() {
            self.completion = Some(DispatchCompletion::Failed(DispatchFailure::Timeout));
        }
    }

    /// Gives up on the command because its sender no longer leads, so that
    /// whoever awaits it is not left waiting.
    pub fn abort_lost_leadership(&mut self)
        ensures
            final(self)@ == old(self)@.given_up(Outcome::LostLeadership),
    {
        if self.completion.is_none() {
            self.completion = Some(DispatchCompletion::Failed(DispatchFailure::LostLeadership));
        }
    }

    /// Decides whether the command has completed.
    pub fn evaluate(&mut self)
        ensures
            final(self)@ == old(self)@.evaluated(),
    {
        if self.completion.is_some() {
            return;
        }
        let required: usize = self.required_accepts();
        let accepted: usize = self.result.count(PeerStanding::Accepted);
        let failed: usize = self.result.count(PeerStanding::Failed);
        let waiting: usize = self.result.count(PeerStanding::Waiting);
        let allowed: usize = self.allowed_failures();
        let total: usize = self.result.peers.len();
        proof {
            lemma_standings_add_up(self.result.peers@);
            assert(accepted + waiting <= total);
        }
        if required == 0 || accepted >= required {
            self.completion = Some(DispatchCompletion::Succeeded);
        } else if failed > allowed {
            self.completion = Some(
                DispatchCompletion::Failed(
                    DispatchFailure::Failed(
                        text_two_numbers(
                            "dispatch failure policy exceeded: failed=",
                            failed as u64,
                            ", allowed=",
                            allowed as u64,
                        ),
                    ),
                ),
            );
        } else if accepted + waiting < required {
            let tail = text_number(", required=", required as u64);
            let words = text_two_numbers(
                "dispatch can no longer reach required accepts: accepted=",
                accepted as u64,
                ", pending=",
                waiting as u64,
            ).concat(tail.as_str());
            self.completion = Some(DispatchCompletion::Failed(DispatchFailure::Impossible(words)));
        }
    }
}

} // verus!
