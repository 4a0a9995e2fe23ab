//! What append responses do to a leader.

use vstd::prelude::*;

use crate::error::RaftError;
use crate::node::progress::{AppendAdvance, AppendAttemptState, PeerProgress};
use crate::node::raft_node::{step_down_outcome, NodeModel, RaftNode};
use crate::protocol::codec::wire::AppendEntriesResp;
use crate::traits::RaftStorage;
use crate::types::{LogIndex, PeerId, Term};

verus! {

/// One more than `i`; the last index is its own successor.
pub open spec fn after(i: u64) -> u64 {
    if i == u64::MAX {
        u64::MAX
    } else {
        (i + 1) as u64
    }
}

/// One less than `i`; 0 is its own predecessor.
pub open spec fn before(i: u64) -> u64 {
    if i == 0 {
        0
    } else {
        (i - 1) as u64
    }
}

pub open spec fn larger(a: u64, b: u64) -> u64 {
    if a > b {
        a
    } else {
        b
    }
}

pub open spec fn smaller(a: u64, b: u64) -> u64 {
    if a < b {
        a
    } else {
        b
    }
}

fn min_of(a: u64, b: u64) -> (r: u64)
    ensures
        r == smaller(a, b),
{
    if a < b {
        a
    } else {
        b
    }
}

fn max_of(a: u64, b: u64) -> (r: u64)
    ensures
        r == larger(a, b),
{
    if a > b {
        a
    } else {
        b
    }
}

/// Where to continue after a refusal with the hint `hint`: one entry back, but
/// no further back than just past the hint, and never past the leader's own log.
pub open spec fn walked_back(next: u64, hint: u64, cap: u64) -> u64 {
    smaller(larger(larger(before(next), after(hint)), 1), cap)
}

fn walk_back(next: u64, hint: u64, cap: u64) -> (r: u64)
    ensures
        r == walked_back(next, hint, cap),
{
    min_of(max_of(max_of(next.saturating_sub(1), hint.saturating_add(1)), 1), cap)
}

/// A peer's progress after a response: a success only ever moves it forward, a
/// refusal moves the next entry back unless it is older than what is known to
/// match.
pub open spec fn acknowledged(p: PeerProgress, cap: u64, success: bool, index: u64) -> PeerProgress {
    if success {
        PeerProgress {
            match_index: LogIndex(larger(p.match_index.0, index)),
            next_index: LogIndex(larger(p.next_index.0, smaller(after(index), cap))),
        }
    } else if index >= p.match_index.0 {
        PeerProgress {
            next_index: LogIndex(walked_back(p.next_index.0, index, cap)),
            ..p
        }
    } else {
        p
    }
}

/// What a response means for the request it answers.
#[derive(Clone, Copy, Debug, PartialEq, Eq, Structural)]
pub enum AppendVerdict {
    /// The response is out of date.
    Ignored,
    /// Everything wanted has arrived.
    Completed,
    /// More is to be sent.
    Resend,
}

impl NodeModel {
    /// The entry after the leader's tip: no peer is ever sent anything past it.
    pub open spec fn next_cap(self) -> u64 {
        after(self.last_log.0.0)
    }

    /// The leader after a response that no request awaits.
    pub open spec fn acked_by(self, from: PeerId, resp: AppendEntriesResp) -> NodeModel {
        if !self.leads() || !self.progress.dom().contains(from) {
            self
        } else {
            NodeModel {
                progress: self.progress.insert(
                    from,
                    acknowledged(
                        self.progress[from],
                        self.next_cap(),
                        resp.success != 0,
                        resp.match_index,
                    ),
                ),
                ..self
            }
        }
    }

    /// What a response to a request under way means.
    pub open spec fn verdict(
        self,
        peer: PeerId,
        target: u64,
        state: AppendAttemptState,
        resp: AppendEntriesResp,
    ) -> AppendVerdict {
        if resp.success != 0 {
            if resp.match_index < state.sent_last_index.0 {
                AppendVerdict::Ignored
            } else if resp.match_index >= target {
                AppendVerdict::Completed
            } else {
                AppendVerdict::Resend
            }
        } else if resp.match_index < self.progress[peer].match_index.0 {
            AppendVerdict::Ignored
        } else {
            AppendVerdict::Resend
        }
    }

    /// The leader after a response to a request under way.
    pub open spec fn advanced(
        self,
        peer: PeerId,
        target: u64,
        state: AppendAttemptState,
        resp: AppendEntriesResp,
    ) -> NodeModel {
        let p = self.progress[peer];
        if self.verdict(peer, target, state, resp) is Ignored {
            self
        } else {
            NodeModel {
                progress: self.progress.insert(
                    peer,
                    if resp.success != 0 {
                        PeerProgress {
                            match_index: LogIndex(resp.match_index),
                            next_index: LogIndex(smaller(after(resp.match_index), self.next_cap())),
                        }
                    } else {
                        PeerProgress {
                            next_index: LogIndex(
                                walked_back(p.next_index.0, resp.match_index, self.next_cap()),
                            ),
                            ..p
                        }
                    },
                ),
                ..self
            }
        }
    }
}

impl RaftNode {
    /// Takes in an append response that no request awaits.
    pub fn handle_append_entries_response<S: RaftStorage>(
        &mut self,
        storage: &mut S,
        from: PeerId,
        resp: &AppendEntriesResp,
    ) -> (r: Result<(), RaftError>)
        ensures
            resp.term > old(self)@.hard.current_term.0 ==> step_down_outcome(
                old(self)@,
                old(storage).model(),
                Term(resp.term),
                r,
                final(self)@,
                final(storage).model(),
            ),
            resp.term <= old(self)@.hard.current_term.0 ==> r is Ok && final(self)@ == old(
                self,
            )@.acked_by(from, *resp) && final(storage).model() == old(storage).model(),
            r matches Err(e) ==> S::fails_with(e),
    {
        if resp.term > self.hard_state.current_term.0 {
            return self.step_down(storage, Term(resp.term));
        }
        if !self.is_leader() {
            return Ok(());
        }
        let cap: u64 = self.cached_last_log.0.0.saturating_add(1);
        let known: Option<PeerProgress> = match self.peer_progress.get(from) {
            Some(p) => Some(*p),
            None => None,
        };
        match known {
            None => {},
            Some(p) => {
                if resp.success != 0 {
                    let updated = PeerProgress {
                        match_index: LogIndex(max_of(p.match_index.0, resp.match_index)),
                        next_index: LogIndex(
                            max_of(
                                p.next_index.0,
                                min_of(resp.match_index.saturating_add(1), cap),
                            ),
                        ),
                    };
                    self.peer_progress.insert(from, updated);
                } else if resp.match_index >= p.match_index.0 {
                    let updated = PeerProgress {
                        match_index: p.match_index,
                        next_index: LogIndex(walk_back(p.next_index.0, resp.match_index, cap)),
                    };
                    self.peer_progress.insert(from, updated);
                }
            },
        }
        assert(self@.progress =~= old(self)@.acked_by(from, *resp).progress);
        Ok(())
    }

    /// Takes in the response to a request under way to `peer`, and says what to
    /// do next.
    pub fn advance_append_replication<S: RaftStorage>(
        &mut self,
        storage: &mut S,
        peer: PeerId,
        target_index: LogIndex,
        state: AppendAttemptState,
        resp: &AppendEntriesResp,
    ) -> (r: Result<AppendVerdict, RaftError>)
        ensures
            resp.term > old(self)@.hard.current_term.0 ==> {
                &&& r matches Err(e)
                &&& (e == (RaftError::TermChanged { current: Term(resp.term) })
                    && step_down_outcome(
                    old(self)@,
                    old(storage).model(),
                    Term(resp.term),
                    Ok(()),
                    final(self)@,
                    final(storage).model(),
                )) || step_down_outcome(
                    old(self)@,
                    old(storage).model(),
                    Term(resp.term),
                    Err(e),
                    final(self)@,
                    final(storage).model(),
                )
            },
            resp.term <= old(self)@.hard.current_term.0 ==> {
                &&& final(storage).model() == old(storage).model()
                &&& if old(self)@.progress.dom().contains(peer) {
                    r == Ok::<AppendVerdict, RaftError>(
                        old(self)@.verdict(peer, target_index.0, state, *resp),
                    ) && final(self)@ == old(self)@.advanced(
                        peer,
                        target_index.0,
                        state,
                        *resp,
                    )
                } else {
                    (r matches Err(RaftError::PeerUnknown(p)) && p == peer) && final(self)@
                        == old(self)@
                }
            },
            r matches Err(e) ==> S::fails_with(e) || e == (RaftError::TermChanged {
                current: Term(resp.term),
            }) || (e matches RaftError::PeerUnknown(p) && p == peer),
    {
        if resp.term > self.hard_state.current_term.0 {
            match self.step_down(storage, Term(resp.term)) {
                Err(e) => {
                    return Err(e);
                },
                Ok(()) => {},
            }
            return Err(RaftError::TermChanged { current: self.hard_state.current_term });
        }
        let cap: u64 = self.cached_last_log.0.0.saturating_add(1);
        let p: PeerProgress = match self.peer_progress.get(peer) {
            Some(p) => *p,
            None => {
                return Err(RaftError::PeerUnknown(peer));
            },
        };
        if resp.success != 0 {
            if resp.match_index < state.sent_last_index.0 {
                return Ok(AppendVerdict::Ignored);
            }
            self.peer_progress.insert(
                peer,
                PeerProgress {
                    match_index: LogIndex(resp.match_index),
                    next_index: LogIndex(min_of(resp.match_index.saturating_add(1), cap)),
                },
            );
            if resp.match_index >= target_index.0 {
                return Ok(AppendVerdict::Completed);
            }
        } else {
            if resp.match_index < p.match_index.0 {
                return Ok(AppendVerdict::Ignored);
            }
            self.peer_progress.insert(
                peer,
                PeerProgress {
                    match_index: p.match_index,
                    next_index: LogIndex(walk_back(p.next_index.0, resp.match_index, cap)),
                },
            );
        }
        Ok(AppendVerdict::Resend)
    }
}

/// What a resend comes to: another attempt under way, or a dropped request
/// where the transport refused the frame. `sent_last` is the index of the last
/// entry sent.
pub fn after_resend(state: AppendAttemptState, sent_last: Option<LogIndex>) -> (r: AppendAdvance)
    requires
        state.attempts < u64::MAX,
    ensures
        match sent_last {
            Some(index) => r == AppendAdvance::Retry(
                AppendAttemptState {
                    attempts: (state.attempts + 1) as u64,
                    sent_last_index: index,
                },
            ),
            None => r is Dropped,
        },
{
    match sent_last {
        Some(index) => AppendAdvance::Retry(
            AppendAttemptState { attempts: state.attempts + 1, sent_last_index: index },
        ),
        None => AppendAdvance::Dropped,
    }
}

/// No response moves a peer's next entry past the leader's log, provided it was
/// not past it, and no response to a leader lowers what is known to match.
pub proof fn law_progress_stays_in_the_log(
    p: PeerProgress,
    cap: u64,
    success: bool,
    index: u64,
)
    requires
        cap > 0,
        1 <= p.next_index.0 <= cap,
    ensures
        1 <= acknowledged(p, cap, success, index).next_index.0 <= cap,
        acknowledged(p, cap, success, index).match_index.0 >= p.match_index.0,
{
}

/// A refusal with a hint below the asked entry brings the leader closer: the
/// next entry moves back by at least one, unless it is already just past the
/// hint or at the start of the log.
pub proof fn law_refusals_walk_back(next: u64, hint: u64, cap: u64)
    requires
        cap > 0,
        1 <= next <= cap,
    ensures
        walked_back(next, hint, cap) < next || next == 1 || after(hint) >= next,
        hint + 1 < next ==> walked_back(next, hint, cap) < next,
{
}

} // verus!
