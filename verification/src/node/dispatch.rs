//! Application commands: where they go, and whose answers are awaited.

use std::collections::HashMap;
use vstd::prelude::*;

use super::raft_node::{NodeModel, RaftNode};
use crate::dispatch::context::DispatchResponse;
use crate::dispatch::frame::RAFT_DISPATCH_RESPONSE_FRAME_HEADER_SIZE;
use crate::dispatch::response::{response_fault, response_kind_of, DispatchResponseRef};
use crate::dispatch::spec::{in_scope, DispatchNodeRole, DispatchRoute, DispatchScope};
use crate::dispatch::tx::handle::{responded, DispatchTx};
use crate::dispatch::tx::state::TxModel;
use crate::error::RaftError;
use crate::protocol::codec::layout::{eight_bytes, lemma_fields_are_numbers};
use crate::protocol::codec::le::field;
use crate::state::Role;
use crate::types::PeerId;

verus! {

broadcast use vstd::std_specs::hash::group_hash_axioms;

impl NodeModel {
    /// The role of this node, as a scope sees it.
    pub open spec fn dispatch_role(self) -> DispatchNodeRole {
        if self.leads() {
            DispatchNodeRole::Leader
        } else {
            DispatchNodeRole::Follower
        }
    }

    /// `peer` as a scope sees it, for a command from this node.
    pub open spec fn route_to(self, peer: PeerId) -> DispatchRoute {
        if peer == self.node_id {
            DispatchRoute { role: self.dispatch_role(), is_origin: true }
        } else if !self.leads() && self.soft.leader_id == Some(peer) {
            DispatchRoute { role: DispatchNodeRole::Leader, is_origin: false }
        } else {
            DispatchRoute { role: DispatchNodeRole::Follower, is_origin: false }
        }
    }

    /// Whether a command from this node goes to the voter `peer`. A follower of
    /// a larger cluster takes part itself only in what stays local.
    pub open spec fn takes(self, scope: DispatchScope, peer: PeerId) -> bool {
        if peer == self.node_id && self.peers.len() > 1 && !self.leads() {
            scope is LocalOnly
        } else {
            in_scope(scope, self.route_to(peer))
        }
    }
}

impl RaftNode {
    fn dispatch_role(&self) -> (r: DispatchNodeRole)
        ensures
            r == self@.dispatch_role(),
    {
        if self.is_leader() {
            DispatchNodeRole::Leader
        } else {
            DispatchNodeRole::Follower
        }
    }

    /// `peer` as a scope sees it, for a command from this node.
    pub fn route_for_peer(&self, peer: PeerId) -> (r: DispatchRoute)
        ensures
            r == self@.route_to(peer),
    {
        if peer == self.config.node_id {
            DispatchRoute { role: self.dispatch_role(), is_origin: true }
        } else if self.is_leader() {
            DispatchRoute::follower(false)
        } else {
            let leads: bool = match self.soft_state.leader_id {
                Some(leader) => leader == peer,
                None => false,
            };
            if leads {
                DispatchRoute::leader(false)
            } else {
                DispatchRoute::follower(false)
            }
        }
    }

    /// This node as a scope sees it, for a command from `from`.
    pub fn route_of_inbound(&self, from: PeerId) -> (r: DispatchRoute)
        ensures
            r == (DispatchRoute {
                role: self@.dispatch_role(),
                is_origin: from == self@.node_id,
            }),
    {
        DispatchRoute { role: self.dispatch_role(), is_origin: from == self.config.node_id }
    }

    /// The voters that a command of this scope goes to.
    pub fn dispatch_targets(&self, scope: DispatchScope) -> (r: Vec<PeerId>)
        ensures
            r@ == self@.peers.filter(|p: PeerId| self@.takes(scope, p)),
    {
        let ghost keeps = |p: PeerId| self@.takes(scope, p);
        let size: usize = self.config.peers.len();
        let mut out: Vec<PeerId> = Vec::new();
        let mut i: usize = 0;
        proof {
            reveal(Seq::filter);
            assert(self.config.peers@.take(0) =~= Seq::empty());
        }
        while i < size
            invariant
                i <= size,
                size == self.config.peers@.len(),
                keeps == (|p: PeerId| self@.takes(scope, p)),
                out@ == self.config.peers@.take(i as int).filter(keeps),
            decreases size - i,
        {
            let peer = self.config.peers[i];
            proof {
                reveal(Seq::filter);
                assert(self.config.peers@.take(i + 1).drop_last() =~= self.config.peers@.take(
                    i as int,
                ));
            }
            let taken: bool = if peer == self.config.node_id && size > 1 && !self.is_leader() {
                matches!(scope, DispatchScope::LocalOnly)
            } else {
                scope.allows(self.route_for_peer(peer))
            };
            if taken {
                out.push(peer);
            }
            i = i + 1;
        }
        assert(self.config.peers@.take(i as int) =~= self.config.peers@);
        out
    }
}

/// A scope picks the nodes it names: others never include this node, local is
/// this node alone, a leader is no follower, and the leader is the one this
/// node knows.
pub proof fn law_scopes_pick_their_targets(m: NodeModel, p: PeerId)
    ensures
        m.takes(DispatchScope::Others, p) ==> p != m.node_id,
        m.takes(DispatchScope::LocalOnly, p) <==> p == m.node_id,
        m.leads() ==> !m.takes(DispatchScope::Followers, m.node_id),
        m.leads() ==> (m.takes(DispatchScope::Leader, p) <==> p == m.node_id),
        !m.leads() && m.peers.len() > 1 ==> (m.takes(DispatchScope::Leader, p) <==> p != m.node_id
            && m.soft.leader_id == Some(p)),
        m.leads() || p != m.node_id ==> m.takes(DispatchScope::All, p),
{
}

/// The commands that await answers, by transaction number.
pub struct PendingDispatches<R, F> {
    pub map: HashMap<u64, DispatchTx<R, F>>,
}

/// What a response frame holds, as a value of its own.
pub open spec fn holds_response(frame: Seq<u8>, response: DispatchResponse) -> bool {
    &&& response.tx_id == field(frame, 8, 8)
    &&& response.command == frame[5]
    &&& response.kind == response_kind_of(frame[6])
    &&& response.payload@ == frame.skip(RAFT_DISPATCH_RESPONSE_FRAME_HEADER_SIZE as int)
}

/// How a response frame came out. A frame that is not well formed is an error;
/// an answer nobody awaits is ignored; a command that completes is no longer
/// awaited.
pub open spec fn custom_response_outcome<R, F>(
    before: Map<u64, DispatchTx<R, F>>,
    from: PeerId,
    frame: Seq<u8>,
    r: Result<(), RaftError>,
    after: Map<u64, DispatchTx<R, F>>,
) -> bool where F: Fn(&[u8]) -> Result<R, RaftError> {
    let id = field(frame, 8, 8) as u64;
    match response_fault(frame) {
        Some(words) => (r matches Err(e) && e.is_dispatch(words)) && after == before,
        None => if !before.dom().contains(id) {
            r is Ok && after == before
        } else {
            exists|tx: DispatchTx<R, F>, response: DispatchResponse|
                {
                    &&& holds_response(frame, response)
                    &&& tx.decode_response == before[id].decode_response
                    &&& #[trigger] responded(before[id], from, response, r, tx.state@)
                    &&& after == if r is Ok && tx.state@.completion is Some {
                        before.remove(id)
                    } else {
                        before.insert(id, tx)
                    }
                }
        },
    }
}

impl<R, F> PendingDispatches<R, F> where F: Fn(&[u8]) -> Result<R, RaftError> {
    pub fn new() -> (r: Self)
        ensures
            r.map@ == Map::<u64, DispatchTx<R, F>>::empty(),
    {
        PendingDispatches { map: HashMap::new() }
    }

    /// Awaits the answers to a command.
    pub fn insert(&mut self, tx: DispatchTx<R, F>)
        ensures
            final(self).map@ == old(self).map@.insert(tx.state@.tx_id, tx),
    {
        let id: u64 = tx.state.result.tx_id;
        self.map.insert(id, tx);
    }

    /// Takes an answer from `from`.
    pub fn handle_custom_response(&mut self, from: PeerId, payload: &[u8]) -> (r: Result<
        (),
        RaftError,
    >)
        requires
            forall|id: u64, body: Seq<u8>|
                old(self).map@.dom().contains(id) ==> #[trigger] old(self).map@[id].reads(body),
        ensures
            custom_response_outcome(old(self).map@, from, payload@, r, final(self).map@),
    {
        let response: DispatchResponse = match DispatchResponseRef::parse(payload) {
            Err(e) => {
                return Err(e);
            },
            Ok(view) => view.to_response(),
        };
        let id: u64 = response.tx_id;
        assert(id == field(payload@, 8, 8) as u64);
        let ghost before = self.map@;
        match self.map.remove(&id) {
            None => {
                assert(self.map@ =~= before);
                Ok(())
            },
            Some(mut tx) => {
                assert(self.map@ =~= before.remove(id));
                assert(tx == before[id]);
                assert(before[id].reads(response.payload@));
                let r = tx.on_response(from, response);
                let ready: bool = r.is_ok() && tx.state.completion.is_some();
                proof {
                    assert(responded(before[id], from, response, r, tx.state@));
                    assert(before.remove(id).insert(id, tx) =~= before.insert(id, tx));
                }
                let ghost now = tx;
                if !ready {
                    self.map.insert(id, tx);
                }
                assert(self.map@ == if ready {
                    before.remove(id)
                } else {
                    before.insert(id, now)
                });
                r
            },
        }
    }
}

/// Who takes part in a command, scope by scope. Every other voter does in one for all and
/// in one for the others; in one for the followers unless it is the leader that this node
/// follows, and in one for the leader exactly if it is. A leader takes part itself in what
/// is for all, for the leader, or local; a follower of a larger cluster only in what is
/// local.
pub proof fn law_scopes_reach_everyone_they_name(m: NodeModel, p: PeerId)
    ensures
        ({
            let led = m.soft.role == Role::Leader;
            let follows = !led && m.soft.leader_id == Some(p);
            let others = p != m.node_id;
            &&& others ==> {
                &&& m.takes(DispatchScope::All, p)
                &&& m.takes(DispatchScope::Others, p)
                &&& m.takes(DispatchScope::Followers, p) <==> !follows
                &&& m.takes(DispatchScope::Leader, p) <==> follows
                &&& !m.takes(DispatchScope::LocalOnly, p)
            }
            &&& !others ==> {
                &&& m.takes(DispatchScope::LocalOnly, p)
                &&& !m.takes(DispatchScope::Others, p)
                &&& m.takes(DispatchScope::All, p) <==> led || m.peers.len() <= 1
                &&& m.takes(DispatchScope::Leader, p) <==> led
                &&& m.takes(DispatchScope::Followers, p) <==> !led && m.peers.len() <= 1
            }
        }),
{
}

/// An answer changes only the command whose number it carries: nobody else's wait is
/// touched, and one that nobody awaits changes nothing. The command is awaited on until it
/// has completed; a frame that is not well formed, or that its sender may not send, ends no
/// wait.
pub proof fn law_answers_reach_their_command<R, F>(
    before: Map<u64, DispatchTx<R, F>>,
    from: PeerId,
    frame: Seq<u8>,
    r: Result<(), RaftError>,
    after: Map<u64, DispatchTx<R, F>>,
    id: u64,
) where F: Fn(&[u8]) -> Result<R, RaftError>
    requires
        custom_response_outcome(before, from, frame, r, after),
    ensures
        response_fault(frame) is Some ==> r is Err,
        response_fault(frame) is Some || eight_bytes(frame, 8) != id ==> {
            &&& after.dom().contains(id) <==> before.dom().contains(id)
            &&& before.dom().contains(id) ==> after[id] == before[id]
        },
        !before.dom().contains(id) ==> !after.dom().contains(id),
        before.dom().contains(id) && !after.dom().contains(id) ==> {
            &&& r is Ok
            &&& exists|response: DispatchResponse, state: TxModel<R>| #[trigger]
                responded(before[id], from, response, r, state) && holds_response(frame, response)
                    && state.completion is Some
        },
        response_fault(frame) is None && r is Ok && before.dom().contains(id)
            && after.dom().contains(id) && eight_bytes(frame, 8) == id
            ==> after[id].state@.completion is None,
{
    lemma_fields_are_numbers(frame, 8);
}

} // verus!
