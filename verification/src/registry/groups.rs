//! The groups hosted here, by number.

use std::collections::hash_map::Entry;
use std::collections::HashMap;
use vstd::prelude::*;

use super::apply::GroupModel;
use crate::error::RaftError;
use crate::node::inbound::{
    holds_together, inbound_fault, inbound_outcome, InboundAction,
};
use crate::node::raft_node::RaftNode;
use crate::protocol::message::InboundRaftMessage;
use crate::text::{decimal, text_number};
use crate::traits::{RaftStorage, StateMachine};
use crate::types::GroupId;

verus! {

broadcast use vstd::std_specs::hash::group_hash_axioms;

/// One group: its node, its storage and its state machine.
pub struct GroupEntry<S, M> {
    pub node: RaftNode,
    pub storage: S,
    pub machine: M,
}

impl<S: RaftStorage, M: StateMachine> GroupEntry<S, M> {
    /// What the group stands for.
    pub open spec fn model(self) -> GroupModel {
        GroupModel {
            node: self.node@,
            stored: self.storage.model(),
            machine: self.machine.model(),
        }
    }
}

/// The groups hosted here.
pub struct RaftGroupRegistry<S, M> {
    pub groups: HashMap<u64, GroupEntry<S, M>>,
}

impl<S: RaftStorage, M: StateMachine> RaftGroupRegistry<S, M> {
    pub fn new() -> (r: Self)
        ensures
            r.groups@ == Map::<u64, GroupEntry<S, M>>::empty(),
    {
        RaftGroupRegistry { groups: HashMap::new() }
    }

    pub fn with_capacity(cap: usize) -> (r: Self)
        ensures
            r.groups@ == Map::<u64, GroupEntry<S, M>>::empty(),
    {
        RaftGroupRegistry { groups: HashMap::with_capacity(cap) }
    }

    /// Takes a group in. A number that is taken is an error.
    pub fn insert(&mut self, id: GroupId, entry: GroupEntry<S, M>) -> (r: Result<(), RaftError>)
        ensures
            old(self).groups@.dom().contains(id.0) ==> {
                &&& r matches Err(e) && e.is_protocol("duplicate group id "@ + decimal(id.0 as nat))
                &&& final(self).groups@ == old(self).groups@
            },
            !old(self).groups@.dom().contains(id.0) ==> {
                &&& r is Ok
                &&& final(self).groups@ == old(self).groups@.insert(id.0, entry)
            },
    {
        if self.groups.contains_key(&id.0) {
            return Err(RaftError::Protocol(text_number("duplicate group id ", id.0)));
        }
        self.groups.insert(id.0, entry);
        Ok(())
    }

    /// Lets a group go.
    pub fn remove(&mut self, id: GroupId) -> (r: Option<GroupEntry<S, M>>)
        ensures
            final(self).groups@ == old(self).groups@.remove(id.0),
            match r {
                Some(entry) => old(self).groups@.dom().contains(id.0) && entry
                    == old(self).groups@[id.0],
                None => !old(self).groups@.dom().contains(id.0),
            },
    {
        let r = self.groups.remove(&id.0);
        assert(self.groups@ =~= old(self).groups@.remove(id.0));
        r
    }

    pub fn get(&self, id: GroupId) -> (r: Option<&RaftNode>)
        ensures
            match r {
                Some(node) => self.groups@.dom().contains(id.0) && *node
                    == self.groups@[id.0].node,
                None => !self.groups@.dom().contains(id.0),
            },
    {
        match self.groups.get(&id.0) {
            Some(entry) => Some(&entry.node),
            None => None,
        }
    }

    /// The group with this number, to be changed in place.
    pub fn entry_mut(&mut self, id: GroupId) -> (r: Option<&mut GroupEntry<S, M>>)
        ensures
            match r {
                Some(entry) => {
                    &&& old(self).groups@.dom().contains(id.0)
                    &&& *entry == old(self).groups@[id.0]
                    &&& final(self).groups@ == old(self).groups@.insert(id.0, *final(entry))
                },
                None => {
                    &&& !old(self).groups@.dom().contains(id.0)
                    &&& final(self).groups@ == old(self).groups@
                },
            },
    {
        match self.groups.entry(id.0) {
            Entry::Occupied(entry) => Some(entry.into_mut()),
            Entry::Vacant(_) => None,
        }
    }

    /// The node of the group, to be changed in place.
    pub fn get_mut(&mut self, id: GroupId) -> (r: Option<&mut RaftNode>)
        ensures
            match r {
                Some(node) => {
                    &&& old(self).groups@.dom().contains(id.0)
                    &&& *node == old(self).groups@[id.0].node
                    &&& final(self).groups@ == old(self).groups@.insert(
                        id.0,
                        (GroupEntry { node: *final(node), ..old(self).groups@[id.0] }),
                    )
                },
                None => {
                    &&& !old(self).groups@.dom().contains(id.0)
                    &&& final(self).groups@ == old(self).groups@
                },
            },
    {
        match self.entry_mut(id) {
            Some(entry) => Some(&mut entry.node),
            None => None,
        }
    }

    pub fn state_machine(&self, id: GroupId) -> (r: Option<&M>)
        ensures
            match r {
                Some(machine) => self.groups@.dom().contains(id.0) && *machine
                    == self.groups@[id.0].machine,
                None => !self.groups@.dom().contains(id.0),
            },
    {
        match self.groups.get(&id.0) {
            Some(entry) => Some(&entry.machine),
            None => None,
        }
    }

    /// The state machine of the group, to be changed in place.
    pub fn state_machine_mut(&mut self, id: GroupId) -> (r: Option<&mut M>)
        ensures
            match r {
                Some(machine) => {
                    &&& old(self).groups@.dom().contains(id.0)
                    &&& *machine == old(self).groups@[id.0].machine
                    &&& final(self).groups@ == old(self).groups@.insert(
                        id.0,
                        (GroupEntry { machine: *final(machine), ..old(self).groups@[id.0] }),
                    )
                },
                None => {
                    &&& !old(self).groups@.dom().contains(id.0)
                    &&& final(self).groups@ == old(self).groups@
                },
            },
    {
        match self.entry_mut(id) {
            Some(entry) => Some(&mut entry.machine),
            None => None,
        }
    }

    pub fn len(&self) -> (r: usize)
        ensures
            r == self.groups@.dom().len(),
    {
        self.groups.len()
    }

    pub fn is_empty(&self) -> (r: bool)
        ensures
            r == (self.groups@.dom().len() == 0),
    {
        self.groups.is_empty()
    }

    /// Hands a decoded message to the group it names. A group that is not
    /// hosted here is an error.
    pub fn dispatch<'a>(&mut self, inbound: InboundRaftMessage<'a>, now_ms: u64) -> (r: (
        InboundAction<'a>,
        Result<(), RaftError>,
    ))
        requires
            holds_together(inbound.message),
        ensures
            ({
                let gid = inbound.group_id.0;
                let before = old(self).groups@;
                let after = final(self).groups@;
                if before.dom().contains(gid) {
                    &&& after.dom().contains(gid)
                    &&& after == before.insert(gid, after[gid])
                    &&& after[gid].machine == before[gid].machine
                    &&& inbound_outcome(
                        before[gid].node@,
                        before[gid].storage.model(),
                        inbound.from,
                        inbound.message,
                        now_ms,
                        r.0,
                        r.1,
                        after[gid].node@,
                        after[gid].storage.model(),
                    )
                    &&& r.1 matches Err(e) ==> S::fails_with(e) || inbound_fault(
                        before[gid].node@,
                        before[gid].storage.model(),
                        inbound.from,
                        inbound.message,
                        now_ms,
                        e,
                        after[gid].node@,
                    )
                } else {
                    &&& r.1 matches Err(e) && e.is_protocol(
                        "no raft group registered for group_id "@ + decimal(gid as nat),
                    )
                    &&& r.0 is Done
                    &&& after == before
                }
            }),
    {
        let gid = inbound.group_id;
        match self.entry_mut(gid) {
            Some(entry) => entry.node.handle_inbound(&mut entry.storage, inbound, now_ms),
            None => (
                InboundAction::Done,
                Err(
                    RaftError::Protocol(
                        text_number("no raft group registered for group_id ", gid.0),
                    ),
                ),
            ),
        }
    }
}

} // verus!
