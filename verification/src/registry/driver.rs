//! Drives many groups over one transport.

use std::collections::hash_map::Entry;
use std::collections::HashMap;
use std::sync::Arc;
use vstd::prelude::*;
use vstd::std_specs::iter::IteratorSpec;

use super::apply::GroupModel;
use super::groups::{GroupEntry, RaftGroupRegistry};
use super::step::taken;
use super::timers::{fresh_timers, law_election_timeouts_are_in_range, GroupTimers};
use crate::config::NodeConfig;
use crate::entry::EntryRecord;
use crate::error::RaftError;
use crate::node::inbound::InboundAction;
use crate::node::membership::{
    decode_config, law_control_entries_are_told_apart, noop_bytes, CONFIG_CHANGE_MAGIC,
};
use crate::node::metrics::{bumped, wrapped};
use crate::node::raft_node::{started, step_down_outcome, valid_config, RaftNode};
use crate::protocol::codec::encode::frame;
use crate::protocol::codec::encode::vectored::batch_body;
use crate::protocol::codec::laws::law_lone_entry_fits;
use crate::protocol::codec::wire::{AppendEntries, KIND_APPEND_ENTRIES, MAX_ENTRY_PAYLOAD};
use crate::state::Role;
use crate::text::{decimal, text, text_number, text_number_text};
use crate::traits::{RaftStorage, StateMachine};
use crate::transport::multiplex::{
    drain_outcome, frame_group, group_of, lemma_strangers_have_no_frames, MultiplexDemux,
    MultiplexedTransport,
};
use crate::types::{GroupId, LogIndex, Term};

verus! {

broadcast use vstd::std_specs::hash::group_hash_axioms;

/// Many groups over one transport.
pub struct MultiRaftDriver<S, T, M> {
    pub registry: RaftGroupRegistry<S, M>,
    pub demux: MultiplexDemux<T>,
    pub timers: HashMap<u64, GroupTimers>,
    /// Frames dropped because they name no group hosted here.
    pub unknown_frames: u64,
}

/// What a due timer calls for.
#[derive(Clone, Copy, Debug, PartialEq, Eq, Structural)]
pub enum GroupTick {
    /// Nothing.
    Idle,
    /// The leader has lost contact with its majority and gave way.
    Abdicated,
    /// Send a round of heartbeats.
    Heartbeat,
    /// Campaign; a sanctioned campaign skips the pre-vote.
    Campaign { forced: bool },
}

impl<S: RaftStorage, T, M: StateMachine> MultiRaftDriver<S, T, M> {
    /// Whether the group `gid` is hosted here.
    pub open spec fn hosts(self, gid: u64) -> bool {
        self.registry.groups@.dom().contains(gid)
    }

    /// What holds between two operations: every hosted group has a timer and
    /// an inbox, nobody else has, and every part is well formed.
    pub open spec fn wf(self) -> bool {
        &&& self.demux.state.wf()
        &&& self.timers@.dom() == self.registry.groups@.dom()
        &&& self.demux.state@.groups == self.registry.groups@.dom()
        &&& forall|g: u64| #[trigger] self.timers@.dom().contains(g) ==> self.timers@[g].wf()
        &&& forall|g: u64| #[trigger]
            self.registry.groups@.dom().contains(g) ==> self.registry.groups@[g].node@.wf()
    }

    pub fn new(inner: Arc<T>) -> (r: Self)
        ensures
            r.wf(),
            r.demux.inner == inner,
            r.registry.groups@ == Map::<u64, GroupEntry<S, M>>::empty(),
            r.unknown_frames == 0,
            r.demux.state@.unknown == 0,
    {
        let r = MultiRaftDriver {
            registry: RaftGroupRegistry::new(),
            demux: MultiplexDemux::new(inner),
            timers: HashMap::new(),
            unknown_frames: 0,
        };
        assert(r.timers@.dom() =~= r.registry.groups@.dom());
        assert(r.demux.state@.groups =~= r.registry.groups@.dom());
        r
    }

    pub fn group(&self, gid: GroupId) -> (r: Option<&RaftNode>)
        ensures
            match r {
                Some(node) => self.hosts(gid.0) && *node == self.registry.groups@[gid.0].node,
                None => !self.hosts(gid.0),
            },
    {
        self.registry.get(gid)
    }

    pub fn state_machine(&self, gid: GroupId) -> (r: Option<&M>)
        ensures
            match r {
                Some(machine) => self.hosts(gid.0) && *machine
                    == self.registry.groups@[gid.0].machine,
                None => !self.hosts(gid.0),
            },
    {
        self.registry.state_machine(gid)
    }

    pub fn len(&self) -> (r: usize)
        ensures
            r == self.registry.groups@.dom().len(),
    {
        self.registry.len()
    }

    pub fn is_empty(&self) -> (r: bool)
        ensures
            r == (self.registry.groups@.dom().len() == 0),
    {
        self.registry.is_empty()
    }

    /// Frames dropped because they name no group hosted here, whether the
    /// driver routed them or a group received them.
    pub fn unknown_group_frames(&self) -> (r: u64)
        ensures
            r == wrapped(self.unknown_frames, self.demux.state@.unknown as nat),
    {
        self.unknown_frames.wrapping_add(self.demux.unknown_group_frames())
    }

    /// How much working memory an idle group holds: none.
    pub fn group_idle_scratch_bytes(&self, gid: GroupId) -> (r: Option<usize>)
        ensures
            r == if self.hosts(gid.0) {
                Some(0usize)
            } else {
                None
            },
    {
        match self.registry.get(gid) {
            Some(_) => Some(0),
            None => None,
        }
    }

    /// Hosts a group: it gets a node over its storage, an inbox and timers.
    pub fn add_group(
        &mut self,
        gid: GroupId,
        config: NodeConfig,
        storage: S,
        machine: M,
        now_ms: u64,
    ) -> (r: Result<MultiplexedTransport<T>, RaftError>)
        requires
            old(self).wf(),
        ensures
            final(self).wf(),
            old(self).hosts(gid.0) ==> {
                &&& r matches Err(e) && e.is_protocol(
                    "duplicate group id "@ + decimal(gid.0 as nat),
                )
                &&& *final(self) == *old(self)
            },
            !old(self).hosts(gid.0) ==> match r {
                Ok(transport) => {
                    &&& valid_config(config)
                    &&& transport.inner == old(self).demux.inner
                    &&& transport.group_id == gid
                    &&& final(self).hosts(gid.0)
                    &&& final(self).registry.groups@ == old(self).registry.groups@.insert(
                        gid.0,
                        final(self).registry.groups@[gid.0],
                    )
                    &&& final(self).registry.groups@[gid.0].storage == storage
                    &&& final(self).registry.groups@[gid.0].machine == machine
                    &&& final(self).registry.groups@[gid.0].node@ == started(
                        config,
                        storage.model().hard_state,
                        storage.model().tip,
                        match storage.model().snapshot {
                            Some((meta, _)) => Some(meta),
                            None => None,
                        },
                    )
                    &&& final(self).timers@ == old(self).timers@.insert(
                        gid.0,
                        fresh_timers(gid, config.node_id.0, config.timing, now_ms),
                    )
                    &&& final(self).demux.state@ == old(self).demux.state@.registered(gid.0)
                    &&& final(self).unknown_frames == old(self).unknown_frames
                },
                Err(e) => {
                    &&& if valid_config(config) {
                        S::fails_with(e)
                    } else {
                        e matches RaftError::InvalidConfig(m) && m@
                            == "learners must be disjoint from peers"@
                    }
                    &&& final(self).registry.groups@ == old(self).registry.groups@
                    &&& final(self).timers@ == old(self).timers@
                    &&& final(self).demux.state@ == old(self).demux.state@
                    &&& final(self).unknown_frames == old(self).unknown_frames
                },
            },
    {
        if self.registry.get(gid).is_some() {
            return Err(RaftError::Protocol(text_number("duplicate group id ", gid.0)));
        }
        let timing = config.timing;
        let node_id: u64 = config.node_id.0;
        let transport = self.demux.transport(gid);
        let node: RaftNode = match RaftNode::new(config, &storage) {
            Ok(node) => node,
            Err(e) => {
                self.demux.unregister(gid);
                proof {
                    lemma_strangers_have_no_frames(old(self).demux.state@, gid.0);
                    assert(self.demux.state@ =~= old(self).demux.state@);
                }
                return Err(e);
            },
        };
        match self.registry.insert(gid, GroupEntry { node, storage, machine }) {
            Err(e) => {
                self.demux.unregister(gid);
                return Err(e);
            },
            Ok(()) => {},
        }
        self.timers.insert(gid.0, GroupTimers::new(gid, node_id, timing, now_ms));
        assert(self.timers@.dom() =~= self.registry.groups@.dom());
        assert(self.demux.state@.groups =~= self.registry.groups@.dom());
        Ok(transport)
    }

    /// Lets a group go, with its inbox and timers.
    pub fn remove_group(&mut self, gid: GroupId) -> (r: Option<GroupEntry<S, M>>)
        requires
            old(self).wf(),
        ensures
            final(self).wf(),
            match r {
                Some(entry) => {
                    &&& old(self).hosts(gid.0)
                    &&& entry == old(self).registry.groups@[gid.0]
                    &&& final(self).registry.groups@ == old(self).registry.groups@.remove(gid.0)
                    &&& final(self).timers@ == old(self).timers@.remove(gid.0)
                    &&& final(self).demux.state@ == old(self).demux.state@.unregistered(gid.0)
                },
                None => {
                    &&& !old(self).hosts(gid.0)
                    &&& final(self).registry.groups@ == old(self).registry.groups@
                    &&& final(self).timers@ == old(self).timers@
                    &&& final(self).demux.state@ == old(self).demux.state@
                },
            },
            final(self).unknown_frames == old(self).unknown_frames,
    {
        match self.registry.remove(gid) {
            None => {
                assert(self.registry.groups@ =~= old(self).registry.groups@);
                None
            },
            Some(entry) => {
                self.demux.unregister(gid);
                self.timers.remove(&gid.0);
                assert(self.timers@ =~= old(self).timers@.remove(gid.0));
                assert(self.timers@.dom() =~= self.registry.groups@.dom());
                assert(self.demux.state@.groups =~= self.registry.groups@.dom());
                Some(entry)
            },
        }
    }
}

/// How routing a frame came out. A frame for a group that is not hosted here is
/// counted and dropped. Any other is taken by its group; it puts that group's
/// election off, and a sanctioned campaign is due at once.
pub open spec fn route_outcome<'a, S: RaftStorage, T, M: StateMachine>(
    before: MultiRaftDriver<S, T, M>,
    gid: u64,
    frame: Seq<u8>,
    now_ms: u64,
    action: InboundAction<'a>,
    r: Result<(), RaftError>,
    after: MultiRaftDriver<S, T, M>,
) -> bool {
    if !before.hosts(gid) {
        &&& r is Ok
        &&& action is Done
        &&& after.unknown_frames == bumped(before.unknown_frames)
        &&& after.registry.groups@ == before.registry.groups@
        &&& after.timers@ == before.timers@
        &&& after.demux.state@ == before.demux.state@
    } else {
        let entry = after.registry.groups@[gid];
        &&& after.unknown_frames == before.unknown_frames
        &&& after.demux.state@ == before.demux.state@
        &&& after.registry.groups@ == before.registry.groups@.insert(gid, entry)
        &&& exists|end: GroupModel, forced: bool|
            {
                &&& #[trigger] taken::<S, M>(
                    before.registry.groups@[gid].model(),
                    frame,
                    now_ms,
                    end,
                    action,
                    forced,
                    r,
                    entry.model(),
                    entry.machine,
                )
                &&& after.timers@ == before.timers@.insert(
                    gid,
                    before.timers@[gid].after_frame(forced, now_ms),
                )
            }
    }
}

impl<S: RaftStorage, T, M: StateMachine> MultiRaftDriver<S, T, M> {
    /// Hands a frame to the group `gid`.
    pub fn dispatch_frame<'a>(
        &mut self,
        gid: GroupId,
        frame: &'a [u8],
        now_ms: u64,
        buf: &mut [u8],
    ) -> (r: (InboundAction<'a>, Result<(), RaftError>))
        requires
            old(self).wf(),
        ensures
            final(self).wf(),
            route_outcome(*old(self), gid.0, frame@, now_ms, r.0, r.1, *final(self)),
    {
        let (action, forced, out): (InboundAction<'a>, bool, Result<(), RaftError>) =
            match self.registry.entry_mut(gid) {
            None => {
                self.unknown_frames = self.unknown_frames.wrapping_add(1);
                return (InboundAction::Done, Ok(()));
            },
            Some(entry) => entry.step(frame, now_ms, buf),
        };
        match self.timers.entry(gid.0) {
            Entry::Occupied(slot) => {
                slot.into_mut().note_frame(forced, now_ms);
            },
            Entry::Vacant(_) => {},
        }
        proof {
            let groups = old(self).registry.groups@;
            assert(self.registry.groups@ =~= groups.insert(gid.0, self.registry.groups@[gid.0]));
            assert(self.registry.groups@.dom() =~= groups.dom());
            assert(self.timers@ =~= old(self).timers@.insert(
                gid.0,
                old(self).timers@[gid.0].after_frame(forced, now_ms),
            ));
            assert(self.timers@.dom() =~= old(self).timers@.dom());
        }
        (action, out)
    }

    /// Hands a frame to the group that it names. One too short to name a group
    /// is counted and dropped.
    pub fn route_raw<'a>(&mut self, frame: &'a [u8], now_ms: u64, buf: &mut [u8]) -> (r: (
        InboundAction<'a>,
        Result<(), RaftError>,
    ))
        requires
            old(self).wf(),
        ensures
            final(self).wf(),
            match group_of(frame@) {
                Some(gid) => route_outcome(
                    *old(self),
                    gid,
                    frame@,
                    now_ms,
                    r.0,
                    r.1,
                    *final(self),
                ),
                None => {
                    &&& r.1 is Ok
                    &&& r.0 is Done
                    &&& final(self).unknown_frames == bumped(old(self).unknown_frames)
                    &&& final(self).registry.groups@ == old(self).registry.groups@
                    &&& final(self).timers@ == old(self).timers@
                    &&& final(self).demux.state@ == old(self).demux.state@
                },
            },
    {
        match frame_group(frame) {
            Some(gid) => self.dispatch_frame(GroupId(gid), frame, now_ms, buf),
            None => {
                self.unknown_frames = self.unknown_frames.wrapping_add(1);
                (InboundAction::Done, Ok(()))
            },
        }
    }

    /// The group `gid`, to be worked on in place.
    pub fn require_group(&mut self, gid: GroupId) -> (r: Result<&mut GroupEntry<S, M>, RaftError>)
        requires
            old(self).wf(),
        ensures
            match r {
                Ok(entry) => {
                    &&& old(self).hosts(gid.0)
                    &&& *entry == old(self).registry.groups@[gid.0]
                    &&& final(self).registry.groups@ == old(self).registry.groups@.insert(
                        gid.0,
                        *final(entry),
                    )
                    &&& final(entry).node@.wf() ==> final(self).wf()
                },
                Err(e) => {
                    &&& !old(self).hosts(gid.0)
                    &&& e.is_protocol("no group "@ + decimal(gid.0 as nat) + " in driver"@)
                    &&& final(self).registry.groups@ == old(self).registry.groups@
                    &&& final(self).wf()
                },
            },
            final(self).timers@ == old(self).timers@,
            final(self).demux == old(self).demux,
            final(self).unknown_frames == old(self).unknown_frames,
    {
        match self.registry.entry_mut(gid) {
            Some(entry) => {
                proof {
                    let groups = old(self).registry.groups@;
                    assert(groups.insert(gid.0, *final(entry)).dom() =~= groups.dom());
                }
                Ok(entry)
            },
            None => Err(RaftError::Protocol(text_number_text("no group ", gid.0, " in driver"))),
        }
    }

    /// Services the timers of one group. A leader that has lost contact with
    /// its majority gives way; any other sends heartbeats when they are due. A
    /// follower campaigns when its election is due.
    pub fn tick_group(&mut self, gid: GroupId, now_ms: u64) -> (r: Result<GroupTick, RaftError>)
        requires
            old(self).wf(),
        ensures
            final(self).wf(),
            final(self).demux.state@ == old(self).demux.state@,
            final(self).unknown_frames == old(self).unknown_frames,
            tick_outcome(*old(self), gid.0, now_ms, r, *final(self)),
    {
        let mut timers: GroupTimers = match self.timers.get(&gid.0) {
            None => {
                assert(!self.timers@.dom().contains(gid.0));
                return Ok(GroupTick::Idle);
            },
            Some(t) => *t,
        };
        let beat: bool = now_ms >= timers.next_heartbeat_ms;
        if beat {
            timers.reset_heartbeat(now_ms);
        }
        let (leads, outcome): (bool, Result<GroupTick, RaftError>) =
            match self.registry.entry_mut(gid) {
            None => (false, Ok(GroupTick::Idle)),
            Some(entry) => {
                if !entry.node.is_leader() {
                    (false, Ok(GroupTick::Idle))
                } else if !beat {
                    (true, Ok(GroupTick::Idle))
                } else if entry.node.check_quorum_active(now_ms) {
                    (true, Ok(GroupTick::Heartbeat))
                } else {
                    let term = entry.node.current_term();
                    match entry.node.step_down(&mut entry.storage, term) {
                        Ok(()) => (true, Ok(GroupTick::Abdicated)),
                        Err(e) => (true, Err(e)),
                    }
                }
            },
        };
        let mut tick = outcome;
        if !leads && now_ms >= timers.next_election_ms {
            let forced: bool = timers.forced_campaign;
            timers.forced_campaign = false;
            timers.reset_election(now_ms);
            tick = Ok(GroupTick::Campaign { forced });
        }
        self.timers.insert(gid.0, timers);
        proof {
            assert(self.registry.groups@ =~= old(self).registry.groups@.insert(
                gid.0,
                self.registry.groups@[gid.0],
            ));
            assert(self.registry.groups@.dom() =~= old(self).registry.groups@.dom());
            assert(self.timers@.dom() =~= old(self).timers@.dom());
            assert(leads == old(self).registry.groups@[gid.0].node@.leads());
            assert(!leads ==> self.registry.groups@ =~= old(self).registry.groups@);
        }
        tick
    }

    /// Records that a campaign has ended: the next election is put off, and so
    /// is the heartbeat where one has just gone out.
    pub fn note_campaign(&mut self, gid: GroupId, heartbeat_sent: bool, now_ms: u64)
        requires
            old(self).wf(),
        ensures
            final(self).wf(),
            final(self).registry.groups@ == old(self).registry.groups@,
            final(self).demux.state@ == old(self).demux.state@,
            final(self).unknown_frames == old(self).unknown_frames,
            !old(self).hosts(gid.0) ==> final(self).timers@ == old(self).timers@,
            old(self).hosts(gid.0) ==> final(self).timers@ == old(self).timers@.insert(
                gid.0,
                if heartbeat_sent {
                    old(self).timers@[gid.0].election_reset(now_ms).heartbeat_reset(now_ms)
                } else {
                    old(self).timers@[gid.0].election_reset(now_ms)
                },
            ),
    {
        match self.timers.entry(gid.0) {
            Entry::Occupied(slot) => {
                let t = slot.into_mut();
                t.reset_election(now_ms);
                if heartbeat_sent {
                    t.reset_heartbeat(now_ms);
                }
            },
            Entry::Vacant(_) => {},
        }
        assert(self.timers@.dom() =~= old(self).timers@.dom());
        assert(!old(self).hosts(gid.0) ==> self.timers@ =~= old(self).timers@);
    }
}

impl<S: RaftStorage, T, M: StateMachine> MultiRaftDriver<S, T, M> {
    /// The groups with a timer that is due.
    pub fn due_groups(&self, now_ms: u64) -> (r: Vec<u64>)
        ensures
            r@.no_duplicates(),
            forall|g: u64| #[trigger]
                r@.contains(g) <==> self.timers@.dom().contains(g) && self.timers@[g].due(now_ms),
    {
        let mut out: Vec<u64> = Vec::new();
        for key in it: self.timers.keys()
            invariant
                it.seq().unref().to_set() == self.timers@.dom(),
                it.seq().no_duplicates(),
                out@.no_duplicates(),
                forall|j: int|
                    0 <= j < out@.len() ==> self.timers@[#[trigger] out@[j]].due(now_ms)
                        && it.seq().take(it.index()).contains(&out@[j]),
                forall|i: int|
                    0 <= i < it.index() && self.timers@[*#[trigger] it.seq()[i]].due(now_ms)
                        ==> out@.contains(*it.seq()[i]),
        {
            let ghost held = out@;
            let ghost seen = it.seq().take(it.index());
            let ghost more = it.seq().take(it.index() + 1);
            proof {
                assert(it.seq().unref()[it.index()] == *key);
                assert(it.seq().unref().to_set().contains(*key));
                assert(more[it.index()] == key);
                assert forall|x: &u64| seen.contains(x) implies more.contains(x) by {
                    let i = choose|i: int| 0 <= i < seen.len() && seen[i] == x;
                    assert(more[i] == x);
                }
                assert(!held.contains(*key)) by {
                    if held.contains(*key) {
                        let j = choose|j: int| 0 <= j < held.len() && held[j] == *key;
                        let i = choose|i: int| 0 <= i < seen.len() && seen[i] == &held[j];
                        assert(it.seq()[i] == it.seq()[it.index()]);
                    }
                }
            }
            match self.timers.get(key) {
                Some(t) => {
                    if now_ms >= t.next_heartbeat_ms || now_ms >= t.next_election_ms {
                        out.push(*key);
                        assert(out@[held.len() as int] == *key);
                        assert forall|x: u64| held.contains(x) implies out@.contains(x) by {
                            let j = choose|j: int| 0 <= j < held.len() && held[j] == x;
                            assert(out@[j] == x);
                        }
                    }
                },
                None => {},
            }
        }
        proof {
            let keys = self.timers.keys().remaining();
            assert forall|g: u64| #[trigger] out@.contains(g) implies self.timers@.dom().contains(
                g,
            ) && self.timers@[g].due(now_ms) by {
                let j = choose|j: int| 0 <= j < out@.len() && out@[j] == g;
                let i = choose|i: int| 0 <= i < keys.len() && keys[i] == &out@[j];
                assert(keys.unref()[i] == g);
            }
            assert forall|g: u64|
                self.timers@.dom().contains(g) && self.timers@[g].due(now_ms) implies
                #[trigger] out@.contains(g) by {
                assert(keys.unref().to_set().contains(g));
                let i = choose|i: int| 0 <= i < keys.unref().len() && keys.unref()[i] == g;
                assert(*keys[i] == g);
            }
        }
        out
    }
}

impl<S: RaftStorage, T, M: StateMachine> MultiRaftDriver<S, T, M> {
    /// How long the driver may wait for a frame: until the first timer is due,
    /// and at most `max_wait`, in milliseconds.
    pub fn idle_wait(&self, max_wait: u64, now_ms: u64) -> (r: u64)
        ensures
            r <= max_wait,
            forall|g: u64, t: u64|
                self.timers@.dom().contains(g) && now_ms <= t < now_ms + r ==> !(
                #[trigger] self.timers@[g].due(t)),
            r < max_wait ==> now_ms + r <= u64::MAX && exists|g: u64| #[trigger]
                self.timers@.dom().contains(g) && self.timers@[g].due((now_ms + r) as u64),
    {
        let mut wait: u64 = max_wait;
        for key in it: self.timers.keys()
            invariant
                it.seq().unref().to_set() == self.timers@.dom(),
                wait <= max_wait,
                forall|i: int, t: u64|
                    0 <= i < it.index() && now_ms <= t < now_ms + wait ==> !(
                    #[trigger] self.timers@[*it.seq()[i]].due(t)),
                wait < max_wait ==> now_ms + wait <= u64::MAX && exists|g: u64| #[trigger]
                    self.timers@.dom().contains(g) && self.timers@[g].due((now_ms + wait) as u64),
        {
            proof {
                assert(it.seq().unref()[it.index()] == *key);
                assert(it.seq().unref().to_set().contains(*key));
            }
            match self.timers.get(key) {
                Some(t) => {
                    let ghost before = wait;
                    wait = t.wait_at_most(wait, now_ms);
                    proof {
                        if wait < before {
                            assert(self.timers@.dom().contains(*key));
                            assert(self.timers@[*key].due((now_ms + wait) as u64));
                        }
                    }
                },
                None => {},
            }
        }
        proof {
            let keys = self.timers.keys().remaining();
            assert forall|g: u64, t: u64|
                self.timers@.dom().contains(g) && now_ms <= t < now_ms + wait implies !(
            #[trigger] self.timers@[g].due(t)) by {
                assert(keys.unref().to_set().contains(g));
                let i = choose|i: int| 0 <= i < keys.unref().len() && keys.unref()[i] == g;
                assert(*keys[i] == g);
                assert(!self.timers@[*keys[i]].due(t));
            }
        }
        wait
    }

    /// Takes the next frame that was parked while some group waited for its own
    /// answers.
    pub fn drain_parked(&mut self, out: &mut [u8]) -> (r: Result<Option<(u64, usize)>, RaftError>)
        requires
            old(self).wf(),
        ensures
            final(self).wf(),
            final(self).registry.groups@ == old(self).registry.groups@,
            final(self).timers@ == old(self).timers@,
            final(self).unknown_frames == old(self).unknown_frames,
            drain_outcome(
                old(self).demux.state@,
                old(out)@,
                r,
                final(self).demux.state@,
                final(out)@,
            ),
    {
        let r = self.demux.pop_parked_into(out);
        assert(self.demux.state@.groups =~= old(self).demux.state@.groups);
        r
    }
}

/// How servicing the timers of one group came out.
pub open spec fn tick_outcome<S: RaftStorage, T, M: StateMachine>(
    before: MultiRaftDriver<S, T, M>,
    gid: u64,
    now_ms: u64,
    r: Result<GroupTick, RaftError>,
    after: MultiRaftDriver<S, T, M>,
) -> bool {
    if !before.hosts(gid) {
        &&& r == Ok::<GroupTick, RaftError>(GroupTick::Idle)
        &&& after.registry.groups@ == before.registry.groups@
        &&& after.timers@ == before.timers@
    } else {
        let node = before.registry.groups@[gid].node@;
        let t = before.timers@[gid];
        let beat = now_ms >= t.next_heartbeat_ms;
        let beaten = if beat {
            t.heartbeat_reset(now_ms)
        } else {
            t
        };
        let entry = after.registry.groups@[gid];
        if node.leads() {
            &&& after.timers@ == before.timers@.insert(gid, beaten)
            &&& after.registry.groups@ == before.registry.groups@.insert(gid, entry)
            &&& entry.machine == before.registry.groups@[gid].machine
            &&& if !beat {
                r == Ok::<GroupTick, RaftError>(GroupTick::Idle) && entry
                    == before.registry.groups@[gid]
            } else if node.majority(node.active_voters(now_ms)) {
                r == Ok::<GroupTick, RaftError>(GroupTick::Heartbeat) && entry
                    == before.registry.groups@[gid]
            } else {
                &&& r matches Ok(tick) ==> tick is Abdicated
                &&& r matches Err(e) ==> S::fails_with(e)
                &&& step_down_outcome(
                    node,
                    before.registry.groups@[gid].storage.model(),
                    node.hard.current_term,
                    match r {
                        Ok(_) => Ok(()),
                        Err(e) => Err(e),
                    },
                    entry.node@,
                    entry.storage.model(),
                )
            }
        } else {
            &&& after.registry.groups@ == before.registry.groups@
            &&& if now_ms >= t.next_election_ms {
                &&& r == Ok::<GroupTick, RaftError>(
                    GroupTick::Campaign { forced: t.forced_campaign },
                )
                &&& after.timers@ == before.timers@.insert(
                    gid,
                    (GroupTimers { forced_campaign: false, ..beaten }).election_reset(now_ms),
                )
            } else {
                &&& r == Ok::<GroupTick, RaftError>(GroupTick::Idle)
                &&& after.timers@ == before.timers@.insert(gid, beaten)
            }
        }
    }
}

/// How the check of a proposal's payload came out.
pub open spec fn payload_outcome(payload: Seq<u8>, r: Result<(), RaftError>) -> bool {
    if payload.len() > MAX_ENTRY_PAYLOAD {
        r matches Err(RaftError::InvalidPayload(m)) && m@
            == "payload exceeds MAX_ENTRY_PAYLOAD and would not fit a peer's frame buffer"@
    } else if payload.len() > 0 && payload[0] == CONFIG_CHANGE_MAGIC {
        r matches Err(RaftError::InvalidPayload(m)) && m@
            == "payload first byte collides with reserved config-change magic (0xC0)"@
    } else {
        r is Ok
    }
}

/// Whether a proposal's payload is accepted: it fits a peer's frame, and it is
/// not taken for a membership change.
pub fn check_payload(payload: &[u8]) -> (r: Result<(), RaftError>)
    ensures
        payload_outcome(payload@, r),
{
    if payload.len() > MAX_ENTRY_PAYLOAD {
        return Err(
            RaftError::InvalidPayload(
                text("payload exceeds MAX_ENTRY_PAYLOAD and would not fit a peer's frame buffer"),
            ),
        );
    }
    if payload.len() > 0 && payload[0] == CONFIG_CHANGE_MAGIC {
        return Err(
            RaftError::InvalidPayload(
                text("payload first byte collides with reserved config-change magic (0xC0)"),
            ),
        );
    }
    Ok(())
}

/// What a timer makes of an election: one without a majority, or with an error
/// that can be tolerated, is lost; damage to the node's own durable state is an
/// error.
pub fn tolerate_election(r: Result<bool, RaftError>) -> (out: Result<bool, RaftError>)
    ensures
        match r {
            Ok(won) => out == Ok::<bool, RaftError>(won),
            Err(e) => if e.class_spec() is Fatal {
                out == r
            } else {
                out == Ok::<bool, RaftError>(false)
            },
        },
{
    match r {
        Ok(won) => Ok(won),
        Err(e) => if e.is_fatal() {
            Err(e)
        } else {
            Ok(false)
        },
    }
}

/// What a group's timers call for. A leader sends heartbeats when they are due and never
/// campaigns; when they are due and it is not in contact with a majority of its voters, it
/// gives way instead, at its own term. Anybody else campaigns when the election is due,
/// without a pre-vote where that was sanctioned, and puts the next election off; a
/// sanction is used once.
pub proof fn law_timers_call_for_what_is_due<S: RaftStorage, T, M: StateMachine>(
    before: MultiRaftDriver<S, T, M>,
    gid: u64,
    now_ms: u64,
    tick: GroupTick,
    after: MultiRaftDriver<S, T, M>,
)
    requires
        before.wf(),
        before.registry.groups@.dom().contains(gid),
        tick_outcome(before, gid, now_ms, Ok(tick), after),
        now_ms + before.timers@[gid].election_max_ms <= u64::MAX,
        now_ms + before.timers@[gid].heartbeat_ms <= u64::MAX,
    ensures
        ({
            let node = before.registry.groups@[gid].node@;
            let t = before.timers@[gid];
            let n = after.timers@[gid];
            let entry = after.registry.groups@[gid];
            let leads = node.soft.role == Role::Leader;
            let beat = now_ms >= t.next_heartbeat_ms;
            let in_contact = node.majority(node.active_voters(now_ms));
            &&& leads ==> {
                &&& tick is Heartbeat <==> beat && in_contact
                &&& tick is Abdicated <==> beat && !in_contact
                &&& tick is Abdicated ==> entry.node@.soft.role == Role::Follower
                    && entry.node@.hard.current_term == node.hard.current_term
                &&& !(tick is Abdicated) ==> entry.node@ == node
                &&& n.next_election_ms == t.next_election_ms
            }
            &&& !leads ==> {
                &&& tick is Campaign <==> now_ms >= t.next_election_ms
                &&& tick matches GroupTick::Campaign { forced } ==> forced == t.forced_campaign
                    && !n.forced_campaign && now_ms + t.election_min_ms <= n.next_election_ms
                    <= now_ms + t.election_max_ms
                &&& !(tick is Campaign) ==> tick is Idle && n.next_election_ms
                    == t.next_election_ms && n.forced_campaign == t.forced_campaign
                &&& entry.node@ == node
            }
            &&& beat ==> n.next_heartbeat_ms == now_ms + t.heartbeat_ms
            &&& !beat ==> n.next_heartbeat_ms == t.next_heartbeat_ms
        }),
        forall|g: u64|
            g != gid && before.registry.groups@.dom().contains(g) ==> #[trigger]
                after.timers@[g] == before.timers@[g] && after.registry.groups@[g]
                == before.registry.groups@[g],
{
    let t = before.timers@[gid];
    assert(before.timers@.dom().contains(gid));
    law_election_timeouts_are_in_range(t, now_ms);
    let beaten = if now_ms >= t.next_heartbeat_ms {
        t.heartbeat_reset(now_ms)
    } else {
        t
    };
    law_election_timeouts_are_in_range(GroupTimers { forced_campaign: false, ..beaten }, now_ms);
}

/// A frame reaches only the group that it is for. One for a group that is not hosted here
/// is counted and dropped; any other leaves every other group, and what is parked, as it
/// was.
pub proof fn law_frames_reach_only_their_group<'a, S: RaftStorage, T, M: StateMachine>(
    before: MultiRaftDriver<S, T, M>,
    gid: u64,
    frame: Seq<u8>,
    now_ms: u64,
    action: InboundAction<'a>,
    r: Result<(), RaftError>,
    after: MultiRaftDriver<S, T, M>,
    g: u64,
)
    requires
        route_outcome(before, gid, frame, now_ms, action, r, after),
    ensures
        !before.registry.groups@.dom().contains(gid) ==> {
            &&& r is Ok && action is Done
            &&& after.registry.groups@ == before.registry.groups@
            &&& after.timers@ == before.timers@
            &&& before.unknown_frames < u64::MAX ==> after.unknown_frames == before.unknown_frames
                + 1
        },
        before.registry.groups@.dom().contains(gid) ==> after.unknown_frames
            == before.unknown_frames,
        g != gid && before.registry.groups@.dom().contains(g) ==> after.registry.groups@[g]
            == before.registry.groups@[g] && after.registry.groups@.dom().contains(g),
        after.registry.groups@.dom().contains(g) ==> before.registry.groups@.dom().contains(g),
        after.demux.state@ == before.demux.state@,
{
}

/// A payload that is accepted is never taken for a membership change or for the leader's
/// no-op entry, and an entry with it fits the frame of any receiver. One is refused only
/// where it is longer than 65024 bytes or begins with the reserved byte.
pub proof fn law_accepted_payloads_are_commands_that_fit(
    payload: Seq<u8>,
    r: Result<(), RaftError>,
    from: u64,
    group_id: u64,
    request: AppendEntries,
    term: Term,
    index: LogIndex,
)
    requires
        payload_outcome(payload, r),
    ensures
        r is Ok ==> {
            &&& decode_config(payload) is None
            &&& payload != noop_bytes()
            &&& frame(
                from,
                group_id,
                KIND_APPEND_ENTRIES,
                batch_body(request, seq![EntryRecord { term, index, payload }]),
            ).len() <= 65536
        },
        r is Err ==> payload.len() > 65024 || (payload.len() > 0 && payload[0] == 0xC0),
{
    if r is Ok {
        law_control_entries_are_told_apart(payload);
        law_lone_entry_fits(from, group_id, request, EntryRecord { term, index, payload });
    }
}

} // verus!
