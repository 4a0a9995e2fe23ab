use std::collections::BTreeMap;
use std::sync::Arc;

use arbitro_raft::registry::apply::apply_group;
use arbitro_raft::registry::driver::{check_payload, tolerate_election};
use arbitro_raft::registry::hasher::GroupIdHasher;
use arbitro_raft::registry::timers::{mix64, GroupTimers};
use arbitro_raft::registry::turn::{Turn, TurnStage, TurnStep, TURN_FRAMES};
use arbitro_raft::time::Duration;
use arbitro_raft::traits::{Image, MachineModel, StorageModel};
use arbitro_raft::transport::multiplex::{frame_group, DemuxState, MAX_INBOX_FRAMES};
use arbitro_raft::{
    decode_message, encode_message_to_bytes, AppendEntries, EntryPayload, ErrorClass, GroupEntry,
    GroupId, GroupTick, HardState, InboundAction, IoFault, IoFaultKind, LogEntry, LogIndex,
    MultiRaftDriver, MultiplexDemux, MultiplexedTransport, NodeConfig, PeerId, RaftError,
    RaftGroupRegistry, RaftMessage, RaftNode, RaftStorage, RequestVote, Role, SnapshotMeta,
    StateMachine, Term, TimeoutNow, TimingConfig,
};

/// Storage in memory.
#[derive(Debug, Default)]
struct MemStorage {
    hard_state: HardState,
    log: BTreeMap<u64, (Term, Vec<u8>)>,
    tip: (u64, Term),
    snapshot: Option<(SnapshotMeta, Vec<u8>)>,
    full: bool,
}

impl MemStorage {
    fn with_log(terms: &[u64]) -> Self {
        let mut storage = MemStorage::default();
        for (i, term) in terms.iter().enumerate() {
            let index = i as u64 + 1;
            storage.log.insert(index, (Term(*term), vec![index as u8]));
            storage.tip = (index, Term(*term));
        }
        storage
    }

    fn check_space(&self) -> Result<(), RaftError> {
        if self.full {
            let message = "disk full".to_string();
            return Err(RaftError::Io(IoFault { kind: IoFaultKind::StorageFull, message }));
        }
        Ok(())
    }

    fn refresh_tip(&mut self) {
        self.tip = match self.log.iter().next_back() {
            Some((index, (term, _))) => (*index, *term),
            None => match &self.snapshot {
                Some((meta, _)) => (meta.last_included_index.0, meta.last_included_term),
                None => (0, Term(0)),
            },
        };
    }

    fn terms(&self) -> Vec<(u64, u64)> {
        self.log.iter().map(|(index, (term, _))| (*index, term.0)).collect()
    }
}

impl RaftStorage for MemStorage {
    fn model(&self) -> StorageModel {
        unreachable!()
    }

    fn fails_with(_: RaftError) -> bool {
        unreachable!()
    }

    fn load_hard_state(&self) -> Result<HardState, RaftError> {
        Ok(self.hard_state)
    }

    fn save_hard_state(&mut self, hard_state: &HardState) -> Result<(), RaftError> {
        self.check_space()?;
        self.hard_state = *hard_state;
        Ok(())
    }

    fn term_at(&self, index: LogIndex) -> Result<Option<Term>, RaftError> {
        Ok(self.log.get(&index.0).map(|(term, _)| *term))
    }

    fn entry_at<'a>(
        &self,
        index: LogIndex,
        buf: &'a mut [u8],
    ) -> Result<Option<LogEntry<'a>>, RaftError> {
        match self.log.get(&index.0) {
            None => Ok(None),
            Some((term, payload)) => {
                buf[..payload.len()].copy_from_slice(payload);
                let buf: &'a [u8] = buf;
                let payload = EntryPayload(&buf[..payload.len()]);
                Ok(Some(LogEntry { term: *term, index, payload }))
            }
        }
    }

    fn read_entries<'a>(
        &self,
        from: LogIndex,
        to: LogIndex,
        out: &mut Vec<LogEntry<'a>>,
        buf: &'a mut Vec<u8>,
    ) -> Result<(), RaftError> {
        let mut places = Vec::new();
        let mut index = from.0;
        buf.clear();
        while index <= to.0 {
            let Some((term, payload)) = self.log.get(&index) else { break };
            places.push((*term, index, buf.len(), payload.len()));
            buf.extend_from_slice(payload);
            index += 1;
        }
        let bytes: &'a [u8] = buf;
        for (term, index, at, len) in places {
            let payload = EntryPayload(&bytes[at..at + len]);
            out.push(LogEntry { term, index: LogIndex(index), payload });
        }
        Ok(())
    }

    fn append_entries(&mut self, entries: &[LogEntry<'_>]) -> Result<(), RaftError> {
        self.check_space()?;
        for e in entries {
            self.log.insert(e.index.0, (e.term, e.payload.0.to_vec()));
        }
        self.refresh_tip();
        Ok(())
    }

    fn truncate_suffix(&mut self, from: LogIndex) -> Result<(), RaftError> {
        self.log.retain(|index, _| *index < from.0);
        self.refresh_tip();
        Ok(())
    }

    fn truncate_before(&mut self, up_to: LogIndex) -> Result<(), RaftError> {
        self.log.retain(|index, _| *index >= up_to.0);
        self.refresh_tip();
        Ok(())
    }

    fn last_log_position(&self) -> Result<(LogIndex, Term), RaftError> {
        Ok((LogIndex(self.tip.0), self.tip.1))
    }

    fn save_snapshot(&mut self, meta: &SnapshotMeta, bytes: &[u8]) -> Result<(), RaftError> {
        self.check_space()?;
        self.snapshot = Some((*meta, bytes.to_vec()));
        Ok(())
    }

    fn load_snapshot_meta(&self) -> Result<Option<SnapshotMeta>, RaftError> {
        Ok(self.snapshot.as_ref().map(|(meta, _)| *meta))
    }

    fn load_snapshot(&self) -> Result<Option<(SnapshotMeta, Vec<u8>)>, RaftError> {
        Ok(self.snapshot.clone())
    }
}

/// A state machine that remembers what it has been through.
#[derive(Debug, Default)]
struct MemMachine {
    image: Option<Vec<u8>>,
    applied: Vec<(u64, Vec<u8>)>,
}

impl StateMachine for MemMachine {
    fn model(&self) -> MachineModel {
        unreachable!()
    }

    fn captured_by(&self, _: Image) -> bool {
        unreachable!()
    }

    fn fails_with(_: RaftError) -> bool {
        unreachable!()
    }

    fn apply_at(&mut self, index: LogIndex, payload: &[u8]) -> Result<(), RaftError> {
        self.applied.push((index.0, payload.to_vec()));
        Ok(())
    }

    fn snapshot(&self) -> Result<Vec<u8>, RaftError> {
        let mut bytes = self.image.clone().unwrap_or_default();
        for (_, payload) in &self.applied {
            bytes.extend_from_slice(payload);
        }
        Ok(bytes)
    }

    fn restore(&mut self, bytes: &[u8]) -> Result<(), RaftError> {
        self.image = Some(bytes.to_vec());
        self.applied.clear();
        Ok(())
    }
}

fn vote_frame(group: u64, from: u64) -> Vec<u8> {
    let ask = RequestVote { term: 1, candidate_id: from, last_log_index: 0, last_log_term: 0 };
    stamped(group, from, &RaftMessage::RequestVote(ask))
}

fn stamped(group: u64, from: u64, msg: &RaftMessage<'_>) -> Vec<u8> {
    let bytes = encode_message_to_bytes(PeerId(from), msg).unwrap();
    let transport = MultiplexedTransport::new(Arc::new(()), GroupId(group));
    transport.stamp_owned(bytes).unwrap().to_vec()
}

fn append_frame(group: u64, commit: u64, entries: &[LogEntry<'_>]) -> Vec<u8> {
    let ae = AppendEntries {
        term: 1,
        leader_id: 2,
        prev_log_index: 0,
        prev_log_term: 0,
        leader_commit: commit,
        entry_count: entries.len() as u32,
        _pad: 0,
    };
    stamped(group, 2, &RaftMessage::AppendEntriesVectored(ae, entries))
}

fn entry(index: u64, payload: &[u8]) -> LogEntry<'_> {
    LogEntry { term: Term(1), index: LogIndex(index), payload: EntryPayload(payload) }
}

fn config(id: u64) -> NodeConfig {
    NodeConfig {
        node_id: PeerId(id),
        peers: vec![PeerId(1), PeerId(2), PeerId(3)],
        ..NodeConfig::default()
    }
}

fn driver(groups: &[u64]) -> MultiRaftDriver<MemStorage, (), MemMachine> {
    let mut d = MultiRaftDriver::new(Arc::new(()));
    for gid in groups {
        d.add_group(GroupId(*gid), config(1), MemStorage::default(), MemMachine::default(), 0)
            .unwrap();
    }
    d
}

// One transport, many groups.

#[test]
fn stamped_frames_name_their_group() {
    let frame = vote_frame(0x0102, 9);
    assert_eq!(frame_group(&frame), Some(0x0102));
    assert_eq!(&frame[24..32], &[2, 1, 0, 0, 0, 0, 0, 0]);
    let inbound = decode_message(&frame).unwrap();
    assert_eq!((inbound.group_id, inbound.from), (GroupId(0x0102), PeerId(9)));
    assert_eq!(frame_group(&frame[..31]), None);

    let transport = MultiplexedTransport::new(Arc::new(()), GroupId(5));
    assert_eq!(transport.group_id(), GroupId(5));
    let (header, rest) = transport.stamp_first(&frame).unwrap();
    assert_eq!(header.len(), 32);
    assert_eq!(frame_group(&[&header[..], rest].concat()), Some(5));
    assert_eq!(rest, &frame[32..]);
    match transport.stamp_first(&frame[..31]) {
        Err(RaftError::Protocol(words)) => {
            assert_eq!(words, "multiplex: frame too small to stamp group_id")
        }
        other => panic!("{:?}", other),
    }
    match transport.stamp_owned(Vec::from(&frame[..31]).into()) {
        Err(RaftError::Protocol(words)) => {
            assert_eq!(words, "multiplex: frame too short to stamp group_id")
        }
        other => panic!("{:?}", other),
    }
}

#[test]
fn shared_frames_are_copied_before_they_are_stamped() {
    let ask = RequestVote { term: 1, candidate_id: 1, last_log_index: 0, last_log_term: 0 };
    let bytes = encode_message_to_bytes(PeerId(1), &RaftMessage::RequestVote(ask)).unwrap();
    let kept = bytes.clone();
    let transport = MultiplexedTransport::new(Arc::new(()), GroupId(6));
    let out = transport.stamp_owned(bytes).unwrap();
    assert_eq!(frame_group(&out), Some(6));
    assert_eq!(frame_group(&kept), Some(0));
    assert_eq!(out.len(), kept.len());
}

#[test]
fn frames_for_other_groups_are_parked() {
    let mut state = DemuxState::new();
    state.register(1);
    state.register(2);
    let mine = vote_frame(1, 9);
    let theirs = vote_frame(2, 9);
    assert!(state.sort_frame(1, &mine));
    assert!(!state.sort_frame(1, &theirs));
    let mut out = vec![0u8; 4096];
    assert_eq!(state.try_pop_into(1, &mut out).unwrap(), None);
    assert_eq!(state.try_pop_into(2, &mut out).unwrap(), Some(theirs.len()));
    assert_eq!(&out[..theirs.len()], &theirs[..]);
    assert_eq!(state.try_pop_into(2, &mut out).unwrap(), None);

    assert!(!state.sort_frame(1, &vote_frame(3, 9)));
    assert!(!state.sort_frame(1, b"short"));
    assert_eq!(state.unknown_group, 2);
}

#[test]
fn parked_frames_are_drained_oldest_first() {
    let mut state = DemuxState::new();
    state.register(1);
    state.register(2);
    let frames = [vote_frame(1, 4), vote_frame(1, 5), vote_frame(2, 6)];
    for frame in &frames {
        state.park(frame_group(frame).unwrap(), frame);
    }
    let mut out = vec![0u8; 4096];
    let mut seen = Vec::new();
    while let Some((gid, len)) = state.pop_parked_into(&mut out).unwrap() {
        seen.push((gid, decode_message(&out[..len]).unwrap().from.0));
    }
    assert_eq!(seen, vec![(1, 4), (1, 5), (2, 6)]);

    // A group that takes its own frame leaves the order of the rest alone.
    let more = [vote_frame(1, 4), vote_frame(2, 5), vote_frame(1, 6), vote_frame(2, 7)];
    for frame in &more {
        state.park(frame_group(frame).unwrap(), frame);
    }
    assert_eq!(state.try_pop_into(2, &mut out).unwrap(), Some(64));
    assert_eq!(decode_message(&out[..64]).unwrap().from.0, 5);
    let mut seen = Vec::new();
    while let Some((gid, len)) = state.pop_parked_into(&mut out).unwrap() {
        seen.push((gid, decode_message(&out[..len]).unwrap().from.0));
    }
    assert_eq!(seen, vec![(1, 4), (1, 6), (2, 7)]);

    // A group that leaves takes its frames with it.
    for frame in &frames {
        state.park(frame_group(frame).unwrap(), frame);
    }
    state.unregister(1);
    assert_eq!(state.pop_parked_into(&mut out).unwrap(), Some((2, 64)));
    assert_eq!(state.pop_parked_into(&mut out).unwrap(), None);
}

#[test]
fn small_buffers_and_full_inboxes_lose_frames() {
    let mut state = DemuxState::new();
    state.register(1);
    let frame = vote_frame(1, 4);
    state.park(1, &frame);
    let mut tiny = vec![0u8; 8];
    match state.try_pop_into(1, &mut tiny) {
        Err(RaftError::Transport(words)) => {
            assert_eq!(words, "multiplex: recv buffer smaller than parked frame")
        }
        other => panic!("{:?}", other),
    }
    for _ in 0..MAX_INBOX_FRAMES + 3 {
        state.park(1, &frame);
    }
    assert_eq!(state.overflow_dropped, 3);
    state.unregister(1);
    assert!(state.pop_parked_into(&mut tiny).unwrap().is_none());
}

#[test]
fn demux_hands_out_transports() {
    let mut demux = MultiplexDemux::new(Arc::new("wire"));
    let transport = demux.transport(GroupId(3));
    assert_eq!(transport.group_id(), GroupId(3));
    assert_eq!(*transport.inner(), "wire");
    assert_eq!(**demux.inner(), "wire");
    demux.state.park(3, &vote_frame(3, 4));
    demux.state.park(4, &vote_frame(4, 4));
    assert_eq!(demux.unknown_group_frames(), 1);
    assert_eq!(demux.overflow_dropped_frames(), 0);
    let mut out = vec![0u8; 256];
    assert_eq!(demux.pop_parked_into(&mut out).unwrap(), Some((3, 64)));
    demux.unregister(GroupId(3));
    demux.state.park(3, &vote_frame(3, 4));
    assert_eq!(demux.unknown_group_frames(), 2);
}

// The state machine.

#[test]
fn committed_entries_apply_in_order_and_once() {
    let mut storage = MemStorage::with_log(&[1, 1, 1]);
    let mut n = RaftNode::new(config(1), &storage).unwrap();
    let mut machine = MemMachine::default();
    let mut buf = vec![0u8; 64];
    n.set_commit_index(LogIndex(2));
    apply_group(&mut n, &mut storage, &mut machine, &mut buf).unwrap();
    assert_eq!(machine.applied, vec![(1, vec![1]), (2, vec![2])]);
    assert_eq!(n.last_applied(), LogIndex(2));
    apply_group(&mut n, &mut storage, &mut machine, &mut buf).unwrap();
    assert_eq!(machine.applied.len(), 2);
    n.set_commit_index(LogIndex(3));
    apply_group(&mut n, &mut storage, &mut machine, &mut buf).unwrap();
    assert_eq!(machine.applied[2], (3, vec![3]));
    assert_eq!(n.compaction_debt_entries, 3);
}

// Many groups.

#[test]
fn registry_holds_each_group_once() {
    let mut registry: RaftGroupRegistry<MemStorage, MemMachine> = RaftGroupRegistry::new();
    assert!(registry.is_empty());
    let make = || {
        let storage = MemStorage::default();
        let node = RaftNode::new(config(1), &storage).unwrap();
        GroupEntry { node, storage, machine: MemMachine::default() }
    };
    registry.insert(GroupId(4), make()).unwrap();
    assert!(registry.insert(GroupId(4), make()).is_err());
    assert_eq!(registry.len(), 1);
    assert!(registry.get(GroupId(4)).is_some());
    assert!(registry.get(GroupId(5)).is_none());
    registry.state_machine_mut(GroupId(4)).unwrap().applied.push((1, vec![]));
    assert_eq!(registry.state_machine(GroupId(4)).unwrap().applied.len(), 1);
    assert!(registry.get_mut(GroupId(5)).is_none());

    let frame = vote_frame(4, 2);
    let (action, result) = registry.dispatch(decode_message(&frame).unwrap(), 0);
    result.unwrap();
    assert!(matches!(action, InboundAction::Vote(resp) if resp.vote_granted == 1));
    let stray = vote_frame(5, 2);
    let (_, result) = registry.dispatch(decode_message(&stray).unwrap(), 0);
    assert!(result.is_err());

    assert!(registry.remove(GroupId(4)).is_some());
    assert!(registry.remove(GroupId(4)).is_none());
}

#[test]
fn groups_do_not_see_each_others_frames() {
    let mut d = driver(&[1, 2]);
    let mut buf = vec![0u8; 256];
    let frame = append_frame(2, 1, &[entry(1, b"only-two")]);
    let (action, result) = d.route_raw(&frame, 10, &mut buf);
    result.unwrap();
    assert!(matches!(action, InboundAction::Append(resp) if resp.success == 1));
    assert_eq!(d.state_machine(GroupId(2)).unwrap().applied, vec![(1, b"only-two".to_vec())]);
    assert!(d.state_machine(GroupId(1)).unwrap().applied.is_empty());
    assert_eq!(d.group(GroupId(1)).unwrap().current_term(), Term(0));
    assert_eq!(d.group(GroupId(2)).unwrap().current_term(), Term(1));
}

#[test]
fn frames_for_unknown_groups_are_counted() {
    let mut d = driver(&[1]);
    let mut buf = vec![0u8; 256];
    d.route_raw(&vote_frame(9, 2), 0, &mut buf).1.unwrap();
    d.route_raw(b"short", 0, &mut buf).1.unwrap();
    d.dispatch_frame(GroupId(8), &vote_frame(8, 2), 0, &mut buf).1.unwrap();
    assert_eq!(d.unknown_group_frames(), 3);
    assert_eq!(d.group_idle_scratch_bytes(GroupId(1)), Some(0));
    assert_eq!(d.group_idle_scratch_bytes(GroupId(9)), None);
}

#[test]
fn driver_hosts_each_group_once() {
    let mut d = driver(&[1]);
    match d.add_group(GroupId(1), config(1), MemStorage::default(), MemMachine::default(), 0) {
        Err(RaftError::Protocol(words)) => assert_eq!(words, "duplicate group id 1"),
        _ => panic!("hosted twice"),
    }
    let mut bad = config(1);
    bad.learners = vec![PeerId(2)];
    match d.add_group(GroupId(2), bad, MemStorage::default(), MemMachine::default(), 0) {
        Err(RaftError::InvalidConfig(words)) => {
            assert_eq!(words, "learners must be disjoint from peers")
        }
        _ => panic!("bad configuration"),
    }
    assert_eq!(d.len(), 1);
    match d.require_group(GroupId(2)) {
        Err(RaftError::Protocol(words)) => assert_eq!(words, "no group 2 in driver"),
        _ => panic!("group 2 is not hosted"),
    }
    assert!(d.require_group(GroupId(1)).is_ok());
    assert!(d.remove_group(GroupId(1)).is_some());
    assert!(d.remove_group(GroupId(1)).is_none());
    assert!(d.is_empty());
}

#[test]
fn turns_take_frames_before_timers() {
    let d = driver(&[7]);
    let wait = Duration::from_millis(5);
    let mut turn = Turn::new();
    assert_eq!(d.turn_step(&turn, wait, 0), TurnStep::Parked);
    turn.note(true);
    assert_eq!(d.turn_step(&turn, wait, 0), TurnStep::Parked);
    turn.note(false);
    assert_eq!(d.turn_step(&turn, wait, 0), TurnStep::Poll);
    turn.note(true);
    assert_eq!(d.turn_step(&turn, wait, 0), TurnStep::Poll);
    turn.note(false);
    // Something was there, so nothing more is waited for.
    assert_eq!(d.turn_step(&turn, wait, 0), TurnStep::Timers);
    assert_eq!(turn.handled, 2);

    let mut turn = Turn::new();
    turn.note(false);
    turn.note(false);
    assert_eq!(d.turn_step(&turn, wait, 0), TurnStep::Wait(wait));
    turn.note(true);
    assert_eq!(d.turn_step(&turn, wait, 0), TurnStep::Timers);
    assert_eq!(turn.handled, 1);
}

#[test]
fn turns_are_bounded() {
    let d = driver(&[7]);
    let wait = Duration::from_millis(5);
    let mut turn = Turn::new();
    for _ in 0..100 {
        assert_eq!(d.turn_step(&turn, wait, 0), TurnStep::Parked);
        turn.note(true);
    }
    turn.note(false);
    for _ in 0..28 {
        assert_eq!(d.turn_step(&turn, wait, 0), TurnStep::Poll);
        turn.note(true);
    }
    assert_eq!(turn.handled, TURN_FRAMES);
    assert_eq!(d.turn_step(&turn, wait, 0), TurnStep::Timers);
    turn.note(true);
    assert_eq!(turn.handled, 128);
}

#[test]
fn elections_and_heartbeats_come_due() {
    let mut d = driver(&[7]);
    assert_eq!(d.tick_group(GroupId(7), 10).unwrap(), GroupTick::Idle);
    // Election timeouts lie between 300 and 600 milliseconds.
    assert_eq!(d.tick_group(GroupId(7), 601).unwrap(), GroupTick::Campaign { forced: false });
    assert_eq!(d.tick_group(GroupId(9), 601).unwrap(), GroupTick::Idle);
    d.note_campaign(GroupId(7), true, 601);
    assert_eq!(d.due_groups(650), Vec::<u64>::new());
    assert_eq!(d.due_groups(651), vec![7]);
    assert_eq!(d.idle_wait(1_000, 641), 10);
    assert_eq!(d.idle_wait(3, 641), 3);
    // An idle turn waits for a frame, but not past the heartbeat.
    let idle = Turn { stage: TurnStage::Idle, handled: 0 };
    let second = Duration::from_secs(1);
    assert_eq!(d.turn_step(&idle, second, 641), TurnStep::Wait(Duration::from_millis(10)));
    let short = Duration::new(0, 2_500_000);
    assert_eq!(d.turn_step(&idle, short, 641), TurnStep::Wait(short));
    assert_eq!(d.turn_step(&idle, Duration::zero(), 641), TurnStep::Timers);
    assert_eq!(d.turn_step(&idle, second, 651), TurnStep::Timers);

    d.require_group(GroupId(7)).ok().unwrap().node.become_leader_for_benchmark(Term(1), 660);
    assert_eq!(d.tick_group(GroupId(7), 660).unwrap(), GroupTick::Heartbeat);
    // Without contact to a majority the leader gives way.
    assert_eq!(d.tick_group(GroupId(7), 90_000).unwrap(), GroupTick::Abdicated);
    assert_eq!(d.group(GroupId(7)).unwrap().role(), Role::Follower);
}

#[test]
fn sanctioned_campaign_is_due_at_once() {
    let mut d = driver(&[7]);
    let mut buf = vec![0u8; 256];
    d.route_raw(&append_frame(7, 0, &[]), 100, &mut buf).1.unwrap();
    let sanction = stamped(7, 2, &RaftMessage::TimeoutNow(TimeoutNow { term: 1, leader_id: 2 }));
    d.route_raw(&sanction, 101, &mut buf).1.unwrap();
    assert_eq!(d.tick_group(GroupId(7), 101).unwrap(), GroupTick::Campaign { forced: true });
}

#[test]
fn parked_frames_reach_the_driver() {
    let mut d = driver(&[1, 2]);
    let frame = vote_frame(2, 3);
    d.demux.state.park(2, &frame);
    let mut out = vec![0u8; 256];
    assert_eq!(d.drain_parked(&mut out).unwrap(), Some((2, frame.len())));
    assert_eq!(&out[..frame.len()], &frame[..]);
    assert_eq!(d.drain_parked(&mut out).unwrap(), None);
}

#[test]
fn reserved_and_oversized_payloads_are_refused() {
    assert!(check_payload(b"fine").is_ok());
    assert!(check_payload(b"").is_ok());
    match check_payload(&[0xC0, 1]) {
        Err(RaftError::InvalidPayload(words)) => assert_eq!(
            words,
            "payload first byte collides with reserved config-change magic (0xC0)",
        ),
        other => panic!("{:?}", other),
    }
    assert!(check_payload(&vec![0; 64 * 1024 - 512]).is_ok());
    assert!(check_payload(&vec![0; 64 * 1024 - 511]).is_err());
}

#[test]
fn lost_elections_are_tolerated() {
    assert!(tolerate_election(Ok(true)).unwrap());
    assert!(!tolerate_election(Err(RaftError::NoQuorum)).unwrap());
    let broken = tolerate_election(Err(RaftError::Storage("gone".to_string()))).unwrap_err();
    assert_eq!(broken.class(), ErrorClass::Fatal);
}

#[test]
fn timeouts_are_spread_deterministically() {
    assert_eq!(mix64(1), 0x5692_161d_100b_05e5);
    assert_eq!(mix64(0x1234_5678_9abc_def0), 0x9629_f58e_8ec5_b906);
    let timing = TimingConfig { heartbeat_ms: 50, election_min_ms: 300, election_max_ms: 600 };
    let t = GroupTimers::new(GroupId(7), 1, timing, 1_000);
    assert_eq!(t.next_election_ms, 1_000 + 558);
    assert_eq!(t.next_heartbeat_ms, 1_050);
    assert_eq!(t.wait_at_most(500, 1_040), 10);
}

#[test]
fn group_numbers_hash_by_one_multiplication() {
    let mut hasher = GroupIdHasher::default();
    hasher.write_u64(1);
    assert_eq!(hasher.finish(), 0x9e37_79b9_e17d_05ac);
    hasher.write_u64(42);
    assert_eq!(hasher.finish(), 0xf519_f86e_1721_a31c);
    let mut hasher = GroupIdHasher::default();
    hasher.write(&[1, 2]);
    assert_eq!(hasher.finish(), 0x1bb3_2095_d76e_7176);
}
