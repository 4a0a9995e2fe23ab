use std::collections::BTreeMap;

use arbitro_raft::dispatch::{DispatchNodeRole, DispatchRoute, DispatchScope};
use arbitro_raft::node::election::{CampaignStep, VoteStep};
use arbitro_raft::node::generational::LogMetadataArena;
use arbitro_raft::node::inbound::tolerate;
use arbitro_raft::node::membership::{apply_if_config_change, is_noop_entry, noop_entry};
use arbitro_raft::node::progress::{PeerMap, PendingSnapshot};
use arbitro_raft::node::quorum::{has_majority, quorum, quorum_value};
use arbitro_raft::node::read_index::{ConfirmStep, ReadStart};
use arbitro_raft::node::replication::gather::{GatherAction, GatherStep};
use arbitro_raft::node::replication::heartbeat::{
    after_escalation, classify_escalation, HeartbeatStep, SnapshotEscalation,
};
use arbitro_raft::node::replication::heartbeat_batch::{
    bucket_group_heartbeats, heartbeat_slices, PeerBuckets,
};
use arbitro_raft::node::replication::propose::{before_batch, should_use_vectored, VecTuning};
use arbitro_raft::node::replication::shared::require_term;
use arbitro_raft::node::snapshot_install::{StreamEvent, StreamStep};
use arbitro_raft::node::transfer::{TransferStart, TransferStep};
use arbitro_raft::traits::{Image, MachineModel, StorageModel};
use arbitro_raft::{
    decode_message, encode_message_to_bytes, validate_node_config, AppendEntries,
    AppendEntriesResp, BootstrapPeer, ClusterId, ConfigChangeEntry, ConfigChangePhase, EntryPayload, ErrorClass, GroupId,
    HardState, InboundAction, InboundRaftMessage, InstallSnapshot, InstallSnapshotResp, IoFault,
    IoFaultKind, LeaderHint, LogEntry, LogIndex, NodeConfig, PeerId, RaftError, RaftMessage,
    RaftNode, RaftStorage, RequestVote, RequestVoteResp, Role, SnapshotMeta, StateMachine, Term,
    TimeoutNow,
};

/// Storage in memory.
#[derive(Debug, Default)]
struct MemStorage {
    hard_state: HardState,
    log: BTreeMap<u64, (Term, Vec<u8>)>,
    tip: (u64, Term),
    snapshot: Option<(SnapshotMeta, Vec<u8>)>,
    full: bool,
    unreadable: bool,
}

impl MemStorage {
    fn with_log(terms: &[u64]) -> Self {
        let mut storage = MemStorage::default();
        for (i, term) in terms.iter().enumerate() {
            let index = i as u64 + 1;
            storage.log.insert(index, (Term(*term), vec![index as u8]));
            storage.tip = (index, Term(*term));
        }
        storage
    }

    fn check_space(&self) -> Result<(), RaftError> {
        if self.full {
            let message = "disk full".to_string();
            return Err(RaftError::Io(IoFault { kind: IoFaultKind::StorageFull, message }));
        }
        Ok(())
    }

    fn refresh_tip(&mut self) {
        self.tip = match self.log.iter().next_back() {
            Some((index, (term, _))) => (*index, *term),
            None => match &self.snapshot {
                Some((meta, _)) => (meta.last_included_index.0, meta.last_included_term),
                None => (0, Term(0)),
            },
        };
    }

    fn terms(&self) -> Vec<(u64, u64)> {
        self.log.iter().map(|(index, (term, _))| (*index, term.0)).collect()
    }
}

impl RaftStorage for MemStorage {
    fn model(&self) -> StorageModel {
        unreachable!()
    }

    fn fails_with(_: RaftError) -> bool {
        unreachable!()
    }

    fn load_hard_state(&self) -> Result<HardState, RaftError> {
        Ok(self.hard_state)
    }

    fn save_hard_state(&mut self, hard_state: &HardState) -> Result<(), RaftError> {
        self.check_space()?;
        self.hard_state = *hard_state;
        Ok(())
    }

    fn term_at(&self, index: LogIndex) -> Result<Option<Term>, RaftError> {
        Ok(self.log.get(&index.0).map(|(term, _)| *term))
    }

    fn entry_at<'a>(
        &self,
        index: LogIndex,
        buf: &'a mut [u8],
    ) -> Result<Option<LogEntry<'a>>, RaftError> {
        match self.log.get(&index.0) {
            None => Ok(None),
            Some((term, payload)) => {
                buf[..payload.len()].copy_from_slice(payload);
                let buf: &'a [u8] = buf;
                let payload = EntryPayload(&buf[..payload.len()]);
                Ok(Some(LogEntry { term: *term, index, payload }))
            }
        }
    }

    fn read_entries<'a>(
        &self,
        from: LogIndex,
        to: LogIndex,
        out: &mut Vec<LogEntry<'a>>,
        buf: &'a mut Vec<u8>,
    ) -> Result<(), RaftError> {
        if self.unreadable {
            let message = "bad sector".to_string();
            return Err(RaftError::Io(IoFault { kind: IoFaultKind::Other, message }));
        }
        let mut places = Vec::new();
        let mut index = from.0;
        buf.clear();
        while index <= to.0 {
            let Some((term, payload)) = self.log.get(&index) else { break };
            places.push((*term, index, buf.len(), payload.len()));
            buf.extend_from_slice(payload);
            index += 1;
        }
        let bytes: &'a [u8] = buf;
        for (term, index, at, len) in places {
            let payload = EntryPayload(&bytes[at..at + len]);
            out.push(LogEntry { term, index: LogIndex(index), payload });
        }
        Ok(())
    }

    fn append_entries(&mut self, entries: &[LogEntry<'_>]) -> Result<(), RaftError> {
        self.check_space()?;
        for e in entries {
            self.log.insert(e.index.0, (e.term, e.payload.0.to_vec()));
        }
        self.refresh_tip();
        Ok(())
    }

    fn truncate_suffix(&mut self, from: LogIndex) -> Result<(), RaftError> {
        self.log.retain(|index, _| *index < from.0);
        self.refresh_tip();
        Ok(())
    }

    fn truncate_before(&mut self, up_to: LogIndex) -> Result<(), RaftError> {
        self.log.retain(|index, _| *index >= up_to.0);
        self.refresh_tip();
        Ok(())
    }

    fn last_log_position(&self) -> Result<(LogIndex, Term), RaftError> {
        Ok((LogIndex(self.tip.0), self.tip.1))
    }

    fn save_snapshot(&mut self, meta: &SnapshotMeta, bytes: &[u8]) -> Result<(), RaftError> {
        self.check_space()?;
        self.snapshot = Some((*meta, bytes.to_vec()));
        Ok(())
    }

    fn load_snapshot_meta(&self) -> Result<Option<SnapshotMeta>, RaftError> {
        Ok(self.snapshot.as_ref().map(|(meta, _)| *meta))
    }

    fn load_snapshot(&self) -> Result<Option<(SnapshotMeta, Vec<u8>)>, RaftError> {
        Ok(self.snapshot.clone())
    }
}

/// A state machine that remembers what it has been through.
#[derive(Debug, Default)]
struct MemMachine {
    image: Option<Vec<u8>>,
    applied: Vec<(u64, Vec<u8>)>,
}

impl StateMachine for MemMachine {
    fn model(&self) -> MachineModel {
        unreachable!()
    }

    fn captured_by(&self, _: Image) -> bool {
        unreachable!()
    }

    fn fails_with(_: RaftError) -> bool {
        unreachable!()
    }

    fn apply_at(&mut self, index: LogIndex, payload: &[u8]) -> Result<(), RaftError> {
        self.applied.push((index.0, payload.to_vec()));
        Ok(())
    }

    fn snapshot(&self) -> Result<Vec<u8>, RaftError> {
        let mut bytes = self.image.clone().unwrap_or_default();
        for (_, payload) in &self.applied {
            bytes.extend_from_slice(payload);
        }
        Ok(bytes)
    }

    fn restore(&mut self, bytes: &[u8]) -> Result<(), RaftError> {
        self.image = Some(bytes.to_vec());
        self.applied.clear();
        Ok(())
    }
}

fn ids(raw: &[u64]) -> Vec<PeerId> {
    raw.iter().map(|id| PeerId(*id)).collect()
}

fn config(id: u64, peers: &[u64]) -> NodeConfig {
    NodeConfig { node_id: PeerId(id), peers: ids(peers), ..NodeConfig::default() }
}

fn node(id: u64, peers: &[u64], storage: &MemStorage) -> RaftNode {
    RaftNode::new(config(id, peers), storage).unwrap()
}

/// A leader of term 1 among `peers`, whose log has the terms `terms`.
fn leader(peers: &[u64], terms: &[u64], term: u64) -> (RaftNode, MemStorage) {
    let mut storage = MemStorage::with_log(terms);
    storage.hard_state = HardState { current_term: Term(term), voted_for: Some(PeerId(1)) };
    let mut n = node(1, peers, &storage);
    n.become_leader_for_benchmark(Term(term), 0);
    (n, storage)
}

fn ack(term: u64, match_index: u64, success: bool) -> AppendEntriesResp {
    AppendEntriesResp { term, match_index, success: success as u8, _pad: [0; 7] }
}

fn request(term: u64, prev: (u64, u64), commit: u64, entry_count: u32) -> AppendEntries {
    AppendEntries {
        term,
        leader_id: 1,
        prev_log_index: prev.0,
        prev_log_term: prev.1,
        leader_commit: commit,
        entry_count,
        _pad: 0,
    }
}

fn frame(from: u64, msg: &RaftMessage<'_>) -> Vec<u8> {
    encode_message_to_bytes(PeerId(from), msg).unwrap().to_vec()
}

fn append_frame(ae: AppendEntries, entries: &[LogEntry<'_>]) -> Vec<u8> {
    frame(1, &RaftMessage::AppendEntriesVectored(ae, entries))
}

fn entry(term: u64, index: u64, payload: &[u8]) -> LogEntry<'_> {
    LogEntry { term: Term(term), index: LogIndex(index), payload: EntryPayload(payload) }
}

fn answer(from: u64, term: u64, granted: bool) -> InboundRaftMessage<'static> {
    InboundRaftMessage {
        from: PeerId(from),
        group_id: GroupId(0),
        message: RaftMessage::RequestVoteResp(RequestVoteResp {
            term,
            vote_granted: granted as u8,
            _pad: [0; 7],
        }),
    }
}

fn not_leader_hint(error: RaftError) -> Option<PeerId> {
    match error {
        RaftError::NotLeader { leader_hint } => leader_hint.map(|h| h.leader_id),
        other => panic!("{:?}", other),
    }
}

// Construction.

#[test]
fn node_starts_from_what_its_storage_holds() {
    let mut storage = MemStorage::with_log(&[1, 1, 2]);
    storage.hard_state = HardState { current_term: Term(4), voted_for: Some(PeerId(2)) };
    let n = node(1, &[1, 2, 3], &storage);
    assert_eq!(n.role(), Role::Follower);
    assert_eq!(n.current_term(), Term(4));
    assert_eq!(n.hard_state().voted_for, Some(PeerId(2)));
    assert_eq!(n.node_id(), PeerId(1));
    assert_eq!(n.peers(), &ids(&[1, 2, 3]));
    assert_eq!(n.commit_index(), LogIndex(0));
    assert_eq!(n.last_applied(), LogIndex(0));
    assert_eq!(n.leader_id(), None);
    let status = n.status();
    assert_eq!(status.last_log_index, LogIndex(3));
    assert_eq!(status.voter_count, 3);
    assert!(!status.config_change_in_progress);
}

#[test]
fn default_config_has_the_documented_limits() {
    let c = NodeConfig::default();
    assert_eq!(c.timing.heartbeat_ms, 50);
    assert_eq!((c.timing.election_min_ms, c.timing.election_max_ms), (300, 600));
    assert_eq!(c.limits.append_batch_bytes, 256 * 1024);
    assert_eq!(c.limits.append_batch_entries, 1024);
    assert_eq!(c.limits.max_snapshot_bytes, 4 * 1024 * 1024 * 1024);
    assert_eq!(c.limits.compaction_threshold_bytes, 64 * 1024 * 1024);
    assert_eq!(c.limits.client_mailbox_capacity, 8_192);
}

#[test]
fn a_learner_is_no_voter() {
    let mut c = config(1, &[1, 2]);
    c.learners = ids(&[3]);
    assert!(validate_node_config(&c).is_ok());
    c.learners = ids(&[3, 2]);
    assert!(matches!(validate_node_config(&c), Err(RaftError::InvalidConfig(_))));
    assert!(RaftNode::new(c, &MemStorage::default()).is_err());
}

// Elections.

#[test]
fn election_is_won_by_a_majority() {
    let mut s1 = MemStorage::default();
    let mut n1 = node(1, &[1, 2, 3], &s1);
    let req = n1.start_campaign(&mut s1).unwrap().unwrap();
    assert_eq!(req, RequestVote { term: 1, candidate_id: 1, last_log_index: 0, last_log_term: 0 });
    assert_eq!(n1.role(), Role::Candidate);
    assert_eq!(s1.hard_state, HardState { current_term: Term(1), voted_for: Some(PeerId(1)) });
    assert_eq!(n1.other_voters(), ids(&[2, 3]));

    let mut s2 = MemStorage::default();
    let mut n2 = node(2, &[1, 2, 3], &s2);
    let bytes = frame(1, &RaftMessage::RequestVote(req));
    let (action, result) = n2.handle_frame(&mut s2, &bytes, 10);
    result.unwrap();
    let resp = match action {
        InboundAction::Vote(resp) => resp,
        other => panic!("{:?}", other),
    };
    assert_eq!(resp, RequestVoteResp { term: 1, vote_granted: 1, _pad: [0; 7] });
    assert_eq!(s2.hard_state, HardState { current_term: Term(1), voted_for: Some(PeerId(1)) });

    let mut tally = n1.open_tally(&ids(&[2, 3])).unwrap();
    assert!(!n1.tally_suffices(&tally));
    let frames = [InboundRaftMessage {
        from: PeerId(2),
        group_id: GroupId(0),
        message: RaftMessage::RequestVoteResp(resp),
    }];
    let step = n1.count_answers(&mut s1, &mut tally, &frames, false).unwrap();
    assert_eq!(step, CampaignStep::Won);
    assert!(n1.claim_leadership(Term(1), 20));
    assert!(n1.is_leader());
    assert_eq!(n1.leader_id(), Some(PeerId(1)));
    let counters = n1.metrics().snapshot();
    assert_eq!((counters.elections_started, counters.elections_won), (1, 1));
    assert_eq!(n1.peer_progress(PeerId(2)), Some((LogIndex(1), LogIndex(0))));
}

#[test]
fn one_vote_per_term() {
    let mut storage = MemStorage::default();
    let mut n = node(3, &[1, 2, 3], &storage);
    let from_one = RequestVote { term: 5, candidate_id: 1, last_log_index: 0, last_log_term: 0 };
    let from_two = RequestVote { candidate_id: 2, ..from_one };
    assert_eq!(n.handle_request_vote(&mut storage, &from_one).unwrap().vote_granted, 1);
    let second = n.handle_request_vote(&mut storage, &from_two).unwrap();
    assert_eq!((second.term, second.vote_granted), (5, 0));
    // The vote is repeated to whom it was given.
    assert_eq!(n.handle_request_vote(&mut storage, &from_one).unwrap().vote_granted, 1);
    // A node that starts again remembers it.
    let mut again = node(3, &[1, 2, 3], &storage);
    assert_eq!(again.handle_request_vote(&mut storage, &from_two).unwrap().vote_granted, 0);
}

#[test]
fn votes_need_a_log_at_least_as_new() {
    let mut storage = MemStorage::with_log(&[1, 2, 2]);
    let mut n = node(3, &[1, 2, 3], &storage);
    let older_term = RequestVote { term: 9, candidate_id: 1, last_log_index: 50, last_log_term: 1 };
    assert_eq!(n.handle_request_vote(&mut storage, &older_term).unwrap().vote_granted, 0);
    assert_eq!(n.current_term(), Term(9));
    let shorter = RequestVote { term: 9, candidate_id: 1, last_log_index: 2, last_log_term: 2 };
    assert_eq!(n.handle_request_vote(&mut storage, &shorter).unwrap().vote_granted, 0);
    let equal = RequestVote { term: 9, candidate_id: 1, last_log_index: 3, last_log_term: 2 };
    assert_eq!(n.handle_request_vote(&mut storage, &equal).unwrap().vote_granted, 1);
}

#[test]
fn answers_count_once_and_only_from_voters() {
    let mut storage = MemStorage::default();
    let mut n = node(1, &[1, 2, 3, 4, 5], &storage);
    n.start_campaign(&mut storage).unwrap();
    let mut tally = n.open_tally(&ids(&[2, 3, 4, 5])).unwrap();
    let frames = [answer(2, 1, true), answer(2, 1, true), answer(9, 1, true), answer(3, 1, false)];
    let step = n.count_answers(&mut storage, &mut tally, &frames, false).unwrap();
    assert_eq!(step, CampaignStep::Undecided);
    let step = n.count_answers(&mut storage, &mut tally, &[answer(4, 1, true)], false).unwrap();
    assert_eq!(step, CampaignStep::Won);
}

#[test]
fn votes_are_awaited_until_they_decide() {
    let mut storage = MemStorage::default();
    let mut n = node(1, &[1, 2, 3], &storage);
    n.start_campaign(&mut storage).unwrap();
    let term = Term(1);
    let mut tally = n.open_tally(&ids(&[2, 3])).unwrap();
    assert_eq!(n.vote_step(&tally, term, false, true, 500, 100).unwrap(), VoteStep::Wait(400));
    // Silence, or the end of the time, is no quorum.
    let silent = n.vote_step(&tally, term, false, false, 500, 100);
    assert!(matches!(silent, Err(RaftError::NoQuorum)));
    let late = n.vote_step(&tally, term, false, true, 500, 500);
    assert!(matches!(late, Err(RaftError::NoQuorum)));
    // Who is no longer the candidate of the term has lost.
    assert_eq!(n.vote_step(&tally, Term(2), false, true, 500, 100).unwrap(), VoteStep::Lost);
    n.count_answers(&mut storage, &mut tally, &[answer(2, 1, false)], false).unwrap();
    assert_eq!(n.vote_step(&tally, term, false, true, 500, 499).unwrap(), VoteStep::Wait(1));
    let step = n.count_answers(&mut storage, &mut tally, &[answer(3, 1, true)], false).unwrap();
    assert_eq!(step, CampaignStep::Won);
    assert_eq!(n.vote_step(&tally, term, false, false, 500, 900).unwrap(), VoteStep::Won);
}

#[test]
fn lost_pre_votes_are_no_errors() {
    let storage = MemStorage::default();
    let n = node(1, &[1, 2, 3], &storage);
    let tally = n.open_tally(&ids(&[2, 3])).unwrap();
    assert_eq!(n.vote_step(&tally, Term(1), true, true, 50, 20).unwrap(), VoteStep::Wait(30));
    assert_eq!(n.vote_step(&tally, Term(1), true, false, 50, 20).unwrap(), VoteStep::Lost);
    assert_eq!(n.vote_step(&tally, Term(1), true, true, 50, 50).unwrap(), VoteStep::Lost);
    // The term has moved on to the one that the pre-vote is for.
    assert_eq!(n.vote_step(&tally, Term(0), true, true, 50, 20).unwrap(), VoteStep::Lost);
}

#[test]
fn newer_term_ends_a_campaign() {
    let mut storage = MemStorage::default();
    let mut n = node(1, &[1, 2, 3], &storage);
    n.start_campaign(&mut storage).unwrap();
    let mut tally = n.open_tally(&ids(&[2, 3])).unwrap();
    let step = n.count_answers(&mut storage, &mut tally, &[answer(2, 8, false)], false).unwrap();
    assert_eq!(step, CampaignStep::Deposed);
    assert_eq!(n.role(), Role::Follower);
    assert_eq!(storage.hard_state, HardState { current_term: Term(8), voted_for: None });
    assert!(!n.claim_leadership(Term(1), 0));
}

#[test]
fn single_voter_wins_alone_and_outsiders_never_campaign() {
    let mut storage = MemStorage::default();
    let mut n = node(1, &[1], &storage);
    n.start_campaign(&mut storage).unwrap().unwrap();
    let alone = match n.open_tally(&Vec::new()) {
        None => true,
        Some(tally) => n.tally_suffices(&tally),
    };
    assert!(alone);
    assert!(n.claim_leadership(Term(1), 0));

    let mut storage = MemStorage::default();
    let mut outsider = node(7, &[1, 2, 3], &storage);
    assert!(outsider.start_campaign(&mut storage).unwrap().is_none());
    assert!(outsider.start_pre_vote(&storage).unwrap().is_none());
    assert_eq!(outsider.current_term(), Term(0));
}

#[test]
fn pre_vote_protects_an_active_leader() {
    let mut storage = MemStorage::default();
    let mut n = node(3, &[1, 2, 3], &storage);
    let ask = RequestVote { term: 6, candidate_id: 2, last_log_index: 0, last_log_term: 0 };
    // A leader's heartbeat arrives at 1000.
    let beat = append_frame(request(5, (0, 0), 0, 0), &[]);
    let (_, result) = n.handle_frame(&mut storage, &beat, 1_000);
    result.unwrap();
    let refused = n.handle_pre_vote(&storage, &ask, 1_299).unwrap();
    assert_eq!((refused.term, refused.vote_granted), (5, 0));
    let granted = n.handle_pre_vote(&storage, &ask, 1_300).unwrap();
    assert_eq!(granted.vote_granted, 1);
    // Neither answer changed anything durable.
    assert_eq!(storage.hard_state.current_term, Term(5));
    assert_eq!(storage.hard_state.voted_for, None);

    let pre = n.start_pre_vote(&storage).unwrap().unwrap();
    assert_eq!(pre.term, 6);
    assert_eq!(n.current_term(), Term(5));
}

#[test]
fn failed_vote_write_grants_nothing() {
    let mut storage = MemStorage::default();
    let mut n = node(3, &[1, 2, 3], &storage);
    storage.full = true;
    let ask = RequestVote { term: 2, candidate_id: 1, last_log_index: 0, last_log_term: 0 };
    let error = n.handle_request_vote(&mut storage, &ask).unwrap_err();
    assert!(error.is_resource_exhaustion());
    assert!(!error.is_fatal());
    assert_eq!(storage.hard_state.voted_for, None);
}

// Replication.

#[test]
fn follower_takes_a_batch_and_the_commit_index() {
    let mut storage = MemStorage::default();
    let mut n = node(2, &[1, 2, 3], &storage);
    let entries = [entry(1, 1, b"a"), entry(1, 2, b"b")];
    let bytes = append_frame(AppendEntries { _pad: 77, ..request(1, (0, 0), 1, 2) }, &entries);
    let (action, result) = n.handle_frame(&mut storage, &bytes, 5);
    result.unwrap();
    let resp = match action {
        InboundAction::Append(resp) => resp,
        other => panic!("{:?}", other),
    };
    assert_eq!((resp.term, resp.success, resp.match_index), (1, 1, 2));
    // The probe's token comes back.
    assert_eq!(&resp._pad[..4], &77u32.to_le_bytes());
    assert_eq!(storage.terms(), vec![(1, 1), (2, 1)]);
    assert_eq!(n.commit_index(), LogIndex(1));
    assert_eq!(n.leader_id(), Some(PeerId(1)));

    // The same batch again changes nothing, and the commit index never goes back.
    let bytes = append_frame(request(1, (0, 0), 0, 2), &entries);
    let (_, result) = n.handle_frame(&mut storage, &bytes, 6);
    result.unwrap();
    assert_eq!(n.commit_index(), LogIndex(1));
    assert_eq!(storage.terms(), vec![(1, 1), (2, 1)]);
}

#[test]
fn conflicting_suffix_is_replaced() {
    let mut storage = MemStorage::with_log(&[1, 1, 2, 2]);
    storage.hard_state.current_term = Term(2);
    let mut n = node(2, &[1, 2, 3], &storage);
    let entries = [entry(3, 3, b"new")];
    let bytes = append_frame(request(3, (2, 1), 3, 1), &entries);
    let (action, result) = n.handle_frame(&mut storage, &bytes, 5);
    result.unwrap();
    assert!(matches!(action, InboundAction::Append(r) if r.success == 1 && r.match_index == 3));
    assert_eq!(storage.terms(), vec![(1, 1), (2, 1), (3, 3)]);
    assert_eq!(n.status().last_log_index, LogIndex(3));
    assert_eq!(n.commit_index(), LogIndex(3));
}

#[test]
fn gap_is_refused_with_a_hint_below_it() {
    let mut storage = MemStorage::with_log(&[1, 1]);
    storage.hard_state.current_term = Term(1);
    let mut n = node(2, &[1, 2, 3], &storage);
    let bytes = append_frame(request(1, (7, 1), 0, 0), &[]);
    let (action, result) = n.handle_frame(&mut storage, &bytes, 5);
    result.unwrap();
    match action {
        InboundAction::Append(r) => {
            assert_eq!(r.success, 0);
            assert!(r.match_index < 7 && r.match_index <= 2);
        }
        other => panic!("{:?}", other),
    }
    // An older term is refused with the newer one.
    storage.hard_state.current_term = Term(4);
    let mut n = node(2, &[1, 2, 3], &storage);
    let (action, result) = n.handle_frame(&mut storage, &bytes, 5);
    result.unwrap();
    assert!(matches!(action, InboundAction::Append(r) if r.success == 0 && r.term == 4));
}

#[test]
fn proposal_is_committed_by_a_majority() {
    let (mut n, mut storage) = leader(&[1, 2, 3], &[], 1);
    let payloads: [&[u8]; 2] = [b"x", b"y"];
    let entries = n.begin_propose(&mut storage, &payloads, 0).unwrap();
    assert_eq!(entries, vec![entry(1, 1, b"x"), entry(1, 2, b"y")]);
    assert_eq!(storage.terms(), vec![(1, 1), (2, 1)]);
    let req = n.initial_request(&storage, 2).unwrap();
    assert_eq!((req.prev_log_index, req.prev_log_term, req.entry_count), (0, 0, 2));
    let mut gather = n.open_gather(LogIndex(2), &ids(&[2, 3]));
    assert!(!n.gather_done(&gather));
    let resend = n.process_append_resp(&mut storage, &mut gather, PeerId(2), &ack(1, 2, true));
    assert_eq!(resend.unwrap(), None);
    assert!(n.gather_done(&gather));
    n.finish_propose(&storage, &gather).unwrap();
    assert_eq!(n.commit_index(), LogIndex(2));
}

#[test]
fn acks_are_awaited_until_they_decide() {
    let (mut n, mut storage) = leader(&[1, 2, 3], &[], 1);
    n.begin_propose(&mut storage, &[b"x"], 0).unwrap();
    let mut gather = n.open_gather(LogIndex(1), &ids(&[2, 3]));
    assert_eq!(n.gather_step(&gather, true, 100, 30), GatherStep::Wait(70));
    assert_eq!(n.gather_step(&gather, false, 100, 30), GatherStep::Done);
    assert_eq!(n.gather_step(&gather, true, 100, 99), GatherStep::Wait(1));
    assert_eq!(n.gather_step(&gather, true, 100, 100), GatherStep::Done);
    n.process_append_resp(&mut storage, &mut gather, PeerId(3), &ack(1, 1, true)).unwrap();
    assert_eq!(n.gather_step(&gather, true, 100, 30), GatherStep::Done);
    // Nobody was reached, so there is nobody to wait for.
    let nobody = n.open_gather(LogIndex(1), &Vec::new());
    assert_eq!(n.gather_step(&nobody, true, 100, 30), GatherStep::Done);
}

#[test]
fn frames_are_sorted_while_acks_are_gathered() {
    let (mut n, mut storage) = leader(&[1, 2, 3], &[1], 1);
    assert_eq!(n.gather_wait_ms(), 2 * n.timing().heartbeat_ms);
    n.begin_propose(&mut storage, &[b"a", b"b"], 0).unwrap();
    let mut gather = n.open_gather(LogIndex(3), &ids(&[2, 3]));
    // An ack for a part of the batch asks for the rest.
    let part = frame(2, &RaftMessage::AppendEntriesResp(ack(1, 0, false)));
    let (action, result) = n.gather_dispatch_frame(&mut storage, &mut gather, &part, 0);
    assert!(matches!(action, GatherAction::Resend(PeerId(2))));
    assert!(result.is_ok());
    assert!(!n.gather_done(&gather));
    // Other frames are answered as usual.
    let other = RequestVote { term: 1, candidate_id: 3, last_log_index: 0, last_log_term: 0 };
    let ask = frame(3, &RaftMessage::RequestVote(other));
    let (action, _) = n.gather_dispatch_frame(&mut storage, &mut gather, &ask, 0);
    match action {
        GatherAction::Frame(InboundAction::Vote(resp)) => assert_eq!(resp.vote_granted, 0),
        action => panic!("{:?}", action),
    }
    let (action, result) = n.gather_dispatch_frame(&mut storage, &mut gather, b"junk", 0);
    assert!(matches!(action, GatherAction::Frame(InboundAction::Done)));
    assert!(result.is_err());
    let whole = frame(3, &RaftMessage::AppendEntriesResp(ack(1, 3, true)));
    let (action, result) = n.gather_dispatch_frame(&mut storage, &mut gather, &whole, 0);
    assert!(matches!(action, GatherAction::Frame(InboundAction::Done)));
    assert!(result.is_ok());
    assert!(n.gather_done(&gather));
    n.finish_propose(&storage, &gather).unwrap();
    assert_eq!(n.commit_index(), LogIndex(3));
}

#[test]
fn proposals_are_refused_by_followers_and_when_empty() {
    let mut storage = MemStorage::default();
    let mut n = node(2, &[1, 2, 3], &storage);
    let payloads: [&[u8]; 1] = [b"x"];
    let error = n.begin_propose(&mut storage, &payloads, 0).unwrap_err();
    assert_eq!(error.class(), ErrorClass::NotLeaderRedirect);
    assert_eq!(not_leader_hint(error), None);
    let (mut n, mut storage) = leader(&[1, 2, 3], &[], 1);
    assert!(n.begin_propose(&mut storage, &[], 0).unwrap().is_empty());
    assert!(storage.log.is_empty());
}

#[test]
fn full_storage_refuses_a_proposal_cleanly() {
    let (mut n, mut storage) = leader(&[1, 2, 3], &[1], 1);
    storage.full = true;
    let payloads: [&[u8]; 1] = [b"x"];
    let error = n.begin_propose(&mut storage, &payloads, 0).unwrap_err();
    assert_eq!(error.class(), ErrorClass::Resource);
    assert_eq!(n.status().last_log_index, LogIndex(1));
    storage.full = false;
    assert_eq!(n.begin_propose(&mut storage, &payloads, 0).unwrap().len(), 1);
}

#[test]
fn entries_of_older_terms_are_not_committed_by_counting() {
    let (mut n, mut storage) = leader(&[1, 2, 3], &[1, 1], 3);
    n.handle_append_entries_response(&mut storage, PeerId(2), &ack(3, 2, true)).unwrap();
    n.try_advance_commit_index(&storage).unwrap();
    assert_eq!(n.commit_index(), LogIndex(0));
    let payloads: [&[u8]; 1] = [b"x"];
    n.begin_propose(&mut storage, &payloads, 0).unwrap();
    n.handle_append_entries_response(&mut storage, PeerId(2), &ack(3, 3, true)).unwrap();
    n.try_advance_commit_index(&storage).unwrap();
    assert_eq!(n.commit_index(), LogIndex(3));
}

#[test]
fn learners_do_not_commit() {
    let mut storage = MemStorage::default();
    let mut c = config(1, &[1, 2, 3]);
    c.learners = ids(&[4, 5]);
    let mut n = RaftNode::new(c, &storage).unwrap();
    n.become_leader_for_benchmark(Term(1), 0);
    let payloads: [&[u8]; 1] = [b"x"];
    n.begin_propose(&mut storage, &payloads, 0).unwrap();
    assert_eq!(n.replication_targets(), ids(&[2, 3, 4, 5]));
    let mut gather = n.open_gather(LogIndex(1), &ids(&[2, 3, 4, 5]));
    for learner in [4, 5] {
        n.process_append_resp(&mut storage, &mut gather, PeerId(learner), &ack(1, 1, true)).unwrap();
    }
    assert!(!n.gather_done(&gather));
    assert!(n.learner_caught_up(PeerId(4)).unwrap());
    n.try_advance_commit_index(&storage).unwrap();
    assert_eq!(n.commit_index(), LogIndex(0));
    assert!(matches!(n.learner_caught_up(PeerId(2)), Err(RaftError::PeerUnknown(PeerId(2)))));
}

#[test]
fn leader_walks_back_to_the_agreement_and_repairs() {
    let (mut n, storage) = leader(&[1, 2, 3], &[1, 1, 2, 2], 2);
    let mut storage = storage;
    assert_eq!(n.peer_progress(PeerId(2)), Some((LogIndex(5), LogIndex(0))));
    // The follower only agrees up to 1.
    n.handle_append_entries_response(&mut storage, PeerId(2), &ack(2, 1, false)).unwrap();
    let mut steps = 0;
    while n.peer_progress(PeerId(2)).unwrap().0 .0 > 2 {
        n.handle_append_entries_response(&mut storage, PeerId(2), &ack(2, 1, false)).unwrap();
        steps += 1;
        assert!(steps < 5);
    }
    let mut buf = Vec::new();
    let (req, entries, last) = n.build_append_for_peer(&storage, PeerId(2), &mut buf).unwrap();
    assert_eq!((req.prev_log_index, req.prev_log_term, req.entry_count), (1, 1, 3));
    assert_eq!(last, LogIndex(4));
    let follower_log = MemStorage::with_log(&[1, 9]);
    let mut follower_storage = follower_log;
    let mut follower = node(2, &[1, 2, 3], &follower_storage);
    let bytes = append_frame(req, &entries);
    let (_, result) = follower.handle_frame(&mut follower_storage, &bytes, 1);
    result.unwrap();
    assert_eq!(follower_storage.terms(), storage.terms());
    let mut none = Vec::new();
    assert!(matches!(
        n.build_append_for_peer(&storage, PeerId(8), &mut none),
        Err(RaftError::PeerUnknown(PeerId(8)))
    ));
}

#[test]
fn batches_stop_at_the_limit() {
    let storage = MemStorage::with_log(&[1, 1, 1, 1, 1]);
    let mut c = config(1, &[1, 2]);
    c.limits.append_batch_entries = 2;
    let mut n = RaftNode::new(c, &storage).unwrap();
    n.become_leader_for_benchmark(Term(1), 0);
    n.peer_progress.insert(
        PeerId(2),
        arbitro_raft::node::progress::PeerProgress {
            next_index: LogIndex(2),
            match_index: LogIndex(1),
        },
    );
    let mut buf = Vec::new();
    let (req, entries, last) = n.build_append_for_peer(&storage, PeerId(2), &mut buf).unwrap();
    assert_eq!(req.entry_count, 2);
    assert_eq!(entries.iter().map(|e| e.index.0).collect::<Vec<_>>(), vec![2, 3]);
    assert_eq!(last, LogIndex(3));
}

#[test]
fn newer_term_in_an_ack_deposes_the_leader() {
    let (mut n, mut storage) = leader(&[1, 2, 3], &[1], 1);
    n.handle_append_entries_response(&mut storage, PeerId(2), &ack(9, 0, false)).unwrap();
    assert!(!n.is_leader());
    assert_eq!(storage.hard_state.current_term, Term(9));
    assert_eq!(n.metrics().snapshot().step_downs, 1);
}

#[test]
fn heartbeats_are_bare_repairing_or_escalated() {
    let (mut n, storage) = leader(&[1, 2, 3], &[1, 1, 1], 1);
    assert_eq!(n.start_heartbeats(0).unwrap(), ids(&[2, 3]));
    match n.heartbeat_step(&storage, PeerId(2), false, 0) {
        HeartbeatStep::Bare(req) => {
            assert_eq!((req.prev_log_index, req.entry_count), (3, 0));
        }
        other => panic!("{:?}", other),
    }
    let lagging = arbitro_raft::node::progress::PeerProgress {
        next_index: LogIndex(2),
        match_index: LogIndex(1),
    };
    n.peer_progress.insert(PeerId(2), lagging);
    assert!(matches!(n.heartbeat_step(&storage, PeerId(2), false, 0), HeartbeatStep::Repair));
    let mut compacted = storage;
    compacted.truncate_before(LogIndex(3)).unwrap();
    assert!(matches!(n.heartbeat_step(&compacted, PeerId(2), false, 0), HeartbeatStep::Escalate));
    assert!(matches!(n.heartbeat_step(&compacted, PeerId(2), true, 0), HeartbeatStep::Skip));

    assert_eq!(classify_escalation(&Ok(true)), SnapshotEscalation::Streamed);
    assert_eq!(classify_escalation(&Ok(false)), SnapshotEscalation::Refused);
    assert_eq!(classify_escalation(&Err(RaftError::NoQuorum)), SnapshotEscalation::Failed);
    assert!(after_escalation(SnapshotEscalation::Failed));
    assert!(!after_escalation(SnapshotEscalation::Refused));
}

#[test]
fn heartbeat_is_skipped_where_the_log_cannot_be_read() {
    let (mut n, mut storage) = leader(&[1, 2, 3], &[1, 1], 1);
    storage.unreadable = true;
    assert!(n.build_heartbeat_wire(&storage, PeerId(2), 0).is_err());
    assert!(matches!(n.heartbeat_step(&storage, PeerId(2), false, 0), HeartbeatStep::Skip));
    storage.unreadable = false;
    let bare = n.build_heartbeat_wire(&storage, PeerId(2), 0).unwrap().unwrap();
    assert_eq!((bare.prev_log_index, bare.prev_log_term, bare.entry_count), (2, 1, 0));
    assert!(n.build_heartbeat_wire(&storage, PeerId(9), 0).is_err());
}

#[test]
fn batched_heartbeats_are_ordinary_frames() {
    let (mut n, storage) = leader(&[1, 2, 3], &[1], 1);
    let mut buckets = PeerBuckets::new();
    let (sent, skipped) = bucket_group_heartbeats(&mut n, &storage, GroupId(7), &mut buckets, 0);
    assert_eq!((sent, skipped), (2, 0));
    assert_eq!(buckets.buckets.len(), 2);
    let (peer, frames) = &buckets.buckets[0];
    assert_eq!(*peer, PeerId(2));
    let (mut bytes, body) = heartbeat_slices(&frames[0]);
    bytes.extend_from_slice(&body);
    let inbound = decode_message(&bytes).unwrap();
    assert_eq!(inbound.group_id, GroupId(7));
    assert_eq!(inbound.from, PeerId(1));
    assert_eq!(inbound.as_append_entries().unwrap().wire(), frames[0].ae);
}

#[test]
fn quorum_contact_is_watched() {
    let (mut n, _storage) = leader(&[1, 2, 3], &[], 1);
    assert!(n.check_quorum_active(0));
    let beat = RaftMessage::AppendEntriesResp(ack(1, 0, true));
    n.note_contact(PeerId(2), &beat, 10_000);
    assert!(n.check_quorum_active(10_100));
    assert!(!n.check_quorum_active(90_000));
    n.demote_to_follower_keep_term();
    assert!(!n.is_leader());
    assert_eq!(n.current_term(), Term(1));
}

#[test]
fn quorum_arithmetic() {
    assert_eq!((quorum(1), quorum(2), quorum(3), quorum(4), quorum(5)), (1, 2, 2, 3, 3));
    assert_eq!(quorum_value(&vec![5, 9, 7], 2), Some(7));
    assert_eq!(quorum_value(&vec![5, 9, 7], 3), Some(5));
    assert!(has_majority(&ids(&[1, 2, 3]), &ids(&[1, 3])));
    assert!(!has_majority(&ids(&[1, 2, 3]), &ids(&[1, 8, 9])));
    assert!(!has_majority(&ids(&[1, 2, 3]), &ids(&[1, 1, 1])));
}

#[test]
fn joint_commit_needs_both_majorities() {
    let (mut n, mut storage) = leader(&[1, 2, 3, 4, 5], &[], 1);
    n.joint_peers = Some((ids(&[1, 2, 3]), ids(&[1, 4, 5])));
    let payloads: [&[u8]; 1] = [b"x"];
    n.begin_propose(&mut storage, &payloads, 0).unwrap();
    for peer in [2, 3] {
        n.handle_append_entries_response(&mut storage, PeerId(peer), &ack(1, 1, true)).unwrap();
    }
    assert!(!n.index_meets_commit_quorum(LogIndex(1)));
    assert!(!n.propose_commit_reached(3, 3, LogIndex(1)));
    n.handle_append_entries_response(&mut storage, PeerId(4), &ack(1, 1, true)).unwrap();
    assert!(n.index_meets_commit_quorum(LogIndex(1)));
    n.try_advance_commit_index(&storage).unwrap();
    assert_eq!(n.commit_index(), LogIndex(1));
}

#[test]
fn vectored_sends_pay_off_for_large_entries() {
    let t = VecTuning::default();
    assert_eq!((t.force, t.iov_max, t.min_entry, t.min_total), (None, 4096, 4096, 64 * 1024));
    let big = vec![0u8; 40_000];
    let small = [1u8];
    assert!(should_use_vectored(&t, &[entry(1, 1, &big), entry(1, 2, &big)]));
    assert!(!should_use_vectored(&t, &[entry(1, 1, &big)]));
    assert!(!should_use_vectored(&t, &[entry(1, 1, &big), entry(1, 2, &big), entry(1, 3, &small)]));
    let forced = VecTuning { force: Some(true), ..VecTuning::default() };
    assert!(should_use_vectored(&forced, &[entry(1, 1, &small)]));
}

#[test]
fn holes_in_the_log_are_corruption() {
    match require_term(LogIndex(12), None) {
        Err(RaftError::CorruptLog(words)) => assert_eq!(words, "missing term at index 12"),
        other => panic!("{:?}", other),
    }
    assert_eq!(require_term(LogIndex(12), Some(Term(3))).unwrap(), Term(3));
    assert_eq!(before_batch(LogIndex(9), 4).unwrap(), LogIndex(5));
    let error = before_batch(LogIndex(2), 3).unwrap_err();
    assert!(error.is_fatal());
}

// Reads.

#[test]
fn reads_are_confirmed_by_fresh_acks_only() {
    let (mut n, mut storage) = leader(&[1, 2, 3], &[], 1);
    assert!(matches!(n.start_read(&storage, 0).unwrap(), ReadStart::ProposeNoop));
    let payloads: [&[u8]; 1] = [b"x"];
    n.begin_propose(&mut storage, &payloads, 0).unwrap();
    n.handle_append_entries_response(&mut storage, PeerId(2), &ack(1, 1, true)).unwrap();
    n.try_advance_commit_index(&storage).unwrap();
    match n.start_read(&storage, 0).unwrap() {
        ReadStart::Confirm(index) => assert_eq!(index, LogIndex(1)),
        ReadStart::ProposeNoop => panic!("an entry of the term is committed"),
    }
    let mut round = n.start_confirmation(100).unwrap();
    assert_eq!(n.confirmation_step(&mut round, 100).unwrap(), ConfirmStep::Heartbeat);
    assert_eq!(n.confirmation_step(&mut round, 101).unwrap(), ConfirmStep::Wait);
    let stale = InboundRaftMessage {
        from: PeerId(2),
        group_id: GroupId(0),
        message: RaftMessage::AppendEntriesResp(ack(1, 1, true)),
    };
    n.note_confirmation(&mut round, &stale);
    assert_eq!(n.confirmation_step(&mut round, 102).unwrap(), ConfirmStep::Wait);
    let mut fresh = ack(1, 1, true);
    fresh._pad[..4].copy_from_slice(&round.probe.to_le_bytes());
    let fresh = InboundRaftMessage {
        from: PeerId(2),
        group_id: GroupId(0),
        message: RaftMessage::AppendEntriesResp(fresh),
    };
    n.note_confirmation(&mut round, &fresh);
    assert_eq!(n.confirmation_step(&mut round, 103).unwrap(), ConfirmStep::Confirmed);
}

#[test]
fn reads_run_out_of_time() {
    let (mut n, _storage) = leader(&[1, 2, 3], &[], 1);
    let mut round = n.start_confirmation(0).unwrap();
    let late = round.deadline_ms;
    assert!(matches!(n.confirmation_step(&mut round, late), Err(RaftError::NoQuorum)));
    let (mut alone, _storage) = leader(&[1], &[], 1);
    assert!(alone.start_confirmation(0).is_none());
}

// Leadership transfer.

#[test]
fn transfer_waits_for_the_target_then_freezes_clients() {
    let (mut n, mut storage) = leader(&[1, 2, 3], &[1, 1], 1);
    assert!(matches!(n.start_transfer(PeerId(1), 0).unwrap(), TransferStart::AlreadyLeading));
    assert!(matches!(n.start_transfer(PeerId(9), 0), Err(RaftError::PeerUnknown(PeerId(9)))));
    let mut attempt = match n.start_transfer(PeerId(2), 0).unwrap() {
        TransferStart::CatchUp(attempt) => attempt,
        other => panic!("{:?}", other),
    };
    assert!(matches!(n.transfer_step(&mut attempt, 0).unwrap(), TransferStep::Heartbeat));
    n.note_probe(&mut attempt);
    assert!(matches!(n.transfer_step(&mut attempt, 1).unwrap(), TransferStep::Wait));
    n.handle_append_entries_response(&mut storage, PeerId(2), &ack(1, 2, true)).unwrap();
    match n.transfer_step(&mut attempt, 2).unwrap() {
        TransferStep::Sanction(msg) => assert_eq!(msg, TimeoutNow { term: 1, leader_id: 1 }),
        other => panic!("{:?}", other),
    }
    n.finish_transfer(PeerId(2), true, 10).unwrap();
    let payloads: [&[u8]; 1] = [b"x"];
    let error = n.begin_propose(&mut storage, &payloads, 20).unwrap_err();
    assert_eq!(not_leader_hint(error), Some(PeerId(2)));
    let error = n.begin_replicate(&mut storage, &payloads, 20).unwrap_err();
    assert_eq!(not_leader_hint(error), Some(PeerId(2)));
    assert!(matches!(
        n.start_read(&storage, 20),
        Err(RaftError::NotLeader { leader_hint: Some(LeaderHint { leader_id: PeerId(2) }) })
    ));
    // The window closes, and the leader resumes.
    assert!(!n.leadership_transfer_in_progress(1_000_000));
    assert_eq!(n.begin_propose(&mut storage, &payloads, 1_000_000).unwrap().len(), 1);
}

#[test]
fn transfer_probes_the_target_once_per_position() {
    let (mut n, mut storage) = leader(&[1, 2, 3], &[1; 9], 1);
    let mut attempt = match n.start_transfer(PeerId(2), 0).unwrap() {
        TransferStart::CatchUp(attempt) => attempt,
        other => panic!("{:?}", other),
    };
    assert!(matches!(n.transfer_step(&mut attempt, 0).unwrap(), TransferStep::Heartbeat));
    // An answer that comes in during the round moves the target; the round itself
    // has probed it there.
    n.handle_append_entries_response(&mut storage, PeerId(2), &ack(1, 4, false)).unwrap();
    assert_eq!(n.peer_progress(PeerId(2)), Some((LogIndex(9), LogIndex(0))));
    n.note_probe(&mut attempt);
    assert!(matches!(n.transfer_step(&mut attempt, 1).unwrap(), TransferStep::Wait));
    // One that comes in later calls for a request of its own.
    n.handle_append_entries_response(&mut storage, PeerId(2), &ack(1, 4, false)).unwrap();
    assert_eq!(n.peer_progress(PeerId(2)), Some((LogIndex(8), LogIndex(0))));
    assert!(matches!(n.transfer_step(&mut attempt, 2).unwrap(), TransferStep::SendTarget));
    assert!(matches!(n.transfer_step(&mut attempt, 3).unwrap(), TransferStep::Wait));
    let beat = n.timing().heartbeat_ms;
    assert!(matches!(n.transfer_step(&mut attempt, beat).unwrap(), TransferStep::Heartbeat));
}

#[test]
fn transfer_gives_up() {
    let (mut n, _storage) = leader(&[1, 2, 3], &[1, 1], 1);
    let mut attempt = match n.start_transfer(PeerId(2), 0).unwrap() {
        TransferStart::CatchUp(attempt) => attempt,
        other => panic!("{:?}", other),
    };
    assert!(matches!(
        n.transfer_step(&mut attempt, 1_000_000),
        Err(RaftError::TransferTimeout(PeerId(2)))
    ));
    match n.finish_transfer(PeerId(2), false, 0) {
        Err(RaftError::Transport(words)) => {
            assert_eq!(words, "leadership transfer: failed to send TimeoutNow to target")
        }
        other => panic!("{:?}", other),
    }
}

#[test]
fn sanctions_come_from_the_leader_and_expire() {
    let mut storage = MemStorage::default();
    let mut n = node(2, &[1, 2, 3], &storage);
    let beat = append_frame(request(5, (0, 0), 0, 0), &[]);
    n.handle_frame(&mut storage, &beat, 0).1.unwrap();
    let from_stranger = frame(3, &RaftMessage::TimeoutNow(TimeoutNow { term: 5, leader_id: 3 }));
    n.handle_frame(&mut storage, &from_stranger, 0).1.unwrap();
    assert!(!n.take_forced_campaign());
    let from_leader = frame(1, &RaftMessage::TimeoutNow(TimeoutNow { term: 5, leader_id: 1 }));
    n.handle_frame(&mut storage, &from_leader, 0).1.unwrap();
    assert!(n.take_forced_campaign());
    assert!(!n.take_forced_campaign());
    // A newer term makes an older sanction void.
    n.handle_frame(&mut storage, &from_leader, 0).1.unwrap();
    n.step_down(&mut storage, Term(6)).unwrap();
    assert!(!n.take_forced_campaign());
}

// Snapshots.

fn chunk(offset: u64, len: u32, done: bool) -> InstallSnapshot {
    InstallSnapshot {
        term: 3,
        leader_id: 1,
        last_included_index: 10,
        last_included_term: 2,
        offset,
        chunk_len: len,
        done: done as u8,
        _pad: [0; 3],
    }
}

#[test]
fn snapshot_streams_in_chunks_and_is_installed() {
    let (mut n, mut storage) = leader(&[1, 2, 3], &[], 3);
    n.config.limits.snapshot_chunk_bytes = 4;
    let image = b"0123456789".to_vec();
    let meta = SnapshotMeta { last_included_index: LogIndex(10), last_included_term: Term(2) };
    let mut stream = n.start_stream(PeerId(2), meta, image.len()).unwrap();
    let reply = InstallSnapshotResp { term: 1, next_offset: 0, accepted: 1, _pad: [0; 7] };
    let from_peer = |from: u64| InboundRaftMessage {
        from: PeerId(from),
        group_id: GroupId(0),
        message: RaftMessage::InstallSnapshotResp(reply),
    };
    assert!(stream.answer(&from_peer(2)).is_some());
    assert!(stream.answer(&from_peer(3)).is_none());

    let mut peer_storage = MemStorage::with_log(&[1, 1, 1]);
    let mut peer = node(2, &[1, 2, 3], &peer_storage);
    let mut sent = Vec::new();
    loop {
        let (req, end) = n.next_chunk(&stream);
        let part = &image[stream.offset..end];
        sent.push(part.to_vec());
        let bytes = frame(1, &RaftMessage::InstallSnapshot(req, part));
        let (action, result) = peer.handle_frame(&mut peer_storage, &bytes, 5);
        result.unwrap();
        let resp = match action {
            InboundAction::Snapshot(resp) => resp,
            other => panic!("{:?}", other),
        };
        assert_eq!(resp.accepted, 1);
        match n.stream_step(&mut storage, &mut stream, StreamEvent::Answer(resp)).unwrap() {
            StreamStep::Send => {}
            StreamStep::Installed => break,
            StreamStep::Wait => panic!("an answer is not waited out"),
        }
    }
    assert_eq!(sent.len(), 3);
    assert_eq!(sent.concat(), image);
    assert_eq!(peer_storage.snapshot, Some((meta, image.clone())));
    assert_eq!(peer.status().last_log_index, LogIndex(10));

    let mut machine = MemMachine::default();
    assert!(peer.restore_state_machine_from_snapshot(&mut peer_storage, &mut machine).unwrap());
    assert_eq!(machine.image, Some(image));
    assert_eq!(peer.last_applied(), LogIndex(10));
    assert!(peer.commit_index().0 >= 10);
    // It happens once.
    assert!(!peer.restore_state_machine_from_snapshot(&mut peer_storage, &mut machine).unwrap());

    n.snapshot_installed(PeerId(2), LogIndex(0));
    assert_eq!(n.peer_progress(PeerId(2)), Some((LogIndex(1), LogIndex(0))));
}

#[test]
fn log_past_an_installed_snapshot_stays_and_counts() {
    let mut storage = MemStorage::with_log(&[2; 12]);
    let mut n = node(2, &[1, 2, 3], &storage);
    let bytes = frame(1, &RaftMessage::InstallSnapshot(chunk(0, 2, true), b"ab"));
    let (action, result) = n.handle_frame(&mut storage, &bytes, 0);
    result.unwrap();
    assert!(matches!(action, InboundAction::Snapshot(resp) if resp.accepted == 1));
    // The snapshot covers up to 10; what is past it stays, and is the tip.
    assert_eq!(storage.terms(), vec![(11, 2), (12, 2)]);
    assert_eq!(n.status().last_log_index, LogIndex(12));
    // A candidate whose log ends before it is refused.
    let behind = RequestVote { term: 4, candidate_id: 3, last_log_index: 11, last_log_term: 2 };
    assert_eq!(n.handle_request_vote(&mut storage, &behind).unwrap().vote_granted, 0);
    assert_eq!(n.handle_pre_vote(&storage, &behind, 9_000).unwrap().vote_granted, 0);
    let equal = RequestVote { last_log_index: 12, ..behind };
    assert_eq!(n.handle_pre_vote(&storage, &equal, 9_000).unwrap().vote_granted, 1);
    assert_eq!(n.handle_request_vote(&mut storage, &equal).unwrap().vote_granted, 1);
    assert_eq!(n.start_pre_vote(&storage).unwrap().unwrap().last_log_index, 12);
    // The logs still agree at the boundary, whose entry is gone.
    let beat = append_frame(request(4, (10, 2), 0, 0), &[]);
    let (action, _) = n.handle_frame(&mut storage, &beat, 0);
    assert!(matches!(action, InboundAction::Append(resp) if resp.success == 1));
    // A log that contradicts the snapshot goes altogether.
    let mut other = MemStorage::with_log(&[1; 12]);
    let mut m = node(2, &[1, 2, 3], &other);
    m.handle_frame(&mut other, &bytes, 0).1.unwrap();
    assert!(other.terms().is_empty());
    assert_eq!(m.status().last_log_index, LogIndex(10));
}

#[test]
fn snapshot_chunks_out_of_place_are_sent_back() {
    let mut storage = MemStorage::default();
    let mut n = node(2, &[1, 2, 3], &storage);
    let (resp, result) =
        n.handle_install_snapshot(&mut storage, PeerId(1), &chunk(0, 2, false), b"ab", 0);
    result.unwrap();
    assert_eq!(resp.unwrap().next_offset, 2);
    let (resp, _) =
        n.handle_install_snapshot(&mut storage, PeerId(1), &chunk(5, 2, false), b"xy", 0);
    let resp = resp.unwrap();
    assert_eq!((resp.accepted, resp.next_offset), (0, 2));
    // A stalled transfer is swept.
    assert_eq!(n.evict_stalled_snapshots(10), 0);
    assert_eq!(n.evict_stalled_snapshots(60_001), 1);
    assert_eq!(n.metrics().snapshot().snapshots_evicted, 1);
}

#[test]
fn oversized_snapshots_are_refused() {
    let mut storage = MemStorage::default();
    let mut c = config(2, &[1, 2, 3]);
    c.limits.max_snapshot_bytes = 3;
    let mut n = RaftNode::new(c, &storage).unwrap();
    n.handle_install_snapshot(&mut storage, PeerId(1), &chunk(0, 2, false), b"ab", 0).1.unwrap();
    let (_, result) =
        n.handle_install_snapshot(&mut storage, PeerId(1), &chunk(2, 2, true), b"cd", 0);
    assert!(result.is_err() || storage.snapshot.is_none());
    assert!(storage.snapshot.is_none());
}

#[test]
fn streams_end_without_progress() {
    let (mut n, mut storage) = leader(&[1, 2, 3], &[], 3);
    let meta = SnapshotMeta { last_included_index: LogIndex(10), last_included_term: Term(2) };
    n.config.limits.snapshot_chunk_bytes = 4;
    let mut stream = n.start_stream(PeerId(2), meta, 100).unwrap();
    let stuck = InstallSnapshotResp { term: 3, next_offset: 0, accepted: 0, _pad: [0; 7] };
    assert!(n.stream_step(&mut storage, &mut stream, StreamEvent::Answer(stuck)).is_ok());
    assert!(n.stream_step(&mut storage, &mut stream, StreamEvent::Answer(stuck)).is_ok());
    match n.stream_step(&mut storage, &mut stream, StreamEvent::Answer(stuck)) {
        Err(RaftError::Snapshot(words)) => assert_eq!(words, "install snapshot made no progress"),
        other => panic!("{:?}", other),
    }
    let beyond = InstallSnapshotResp { term: 3, next_offset: 101, accepted: 1, _pad: [0; 7] };
    assert!(matches!(
        n.stream_step(&mut storage, &mut stream, StreamEvent::Answer(beyond)),
        Err(RaftError::Protocol(_))
    ));
    assert!(matches!(
        n.stream_step(&mut storage, &mut stream, StreamEvent::Silence),
        Err(RaftError::NoQuorum)
    ));
    assert_eq!(
        n.stream_step(&mut storage, &mut stream, StreamEvent::Other).unwrap(),
        StreamStep::Wait,
    );
    let newer = InstallSnapshotResp { term: 9, next_offset: 0, accepted: 0, _pad: [0; 7] };
    assert!(matches!(
        n.stream_step(&mut storage, &mut stream, StreamEvent::Answer(newer)),
        Err(RaftError::TermChanged { current: Term(9) })
    ));
    assert!(!n.is_leader());
}

#[test]
fn exhausted_peers_sit_out_a_cooldown() {
    let (mut n, mut storage) = leader(&[1, 2, 3], &[1, 1, 1], 1);
    let meta = SnapshotMeta { last_included_index: LogIndex(2), last_included_term: Term(1) };
    storage.save_snapshot(&meta, b"image").unwrap();
    n.peer_progress.insert(
        PeerId(2),
        arbitro_raft::node::progress::PeerProgress {
            next_index: LogIndex(1),
            match_index: LogIndex(0),
        },
    );
    for _ in 0..3 {
        let found = n.snapshot_for_lagging_peer(&storage, PeerId(2), 0).unwrap();
        assert_eq!(found, Some((meta, b"image".to_vec())));
    }
    assert_eq!(n.snapshot_for_lagging_peer(&storage, PeerId(2), 0).unwrap(), None);
    assert_eq!(n.snapshot_for_lagging_peer(&storage, PeerId(2), 4_999).unwrap(), None);
    assert!(n.snapshot_for_lagging_peer(&storage, PeerId(2), 5_000).unwrap().is_some());
    assert_eq!(n.metrics().snapshot().snapshot_installs_refused, 2);
    // A peer that does not lag gets none.
    assert_eq!(n.snapshot_for_lagging_peer(&storage, PeerId(3), 0).unwrap(), None);
    n.snapshot_installed(PeerId(2), LogIndex(2));
    assert_eq!(n.peer_progress(PeerId(2)), Some((LogIndex(3), LogIndex(2))));
}

#[test]
fn compaction_keeps_what_peers_still_need() {
    let (mut n, mut storage) = leader(&[1, 2, 3], &[1; 10], 1);
    let mut machine = MemMachine::default();
    for index in 1..=10u64 {
        machine.apply_at(LogIndex(index), &[index as u8]).unwrap();
    }
    n.set_commit_index(LogIndex(10));
    n.set_last_applied(LogIndex(10));
    let meta = n.compact_with_horizon(&mut storage, &machine, LogIndex(6)).unwrap();
    assert_eq!(meta, SnapshotMeta { last_included_index: LogIndex(10), last_included_term: Term(1) });
    assert_eq!(storage.snapshot, Some((meta, (1..=10).collect::<Vec<u8>>())));
    assert!(storage.log.contains_key(&6));
    assert!(!storage.log.contains_key(&5));
    assert_eq!(n.metrics().snapshot().log_compactions, 1);
    // The log still ends where it did, for the storage and for the node.
    assert_eq!(storage.last_log_position().unwrap(), (LogIndex(10), Term(1)));
    assert_eq!(n.status().last_log_index, LogIndex(10));
}

#[test]
fn nodes_keep_their_configuration() {
    let storage = MemStorage::default();
    let mut wanted = config(1, &[1, 2, 3]);
    wanted.cluster_id = ClusterId(42);
    wanted.learners = ids(&[4]);
    wanted.bootstrap_peers = vec![BootstrapPeer { id: PeerId(2), addr: "b:7000".to_string() }];
    let n = RaftNode::new(wanted, &storage).unwrap();
    assert_eq!(n.config.cluster_id, ClusterId(42));
    assert_eq!(n.config.node_id, PeerId(1));
    assert_eq!((n.config.peers.len(), n.config.learners.len()), (3, 1));
    assert_eq!(n.config.bootstrap_peers.len(), 1);
    assert_eq!(n.config.bootstrap_peers[0].id, PeerId(2));
    assert_eq!(n.config.bootstrap_peers[0].addr, "b:7000");
}

#[test]
fn compaction_waits_for_its_threshold() {
    let (mut n, mut storage) = leader(&[1, 2, 3], &[1; 10], 1);
    let machine = MemMachine::default();
    n.set_commit_index(LogIndex(10));
    n.set_last_applied(LogIndex(10));
    assert_eq!(n.maybe_compact(&mut storage, &machine).unwrap(), None);
    n.compaction_debt_entries = 4_096;
    n.config.limits.compaction_min_retain = 2;
    for peer in [2, 3] {
        n.handle_append_entries_response(&mut storage, PeerId(peer), &ack(1, 7, true)).unwrap();
    }
    let meta = n.maybe_compact(&mut storage, &machine).unwrap();
    assert!(meta.is_some());
    // Nobody needs an entry that is gone.
    assert!(storage.log.contains_key(&8));
    assert_eq!(n.compaction_debt_entries, 0);
}

// Membership.

#[test]
fn config_changes_read_back() {
    for phase in [
        ConfigChangePhase::Joint,
        ConfigChangePhase::Final,
        ConfigChangePhase::AddLearner,
        ConfigChangePhase::RemoveLearner,
    ] {
        let change = ConfigChangeEntry { phase, old_peers: ids(&[1, 2]), new_peers: ids(&[2, 3, 4]) };
        let bytes = change.encode();
        assert_eq!(bytes.len(), 12 + 5 * 8);
        assert_eq!(bytes[0], 0xC0);
        let back = ConfigChangeEntry::decode(&bytes).unwrap();
        assert_eq!(back.phase, phase);
        assert_eq!(back.old_peers, ids(&[1, 2]));
        assert_eq!(back.new_peers, ids(&[2, 3, 4]));
        assert!(ConfigChangeEntry::decode(&bytes[..bytes.len() - 1]).is_none());
    }
    assert!(ConfigChangeEntry::decode(b"plain command").is_none());
    assert!(is_noop_entry(&noop_entry()));
    assert!(!is_noop_entry(b"plain command"));
    assert!(ConfigChangeEntry::decode(&noop_entry()).is_none());
}

#[test]
fn joint_then_final_changes_the_voters() {
    let (mut n, mut storage) = leader(&[1, 2, 3], &[], 1);
    let joint = ConfigChangeEntry {
        phase: ConfigChangePhase::Joint,
        old_peers: ids(&[1, 2, 3]),
        new_peers: ids(&[1, 2, 4]),
    };
    assert!(apply_if_config_change(&mut n, &mut storage, &joint.encode()).unwrap());
    assert!(n.status().config_change_in_progress);
    assert_eq!(n.peers(), &ids(&[1, 2, 3, 4]));
    let done = ConfigChangeEntry { phase: ConfigChangePhase::Final, ..joint };
    assert!(apply_if_config_change(&mut n, &mut storage, &done.encode()).unwrap());
    assert!(!n.status().config_change_in_progress);
    assert_eq!(n.peers(), &ids(&[1, 2, 4]));
    assert!(n.is_leader());
    assert_eq!(n.peer_progress(PeerId(3)), None);
    assert!(n.peer_progress(PeerId(4)).is_some());
    assert_eq!(n.metrics().snapshot().config_changes_applied, 2);
    assert!(!apply_if_config_change(&mut n, &mut storage, b"plain command").unwrap());
}

#[test]
fn removed_leader_steps_down() {
    let (mut n, mut storage) = leader(&[1, 2, 3], &[], 1);
    let done = ConfigChangeEntry {
        phase: ConfigChangePhase::Final,
        old_peers: ids(&[1, 2, 3]),
        new_peers: ids(&[2, 3]),
    };
    n.apply_config_change(&mut storage, &done).unwrap();
    assert!(!n.is_leader());
    assert_eq!(n.peers(), &ids(&[2, 3]));
}

#[test]
fn learners_come_and_go() {
    let (mut n, mut storage) = leader(&[1, 2, 3], &[], 1);
    let add = ConfigChangeEntry {
        phase: ConfigChangePhase::AddLearner,
        old_peers: Vec::new(),
        new_peers: ids(&[4]),
    };
    n.apply_config_change(&mut storage, &add).unwrap();
    assert_eq!(n.learners(), &ids(&[4]));
    assert_eq!(n.peers(), &ids(&[1, 2, 3]));
    let gone = ConfigChangeEntry {
        phase: ConfigChangePhase::RemoveLearner,
        old_peers: Vec::new(),
        new_peers: ids(&[4]),
    };
    n.apply_config_change(&mut storage, &gone).unwrap();
    assert!(n.learners().is_empty());
}

// Inbound frames.

#[test]
fn bad_frames_never_stop_a_node() {
    let mut storage = MemStorage::default();
    let mut n = node(2, &[1, 2, 3], &storage);
    let (action, result) = n.handle_frame(&mut storage, b"garbage", 0);
    assert!(matches!(action, InboundAction::Done));
    let error = result.unwrap_err();
    assert_eq!(error.class(), ErrorClass::BadFrame);
    assert!(tolerate(Err(error)).is_ok());
    assert!(tolerate(Err(RaftError::CorruptLog("hole".to_string()))).is_err());
    let (_, result) = n.take_frame(&mut storage, b"garbage", 0);
    assert!(result.is_ok());
    assert_eq!(n.metrics().snapshot().frames_dropped_nonfatal, 1);
}

#[test]
fn commands_are_handed_on_with_their_route() {
    let mut storage = MemStorage::default();
    let mut n = node(2, &[1, 2, 3], &storage);
    let beat = append_frame(request(5, (0, 0), 0, 0), &[]);
    n.handle_frame(&mut storage, &beat, 0).1.unwrap();
    let bytes = frame(1, &RaftMessage::Custom(b"body"));
    match n.handle_frame(&mut storage, &bytes, 0).0 {
        InboundAction::Command(body, route) => {
            assert_eq!(body, b"body");
            assert_eq!(route.role, DispatchNodeRole::Follower);
        }
        other => panic!("{:?}", other),
    }
    let bytes = frame(1, &RaftMessage::CustomResponse(b"back"));
    assert!(matches!(n.handle_frame(&mut storage, &bytes, 0).0, InboundAction::Answer(b"back")));
}

#[test]
fn scopes_pick_their_targets() {
    let (n, _storage) = leader(&[1, 2, 3], &[], 1);
    assert_eq!(n.dispatch_targets(DispatchScope::All), ids(&[1, 2, 3]));
    assert_eq!(n.dispatch_targets(DispatchScope::Others), ids(&[2, 3]));
    assert_eq!(n.dispatch_targets(DispatchScope::Followers), ids(&[2, 3]));
    assert_eq!(n.dispatch_targets(DispatchScope::Leader), ids(&[1]));
    assert_eq!(n.dispatch_targets(DispatchScope::LocalOnly), ids(&[1]));
    assert_eq!(n.route_for_peer(PeerId(1)), DispatchRoute::leader(true));
    assert_eq!(n.route_for_peer(PeerId(2)), DispatchRoute::follower(false));
}

// Parts.

#[test]
fn term_cache_forgets_from_the_front_and_the_back() {
    let mut arena = LogMetadataArena::new(3);
    for index in 1..=4 {
        arena.append(LogIndex(index), Term(index * 10));
    }
    assert_eq!(arena.get_term(LogIndex(1)), None);
    assert_eq!(arena.get_term(LogIndex(2)), Some(Term(20)));
    assert_eq!(arena.get_term(LogIndex(4)), Some(Term(40)));
    arena.truncate_suffix(LogIndex(4));
    assert_eq!(arena.get_term(LogIndex(4)), None);
    assert_eq!(arena.get_term(LogIndex(3)), Some(Term(30)));
    arena.clear(LogIndex(9));
    assert_eq!(arena.get_term(LogIndex(3)), None);
}

#[test]
fn peer_map_holds_one_value_per_peer() {
    let mut map: PeerMap<u32> = PeerMap::with_capacity(2);
    assert!(map.is_empty());
    map.insert(PeerId(1), 5);
    map.insert(PeerId(2), 6);
    map.insert(PeerId(1), 7);
    assert_eq!(map.len(), 2);
    assert_eq!(map.get(PeerId(1)), Some(&7));
    assert_eq!(map.remove(PeerId(1)), Some(7));
    assert_eq!(map.remove(PeerId(1)), None);
    assert!(map.contains_key(PeerId(2)));
    map.clear();
    assert_eq!(map.get(PeerId(2)), None);
}

#[test]
fn snapshot_transfers_expire() {
    let meta = SnapshotMeta { last_included_index: LogIndex(1), last_included_term: Term(1) };
    let mut pending = PendingSnapshot::new(meta, 100, 50);
    assert!(!pending.is_expired(150));
    assert!(pending.is_expired(151));
    pending.touch(149, 50);
    assert!(!pending.is_expired(199));
    assert!(pending.is_expired(200));
    let never = PendingSnapshot::new(meta, u64::MAX - 1, 50);
    assert_eq!(never.deadline_ms, u64::MAX);
}

#[test]
fn errors_have_a_class_and_a_message() {
    let full = IoFault { kind: IoFaultKind::QuotaExceeded, message: "quota".to_string() };
    let broken = IoFault { kind: IoFaultKind::Other, message: "bad sector".to_string() };
    let hint = Some(LeaderHint { leader_id: PeerId(4) });
    let words = || "x".to_string();
    let cases = [
        (RaftError::NotLeader { leader_hint: None }, ErrorClass::NotLeaderRedirect, "not leader: None"),
        (
            RaftError::NotLeader { leader_hint: hint },
            ErrorClass::NotLeaderRedirect,
            "not leader: Some(LeaderHint { leader_id: PeerId(4) })",
        ),
        (RaftError::NoQuorum, ErrorClass::Transient, "no quorum"),
        (
            RaftError::TransferTimeout(PeerId(2)),
            ErrorClass::Transient,
            "leadership transfer to peer 2 timed out; leadership retained",
        ),
        (RaftError::TermChanged { current: Term(10) }, ErrorClass::Transient, "term changed: 10"),
        (
            RaftError::Overloaded,
            ErrorClass::Transient,
            "overloaded: client proposal mailbox full; back off and retry",
        ),
        (RaftError::PeerUnknown(PeerId(7)), ErrorClass::BadFrame, "unknown peer 7"),
        (RaftError::InvalidConfig(words()), ErrorClass::BadFrame, "invalid config: x"),
        (RaftError::InvalidPayload(words()), ErrorClass::BadFrame, "invalid payload: x"),
        (RaftError::Protocol(words()), ErrorClass::BadFrame, "protocol error: x"),
        (RaftError::Dispatch(words()), ErrorClass::BadFrame, "dispatch error: x"),
        (RaftError::Snapshot(words()), ErrorClass::BadFrame, "snapshot error: x"),
        (RaftError::Transport(words()), ErrorClass::Transient, "transport error: x"),
        (RaftError::Storage(words()), ErrorClass::Fatal, "storage error: x"),
        (RaftError::CorruptLog(words()), ErrorClass::Fatal, "corrupt log: x"),
        (RaftError::from(full), ErrorClass::Resource, "quota"),
        (RaftError::from(broken), ErrorClass::Fatal, "bad sector"),
    ];
    for (error, class, message) in cases {
        assert_eq!(error.class(), class);
        assert_eq!(error.message(), message);
        assert_eq!(error.is_fatal(), class == ErrorClass::Fatal);
        assert_eq!(error.is_resource_exhaustion(), class == ErrorClass::Resource);
    }
}
