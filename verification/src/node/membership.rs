//! Membership changes by joint consensus.
//!
//! A change travels as a control entry in the log: a payload whose first byte
//! is reserved, so that no application payload can be mistaken for one.

use vstd::prelude::*;

use super::metrics::{bumped, RaftMetricsSnapshot};
use super::progress::PeerProgress;
use super::quorum::contains;
use super::raft_node::{lemma_take_contains, NodeModel, RaftNode};
use crate::error::RaftError;
use crate::protocol::codec::layout::{eight_bytes, four_bytes, lemma_fields_are_numbers};
use crate::protocol::codec::le::{
    field, le_bytes, lemma_le_fields, put_slice, u32_at, u32_bytes, u64_at, u64_bytes,
};
use crate::text::text;
use crate::traits::{RaftStorage, StorageModel};
use crate::types::{LogIndex, PeerId};

verus! {

/// First byte of every control entry. Application payloads never begin with it.
pub const CONFIG_CHANGE_MAGIC: u8 = 0xC0;

/// Version of the control entries.
pub const CONFIG_CHANGE_VERSION: u8 = 1;

/// Third byte of the leader's no-op entry, far from every phase number.
pub const NOOP_DISCRIMINANT: u8 = 0x7F;

/// Magic, version, phase, padding and the two lengths.
pub const HEADER_LEN: usize = 12;

/// The bytes of the leader's no-op entry.
pub open spec fn noop_bytes() -> Seq<u8> {
    seq![CONFIG_CHANGE_MAGIC, CONFIG_CHANGE_VERSION, NOOP_DISCRIMINANT, 0u8]
}

/// The leader's no-op entry.
pub fn noop_entry() -> (r: Vec<u8>)
    ensures
        r@ == noop_bytes(),
{
    let mut out: Vec<u8> = Vec::new();
    out.push(CONFIG_CHANGE_MAGIC);
    out.push(CONFIG_CHANGE_VERSION);
    out.push(NOOP_DISCRIMINANT);
    out.push(0);
    assert(out@ =~= noop_bytes());
    out
}

/// Whether `payload` is exactly the leader's no-op entry.
pub fn is_noop_entry(payload: &[u8]) -> (r: bool)
    ensures
        r == (payload@ == noop_bytes()),
{
    let r: bool = payload.len() == 4 && payload[0] == CONFIG_CHANGE_MAGIC && payload[1]
        == CONFIG_CHANGE_VERSION && payload[2] == NOOP_DISCRIMINANT && payload[3] == 0;
    proof {
        if r {
            assert(payload@ =~= noop_bytes());
        }
    }
    r
}

/// What a control entry changes.
#[derive(Clone, Copy, Debug, PartialEq, Eq, Structural)]
pub enum ConfigChangePhase {
    /// Both the old and the new voter set are active.
    Joint,
    /// Only the new voter set is active.
    Final,
    /// The peers in `new_peers` become learners. No quorum changes.
    AddLearner,
    /// The peers in `new_peers` stop being learners. No quorum changes.
    RemoveLearner,
}

/// The number of a phase on the wire.
pub open spec fn phase_number(phase: ConfigChangePhase) -> u8 {
    match phase {
        ConfigChangePhase::Joint => 1,
        ConfigChangePhase::Final => 2,
        ConfigChangePhase::AddLearner => 3,
        ConfigChangePhase::RemoveLearner => 4,
    }
}

/// A membership-change control entry.
///
/// | Bytes     | Field       |                                               |
/// |-----------|-------------|-----------------------------------------------|
/// | `[0]`     | `magic`     | `0xC0`                                        |
/// | `[1]`     | `version`   | `1`                                           |
/// | `[2]`     | `phase`     | 1 joint, 2 final, 3 add learner, 4 remove     |
/// | `[3]`     |             | 0, ignored on read                            |
/// | `[4..8]`  | `old_len`   | little-endian                                 |
/// | `[8..12]` | `new_len`   | little-endian                                 |
/// | `[12..]`  | `old_peers` | 8 bytes each, little-endian                   |
/// | then      | `new_peers` | 8 bytes each, little-endian                   |
#[derive(Clone, Debug)]
pub struct ConfigChangeEntry {
    pub phase: ConfigChangePhase,
    pub old_peers: Vec<PeerId>,
    pub new_peers: Vec<PeerId>,
}

/// What a [`ConfigChangeEntry`] stands for.
#[verifier::ext_equal]
pub struct ConfigChange {
    pub phase: ConfigChangePhase,
    pub old_peers: Seq<PeerId>,
    pub new_peers: Seq<PeerId>,
}

impl View for ConfigChangeEntry {
    type V = ConfigChange;

    open spec fn view(&self) -> ConfigChange {
        ConfigChange {
            phase: self.phase,
            old_peers: self.old_peers@,
            new_peers: self.new_peers@,
        }
    }
}

/// Peer ids on the wire.
pub open spec fn id_bytes(peers: Seq<PeerId>) -> Seq<u8>
    decreases peers.len(),
{
    if peers.len() == 0 {
        Seq::empty()
    } else {
        id_bytes(peers.drop_last()) + le_bytes(peers.last().0 as nat, 8)
    }
}

/// The `n` peer ids that `bytes` holds from `at` on.
pub open spec fn ids_at(bytes: Seq<u8>, at: int, n: nat) -> Seq<PeerId> {
    Seq::new(n, |i: int| PeerId(field(bytes, at + 8 * i, 8) as u64))
}

/// A control entry on the wire.
pub open spec fn config_bytes(c: ConfigChange) -> Seq<u8> {
    seq![CONFIG_CHANGE_MAGIC, CONFIG_CHANGE_VERSION, phase_number(c.phase), 0u8] + le_bytes(
        (c.old_peers.len() as u32) as nat,
        4,
    ) + le_bytes((c.new_peers.len() as u32) as nat, 4) + id_bytes(c.old_peers) + id_bytes(
        c.new_peers,
    )
}

/// The phase that a number stands for.
pub open spec fn phase_of(n: u8) -> Option<ConfigChangePhase> {
    if n == 1 {
        Some(ConfigChangePhase::Joint)
    } else if n == 2 {
        Some(ConfigChangePhase::Final)
    } else if n == 3 {
        Some(ConfigChangePhase::AddLearner)
    } else if n == 4 {
        Some(ConfigChangePhase::RemoveLearner)
    } else {
        None
    }
}

/// The control entry that `bytes` holds, if they hold one.
pub open spec fn decode_config(bytes: Seq<u8>) -> Option<ConfigChange> {
    if bytes.len() < HEADER_LEN || bytes[0] != CONFIG_CHANGE_MAGIC || bytes[1]
        != CONFIG_CHANGE_VERSION {
        None
    } else {
        let old_len = field(bytes, 4, 4);
        let new_len = field(bytes, 8, 4);
        match phase_of(bytes[2]) {
            Some(phase) => if bytes.len() < HEADER_LEN + 8 * old_len + 8 * new_len {
                None
            } else {
                Some(
                    ConfigChange {
                        phase,
                        old_peers: ids_at(bytes, HEADER_LEN as int, old_len),
                        new_peers: ids_at(bytes, HEADER_LEN + 8 * old_len, new_len),
                    },
                )
            },
            None => None,
        }
    }
}

fn put_ids(out: &mut Vec<u8>, peers: &Vec<PeerId>)
    ensures
        final(out)@ == old(out)@ + id_bytes(peers@),
{
    let mut i: usize = 0;
    assert(peers@.take(0) =~= Seq::empty());
    while i < peers.len()
        invariant
            i <= peers@.len(),
            out@ =~= old(out)@ + id_bytes(peers@.take(i as int)),
        decreases peers@.len() - i,
    {
        assert(peers@.take(i + 1).drop_last() =~= peers@.take(i as int));
        put_slice(out, &u64_bytes(peers[i].0));
        i = i + 1;
    }
    assert(peers@.take(i as int) =~= peers@);
}

fn get_ids(bytes: &[u8], at: usize, n: u32) -> (r: Vec<PeerId>)
    requires
        at + 8 * n <= bytes@.len(),
    ensures
        r@ == ids_at(bytes@, at as int, n as nat),
{
    let size: usize = bytes.len();
    let mut out: Vec<PeerId> = Vec::new();
    let mut i: u32 = 0;
    while i < n
        invariant
            i <= n,
            size == bytes@.len(),
            at + 8 * n <= bytes@.len(),
            out@ =~= ids_at(bytes@, at as int, i as nat),
        decreases n - i,
    {
        let id: u64 = u64_at(bytes, at + 8 * i as usize);
        out.push(PeerId(id));
        i = i + 1;
    }
    out
}

impl ConfigChangeEntry {
    /// The entry on the wire.
    pub fn encode(&self) -> (r: Vec<u8>)
        ensures
            r@ == config_bytes(self@),
    {
        let mut out: Vec<u8> = Vec::new();
        out.push(CONFIG_CHANGE_MAGIC);
        out.push(CONFIG_CHANGE_VERSION);
        out.push(
            match self.phase {
                ConfigChangePhase::Joint => 1,
                ConfigChangePhase::Final => 2,
                ConfigChangePhase::AddLearner => 3,
                ConfigChangePhase::RemoveLearner => 4,
            },
        );
        out.push(0);
        put_slice(&mut out, &u32_bytes(#[verifier::truncate] (self.old_peers.len() as u32)));
        put_slice(&mut out, &u32_bytes(#[verifier::truncate] (self.new_peers.len() as u32)));
        put_ids(&mut out, &self.old_peers);
        put_ids(&mut out, &self.new_peers);
        assert(out@ =~= config_bytes(self@));
        out
    }

    /// The entry that `bytes` hold. `None` means an application payload.
    pub fn decode(bytes: &[u8]) -> (r: Option<Self>)
        ensures
            match decode_config(bytes@) {
                Some(c) => r matches Some(e) && e@ == c,
                None => r is None,
            },
    {
        if bytes.len() < HEADER_LEN {
            return None;
        }
        if bytes[0] != CONFIG_CHANGE_MAGIC {
            return None;
        }
        if bytes[1] != CONFIG_CHANGE_VERSION {
            return None;
        }
        let phase = match bytes[2] {
            1 => ConfigChangePhase::Joint,
            2 => ConfigChangePhase::Final,
            3 => ConfigChangePhase::AddLearner,
            4 => ConfigChangePhase::RemoveLearner,
            _ => {
                return None;
            },
        };
        let old_len: u32 = u32_at(bytes, 4);
        let new_len: u32 = u32_at(bytes, 8);
        let total: u64 = HEADER_LEN as u64 + 8 * old_len as u64 + 8 * new_len as u64;
        if (bytes.len() as u64) < total {
            return None;
        }
        let old_peers = get_ids(bytes, HEADER_LEN, old_len);
        let new_peers = get_ids(bytes, HEADER_LEN + 8 * old_len as usize, new_len);
        Some(ConfigChangeEntry { phase, old_peers, new_peers })
    }
}

proof fn lemma_id_bytes(peers: Seq<PeerId>)
    ensures
        id_bytes(peers).len() == 8 * peers.len(),
        forall|i: int| 0 <= i < peers.len() ==> id_bytes(peers).subrange(8 * i, 8 * i + 8)
            == #[trigger] le_bytes(peers[i].0 as nat, 8),
    decreases peers.len(),
{
    if peers.len() > 0 {
        let front = peers.drop_last();
        lemma_id_bytes(front);
        lemma_le_fields();
        let all = id_bytes(peers);
        let last = le_bytes(peers.last().0 as nat, 8);
        assert forall|i: int| 0 <= i < peers.len() implies all.subrange(8 * i, 8 * i + 8)
            == #[trigger] le_bytes(peers[i].0 as nat, 8) by {
            if i < front.len() {
                assert(front[i] == peers[i]);
                assert(all.subrange(8 * i, 8 * i + 8) =~= id_bytes(front).subrange(
                    8 * i,
                    8 * i + 8,
                ));
            } else {
                assert(all.subrange(8 * i, 8 * i + 8) =~= last);
            }
        }
    }
}

/// Decoding an encoded membership change gives the change back, and trailing
/// bytes make no difference.
pub proof fn law_config_round_trip(c: ConfigChange, tail: Seq<u8>)
    requires
        c.old_peers.len() <= u32::MAX,
        c.new_peers.len() <= u32::MAX,
    ensures
        decode_config(config_bytes(c) + tail) == Some(c),
{
    let b = config_bytes(c) + tail;
    let split = 12 + 8 * c.old_peers.len() as int;
    lemma_le_fields();
    lemma_id_bytes(c.old_peers);
    lemma_id_bytes(c.new_peers);
    assert(b.subrange(4, 8) =~= le_bytes(c.old_peers.len(), 4));
    assert(b.subrange(8, 12) =~= le_bytes(c.new_peers.len(), 4));
    assert(b.subrange(12, split) =~= id_bytes(c.old_peers));
    assert(b.subrange(split, split + 8 * c.new_peers.len() as int) =~= id_bytes(c.new_peers));
    lemma_ids_read(b, 12, c.old_peers);
    lemma_ids_read(b, split, c.new_peers);
}

proof fn lemma_ids_read(b: Seq<u8>, at: int, peers: Seq<PeerId>)
    requires
        0 <= at,
        at + 8 * peers.len() <= b.len(),
        b.subrange(at, at + 8 * peers.len() as int) == id_bytes(peers),
    ensures
        ids_at(b, at, peers.len()) == peers,
{
    lemma_id_bytes(peers);
    lemma_le_fields();
    let read = ids_at(b, at, peers.len());
    let run = b.subrange(at, at + 8 * peers.len() as int);
    assert forall|i: int| 0 <= i < peers.len() implies read[i] == peers[i] by {
        assert(b.subrange(at + 8 * i, at + 8 * i + 8) =~= run.subrange(8 * i, 8 * i + 8));
        assert(le_bytes(peers[i].0 as nat, 8).len() == 8);
    }
    assert(read =~= peers);
}

/// The no-op entry is no membership change, no membership change is the no-op
/// entry, and an application payload is neither.
pub proof fn law_control_entries_are_told_apart(payload: Seq<u8>)
    ensures
        payload == noop_bytes() ==> decode_config(payload) is None,
        decode_config(payload) is Some ==> payload != noop_bytes(),
        payload.len() > 0 && payload[0] != CONFIG_CHANGE_MAGIC ==> decode_config(payload) is None
            && payload != noop_bytes(),
        payload.len() == 0 ==> decode_config(payload) is None && payload != noop_bytes(),
{
}

/// `base` with those of `more` added at the end that it does not hold yet.
pub open spec fn merged(base: Seq<PeerId>, more: Seq<PeerId>) -> Seq<PeerId>
    decreases more.len(),
{
    if more.len() == 0 {
        base
    } else {
        let front = merged(base, more.drop_last());
        if front.contains(more.last()) {
            front
        } else {
            front.push(more.last())
        }
    }
}

/// `learners` with those of `more` added at the end that are neither voters nor
/// learners yet.
pub open spec fn with_learners(
    peers: Seq<PeerId>,
    learners: Seq<PeerId>,
    more: Seq<PeerId>,
) -> Seq<PeerId>
    decreases more.len(),
{
    if more.len() == 0 {
        learners
    } else {
        let front = with_learners(peers, learners, more.drop_last());
        if peers.contains(more.last()) || front.contains(more.last()) {
            front
        } else {
            front.push(more.last())
        }
    }
}

/// Those of `members` that are not in `gone`.
pub open spec fn outside(members: Seq<PeerId>, gone: Seq<PeerId>) -> Seq<PeerId> {
    members.filter(|p: PeerId| !gone.contains(p))
}

impl NodeModel {
    /// The node with a membership change in effect, before a leader adjusts its
    /// bookkeeping.
    pub open spec fn reconfigured(self, c: ConfigChange) -> NodeModel {
        let counted = NodeModel {
            counters: RaftMetricsSnapshot {
                config_changes_applied: bumped(self.counters.config_changes_applied),
                ..self.counters
            },
            ..self
        };
        match c.phase {
            ConfigChangePhase::Joint => {
                let peers = merged(c.old_peers, c.new_peers);
                NodeModel {
                    peers,
                    joint: Some((c.old_peers, c.new_peers)),
                    learners: outside(self.learners, peers),
                    ..counted
                }
            },
            ConfigChangePhase::Final => if c.new_peers.len() == 0 {
                counted
            } else {
                NodeModel {
                    peers: c.new_peers,
                    joint: None,
                    learners: outside(self.learners, c.new_peers),
                    ..counted
                }
            },
            ConfigChangePhase::AddLearner => NodeModel {
                learners: with_learners(self.peers, self.learners, c.new_peers),
                ..counted
            },
            ConfigChangePhase::RemoveLearner => NodeModel {
                learners: outside(self.learners, c.new_peers),
                ..counted
            },
        }
    }

    /// Whether `p` is a voter or a learner.
    pub open spec fn member(self, p: PeerId) -> bool {
        self.peers.contains(p) || self.learners.contains(p)
    }

    /// Peers that a leader replicates to but that are no longer members.
    pub open spec fn departed(self) -> Set<PeerId> {
        Set::new(|p: PeerId| self.progress.dom().contains(p) && !self.member(p))
    }

    /// The node with its leader's bookkeeping in line with the membership:
    /// departed peers are dropped, new members start afresh, and the others
    /// keep their progress.
    pub open spec fn reconciled(self) -> NodeModel {
        NodeModel {
            progress: Map::new(
                |p: PeerId|
                    (self.progress.dom().contains(p) && self.member(p)) || self.other_member(p),
                |p: PeerId|
                    if self.progress.dom().contains(p) {
                        self.progress[p]
                    } else {
                        self.fresh_progress()
                    },
            ),
            pending: self.pending.remove_keys(self.departed()),
            contact: self.contact.remove_keys(self.departed()),
            ..self
        }
    }

    /// The node after a membership change, short of a step-down.
    pub open spec fn changed(self, c: ConfigChange) -> NodeModel {
        if self.leads() {
            self.reconfigured(c).reconciled()
        } else {
            self.reconfigured(c)
        }
    }

    /// Whether a membership change makes the leader give way: it led, and it is
    /// no longer a voter.
    pub open spec fn unseated_by(self, c: ConfigChange) -> bool {
        self.leads() && !self.changed(c).peers.contains(self.node_id)
    }
}

/// Whether a membership change is refused.
pub open spec fn empties_the_cluster(c: ConfigChange) -> bool {
    c.phase is Final && c.new_peers.len() == 0
}

/// The error for a membership change without a voter.
pub open spec fn is_empty_change(e: RaftError) -> bool {
    e matches RaftError::InvalidConfig(m) && m@ == "config-change Final phase with empty new_peers"@
}

/// How applying a membership change came out.
pub open spec fn config_change_outcome(
    before: NodeModel,
    stored: StorageModel,
    c: ConfigChange,
    r: Result<(), RaftError>,
    after: NodeModel,
    stored_after: StorageModel,
) -> bool {
    if empties_the_cluster(c) {
        &&& r matches Err(e) && is_empty_change(e)
        &&& after == before.reconfigured(c)
        &&& stored_after == stored
    } else if before.unseated_by(c) {
        super::raft_node::step_down_outcome(
            before.changed(c),
            stored,
            before.hard.current_term,
            r,
            after,
            stored_after,
        )
    } else {
        r is Ok && after == before.changed(c) && stored_after == stored
    }
}

/// A copy of `peers`.
pub fn copy_peers(peers: &Vec<PeerId>) -> (r: Vec<PeerId>)
    ensures
        r@ == peers@,
{
    let mut out: Vec<PeerId> = Vec::with_capacity(peers.len());
    let mut i: usize = 0;
    while i < peers.len()
        invariant
            i <= peers@.len(),
            out@ =~= peers@.take(i as int),
        decreases peers@.len() - i,
    {
        out.push(peers[i]);
        i = i + 1;
    }
    assert(peers@.take(i as int) =~= peers@);
    out
}

fn merge_peers(base: &Vec<PeerId>, more: &Vec<PeerId>) -> (r: Vec<PeerId>)
    ensures
        r@ == merged(base@, more@),
{
    let mut out = copy_peers(base);
    let mut i: usize = 0;
    assert(more@.take(0) =~= Seq::empty());
    while i < more.len()
        invariant
            i <= more@.len(),
            out@ == merged(base@, more@.take(i as int)),
        decreases more@.len() - i,
    {
        assert(more@.take(i + 1).drop_last() =~= more@.take(i as int));
        let peer = more[i];
        if !contains(&out, peer) {
            out.push(peer);
        }
        i = i + 1;
    }
    assert(more@.take(i as int) =~= more@);
    out
}

fn add_learners(peers: &Vec<PeerId>, learners: &Vec<PeerId>, more: &Vec<PeerId>) -> (r: Vec<PeerId>)
    ensures
        r@ == with_learners(peers@, learners@, more@),
{
    let mut out = copy_peers(learners);
    let mut i: usize = 0;
    assert(more@.take(0) =~= Seq::empty());
    while i < more.len()
        invariant
            i <= more@.len(),
            out@ == with_learners(peers@, learners@, more@.take(i as int)),
        decreases more@.len() - i,
    {
        assert(more@.take(i + 1).drop_last() =~= more@.take(i as int));
        let peer = more[i];
        if !contains(peers, peer) && !contains(&out, peer) {
            out.push(peer);
        }
        i = i + 1;
    }
    assert(more@.take(i as int) =~= more@);
    out
}

fn retain_outside(members: &Vec<PeerId>, gone: &Vec<PeerId>) -> (r: Vec<PeerId>)
    ensures
        r@ == outside(members@, gone@),
{
    let mut out: Vec<PeerId> = Vec::new();
    let mut i: usize = 0;
    proof {
        reveal(Seq::filter);
    }
    assert(members@.take(0) =~= Seq::empty());
    while i < members.len()
        invariant
            i <= members@.len(),
            out@ == outside(members@.take(i as int), gone@),
        decreases members@.len() - i,
    {
        proof {
            reveal(Seq::filter);
            assert(members@.take(i + 1).drop_last() =~= members@.take(i as int));
        }
        let peer = members[i];
        if !contains(gone, peer) {
            out.push(peer);
        }
        i = i + 1;
    }
    assert(members@.take(i as int) =~= members@);
    out
}

impl RaftNode {
    /// Puts a membership change into effect. A leader that is no longer a voter
    /// steps down.
    pub fn apply_config_change<S: RaftStorage>(
        &mut self,
        storage: &mut S,
        entry: &ConfigChangeEntry,
    ) -> (r: Result<(), RaftError>)
        ensures
            config_change_outcome(
                old(self)@,
                old(storage).model(),
                entry@,
                r,
                final(self)@,
                final(storage).model(),
            ),
            r matches Err(e) ==> S::fails_with(e) || empties_the_cluster(entry@),
    {
        self.metrics.inc_config_changes_applied();
        match entry.phase {
            ConfigChangePhase::Joint => {
                let peers = merge_peers(&entry.old_peers, &entry.new_peers);
                self.config.learners = retain_outside(&self.config.learners, &peers);
                self.config.peers = peers;
                self.joint_peers = Some(
                    (copy_peers(&entry.old_peers), copy_peers(&entry.new_peers)),
                );
            },
            ConfigChangePhase::Final => {
                if entry.new_peers.is_empty() {
                    return Err(
                        RaftError::InvalidConfig(
                            text("config-change Final phase with empty new_peers"),
                        ),
                    );
                }
                self.config.peers = copy_peers(&entry.new_peers);
                self.joint_peers = None;
                self.config.learners = retain_outside(&self.config.learners, &self.config.peers);
            },
            ConfigChangePhase::AddLearner => {
                self.config.learners = add_learners(
                    &self.config.peers,
                    &self.config.learners,
                    &entry.new_peers,
                );
            },
            ConfigChangePhase::RemoveLearner => {
                self.config.learners = retain_outside(&self.config.learners, &entry.new_peers);
            },
        }
        assert(self@ == old(self)@.reconfigured(entry@));
        if self.is_leader() {
            self.reconcile_leader_progress_with_config();
        }
        if self.is_leader() && !contains(&self.config.peers, self.config.node_id) {
            let term = self.hard_state.current_term;
            return self.step_down(storage, term);
        }
        Ok(())
    }

    /// Takes back a transition whose joint entry never reached the log.
    pub fn revert_joint_activation(&mut self, old_peers: Vec<PeerId>)
        ensures
            ({
                let back = NodeModel { peers: old_peers@, joint: None, ..old(self)@ };
                final(self)@ == if old(self)@.leads() {
                    back.reconciled()
                } else {
                    back
                }
            }),
    {
        self.config.peers = old_peers;
        self.joint_peers = None;
        if self.is_leader() {
            self.reconcile_leader_progress_with_config();
        }
    }

    /// Takes back a learner change whose entry never reached the log.
    pub fn revert_learner_activation(&mut self, prev_learners: Vec<PeerId>)
        ensures
            ({
                let back = NodeModel { learners: prev_learners@, ..old(self)@ };
                final(self)@ == if old(self)@.leads() {
                    back.reconciled()
                } else {
                    back
                }
            }),
    {
        self.config.learners = prev_learners;
        if self.is_leader() {
            self.reconcile_leader_progress_with_config();
        }
    }

    fn add_missing_progress(&mut self, peers: &Vec<PeerId>)
        ensures
            final(self)@ == (NodeModel {
                progress: Map::new(
                    |p: PeerId|
                        old(self)@.progress.dom().contains(p) || (p != old(self)@.node_id
                            && peers@.contains(p)),
                    |p: PeerId|
                        if old(self)@.progress.dom().contains(p) {
                            old(self)@.progress[p]
                        } else {
                            old(self)@.fresh_progress()
                        },
                ),
                ..old(self)@
            }),
    {
        let ghost before = old(self)@;
        let fresh = PeerProgress {
            next_index: LogIndex(self.cached_last_log.0.0.saturating_add(1)),
            match_index: LogIndex(0),
        };
        let mut i: usize = 0;
        assert(peers@.take(0) =~= Seq::empty());
        while i < peers.len()
            invariant
                i <= peers@.len(),
                fresh == before.fresh_progress(),
                self@ == (NodeModel { progress: self@.progress, ..before }),
                forall|p: PeerId| #[trigger] self@.progress.dom().contains(p) <==> (
                before.progress.dom().contains(p) || (p != before.node_id && peers@.take(
                    i as int,
                ).contains(p))),
                forall|p: PeerId| #[trigger] self@.progress.dom().contains(p)
                    ==> self@.progress[p] == if before.progress.dom().contains(p) {
                    before.progress[p]
                } else {
                    fresh
                },
            decreases peers@.len() - i,
        {
            let peer = peers[i];
            proof {
                lemma_take_contains(peers@, i as int);
            }
            if peer != self.config.node_id && !self.peer_progress.contains_key(peer) {
                self.peer_progress.insert(peer, fresh);
            }
            i = i + 1;
        }
        assert(peers@.take(i as int) =~= peers@);
        assert(self@.progress =~= Map::new(
            |p: PeerId|
                before.progress.dom().contains(p) || (p != before.node_id && peers@.contains(p)),
            |p: PeerId|
                if before.progress.dom().contains(p) {
                    before.progress[p]
                } else {
                    before.fresh_progress()
                },
        ));
    }

    /// The peers that this leader replicates to but that are no longer members.
    fn departed_peers(&self) -> (r: Vec<PeerId>)
        ensures
            forall|p: PeerId| r@.contains(p) <==> self@.departed().contains(p),
    {
        let mut stale: Vec<PeerId> = Vec::new();
        let total: usize = self.peer_progress.len();
        let mut i: usize = 0;
        while i < total
            invariant
                i <= total,
                total == self.peer_progress.pairs().len(),
                forall|p: PeerId| stale@.contains(p) ==> self@.departed().contains(p),
                forall|j: int| #![trigger self.peer_progress.pairs()[j]]
                    0 <= j < i && !self@.member(self.peer_progress.pairs()[j].0)
                        ==> stale@.contains(self.peer_progress.pairs()[j].0),
            decreases total - i,
        {
            let (peer, _) = self.peer_progress.at(i);
            if !contains(&self.config.peers, peer) && !contains(&self.config.learners, peer) {
                let ghost held = stale@;
                stale.push(peer);
                proof {
                    assert(stale@[held.len() as int] == peer);
                    assert forall|p: PeerId| stale@.contains(p) implies
                        self@.departed().contains(p) by {
                        let x = choose|x: int| 0 <= x < stale@.len() && stale@[x] == p;
                        if x < held.len() {
                            assert(held[x] == p);
                            assert(held.contains(p));
                        }
                    }
                    assert forall|p: PeerId| held.contains(p) implies stale@.contains(p) by {
                        let x = choose|x: int| 0 <= x < held.len() && held[x] == p;
                        assert(stale@[x] == p);
                    }
                }
            }
            i = i + 1;
        }
        proof {
            assert forall|p: PeerId| self@.departed().contains(p) implies stale@.contains(p) by {
                self.peer_progress.lemma_walk_covers(p);
            }
        }
        stale
    }

    /// Brings a leader's bookkeeping in line with the membership.
    pub fn reconcile_leader_progress_with_config(&mut self)
        ensures
            final(self)@ == old(self)@.reconciled(),
    {
        let ghost before = old(self)@;
        let stale = self.departed_peers();
        let mut i: usize = 0;
        assert(stale@.take(0) =~= Seq::empty());
        assert(self@.progress =~= before.progress.remove_keys(stale@.take(0).to_set()));
        assert(self.pending_snapshots@ =~= old(self).pending_snapshots@.remove_keys(
            stale@.take(0).to_set(),
        ));
        assert(self@.contact =~= before.contact.remove_keys(stale@.take(0).to_set()));
        while i < stale.len()
            invariant
                i <= stale@.len(),
                before == old(self)@,
                self@ == (NodeModel {
                    progress: before.progress.remove_keys(stale@.take(i as int).to_set()),
                    pending: self@.pending,
                    contact: before.contact.remove_keys(stale@.take(i as int).to_set()),
                    ..before
                }),
                self.pending_snapshots@ == old(self).pending_snapshots@.remove_keys(
                    stale@.take(i as int).to_set(),
                ),
            decreases stale@.len() - i,
        {
            let peer = stale[i];
            self.peer_progress.remove(peer);
            self.pending_snapshots.remove(peer);
            self.last_voter_contact.remove(peer);
            proof {
                let less = stale@.take(i as int).to_set();
                let more = stale@.take(i + 1).to_set();
                lemma_take_contains(stale@, i as int);
                assert(more =~= less.insert(peer));
                assert(self@.progress =~= before.progress.remove_keys(more));
                assert(self.pending_snapshots@ =~= old(self).pending_snapshots@.remove_keys(
                    more,
                ));
                assert(self@.contact =~= before.contact.remove_keys(more));
            }
            i = i + 1;
        }
        proof {
            assert(stale@.take(i as int) =~= stale@);
            assert(stale@.to_set() =~= before.departed());
            assert(self@.pending =~= before.pending.remove_keys(before.departed()));
        }
        let ghost middle = self@;
        let peers = copy_peers(&self.config.peers);
        self.add_missing_progress(&peers);
        let learners = copy_peers(&self.config.learners);
        self.add_missing_progress(&learners);
        assert(self@.progress =~= before.reconciled().progress);
    }
}

/// Consumes `payload` if it is a control entry: a membership change is put into
/// effect, the no-op changes nothing. `Ok(false)` means an application payload.
pub fn apply_if_config_change<S: RaftStorage>(
    node: &mut RaftNode,
    storage: &mut S,
    payload: &[u8],
) -> (r: Result<bool, RaftError>)
    ensures
        match decode_config(payload@) {
            None => r == Ok::<bool, RaftError>(payload@ == noop_bytes()) && final(node)@
                == old(node)@ && final(storage).model() == old(storage).model(),
            Some(c) => (r matches Ok(b) ==> b) && config_change_outcome(
                old(node)@,
                old(storage).model(),
                c,
                match r {
                    Ok(_) => Ok(()),
                    Err(e) => Err(e),
                },
                final(node)@,
                final(storage).model(),
            ),
        },
        r matches Err(e) ==> S::fails_with(e) || {
            &&& decode_config(payload@) matches Some(c)
            &&& empties_the_cluster(c)
        },
{
    if is_noop_entry(payload) {
        proof {
            law_control_entries_are_told_apart(payload@);
        }
        return Ok(true);
    }
    match ConfigChangeEntry::decode(payload) {
        Some(entry) => match node.apply_config_change(storage, &entry) {
            Ok(()) => Ok(true),
            Err(e) => Err(e),
        },
        None => Ok(false),
    }
}

/// A membership change in the log: 12 bytes, each field in its place, then the old voters
/// and then the new ones, eight bytes each. The leader's no-op entry is four bytes of its
/// own and no change.
pub proof fn law_changes_are_laid_out(c: ConfigChange)
    requires
        c.old_peers.len() <= u32::MAX,
        c.new_peers.len() <= u32::MAX,
    ensures
        ({
            let b = config_bytes(c);
            let split = 12 + 8 * c.old_peers.len();
            &&& b.len() == split + 8 * c.new_peers.len()
            &&& b[0] == 0xC0
            &&& b[1] == 1
            &&& b[2] == match c.phase {
                ConfigChangePhase::Joint => 1u8,
                ConfigChangePhase::Final => 2u8,
                ConfigChangePhase::AddLearner => 3u8,
                ConfigChangePhase::RemoveLearner => 4u8,
            }
            &&& b[3] == 0
            &&& four_bytes(b, 4) == c.old_peers.len()
            &&& four_bytes(b, 8) == c.new_peers.len()
            &&& forall|i: int|
                0 <= i < c.old_peers.len() ==> eight_bytes(b, 12 + 8 * i) == (
                #[trigger] c.old_peers[i]).0
            &&& forall|i: int|
                0 <= i < c.new_peers.len() ==> eight_bytes(b, split + 8 * i) == (
                #[trigger] c.new_peers[i]).0
        }),
        noop_bytes() == seq![0xC0u8, 1, 0x7F, 0],
{
    let b = config_bytes(c);
    let split = 12 + 8 * c.old_peers.len() as int;
    lemma_le_fields();
    lemma_id_bytes(c.old_peers);
    lemma_id_bytes(c.new_peers);
    assert(b.subrange(4, 8) =~= le_bytes(c.old_peers.len(), 4));
    assert(b.subrange(8, 12) =~= le_bytes(c.new_peers.len(), 4));
    lemma_fields_are_numbers(b, 4);
    lemma_fields_are_numbers(b, 8);
    assert forall|i: int| 0 <= i < c.old_peers.len() implies eight_bytes(b, 12 + 8 * i) == (
    #[trigger] c.old_peers[i]).0 by {
        assert(b.subrange(12 + 8 * i, 12 + 8 * i + 8) =~= id_bytes(c.old_peers).subrange(
            8 * i,
            8 * i + 8,
        ));
        assert(id_bytes(c.old_peers).subrange(8 * i, 8 * i + 8) == le_bytes(
            c.old_peers[i].0 as nat,
            8,
        ));
        lemma_fields_are_numbers(b, 12 + 8 * i);
    }
    assert forall|i: int| 0 <= i < c.new_peers.len() implies eight_bytes(b, split + 8 * i) == (
    #[trigger] c.new_peers[i]).0 by {
        assert(b.subrange(split + 8 * i, split + 8 * i + 8) =~= id_bytes(c.new_peers).subrange(
            8 * i,
            8 * i + 8,
        ));
        assert(id_bytes(c.new_peers).subrange(8 * i, 8 * i + 8) == le_bytes(
            c.new_peers[i].0 as nat,
            8,
        ));
        lemma_fields_are_numbers(b, split + 8 * i);
    }
}

/// A payload is taken for a membership change exactly if it carries the mark, the version
/// and one of the four phases, and is long enough for the voters that it announces.
pub proof fn law_changes_are_told_by_their_header(b: Seq<u8>)
    ensures
        decode_config(b) is Some <==> {
            &&& b.len() >= 12
            &&& b[0] == 0xC0
            &&& b[1] == 1
            &&& 1 <= b[2] <= 4
            &&& b.len() >= 12 + 8 * four_bytes(b, 4) + 8 * four_bytes(b, 8)
        },
        decode_config(b) matches Some(c) ==> {
            &&& c.phase is Joint <==> b[2] == 1
            &&& c.phase is Final <==> b[2] == 2
            &&& c.phase is AddLearner <==> b[2] == 3
            &&& c.old_peers.len() == four_bytes(b, 4)
            &&& c.new_peers.len() == four_bytes(b, 8)
        },
{
    lemma_fields_are_numbers(b, 4);
    lemma_fields_are_numbers(b, 8);
}

} // verus!
