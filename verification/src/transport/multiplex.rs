//! Group multiplexing over one shared transport.
//!
//! Going out, every frame is stamped with its group. Coming in, a frame for a
//! sibling group is parked in that group's inbox; a frame for no known group is
//! counted and dropped.

use bytes::Bytes;
use std::collections::{HashMap, VecDeque};
use std::sync::Arc;
use vstd::prelude::*;

use crate::error::RaftError;
use crate::node::metrics::bumped;
use crate::protocol::codec::buffer::{
    bytes_as_slice, bytes_content, bytes_mut_as_mut_slice, bytes_mut_copy, bytes_mut_freeze,
    bytes_try_into_mut,
};
use crate::protocol::codec::le::{
    field, le_bytes, lemma_byte_ranges, lemma_le_bytes_of_value, lemma_le_fields, put_slice, u64_at,
    u64_bytes,
};
use crate::protocol::codec::wire::{MAX_FRAME_SIZE, RAFT_FRAME_HEADER_SIZE};
use crate::text::text;
use crate::types::GroupId;

verus! {

broadcast use vstd::std_specs::hash::group_hash_axioms;

/// Frames parked per group before further ones are shed.
pub const MAX_INBOX_FRAMES: usize = 1024;

/// The group that a frame names, or `None` where the frame is too short for a
/// header.
pub open spec fn group_of(frame: Seq<u8>) -> Option<u64> {
    if frame.len() < RAFT_FRAME_HEADER_SIZE {
        None
    } else {
        Some(field(frame, 24, 8) as u64)
    }
}

/// The group that a frame names.
pub fn frame_group(buf: &[u8]) -> (r: Option<u64>)
    ensures
        r == group_of(buf@),
{
    if buf.len() < RAFT_FRAME_HEADER_SIZE {
        None
    } else {
        Some(u64_at(buf, 24))
    }
}

/// What a [`DemuxState`] holds.
#[verifier::ext_equal]
pub struct DemuxModel {
    /// The registered groups.
    pub groups: Set<u64>,
    /// The parked frames, each with its group, in the order of their arrival.
    pub parked: Seq<(u64, Seq<u8>)>,
    /// Frames dropped because they name no registered group.
    pub unknown: u64,
    /// Frames dropped because an inbox was full.
    pub overflow: u64,
}

/// The frames of `gid` among `parked`, oldest first.
pub open spec fn inbox_of(parked: Seq<(u64, Seq<u8>)>, gid: u64) -> Seq<Seq<u8>>
    decreases parked.len(),
{
    if parked.len() == 0 {
        Seq::empty()
    } else {
        let rest = inbox_of(parked.drop_last(), gid);
        if parked.last().0 == gid {
            rest.push(parked.last().1)
        } else {
            rest
        }
    }
}

/// `parked` without the frames of `gid`.
pub open spec fn without_group(parked: Seq<(u64, Seq<u8>)>, gid: u64) -> Seq<(u64, Seq<u8>)>
    decreases parked.len(),
{
    if parked.len() == 0 {
        Seq::empty()
    } else {
        let rest = without_group(parked.drop_last(), gid);
        if parked.last().0 == gid {
            rest
        } else {
            rest.push(parked.last())
        }
    }
}

/// Where the first frame of `gid` from `k` on stands, or the length where there is
/// none.
pub open spec fn first_from(parked: Seq<(u64, Seq<u8>)>, gid: u64, k: int) -> int
    decreases parked.len() - k,
{
    if k >= parked.len() {
        parked.len() as int
    } else if parked[k].0 == gid {
        k
    } else {
        first_from(parked, gid, k + 1)
    }
}

/// The routing table of one transport: what is parked for which group.
pub struct DemuxState {
    /// How many frames are parked for each registered group.
    pub counts: HashMap<u64, usize>,
    /// The parked frames, each with its group, in the order of their arrival.
    pub parked: VecDeque<(u64, Vec<u8>)>,
    pub unknown_group: u64,
    pub overflow_dropped: u64,
}

/// A parked frame with its bytes.
pub open spec fn parked_frame(f: (u64, Vec<u8>)) -> (u64, Seq<u8>) {
    (f.0, f.1@)
}

impl View for DemuxState {
    type V = DemuxModel;

    open spec fn view(&self) -> DemuxModel {
        DemuxModel {
            groups: self.counts@.dom(),
            parked: self.parked@.map_values(|f: (u64, Vec<u8>)| parked_frame(f)),
            unknown: self.unknown_group,
            overflow: self.overflow_dropped,
        }
    }
}

impl DemuxModel {
    /// The frames parked for `gid`, oldest first.
    pub open spec fn inbox(self, gid: u64) -> Seq<Seq<u8>> {
        inbox_of(self.parked, gid)
    }

    /// Where the oldest frame of `gid` stands.
    pub open spec fn oldest(self, gid: u64) -> int {
        first_from(self.parked, gid, 0)
    }

    /// Whether something is parked for `gid`.
    pub open spec fn live(self, gid: u64) -> bool {
        self.oldest(gid) < self.parked.len()
    }

    /// What holds between two operations: every parked frame is of a registered
    /// group, and no inbox is over its limit.
    pub open spec fn wf(self) -> bool {
        &&& forall|i: int|
            0 <= i < self.parked.len() ==> self.groups.contains(#[trigger] self.parked[i].0)
        &&& forall|g: u64| #[trigger]
            self.groups.contains(g) ==> self.inbox(g).len() <= MAX_INBOX_FRAMES
    }

    /// The table with `gid` registered.
    pub open spec fn registered(self, gid: u64) -> DemuxModel {
        DemuxModel { groups: self.groups.insert(gid), ..self }
    }

    /// The table without `gid` and whatever was parked for it.
    pub open spec fn unregistered(self, gid: u64) -> DemuxModel {
        DemuxModel {
            groups: self.groups.remove(gid),
            parked: without_group(self.parked, gid),
            ..self
        }
    }

    /// The table with one more frame for no known group.
    pub open spec fn unknown_counted(self) -> DemuxModel {
        DemuxModel { unknown: bumped(self.unknown), ..self }
    }

    /// The table with a frame for `gid` parked. An oversized frame, one for a
    /// group that is not registered, and one for a full inbox are counted and
    /// dropped.
    pub open spec fn parked(self, gid: u64, frame: Seq<u8>) -> DemuxModel {
        if frame.len() > MAX_FRAME_SIZE || !self.groups.contains(gid) {
            self.unknown_counted()
        } else if self.inbox(gid).len() >= MAX_INBOX_FRAMES {
            DemuxModel { overflow: bumped(self.overflow), ..self }
        } else {
            DemuxModel { parked: self.parked.push((gid, frame)), ..self }
        }
    }

    /// The table without the oldest frame of `gid`.
    pub open spec fn popped(self, gid: u64) -> DemuxModel {
        DemuxModel { parked: self.parked.remove(self.oldest(gid)), ..self }
    }

    /// The table after the driver took the oldest frame of all.
    pub open spec fn drained(self) -> DemuxModel {
        DemuxModel { parked: self.parked.remove(0), ..self }
    }

    /// Where a frame that `gid` received goes: its own group keeps it, any
    /// other is parked, and one without a header is counted.
    pub open spec fn sorted(self, gid: u64, frame: Seq<u8>) -> DemuxModel {
        match group_of(frame) {
            Some(g) => if g == gid {
                self
            } else {
                self.parked(g, frame)
            },
            None => self.unknown_counted(),
        }
    }
}

/// How handing a frame out came out. A frame that does not fit is lost.
pub open spec fn handed_out(
    frame: Seq<u8>,
    before: Seq<u8>,
    r: Result<usize, RaftError>,
    after: Seq<u8>,
) -> bool {
    if before.len() < frame.len() {
        (r matches Err(RaftError::Transport(m)) && m@
            == "multiplex: recv buffer smaller than parked frame"@) && after == before
    } else {
        r == Ok::<usize, RaftError>(frame.len() as usize) && after == frame + before.skip(
            frame.len() as int,
        )
    }
}

/// How a drain came out: the oldest frame parked for any group, or nothing where
/// none is parked.
pub open spec fn drain_outcome(
    before: DemuxModel,
    out: Seq<u8>,
    r: Result<Option<(u64, usize)>, RaftError>,
    after: DemuxModel,
    out_after: Seq<u8>,
) -> bool {
    if before.parked.len() == 0 {
        &&& r == Ok::<Option<(u64, usize)>, RaftError>(None)
        &&& after == before
        &&& out_after == out
    } else {
        let (gid, frame) = before.parked[0];
        &&& after == before.drained()
        &&& r matches Ok(found) ==> (found matches Some((g, _)) && g == gid)
        &&& handed_out(
            frame,
            out,
            match r {
                Ok(found) => Ok((found->0).1),
                Err(e) => Err(e),
            },
            out_after,
        )
    }
}

/// Copies `frame` to the front of `out`.
fn hand_out(frame: &Vec<u8>, out: &mut [u8]) -> (r: Result<usize, RaftError>)
    ensures
        handed_out(frame@, old(out)@, r, final(out)@),
{
    let len: usize = frame.len();
    if out.len() < len {
        return Err(
            RaftError::Transport(text("multiplex: recv buffer smaller than parked frame")),
        );
    }
    let ghost held = out@;
    let mut i: usize = 0;
    while i < len
        invariant
            i <= len,
            len == frame@.len(),
            len <= held.len(),
            out@ =~= frame@.take(i as int) + held.skip(i as int),
        decreases len - i,
    {
        out[i] = frame[i];
        i = i + 1;
    }
    assert(frame@.take(i as int) =~= frame@);
    Ok(len)
}

/// An inbox grows only by frames of its group.
proof fn lemma_inbox_push(parked: Seq<(u64, Seq<u8>)>, f: (u64, Seq<u8>), gid: u64)
    ensures
        inbox_of(parked.push(f), gid) == if f.0 == gid {
            inbox_of(parked, gid).push(f.1)
        } else {
            inbox_of(parked, gid)
        },
{
    assert(parked.push(f).drop_last() =~= parked);
}

/// Taking a frame out leaves the inboxes of the other groups alone, and makes that
/// of its group one shorter.
proof fn lemma_inbox_remove(parked: Seq<(u64, Seq<u8>)>, i: int, gid: u64)
    requires
        0 <= i < parked.len(),
    ensures
        parked[i].0 != gid ==> inbox_of(parked.remove(i), gid) == inbox_of(parked, gid),
        parked[i].0 == gid ==> inbox_of(parked.remove(i), gid).len() + 1 == inbox_of(
            parked,
            gid,
        ).len(),
    decreases parked.len(),
{
    let now = parked.remove(i);
    if i == parked.len() - 1 {
        assert(now =~= parked.drop_last());
    } else {
        assert(now.drop_last() =~= parked.drop_last().remove(i));
        assert(now.last() == parked.last());
        lemma_inbox_remove(parked.drop_last(), i, gid);
    }
}

/// A group with a frame has a nonempty inbox.
proof fn lemma_inbox_holds(parked: Seq<(u64, Seq<u8>)>, i: int)
    requires
        0 <= i < parked.len(),
    ensures
        inbox_of(parked, parked[i].0).len() > 0,
    decreases parked.len(),
{
    if i < parked.len() - 1 {
        assert(parked.drop_last()[i] == parked[i]);
        lemma_inbox_holds(parked.drop_last(), i);
    }
}

/// The oldest frame of a group is one of its frames, and none of them stands
/// before it.
proof fn lemma_first_from(parked: Seq<(u64, Seq<u8>)>, gid: u64, k: int)
    requires
        0 <= k <= parked.len(),
    ensures
        k <= first_from(parked, gid, k) <= parked.len(),
        first_from(parked, gid, k) < parked.len() ==> parked[first_from(parked, gid, k)].0 == gid,
        forall|i: int|
            k <= i < first_from(parked, gid, k) ==> (#[trigger] parked[i]).0 != gid,
    decreases parked.len() - k,
{
    if k < parked.len() && parked[k].0 != gid {
        lemma_first_from(parked, gid, k + 1);
    }
}

/// Removing a group's frames removes nothing else.
proof fn lemma_without_group(parked: Seq<(u64, Seq<u8>)>, gone: u64, gid: u64)
    ensures
        gid != gone ==> inbox_of(without_group(parked, gone), gid) == inbox_of(parked, gid),
        forall|i: int|
            0 <= i < without_group(parked, gone).len() ==> {
                &&& (#[trigger] without_group(parked, gone)[i]).0 != gone
                &&& parked.contains(without_group(parked, gone)[i])
            },
    decreases parked.len(),
{
    if parked.len() > 0 {
        let front = parked.drop_last();
        lemma_without_group(front, gone, gid);
        let rest = without_group(front, gone);
        let all = without_group(parked, gone);
        if parked.last().0 != gone {
            lemma_inbox_push(rest, parked.last(), gid);
        }
        assert forall|i: int| 0 <= i < all.len() implies {
            &&& (#[trigger] all[i]).0 != gone
            &&& parked.contains(all[i])
        } by {
            if i < rest.len() {
                assert(all[i] == rest[i]);
                let j = choose|j: int| 0 <= j < front.len() && front[j] == rest[i];
                assert(parked[j] == all[i]);
            } else {
                assert(parked[parked.len() - 1] == all[i]);
            }
        }
    }
}

/// A group that is not registered has no frame to remove.
pub proof fn lemma_strangers_have_no_frames(m: DemuxModel, gid: u64)
    requires
        m.wf(),
        !m.groups.contains(gid),
    ensures
        without_group(m.parked, gid) == m.parked,
{
    lemma_nothing_removed(m.parked, gid);
}

proof fn lemma_nothing_removed(parked: Seq<(u64, Seq<u8>)>, gid: u64)
    requires
        forall|i: int| 0 <= i < parked.len() ==> (#[trigger] parked[i]).0 != gid,
    ensures
        without_group(parked, gid) == parked,
    decreases parked.len(),
{
    if parked.len() > 0 {
        let front = parked.drop_last();
        assert forall|i: int| 0 <= i < front.len() implies (#[trigger] front[i]).0 != gid by {
            assert(front[i] == parked[i]);
        }
        lemma_nothing_removed(front, gid);
        assert(parked[parked.len() - 1].0 != gid);
        assert(front.push(parked.last()) =~= parked);
    }
}

impl DemuxState {
    /// Whether the counts are those of the parked frames.
    pub open spec fn wf(self) -> bool {
        &&& self@.wf()
        &&& forall|g: u64| #[trigger]
            self.counts@.dom().contains(g) ==> self.counts@[g] == self@.inbox(g).len()
    }

    pub fn new() -> (r: Self)
        ensures
            r@ == (DemuxModel {
                groups: Set::empty(),
                parked: Seq::empty(),
                unknown: 0,
                overflow: 0,
            }),
            r.wf(),
    {
        let r = DemuxState {
            counts: HashMap::new(),
            parked: VecDeque::new(),
            unknown_group: 0,
            overflow_dropped: 0,
        };
        assert(r@.groups =~= Set::<u64>::empty());
        assert(r@.parked =~= Seq::<(u64, Seq<u8>)>::empty());
        r
    }

    /// Gives `gid` an inbox.
    pub fn register(&mut self, gid: u64)
        requires
            old(self).wf(),
        ensures
            final(self)@ == old(self)@.registered(gid),
            final(self).wf(),
    {
        if !self.counts.contains_key(&gid) {
            proof {
                if inbox_of(self@.parked, gid).len() > 0 {
                    lemma_inbox_is_parked(self@.parked, gid);
                }
            }
            self.counts.insert(gid, 0);
        }
        assert(self@ =~= old(self)@.registered(gid));
    }

    /// Takes the inbox of `gid` away, with whatever is parked in it.
    pub fn unregister(&mut self, gid: u64)
        requires
            old(self).wf(),
        ensures
            final(self)@ == old(self)@.unregistered(gid),
            final(self).wf(),
    {
        let ghost all = self@.parked;
        let mut kept: VecDeque<(u64, Vec<u8>)> = VecDeque::new();
        let total: usize = self.parked.len();
        let mut i: usize = 0;
        let ghost mut kept_frames: Seq<(u64, Seq<u8>)> = Seq::empty();
        assert(all.take(0) =~= Seq::empty());
        assert(all.skip(0) =~= all);
        while i < total
            invariant
                i <= total,
                total == all.len(),
                self@ == (DemuxModel { parked: all.skip(i as int), ..old(self)@ }),
                self.counts@ == old(self).counts@,
                kept_frames =~= kept@.map_values(|f: (u64, Vec<u8>)| parked_frame(f)),
                kept_frames == without_group(all.take(i as int), gid),
            decreases total - i,
        {
            let ghost held = self@.parked;
            assert(held.len() == self.parked@.len());
            let f = self.parked.pop_front().unwrap();
            proof {
                assert(parked_frame(f) == held[0]);
                assert(self@.parked =~= held.skip(1));
                assert(held.skip(1) =~= all.skip(i + 1));
                assert(all.take(i + 1).drop_last() =~= all.take(i as int));
            }
            if f.0 != gid {
                kept.push_back(f);
                proof {
                    kept_frames = kept_frames.push(parked_frame(f));
                }
            }
            i = i + 1;
        }
        self.parked = kept;
        self.counts.remove(&gid);
        proof {
            assert(all.take(i as int) =~= all);
            assert(self@.parked =~= without_group(all, gid));
            assert(self@ =~= old(self)@.unregistered(gid));
            assert forall|g: u64| g != gid implies #[trigger] self@.inbox(g) == old(self)@.inbox(
                g,
            ) by {
                lemma_without_group(all, gid, g);
            }
            lemma_without_group(all, gid, gid);
            assert forall|j: int| 0 <= j < self@.parked.len() implies self@.groups.contains(
                #[trigger] self@.parked[j].0,
            ) by {
                let k = choose|k: int| 0 <= k < all.len() && all[k] == self@.parked[j];
                assert(old(self)@.groups.contains(all[k].0));
            }
        }
    }

    /// Parks a frame for `gid`.
    pub fn park(&mut self, gid: u64, frame: &[u8])
        requires
            old(self).wf(),
        ensures
            final(self)@ == old(self)@.parked(gid, frame@),
            final(self).wf(),
    {
        if frame.len() > MAX_FRAME_SIZE {
            self.unknown_group = self.unknown_group.wrapping_add(1);
            return;
        }
        let count: usize = match self.counts.get(&gid) {
            None => {
                self.unknown_group = self.unknown_group.wrapping_add(1);
                return;
            },
            Some(count) => *count,
        };
        if count >= MAX_INBOX_FRAMES {
            self.overflow_dropped = self.overflow_dropped.wrapping_add(1);
            return;
        }
        let ghost before = self@;
        let mut copy: Vec<u8> = Vec::new();
        put_slice(&mut copy, frame);
        assert(copy@ =~= frame@);
        self.parked.push_back((gid, copy));
        self.counts.insert(gid, count + 1);
        proof {
            assert(self@.parked =~= before.parked.push((gid, frame@)));
            assert(self@.groups =~= before.groups);
            assert forall|g: u64| #[trigger] self@.inbox(g) == if g == gid {
                before.inbox(g).push(frame@)
            } else {
                before.inbox(g)
            } by {
                lemma_inbox_push(before.parked, (gid, frame@), g);
            }
            assert forall|j: int| 0 <= j < self@.parked.len() implies self@.groups.contains(
                #[trigger] self@.parked[j].0,
            ) by {
                if j < before.parked.len() {
                    assert(self@.parked[j] == before.parked[j]);
                }
            }
        }
    }

    /// Takes the parked frame number `at`.
    fn take_frame(&mut self, at: usize) -> (r: (u64, Vec<u8>))
        requires
            old(self).wf(),
            at < old(self)@.parked.len(),
        ensures
            final(self).wf(),
            final(self)@ == (DemuxModel {
                parked: old(self)@.parked.remove(at as int),
                ..old(self)@
            }),
            parked_frame(r) == old(self)@.parked[at as int],
    {
        let ghost before = self@;
        let f = self.parked.remove(at).unwrap();
        assert(self@.parked =~= before.parked.remove(at as int));
        assert(parked_frame(f) == before.parked[at as int]);
        assert(before.groups.contains(before.parked[at as int].0));
        proof {
            lemma_inbox_holds(before.parked, at as int);
            assert forall|g: u64| #[trigger] inbox_of(self@.parked, g).len() == inbox_of(
                before.parked,
                g,
            ).len() - if g == f.0 {
                1int
            } else {
                0
            } by {
                lemma_inbox_remove(before.parked, at as int, g);
            }
            assert forall|j: int| 0 <= j < self@.parked.len() implies before.groups.contains(
                #[trigger] self@.parked[j].0,
            ) by {
                if j < at {
                    assert(self@.parked[j] == before.parked[j]);
                } else {
                    assert(self@.parked[j] == before.parked[j + 1]);
                }
            }
        }
        let left: usize = match self.counts.get(&f.0) {
            Some(count) => *count - 1,
            None => 0,
        };
        self.counts.insert(f.0, left);
        assert(self@.groups =~= before.groups);
        f
    }

    /// Where the oldest frame of `gid` stands.
    fn find(&self, gid: u64) -> (r: Option<usize>)
        requires
            self.wf(),
        ensures
            match r {
                Some(at) => self@.live(gid) && at == self@.oldest(gid),
                None => !self@.live(gid),
            },
    {
        proof {
            lemma_first_from(self@.parked, gid, 0);
            if self@.live(gid) {
                lemma_inbox_holds(self@.parked, self@.oldest(gid));
                assert(self@.groups.contains(self@.parked[self@.oldest(gid)].0));
            }
        }
        match self.counts.get(&gid) {
            None => {
                return None;
            },
            Some(count) => {
                if *count == 0 {
                    return None;
                }
            },
        }
        let mut k: usize = 0;
        while k < self.parked.len()
            invariant
                k <= self.parked@.len(),
                first_from(self@.parked, gid, 0) == first_from(self@.parked, gid, k as int),
            decreases self.parked@.len() - k,
        {
            assert(self@.parked[k as int].0 == self.parked@[k as int].0);
            if self.parked[k].0 == gid {
                return Some(k);
            }
            k = k + 1;
        }
        None
    }

    /// Pops the oldest frame parked for `gid` into `out`.
    pub fn try_pop_into(&mut self, gid: u64, out: &mut [u8]) -> (r: Result<
        Option<usize>,
        RaftError,
    >)
        requires
            old(self).wf(),
        ensures
            final(self).wf(),
            old(self)@.live(gid) ==> {
                &&& final(self)@ == old(self)@.popped(gid)
                &&& r matches Ok(n) ==> n is Some
                &&& handed_out(
                    old(self)@.parked[old(self)@.oldest(gid)].1,
                    old(out)@,
                    match r {
                        Ok(n) => Ok(n->0),
                        Err(e) => Err(e),
                    },
                    final(out)@,
                )
            },
            !old(self)@.live(gid) ==> {
                &&& r == Ok::<Option<usize>, RaftError>(None)
                &&& final(self)@ == old(self)@
                &&& final(out)@ == old(out)@
            },
    {
        match self.find(gid) {
            None => Ok(None),
            Some(at) => {
                let (_, frame) = self.take_frame(at);
                match hand_out(&frame, out) {
                    Ok(n) => Ok(Some(n)),
                    Err(e) => Err(e),
                }
            },
        }
    }

    /// Pops the oldest frame parked for any group into `out`.
    pub fn pop_parked_into(&mut self, out: &mut [u8]) -> (r: Result<
        Option<(u64, usize)>,
        RaftError,
    >)
        requires
            old(self).wf(),
        ensures
            final(self).wf(),
            drain_outcome(old(self)@, old(out)@, r, final(self)@, final(out)@),
    {
        if self.parked.len() == 0 {
            return Ok(None);
        }
        let (gid, frame) = self.take_frame(0);
        match hand_out(&frame, out) {
            Ok(n) => Ok(Some((gid, n))),
            Err(e) => Err(e),
        }
    }

    /// Sorts a frame that `gid` received: whether it is its own. Any other is
    /// parked for its group or counted.
    pub fn sort_frame(&mut self, gid: u64, frame: &[u8]) -> (r: bool)
        requires
            old(self).wf(),
        ensures
            final(self).wf(),
            r == (group_of(frame@) == Some(gid)),
            final(self)@ == old(self)@.sorted(gid, frame@),
    {
        match frame_group(frame) {
            Some(g) => {
                if g == gid {
                    return true;
                }
                self.park(g, frame);
                false
            },
            None => {
                self.unknown_group = self.unknown_group.wrapping_add(1);
                assert(self@ == old(self)@.unknown_counted());
                false
            },
        }
    }
}

/// `Arc::clone` of std: another handle on the same value.
#[verifier::external_body]
fn share<T>(inner: &Arc<T>) -> (r: Arc<T>)
    ensures
        r == *inner,
{
    Arc::clone(inner)
}

/// A frame with its group set to `gid`.
pub open spec fn stamped(frame: Seq<u8>, gid: u64) -> Seq<u8> {
    frame.take(24) + le_bytes(gid as nat, 8) + frame.skip(RAFT_FRAME_HEADER_SIZE as int)
}

/// One transport shared by many groups.
pub struct MultiplexDemux<T> {
    pub inner: Arc<T>,
    pub state: DemuxState,
}

impl<T> MultiplexDemux<T> {
    pub fn new(inner: Arc<T>) -> (r: Self)
        ensures
            r.inner == inner,
            r.state@ == (DemuxModel {
                groups: Set::empty(),
                parked: Seq::empty(),
                unknown: 0,
                overflow: 0,
            }),
            r.state.wf(),
    {
        MultiplexDemux { inner, state: DemuxState::new() }
    }

    pub fn inner(&self) -> (r: &Arc<T>)
        ensures
            *r == self.inner,
    {
        &self.inner
    }

    /// Registers a group and gives it its stamping transport.
    pub fn transport(&mut self, group_id: GroupId) -> (r: MultiplexedTransport<T>)
        requires
            old(self).state.wf(),
        ensures
            r.inner == old(self).inner,
            r.group_id == group_id,
            final(self).inner == old(self).inner,
            final(self).state@ == old(self).state@.registered(group_id.0),
            final(self).state.wf(),
    {
        self.state.register(group_id.0);
        MultiplexedTransport { inner: share(&self.inner), group_id }
    }

    /// Takes a group's inbox away; frames parked in it are discarded.
    pub fn unregister(&mut self, group_id: GroupId)
        requires
            old(self).state.wf(),
        ensures
            final(self).inner == old(self).inner,
            final(self).state@ == old(self).state@.unregistered(group_id.0),
            final(self).state.wf(),
    {
        self.state.unregister(group_id.0)
    }

    /// Pops the oldest frame parked for any group into `out`: its group and its
    /// length.
    pub fn pop_parked_into(&mut self, out: &mut [u8]) -> (r: Result<
        Option<(u64, usize)>,
        RaftError,
    >)
        requires
            old(self).state.wf(),
        ensures
            final(self).inner == old(self).inner,
            final(self).state.wf(),
            drain_outcome(old(self).state@, old(out)@, r, final(self).state@, final(out)@),
    {
        self.state.pop_parked_into(out)
    }

    /// Frames dropped because they name no registered group.
    pub fn unknown_group_frames(&self) -> (r: u64)
        ensures
            r == self.state@.unknown,
    {
        self.state.unknown_group
    }

    /// Frames dropped because an inbox was full.
    pub fn overflow_dropped_frames(&self) -> (r: u64)
        ensures
            r == self.state@.overflow,
    {
        self.state.overflow_dropped
    }
}

/// A group's end of the shared transport: it stamps what goes out.
pub struct MultiplexedTransport<T> {
    pub inner: Arc<T>,
    pub group_id: GroupId,
}

/// Writes `source` into `out` from `at` on.
fn write_at(out: &mut [u8], at: usize, source: &[u8])
    requires
        at + source@.len() <= old(out)@.len(),
    ensures
        final(out)@ == old(out)@.take(at as int) + source@ + old(out)@.skip(at + source@.len()),
{
    let size: usize = source.len();
    let total: usize = out.len();
    let mut i: usize = 0;
    while i < size
        invariant
            i <= size,
            size == source@.len(),
            total == out@.len(),
            at + size <= total,
            out@.len() == old(out)@.len(),
            out@ =~= old(out)@.take(at as int) + source@.take(i as int) + old(out)@.skip(at + i),
        decreases size - i,
    {
        out[at + i] = source[i];
        i = i + 1;
    }
    assert(source@.take(i as int) =~= source@);
}

impl<T> MultiplexedTransport<T> {
    pub fn new(inner: Arc<T>, group_id: GroupId) -> (r: Self)
        ensures
            r.inner == inner,
            r.group_id == group_id,
    {
        MultiplexedTransport { inner, group_id }
    }

    pub fn group_id(&self) -> (r: GroupId)
        ensures
            r == self.group_id,
    {
        self.group_id
    }

    pub fn inner(&self) -> (r: &T)
        ensures
            *r == *self.inner,
    {
        &self.inner
    }

    /// Stamps the first slice of a frame: the new header, and what of the slice
    /// comes after it.
    pub fn stamp_first<'a>(&self, first: &'a [u8]) -> (r: Result<(Vec<u8>, &'a [u8]), RaftError>)
        ensures
            first@.len() < RAFT_FRAME_HEADER_SIZE ==> (r matches Err(e) && e.is_protocol(
                "multiplex: frame too small to stamp group_id"@,
            )),
            first@.len() >= RAFT_FRAME_HEADER_SIZE ==> (r matches Ok((header, rest))
                && header@.len() == RAFT_FRAME_HEADER_SIZE && header@ + rest@ == stamped(
                first@,
                self.group_id.0,
            )),
    {
        if first.len() < RAFT_FRAME_HEADER_SIZE {
            return Err(
                RaftError::Protocol(text("multiplex: frame too small to stamp group_id")),
            );
        }
        let (front, _) = first.split_at(24);
        let (_, rest) = first.split_at(RAFT_FRAME_HEADER_SIZE);
        let mut header: Vec<u8> = Vec::new();
        put_slice(&mut header, front);
        put_slice(&mut header, &u64_bytes(self.group_id.0));
        proof {
            lemma_le_fields();
            assert(header@ + rest@ =~= stamped(first@, self.group_id.0));
        }
        Ok((header, rest))
    }

    /// Stamps a frame in its own buffer, or in a copy where the buffer is
    /// shared.
    pub fn stamp_owned(&self, frame: Bytes) -> (r: Result<Bytes, RaftError>)
        ensures
            bytes_content(frame).len() < RAFT_FRAME_HEADER_SIZE ==> (r matches Err(e)
                && e.is_protocol("multiplex: frame too short to stamp group_id"@)),
            bytes_content(frame).len() >= RAFT_FRAME_HEADER_SIZE ==> (r matches Ok(out)
                && bytes_content(out) == stamped(bytes_content(frame), self.group_id.0)),
    {
        if bytes_as_slice(&frame).len() < RAFT_FRAME_HEADER_SIZE {
            return Err(
                RaftError::Protocol(text("multiplex: frame too short to stamp group_id")),
            );
        }
        let mut buf = match bytes_try_into_mut(frame) {
            Ok(unique) => unique,
            Err(shared) => bytes_mut_copy(bytes_as_slice(&shared)),
        };
        proof {
            lemma_le_fields();
        }
        write_at(bytes_mut_as_mut_slice(&mut buf), 24, &u64_bytes(self.group_id.0));
        let out = bytes_mut_freeze(buf);
        assert(bytes_content(out) =~= stamped(bytes_content(frame), self.group_id.0));
        Ok(out)
    }
}

/// A stamped frame names its group, and is otherwise as it was.
pub proof fn law_stamped_frames_name_their_group(frame: Seq<u8>, gid: u64)
    requires
        frame.len() >= RAFT_FRAME_HEADER_SIZE,
    ensures
        group_of(stamped(frame, gid)) == Some(gid),
        stamped(frame, gid).len() == frame.len(),
        forall|i: int|
            0 <= i < frame.len() && !(24 <= i < 32) ==> #[trigger] stamped(frame, gid)[i]
                == frame[i],
{
    lemma_le_fields();
    let out = stamped(frame, gid);
    assert(out.subrange(24, 32) =~= le_bytes(gid as nat, 8));
}

/// An inbox that holds something has a frame among the parked ones.
proof fn lemma_inbox_is_parked(parked: Seq<(u64, Seq<u8>)>, gid: u64)
    requires
        inbox_of(parked, gid).len() > 0,
    ensures
        exists|i: int| 0 <= i < parked.len() && (#[trigger] parked[i]).0 == gid,
    decreases parked.len(),
{
    if parked.last().0 == gid {
        assert(parked[parked.len() - 1].0 == gid);
    } else {
        lemma_inbox_is_parked(parked.drop_last(), gid);
        let i = choose|i: int|
            0 <= i < parked.drop_last().len() && (#[trigger] parked.drop_last()[i]).0 == gid;
        assert(parked[i].0 == gid);
    }
}

/// Taking out the oldest frame of a group takes the first of its inbox.
proof fn lemma_inbox_pop(parked: Seq<(u64, Seq<u8>)>, gid: u64, at: int)
    requires
        0 <= at < parked.len(),
        parked[at].0 == gid,
        forall|i: int| 0 <= i < at ==> (#[trigger] parked[i]).0 != gid,
    ensures
        inbox_of(parked, gid).len() > 0,
        inbox_of(parked, gid)[0] == parked[at].1,
        inbox_of(parked.remove(at), gid) == inbox_of(parked, gid).skip(1),
    decreases parked.len(),
{
    let now = parked.remove(at);
    let front = parked.drop_last();
    if at == parked.len() - 1 {
        assert(now =~= front);
        if inbox_of(front, gid).len() > 0 {
            lemma_inbox_is_parked(front, gid);
            let i = choose|i: int| 0 <= i < front.len() && (#[trigger] front[i]).0 == gid;
            assert(parked[i].0 == gid);
        }
        assert(inbox_of(parked, gid).skip(1) =~= inbox_of(front, gid));
    } else {
        assert(now.drop_last() =~= front.remove(at));
        assert(now.last() == parked.last());
        assert forall|i: int| 0 <= i < at implies (#[trigger] front[i]).0 != gid by {
            assert(front[i] == parked[i]);
        }
        lemma_inbox_pop(front, gid, at);
        assert(inbox_of(now, gid) =~= inbox_of(parked, gid).skip(1));
    }
}

/// The table after `k` drains.
pub open spec fn drained_times(m: DemuxModel, k: nat) -> DemuxModel
    decreases k,
{
    if k == 0 {
        m
    } else {
        drained_times(m, (k - 1) as nat).drained()
    }
}

/// No parked frame is stranded: they come out one by one in the order of their
/// arrival, whatever their groups, and a drain finds nothing only once all are out.
pub proof fn law_parked_frames_come_out_in_order(m: DemuxModel, k: nat)
    requires
        k <= m.parked.len(),
    ensures
        drained_times(m, k).parked == m.parked.skip(k as int),
        k < m.parked.len() ==> drained_times(m, k).parked[0] == m.parked[k as int],
    decreases k,
{
    if k == 0 {
        assert(m.parked.skip(0) =~= m.parked);
    } else {
        law_parked_frames_come_out_in_order(m, (k - 1) as nat);
        assert(m.parked.skip(k - 1).remove(0) =~= m.parked.skip(k as int));
    }
}

/// A frame only ever reaches the inbox of the group it was parked for, behind the
/// frames already there; a group's frames come out of it oldest first; and no
/// operation on one group touches another's frames.
pub proof fn law_inboxes_are_kept_apart(m: DemuxModel, gid: u64, frame: Seq<u8>, other: u64)
    requires
        other != gid,
    ensures
        m.parked(gid, frame).inbox(other) == m.inbox(other),
        m.live(gid) ==> m.popped(gid).inbox(other) == m.inbox(other),
        m.unregistered(gid).inbox(other) == m.inbox(other),
        m.groups.contains(gid) && frame.len() <= MAX_FRAME_SIZE && m.inbox(gid).len()
            < MAX_INBOX_FRAMES ==> m.parked(gid, frame).inbox(gid) == m.inbox(gid).push(frame),
        m.live(gid) ==> {
            &&& m.inbox(gid).len() > 0
            &&& m.inbox(gid)[0] == m.parked[m.oldest(gid)].1
            &&& m.popped(gid).inbox(gid) == m.inbox(gid).skip(1)
        },
{
    lemma_inbox_push(m.parked, (gid, frame), other);
    lemma_inbox_push(m.parked, (gid, frame), gid);
    lemma_without_group(m.parked, gid, other);
    lemma_first_from(m.parked, gid, 0);
    if m.live(gid) {
        lemma_inbox_remove(m.parked, m.oldest(gid), other);
        lemma_inbox_pop(m.parked, gid, m.oldest(gid));
    }
}

/// No frame vanishes unseen. A frame for a registered group whose inbox has room, and that
/// is no larger than a frame may be, is parked behind all others; any other is dropped and
/// counted, as shed where the inbox was full and as unknown otherwise.
pub proof fn law_frames_are_parked_or_counted(m: DemuxModel, gid: u64, frame: Seq<u8>)
    ensures
        ({
            let n = m.parked(gid, frame);
            let welcome = m.groups.contains(gid) && frame.len() <= MAX_FRAME_SIZE;
            let room = m.parked.filter(|f: (u64, Seq<u8>)| f.0 == gid).len() < MAX_INBOX_FRAMES;
            &&& n.groups == m.groups
            &&& welcome && room ==> n.parked == m.parked.push((gid, frame)) && n.unknown
                == m.unknown && n.overflow == m.overflow
            &&& welcome && !room ==> n.parked == m.parked && n.unknown == m.unknown && (m.overflow
                < u64::MAX ==> n.overflow == m.overflow + 1)
            &&& !welcome ==> n.parked == m.parked && n.overflow == m.overflow && (m.unknown
                < u64::MAX ==> n.unknown == m.unknown + 1)
        }),
{
    lemma_inbox_is_filter(m.parked, gid, |f: (u64, Seq<u8>)| f.0 == gid);
}

proof fn lemma_inbox_is_filter(
    parked: Seq<(u64, Seq<u8>)>,
    gid: u64,
    of: spec_fn((u64, Seq<u8>)) -> bool,
)
    requires
        forall|f: (u64, Seq<u8>)| #[trigger] of(f) == (f.0 == gid),
    ensures
        inbox_of(parked, gid).len() == parked.filter(of).len(),
    decreases parked.len(),
{
    reveal(Seq::filter);
    if parked.len() > 0 {
        lemma_inbox_is_filter(parked.drop_last(), gid, of);
    }
}

/// A frame that one group receives goes to the group that it names: to itself where that
/// is the one, and otherwise among the parked; one without a whole header is counted.
pub proof fn law_received_frames_go_where_they_belong(m: DemuxModel, gid: u64, frame: Seq<u8>)
    ensures
        frame.len() < RAFT_FRAME_HEADER_SIZE ==> m.sorted(gid, frame).parked == m.parked && (
        m.unknown < u64::MAX ==> m.sorted(gid, frame).unknown == m.unknown + 1),
        frame.len() >= RAFT_FRAME_HEADER_SIZE && field(frame, 24, 8) == gid ==> m.sorted(
            gid,
            frame,
        ) == m,
        frame.len() >= RAFT_FRAME_HEADER_SIZE && field(frame, 24, 8) != gid ==> m.sorted(
            gid,
            frame,
        ) == m.parked(field(frame, 24, 8) as u64, frame),
{
    if frame.len() >= RAFT_FRAME_HEADER_SIZE {
        lemma_le_bytes_of_value(frame.subrange(24, 32));
        lemma_byte_ranges();
    }
}

/// A drain takes the frame that has been parked longest and hands out its bytes, whole and
/// with its group; what does not fit is lost with an error, and nothing parked is left
/// alone only where there is nothing.
pub proof fn law_drains_hand_out_the_oldest_frame(
    before: DemuxModel,
    out: Seq<u8>,
    r: Result<Option<(u64, usize)>, RaftError>,
    after: DemuxModel,
    out_after: Seq<u8>,
)
    requires
        drain_outcome(before, out, r, after, out_after),
        before.parked.len() > 0 ==> before.parked[0].1.len() <= usize::MAX,
    ensures
        before.parked.len() == 0 ==> r == Ok::<Option<(u64, usize)>, RaftError>(None) && after
            == before,
        before.parked.len() > 0 ==> {
            let (gid, frame) = before.parked[0];
            &&& after.parked == before.parked.skip(1)
            &&& after.groups == before.groups
            &&& frame.len() <= out.len() ==> r == Ok::<Option<(u64, usize)>, RaftError>(
                Some((gid, frame.len() as usize)),
            ) && out_after.take(frame.len() as int) == frame && out_after.skip(frame.len() as int)
                == out.skip(frame.len() as int)
            &&& frame.len() > out.len() ==> r is Err && out_after == out
        },
{
    if before.parked.len() > 0 {
        let (gid, frame) = before.parked[0];
        assert(before.parked.remove(0) =~= before.parked.skip(1));
        if frame.len() <= out.len() {
            assert(out_after.take(frame.len() as int) =~= frame);
            assert(out_after.skip(frame.len() as int) =~= out.skip(frame.len() as int));
        }
    }
}

/// A group that leaves takes its own frames with it and no others.
pub proof fn law_leaving_groups_take_their_frames(m: DemuxModel, gid: u64, other: u64)
    ensures
        !m.unregistered(gid).groups.contains(gid),
        other != gid ==> m.unregistered(gid).groups.contains(other) == m.groups.contains(other),
        forall|i: int|
            0 <= i < m.unregistered(gid).parked.len() ==> (#[trigger] m.unregistered(
                gid,
            ).parked[i]).0 != gid,
        other != gid ==> m.unregistered(gid).inbox(other) == m.inbox(other),
        m.registered(gid).groups.contains(other) <==> other == gid || m.groups.contains(other),
        m.registered(gid).parked == m.parked,
{
    lemma_without_group(m.parked, gid, other);
}

} // verus!
