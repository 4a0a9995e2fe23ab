//! Frames as lists of slices: headers are written into a caller's buffer and
//! payloads stay where they lie.

use vstd::prelude::*;

use super::{
    body_total_len, capped, entries_total_len, frame, frame_header, kind_of, too_long,
    wire_len_u32,
};
use crate::entry::{EntryRecord, LogEntry};
use crate::error::RaftError;
use crate::protocol::codec::wire::{
    AppendEntries, EntryHeader, RaftFrameHeader, APPEND_ENTRIES_SIZE, ENTRY_HEADER_SIZE,
    KIND_APPEND_ENTRIES, RAFT_FRAME_HEADER_SIZE, RAFT_MAGIC, RAFT_VERSION,
};
use crate::protocol::message::{
    entry_blocks, entry_header, lemma_entry_block_len, lemma_entry_blocks_push, records,
    RaftMessage,
};
use crate::text::text;
use crate::types::{GroupId, LogIndex, PeerId, Term};

verus! {

/// One slice of a frame.
#[derive(Debug)]
pub enum FrameSlice<'a> {
    /// Bytes `start..end` of the header buffer.
    Header { start: usize, end: usize },
    /// The fixed part of a body.
    Fixed(Vec<u8>),
    /// A payload, where it lies.
    Payload(&'a [u8]),
}

/// What a [`FrameSlice`] stands for.
#[verifier::ext_equal]
pub enum SliceSpec {
    Header(int, int),
    Fixed(Seq<u8>),
    Payload(Seq<u8>),
}

impl<'a> View for FrameSlice<'a> {
    type V = SliceSpec;

    open spec fn view(&self) -> SliceSpec {
        match self {
            FrameSlice::Header { start, end } => SliceSpec::Header(*start as int, *end as int),
            FrameSlice::Fixed(v) => SliceSpec::Fixed(v@),
            FrameSlice::Payload(p) => SliceSpec::Payload(p@),
        }
    }
}

impl SliceSpec {
    /// The bytes of this slice, with `buf` as the header buffer.
    pub open spec fn bytes(self, buf: Seq<u8>) -> Seq<u8> {
        match self {
            SliceSpec::Header(start, end) => buf.subrange(start, end),
            SliceSpec::Fixed(v) => v,
            SliceSpec::Payload(p) => p,
        }
    }
}

/// The slices that `out` stands for.
pub open spec fn slice_specs(out: Seq<FrameSlice<'_>>) -> Seq<SliceSpec> {
    out.map_values(|s: FrameSlice<'_>| s@)
}

/// The bytes that `slices` send, in order.
pub open spec fn gathered(slices: Seq<SliceSpec>, buf: Seq<u8>) -> Seq<u8>
    decreases slices.len(),
{
    if slices.len() == 0 {
        Seq::empty()
    } else {
        gathered(slices.drop_last(), buf) + slices.last().bytes(buf)
    }
}

/// A payload takes a slice only if it is not empty.
pub open spec fn payload_slice(p: Seq<u8>) -> Seq<SliceSpec> {
    if p.len() == 0 {
        Seq::empty()
    } else {
        seq![SliceSpec::Payload(p)]
    }
}

/// The slices of several payloads.
pub open spec fn payload_slices(payloads: Seq<&[u8]>) -> Seq<SliceSpec>
    decreases payloads.len(),
{
    if payloads.len() == 0 {
        Seq::empty()
    } else {
        payload_slices(payloads.drop_last()) + payload_slice(payloads.last()@)
    }
}

/// The slices of `msg`'s body, for every message but a batch of entries.
pub open spec fn body_slices(msg: RaftMessage<'_>) -> Seq<SliceSpec> {
    match msg {
        RaftMessage::RequestVote(m) => seq![SliceSpec::Fixed(m.bytes())],
        RaftMessage::RequestVoteResp(m) => seq![SliceSpec::Fixed(m.bytes())],
        RaftMessage::PreVote(m) => seq![SliceSpec::Fixed(m.bytes())],
        RaftMessage::PreVoteResp(m) => seq![SliceSpec::Fixed(m.bytes())],
        RaftMessage::AppendEntries(m, p) =>
            seq![SliceSpec::Fixed(m.bytes())] + payload_slice(p@),
        RaftMessage::AppendEntriesVectored(_, _) => Seq::empty(),
        RaftMessage::AppendEntriesSeeded { ae, headers, payloads } =>
            seq![SliceSpec::Fixed(ae.bytes())] + payload_slice(headers@)
                + payload_slice(payloads@),
        RaftMessage::AppendEntriesSeededVectored { ae, headers, payloads } =>
            seq![SliceSpec::Fixed(ae.bytes())] + payload_slice(headers@)
                + payload_slices(payloads@),
        RaftMessage::AppendEntriesResp(m) => seq![SliceSpec::Fixed(m.bytes())],
        RaftMessage::InstallSnapshot(m, p) =>
            seq![SliceSpec::Fixed(m.bytes())] + payload_slice(p@),
        RaftMessage::InstallSnapshotResp(m) => seq![SliceSpec::Fixed(m.bytes())],
        RaftMessage::TimeoutNow(m) => seq![SliceSpec::Fixed(m.bytes())],
        RaftMessage::Custom(p) => payload_slice(p@),
        RaftMessage::CustomResponse(p) => payload_slice(p@),
    }
}

/// The slice of the frame header alone.
pub open spec fn header_slice() -> Seq<SliceSpec> {
    seq![SliceSpec::Header(0, RAFT_FRAME_HEADER_SIZE as int)]
}

/// `buf` with its front replaced by `front`.
pub open spec fn with_front(buf: Seq<u8>, front: Seq<u8>) -> Seq<u8> {
    front + buf.skip(front.len() as int)
}

/// Where the entry headers of a batch start in the header buffer.
pub open spec fn batch_base() -> int {
    RAFT_FRAME_HEADER_SIZE + APPEND_ENTRIES_SIZE
}

/// How long the header buffer must be for `n` entries.
pub open spec fn batch_headers_len(n: nat) -> int {
    batch_base() + n * ENTRY_HEADER_SIZE
}

/// The headers of `entries`, one after another.
pub open spec fn entry_headers(entries: Seq<EntryRecord>) -> Seq<u8>
    decreases entries.len(),
{
    if entries.len() == 0 {
        Seq::empty()
    } else {
        entry_headers(entries.drop_last()) + entry_header(entries.last()).bytes()
    }
}

/// The slices of a batch after the first: each entry's header, and its payload
/// unless it is empty.
pub open spec fn batch_slices(entries: Seq<EntryRecord>) -> Seq<SliceSpec>
    decreases entries.len(),
{
    if entries.len() == 0 {
        Seq::empty()
    } else {
        let at = batch_headers_len((entries.len() - 1) as nat);
        batch_slices(entries.drop_last()) + seq![SliceSpec::Header(at, at + ENTRY_HEADER_SIZE)]
            + payload_slice(entries.last().payload)
    }
}

/// The append request that a batch of `entries` sends: `m` with the entry count
/// taken from the batch.
pub open spec fn batch_request(m: AppendEntries, count: nat) -> AppendEntries {
    AppendEntries { entry_count: count as u32, ..m }
}

/// The body of a batch frame.
pub open spec fn batch_body(m: AppendEntries, entries: Seq<EntryRecord>) -> Seq<u8> {
    batch_request(m, entries.len()).bytes() + entry_blocks(entries)
}

/// What the header buffer's front holds for a batch.
pub open spec fn batch_front(
    from: u64,
    group_id: u64,
    m: AppendEntries,
    entries: Seq<EntryRecord>,
) -> Seq<u8> {
    frame_header(from, group_id, KIND_APPEND_ENTRIES, batch_body(m, entries).len()).bytes()
        + batch_request(m, entries.len()).bytes() + entry_headers(entries)
}

/// Overwrites `buf` from `at` on with `bytes`.
fn write_at(buf: &mut Vec<u8>, at: usize, bytes: &Vec<u8>)
    requires
        at + bytes@.len() <= old(buf)@.len(),
    ensures
        final(buf)@ == old(buf)@.take(at as int) + bytes@ + old(buf)@.skip(at + bytes@.len()),
{
    let size: usize = buf.len();
    let mut i: usize = 0;
    while i < bytes.len()
        invariant
            i <= bytes@.len(),
            size == old(buf)@.len(),
            at + bytes@.len() <= old(buf)@.len(),
            buf@ =~= old(buf)@.take(at as int) + bytes@.take(i as int) + old(buf)@.skip(at + i),
        decreases bytes@.len() - i,
    {
        let b: u8 = bytes[i];
        buf.set(at + i, b);
        i = i + 1;
    }
}

/// Pushes the payload's slice, unless it is empty.
fn push_payload<'a>(out: &mut Vec<FrameSlice<'a>>, p: &'a [u8])
    ensures
        slice_specs(final(out)@) == slice_specs(old(out)@) + payload_slice(p@),
{
    if !p.is_empty() {
        out.push(FrameSlice::Payload(p));
    }
    assert(slice_specs(out@) =~= slice_specs(old(out)@) + payload_slice(p@));
}

/// Pushes the slice of the fixed part of a body.
fn push_fixed<'a>(out: &mut Vec<FrameSlice<'a>>, fixed: Vec<u8>)
    ensures
        slice_specs(final(out)@) == slice_specs(old(out)@).push(SliceSpec::Fixed(fixed@)),
{
    out.push(FrameSlice::Fixed(fixed));
    assert(slice_specs(out@) =~= slice_specs(old(out)@).push(SliceSpec::Fixed(fixed@)));
}

/// Pushes the slices of several payloads.
fn push_payloads<'a>(out: &mut Vec<FrameSlice<'a>>, payloads: &'a [&'a [u8]])
    ensures
        slice_specs(final(out)@) == slice_specs(old(out)@) + payload_slices(payloads@),
{
    let mut i: usize = 0;
    assert(payloads@.take(0) =~= Seq::empty());
    while i < payloads.len()
        invariant
            i <= payloads@.len(),
            slice_specs(out@) =~= slice_specs(old(out)@) + payload_slices(
                payloads@.take(i as int),
            ),
        decreases payloads@.len() - i,
    {
        assert(payloads@.take(i + 1).drop_last() =~= payloads@.take(i as int));
        push_payload(out, payloads[i]);
        i = i + 1;
    }
    assert(payloads@.take(i as int) =~= payloads@);
}

/// Pushes the slices of the body of any message but a batch.
fn push_body<'a>(out: &mut Vec<FrameSlice<'a>>, msg: &RaftMessage<'a>)
    requires
        !(*msg is AppendEntriesVectored),
    ensures
        slice_specs(final(out)@) == slice_specs(old(out)@) + body_slices(*msg),
{
    let mut fixed: Vec<u8> = Vec::new();
    match msg {
        RaftMessage::RequestVote(m) => {
            m.put(&mut fixed);
            push_fixed(out, fixed);
        },
        RaftMessage::RequestVoteResp(m) => {
            m.put(&mut fixed);
            push_fixed(out, fixed);
        },
        RaftMessage::PreVote(m) => {
            m.put(&mut fixed);
            push_fixed(out, fixed);
        },
        RaftMessage::PreVoteResp(m) => {
            m.put(&mut fixed);
            push_fixed(out, fixed);
        },
        RaftMessage::AppendEntries(m, p) => {
            m.put(&mut fixed);
            push_fixed(out, fixed);
            push_payload(out, p);
        },
        RaftMessage::AppendEntriesVectored(_, _) => {},
        RaftMessage::AppendEntriesSeeded { ae, headers, payloads } => {
            ae.put(&mut fixed);
            push_fixed(out, fixed);
            push_payload(out, headers);
            push_payload(out, payloads);
        },
        RaftMessage::AppendEntriesSeededVectored { ae, headers, payloads } => {
            ae.put(&mut fixed);
            push_fixed(out, fixed);
            push_payload(out, headers);
            push_payloads(out, payloads);
        },
        RaftMessage::AppendEntriesResp(m) => {
            m.put(&mut fixed);
            push_fixed(out, fixed);
        },
        RaftMessage::InstallSnapshot(m, p) => {
            m.put(&mut fixed);
            push_fixed(out, fixed);
            push_payload(out, p);
        },
        RaftMessage::InstallSnapshotResp(m) => {
            m.put(&mut fixed);
            push_fixed(out, fixed);
        },
        RaftMessage::TimeoutNow(m) => {
            m.put(&mut fixed);
            push_fixed(out, fixed);
        },
        RaftMessage::Custom(p) => {
            push_payload(out, p);
        },
        RaftMessage::CustomResponse(p) => {
            push_payload(out, p);
        },
    }
    assert(slice_specs(out@) =~= slice_specs(old(out)@) + body_slices(*msg));
}

/// What a vectored encoding of `msg` does: the error it reports, or the header
/// buffer and the slices that it leaves.
pub open spec fn vectored_result(
    from: u64,
    group_id: u64,
    msg: RaftMessage<'_>,
    buf: Seq<u8>,
) -> Result<(Seq<u8>, Seq<SliceSpec>), Seq<char>> {
    match msg {
        RaftMessage::AppendEntriesVectored(m, entries) =>
            batch_result(from, group_id, m, records(entries@), buf),
        _ => if msg.body().len() > u32::MAX {
            Err(too_long("frame body length"@, capped(msg.body().len())))
        } else if buf.len() < RAFT_FRAME_HEADER_SIZE {
            Err("header buffer too small"@)
        } else {
            Ok(
                (
                    with_front(
                        buf,
                        frame_header(from, group_id, msg.kind(), msg.body().len()).bytes(),
                    ),
                    header_slice() + body_slices(msg),
                ),
            )
        },
    }
}

/// What a vectored encoding of a batch does.
pub open spec fn batch_result(
    from: u64,
    group_id: u64,
    m: AppendEntries,
    entries: Seq<EntryRecord>,
    buf: Seq<u8>,
) -> Result<(Seq<u8>, Seq<SliceSpec>), Seq<char>> {
    if batch_body(m, entries).len() > u32::MAX {
        Err(too_long("frame body length"@, capped(batch_body(m, entries).len())))
    } else if buf.len() < batch_headers_len(entries.len()) {
        Err("header buffer too small for batch"@)
    } else {
        Ok(
            (
                with_front(buf, batch_front(from, group_id, m, entries)),
                seq![SliceSpec::Header(0, batch_base())] + batch_slices(entries),
            ),
        )
    }
}

/// Whether an encoding came out as `expected`.
pub open spec fn came_out(
    expected: Result<(Seq<u8>, Seq<SliceSpec>), Seq<char>>,
    r: Result<(), RaftError>,
    before: Seq<u8>,
    after: Seq<u8>,
    out: Seq<SliceSpec>,
) -> bool {
    match expected {
        Ok((buf, slices)) => r is Ok && after == buf && out == slices,
        Err(words) => (r matches Err(e) && e.is_protocol(words)) && after == before && out.len()
            == 0,
    }
}

/// Encodes a message of the default group.
pub fn encode_message_vectored<'a>(
    from: PeerId,
    msg: &RaftMessage<'a>,
    header_buf: &mut Vec<u8>,
    out_vectored: &mut Vec<FrameSlice<'a>>,
) -> (r: Result<(), RaftError>)
    ensures
        came_out(
            vectored_result(from.0, 0, *msg, old(header_buf)@),
            r,
            old(header_buf)@,
            final(header_buf)@,
            slice_specs(final(out_vectored)@),
        ),
{
    encode_message_vectored_impl(from, 0, msg, header_buf, out_vectored)
}

/// Encodes a message of the group `group_id`.
pub fn encode_message_vectored_with_group<'a>(
    from: PeerId,
    group_id: GroupId,
    msg: &RaftMessage<'a>,
    header_buf: &mut Vec<u8>,
    out_vectored: &mut Vec<FrameSlice<'a>>,
) -> (r: Result<(), RaftError>)
    ensures
        came_out(
            vectored_result(from.0, group_id.0, *msg, old(header_buf)@),
            r,
            old(header_buf)@,
            final(header_buf)@,
            slice_specs(final(out_vectored)@),
        ),
{
    encode_message_vectored_impl(from, group_id.0, msg, header_buf, out_vectored)
}

fn encode_message_vectored_impl<'a>(
    from: PeerId,
    group_id: u64,
    msg: &RaftMessage<'a>,
    header_buf: &mut Vec<u8>,
    out_vectored: &mut Vec<FrameSlice<'a>>,
) -> (r: Result<(), RaftError>)
    ensures
        came_out(
            vectored_result(from.0, group_id, *msg, old(header_buf)@),
            r,
            old(header_buf)@,
            final(header_buf)@,
            slice_specs(final(out_vectored)@),
        ),
{
    if let RaftMessage::AppendEntriesVectored(m, entries) = msg {
        return encode_append_entries_vectored_with_pad(
            from,
            group_id,
            Term(m.term),
            PeerId(m.leader_id),
            LogIndex(m.prev_log_index),
            Term(m.prev_log_term),
            LogIndex(m.leader_commit),
            m._pad,
            entries,
            header_buf,
            out_vectored,
        );
    }
    out_vectored.clear();
    let body_len: u64 = body_total_len(msg);
    let body_len_u32: u32 = match wire_len_u32(body_len, "frame body length") {
        Err(e) => {
            return Err(e);
        },
        Ok(n) => n,
    };
    if header_buf.len() < RAFT_FRAME_HEADER_SIZE {
        return Err(RaftError::Protocol(text("header buffer too small")));
    }
    let header = RaftFrameHeader {
        magic: RAFT_MAGIC,
        version: RAFT_VERSION,
        kind: kind_of(msg),
        flags: 0,
        from: from.0,
        body_len: body_len_u32,
        reserved: 0,
        group_id,
    };
    let mut fixed: Vec<u8> = Vec::new();
    header.put(&mut fixed);
    proof {
        header.lemma_bytes_len();
        assert(header == frame_header(from.0, group_id, msg.kind(), msg.body().len()));
    }
    write_at(header_buf, 0, &fixed);
    assert(header_buf@ =~= with_front(old(header_buf)@, header.bytes()));
    out_vectored.push(FrameSlice::Header { start: 0, end: RAFT_FRAME_HEADER_SIZE });
    assert(slice_specs(out_vectored@) =~= header_slice());
    push_body(out_vectored, msg);
    Ok(())
}

/// Encodes a batch of entries, without a probe token.
pub fn encode_append_entries_vectored<'a>(
    from: PeerId,
    group_id: u64,
    term: Term,
    leader_id: PeerId,
    prev_log_index: LogIndex,
    prev_log_term: Term,
    leader_commit: LogIndex,
    entries: &'a [LogEntry<'a>],
    header_buf: &mut Vec<u8>,
    out_vectored: &mut Vec<FrameSlice<'a>>,
) -> (r: Result<(), RaftError>)
    ensures
        came_out(
            batch_result(
                from.0,
                group_id,
                (AppendEntries {
                    term: term.0,
                    leader_id: leader_id.0,
                    prev_log_index: prev_log_index.0,
                    prev_log_term: prev_log_term.0,
                    leader_commit: leader_commit.0,
                    entry_count: 0,
                    _pad: 0,
                }),
                records(entries@),
                old(header_buf)@,
            ),
            r,
            old(header_buf)@,
            final(header_buf)@,
            slice_specs(final(out_vectored)@),
        ),
{
    encode_append_entries_vectored_with_pad(
        from,
        group_id,
        term,
        leader_id,
        prev_log_index,
        prev_log_term,
        leader_commit,
        0,
        entries,
        header_buf,
        out_vectored,
    )
}

proof fn lemma_batch_prefix(entries: Seq<EntryRecord>, n: int)
    requires
        0 <= n < entries.len(),
    ensures
        entries[n].payload.len() <= entry_blocks(entries).len(),
        entries.len() * ENTRY_HEADER_SIZE <= entry_blocks(entries).len(),
    decreases entries.len(),
{
    let front = entries.drop_last();
    lemma_entry_blocks_push(front, entries.last());
    assert(front.push(entries.last()) =~= entries);
    lemma_entry_block_len(entries.last());
    if n < front.len() {
        lemma_batch_prefix(front, n);
    } else if front.len() > 0 {
        lemma_batch_prefix(front, 0);
    }
}

proof fn lemma_entry_headers_len(entries: Seq<EntryRecord>)
    ensures
        entry_headers(entries).len() == entries.len() * ENTRY_HEADER_SIZE,
    decreases entries.len(),
{
    if entries.len() > 0 {
        lemma_entry_headers_len(entries.drop_last());
        entry_header(entries.last()).lemma_bytes_len();
    }
}

/// Encodes a batch of entries with `pad` as the probe token.
pub fn encode_append_entries_vectored_with_pad<'a>(
    from: PeerId,
    group_id: u64,
    term: Term,
    leader_id: PeerId,
    prev_log_index: LogIndex,
    prev_log_term: Term,
    leader_commit: LogIndex,
    pad: u32,
    entries: &'a [LogEntry<'a>],
    header_buf: &mut Vec<u8>,
    out_vectored: &mut Vec<FrameSlice<'a>>,
) -> (r: Result<(), RaftError>)
    ensures
        came_out(
            batch_result(
                from.0,
                group_id,
                (AppendEntries {
                    term: term.0,
                    leader_id: leader_id.0,
                    prev_log_index: prev_log_index.0,
                    prev_log_term: prev_log_term.0,
                    leader_commit: leader_commit.0,
                    entry_count: 0,
                    _pad: pad,
                }),
                records(entries@),
                old(header_buf)@,
            ),
            r,
            old(header_buf)@,
            final(header_buf)@,
            slice_specs(final(out_vectored)@),
        ),
{
    out_vectored.clear();
    let ghost all = records(entries@);
    let ghost shape = AppendEntries {
        term: term.0,
        leader_id: leader_id.0,
        prev_log_index: prev_log_index.0,
        prev_log_term: prev_log_term.0,
        leader_commit: leader_commit.0,
        entry_count: 0,
        _pad: pad,
    };
    let body_payload_len: u64 = entries_total_len(entries);
    let body_wire_len: u64 = (APPEND_ENTRIES_SIZE as u64).saturating_add(body_payload_len);
    proof {
        batch_request(shape, all.len()).lemma_bytes_len();
        if all.len() > 0 {
            lemma_batch_prefix(all, 0);
        }
    }
    let body_len_u32: u32 = match wire_len_u32(body_wire_len, "frame body length") {
        Err(e) => {
            return Err(e);
        },
        Ok(n) => n,
    };
    let count: u32 = entries.len() as u32;
    let needed: u64 = RAFT_FRAME_HEADER_SIZE as u64 + APPEND_ENTRIES_SIZE as u64 + count as u64
        * ENTRY_HEADER_SIZE as u64;
    if (header_buf.len() as u64) < needed {
        return Err(RaftError::Protocol(text("header buffer too small for batch")));
    }
    let header = RaftFrameHeader {
        magic: RAFT_MAGIC,
        version: RAFT_VERSION,
        kind: KIND_APPEND_ENTRIES,
        flags: 0,
        from: from.0,
        body_len: body_len_u32,
        reserved: 0,
        group_id,
    };
    let body = AppendEntries {
        term: term.0,
        leader_id: leader_id.0,
        prev_log_index: prev_log_index.0,
        prev_log_term: prev_log_term.0,
        leader_commit: leader_commit.0,
        entry_count: count,
        _pad: pad,
    };
    let mut fixed: Vec<u8> = Vec::new();
    header.put(&mut fixed);
    body.put(&mut fixed);
    proof {
        header.lemma_bytes_len();
        body.lemma_bytes_len();
        assert(body == batch_request(shape, all.len()));
        assert(header == frame_header(
            from.0,
            group_id,
            KIND_APPEND_ENTRIES,
            batch_body(shape, all).len(),
        ));
    }
    let ghost front = fixed@;
    write_at(header_buf, 0, &fixed);
    out_vectored.push(
        FrameSlice::Header { start: 0, end: RAFT_FRAME_HEADER_SIZE + APPEND_ENTRIES_SIZE },
    );
    let ghost first = seq![SliceSpec::Header(0, batch_base())];
    assert(slice_specs(out_vectored@) =~= first);
    let mut offset: usize = RAFT_FRAME_HEADER_SIZE + APPEND_ENTRIES_SIZE;
    let mut i: usize = 0;
    assert(all.take(0) =~= Seq::empty());
    assert(header_buf@ =~= with_front(old(header_buf)@, front + entry_headers(all.take(0))));
    assert(slice_specs(out_vectored@) =~= first + batch_slices(all.take(0)));
    while i < entries.len()
        invariant
            i <= entries@.len(),
            all == records(entries@),
            entry_blocks(all).len() <= u32::MAX,
            front.len() == batch_base(),
            old(header_buf)@.len() >= batch_headers_len(all.len()),
            header_buf@.len() == old(header_buf)@.len(),
            offset == batch_headers_len(i as nat),
            header_buf@ == with_front(
                old(header_buf)@,
                front + entry_headers(all.take(i as int)),
            ),
            slice_specs(out_vectored@) == first + batch_slices(all.take(i as int)),
        decreases entries@.len() - i,
    {
        let e = &entries[i];
        let ghost done = all.take(i as int);
        let ghost next = all.take(i + 1);
        proof {
            lemma_batch_prefix(all, i as int);
            lemma_entry_headers_len(done);
            assert(next.drop_last() =~= done);
            assert(next.last() == e@);
        }
        let eh = EntryHeader {
            term: e.term.0,
            index: e.index.0,
            payload_len: e.payload.0.len() as u32,
            _pad: 0,
        };
        let mut eh_bytes: Vec<u8> = Vec::new();
        eh.put(&mut eh_bytes);
        proof {
            assert(eh == entry_header(e@));
            eh.lemma_bytes_len();
        }
        let space: usize = header_buf.len();
        let ghost held = header_buf@;
        write_at(header_buf, offset, &eh_bytes);
        proof {
            let orig = old(header_buf)@;
            let grown = front + entry_headers(next);
            assert(grown =~= front + entry_headers(done) + eh.bytes());
            assert(held.take(offset as int) =~= front + entry_headers(done));
            assert(held.skip(offset + 24) =~= orig.skip(offset + 24));
            assert(header_buf@ =~= with_front(orig, grown));
        }
        let ghost slices = slice_specs(out_vectored@);
        out_vectored.push(FrameSlice::Header { start: offset, end: offset + ENTRY_HEADER_SIZE });
        assert(slice_specs(out_vectored@) =~= slices.push(
            SliceSpec::Header(offset as int, offset + ENTRY_HEADER_SIZE),
        ));
        offset = offset + ENTRY_HEADER_SIZE;
        push_payload(out_vectored, e.payload.0);
        assert(slice_specs(out_vectored@) =~= first + batch_slices(next));
        i = i + 1;
    }
    assert(all.take(i as int) =~= all);
    Ok(())
}

} // verus!
