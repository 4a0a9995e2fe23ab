//! One contiguous buffer per frame.

use bytes::{Bytes, BytesMut};
use vstd::prelude::*;

use super::{body_total_len, capped, frame, frame_header, kind_of, too_long, wire_len_u32};
use crate::entry::LogEntry;
use crate::error::RaftError;
use crate::protocol::codec::buffer::{
    bytes_content, bytes_mut_content, bytes_mut_extend, bytes_mut_freeze, bytes_mut_with_capacity,
};
use crate::protocol::codec::wire::{
    EntryHeader, RaftFrameHeader, RAFT_FRAME_HEADER_SIZE, RAFT_MAGIC, RAFT_VERSION,
};
use crate::protocol::message::{
    entry_block, entry_blocks, entry_header, joined, lemma_entry_block_len,
    lemma_entry_blocks_push, records, RaftMessage,
};
use crate::types::PeerId;

verus! {

/// Appends `bytes` to a frame under construction.
fn put(buf: &mut BytesMut, bytes: &[u8])
    requires
        bytes_mut_content(*old(buf)).len() + bytes@.len() <= isize::MAX,
    ensures
        bytes_mut_content(*final(buf)) == bytes_mut_content(*old(buf)) + bytes@,
{
    bytes_mut_extend(buf, bytes)
}

proof fn lemma_blocks_prefix(entries: Seq<crate::entry::EntryRecord>, n: int)
    requires
        0 <= n <= entries.len(),
    ensures
        entry_blocks(entries.take(n)).len() <= entry_blocks(entries).len(),
        n < entries.len() ==> entry_blocks(entries.take(n)).len() + entry_block(entries[n]).len()
            <= entry_blocks(entries).len(),
    decreases entries.len() - n,
{
    if n < entries.len() {
        lemma_blocks_prefix(entries, n + 1);
        lemma_entry_blocks_push(entries.take(n), entries[n]);
        assert(entries.take(n).push(entries[n]) =~= entries.take(n + 1));
    } else {
        assert(entries.take(n) =~= entries);
    }
}

/// Appends every entry, header and payload, in order.
fn put_entries(buf: &mut BytesMut, entries: &[LogEntry<'_>])
    requires
        bytes_mut_content(*old(buf)).len() + entry_blocks(records(entries@)).len() <= isize::MAX,
        entry_blocks(records(entries@)).len() <= u32::MAX,
    ensures
        bytes_mut_content(*final(buf)) == bytes_mut_content(*old(buf)) + entry_blocks(
            records(entries@),
        ),
{
    let ghost start = bytes_mut_content(*buf);
    let ghost all = records(entries@);
    let mut i: usize = 0;
    assert(all.take(0) =~= Seq::empty());
    assert(bytes_mut_content(*buf) =~= start + entry_blocks(all.take(0)));
    while i < entries.len()
        invariant
            i <= entries@.len(),
            all == records(entries@),
            bytes_mut_content(*buf) == start + entry_blocks(all.take(i as int)),
            start.len() + entry_blocks(all).len() <= isize::MAX,
            entry_blocks(all).len() <= u32::MAX,
        decreases entries@.len() - i,
    {
        let e = &entries[i];
        proof {
            lemma_blocks_prefix(all, i as int);
            lemma_entry_block_len(e@);
            lemma_entry_blocks_push(all.take(i as int), e@);
            assert(all.take(i as int).push(e@) =~= all.take(i + 1));
        }
        let header = EntryHeader {
            term: e.term.0,
            index: e.index.0,
            payload_len: e.payload.0.len() as u32,
            _pad: 0,
        };
        let mut fixed: Vec<u8> = Vec::new();
        header.put(&mut fixed);
        proof {
            assert(header == entry_header(e@));
            header.lemma_bytes_len();
        }
        put(buf, &fixed);
        put(buf, e.payload.0);
        assert(bytes_mut_content(*buf) =~= start + entry_blocks(all.take(i + 1)));
        i = i + 1;
    }
    assert(all.take(i as int) =~= all);
}

/// Appends every slice in order.
fn put_slices(buf: &mut BytesMut, slices: &[&[u8]])
    requires
        bytes_mut_content(*old(buf)).len() + joined(slices@).len() <= isize::MAX,
    ensures
        bytes_mut_content(*final(buf)) == bytes_mut_content(*old(buf)) + joined(slices@),
{
    let ghost start = bytes_mut_content(*buf);
    let mut i: usize = 0;
    assert(slices@.take(0) =~= Seq::empty());
    while i < slices.len()
        invariant
            i <= slices@.len(),
            bytes_mut_content(*buf) =~= start + joined(slices@.take(i as int)),
            start.len() + joined(slices@).len() <= isize::MAX,
        decreases slices@.len() - i,
    {
        proof {
            lemma_joined_prefix(slices@, i + 1);
            assert(slices@.take(i + 1).drop_last() =~= slices@.take(i as int));
        }
        put(buf, slices[i]);
        i = i + 1;
    }
    assert(slices@.take(i as int) =~= slices@);
}

proof fn lemma_joined_prefix(slices: Seq<&[u8]>, n: int)
    requires
        0 <= n <= slices.len(),
    ensures
        joined(slices.take(n)).len() <= joined(slices).len(),
    decreases slices.len() - n,
{
    if n < slices.len() {
        lemma_joined_prefix(slices, n + 1);
        assert(slices.take(n + 1).drop_last() =~= slices.take(n));
    } else {
        assert(slices.take(n) =~= slices);
    }
}

/// Appends the body of `msg`.
fn put_body(buf: &mut BytesMut, msg: &RaftMessage<'_>)
    requires
        bytes_mut_content(*old(buf)).len() + msg.body().len() <= isize::MAX,
        msg.body().len() <= u32::MAX,
    ensures
        bytes_mut_content(*final(buf)) == bytes_mut_content(*old(buf)) + msg.body(),
{
    let ghost start = bytes_mut_content(*buf);
    let mut fixed: Vec<u8> = Vec::new();
    match msg {
        RaftMessage::RequestVote(m) => {
            m.put(&mut fixed);
            put(buf, &fixed);
        },
        RaftMessage::RequestVoteResp(m) => {
            m.put(&mut fixed);
            put(buf, &fixed);
        },
        RaftMessage::PreVote(m) => {
            m.put(&mut fixed);
            put(buf, &fixed);
        },
        RaftMessage::PreVoteResp(m) => {
            m.put(&mut fixed);
            put(buf, &fixed);
        },
        RaftMessage::AppendEntries(m, p) => {
            m.put(&mut fixed);
            put(buf, &fixed);
            put(buf, p);
        },
        RaftMessage::AppendEntriesVectored(m, entries) => {
            m.put(&mut fixed);
            put(buf, &fixed);
            put_entries(buf, entries);
        },
        RaftMessage::AppendEntriesSeeded { ae, headers, payloads } => {
            ae.put(&mut fixed);
            put(buf, &fixed);
            put(buf, headers);
            put(buf, payloads);
        },
        RaftMessage::AppendEntriesSeededVectored { ae, headers, payloads } => {
            ae.put(&mut fixed);
            put(buf, &fixed);
            put(buf, headers);
            put_slices(buf, payloads);
        },
        RaftMessage::AppendEntriesResp(m) => {
            m.put(&mut fixed);
            put(buf, &fixed);
        },
        RaftMessage::InstallSnapshot(m, p) => {
            m.put(&mut fixed);
            put(buf, &fixed);
            put(buf, p);
        },
        RaftMessage::InstallSnapshotResp(m) => {
            m.put(&mut fixed);
            put(buf, &fixed);
        },
        RaftMessage::TimeoutNow(m) => {
            m.put(&mut fixed);
            put(buf, &fixed);
        },
        RaftMessage::Custom(p) => {
            put(buf, p);
        },
        RaftMessage::CustomResponse(p) => {
            put(buf, p);
        },
    }
    assert(bytes_mut_content(*buf) =~= start + msg.body());
}

/// Whether a frame with this body can be built: the length field holds the
/// body's length, and the frame fits in memory.
pub open spec fn frame_fits(body: Seq<u8>) -> bool {
    body.len() <= u32::MAX && RAFT_FRAME_HEADER_SIZE + body.len() <= isize::MAX
}

/// Encodes a message of the default group into one contiguous frame.
pub fn encode_message_to_bytes(from: PeerId, msg: &RaftMessage<'_>) -> (r: Result<
    Bytes,
    RaftError,
>)
    ensures
        frame_fits(msg.body()) ==> (r matches Ok(b) && bytes_content(b) == frame(
            from.0,
            0,
            msg.kind(),
            msg.body(),
        )),
        !frame_fits(msg.body()) ==> (r matches Err(e) && e.is_protocol(
            too_long("frame body length"@, capped(msg.body().len())),
        )),
{
    let body_len: u64 = body_total_len(msg);
    let limit: u64 = isize::MAX as u64 - RAFT_FRAME_HEADER_SIZE as u64;
    let body_len_u32: u32 = match wire_len_u32(body_len, "frame body length") {
        Err(e) => {
            return Err(e);
        },
        Ok(n) => n,
    };
    if body_len > limit {
        let tail = crate::text::text_number_text(" ", body_len, " is too long for a frame");
        return Err(
            RaftError::Protocol(crate::text::text_text("frame body length", tail.as_str())),
        );
    }
    let mut buf = bytes_mut_with_capacity(RAFT_FRAME_HEADER_SIZE + body_len as usize);
    let header = RaftFrameHeader {
        magic: RAFT_MAGIC,
        version: RAFT_VERSION,
        kind: kind_of(msg),
        flags: 0,
        from: from.0,
        body_len: body_len_u32,
        reserved: 0,
        group_id: 0,
    };
    let mut fixed: Vec<u8> = Vec::new();
    header.put(&mut fixed);
    proof {
        header.lemma_bytes_len();
        assert(header == frame_header(from.0, 0, msg.kind(), msg.body().len()));
    }
    put(&mut buf, &fixed);
    put_body(&mut buf, msg);
    assert(bytes_mut_content(buf) =~= frame(from.0, 0, msg.kind(), msg.body()));
    Ok(bytes_mut_freeze(buf))
}

} // verus!
