//! From messages to bytes.

use vstd::prelude::*;

use super::wire::{
    RaftFrameHeader, APPEND_ENTRIES_RESP_SIZE, APPEND_ENTRIES_SIZE, ENTRY_HEADER_SIZE,
    INSTALL_SNAPSHOT_RESP_SIZE, INSTALL_SNAPSHOT_SIZE, KIND_APPEND_ENTRIES,
    KIND_APPEND_ENTRIES_RESP, KIND_APPEND_ENTRIES_SEEDED, KIND_CUSTOM, KIND_CUSTOM_RESPONSE,
    KIND_INSTALL_SNAPSHOT, KIND_INSTALL_SNAPSHOT_RESP, KIND_PRE_VOTE, KIND_PRE_VOTE_RESP,
    KIND_REQUEST_VOTE, KIND_REQUEST_VOTE_RESP, KIND_TIMEOUT_NOW, RAFT_MAGIC, RAFT_VERSION,
    REQUEST_VOTE_RESP_SIZE, REQUEST_VOTE_SIZE, TIMEOUT_NOW_SIZE,
};
use crate::entry::LogEntry;
use crate::error::RaftError;
use crate::protocol::message::{
    entry_blocks, joined, lemma_entry_block_len, lemma_entry_blocks_push, records, RaftMessage,
};
use crate::text::{decimal, text_number_text, text_text};

pub mod contiguous;
pub mod vectored;

verus! {

/// The header of a frame whose body has `body_len` bytes.
pub open spec fn frame_header(
    from: u64,
    group_id: u64,
    kind: u8,
    body_len: nat,
) -> RaftFrameHeader {
    RaftFrameHeader {
        magic: RAFT_MAGIC,
        version: RAFT_VERSION,
        kind,
        flags: 0,
        from,
        body_len: body_len as u32,
        reserved: 0,
        group_id,
    }
}

/// A whole frame.
pub open spec fn frame(from: u64, group_id: u64, kind: u8, body: Seq<u8>) -> Seq<u8> {
    frame_header(from, group_id, kind, body.len()).bytes() + body
}

/// `n`, or the largest `u64` where `n` is more.
pub open spec fn capped(n: nat) -> nat {
    if n > u64::MAX {
        u64::MAX as nat
    } else {
        n
    }
}

/// The kind of `msg` on the wire.
pub fn kind_of(msg: &RaftMessage<'_>) -> (r: u8)
    ensures
        r == msg.kind(),
{
    match msg {
        RaftMessage::RequestVote(_) => KIND_REQUEST_VOTE,
        RaftMessage::RequestVoteResp(_) => KIND_REQUEST_VOTE_RESP,
        RaftMessage::PreVote(_) => KIND_PRE_VOTE,
        RaftMessage::PreVoteResp(_) => KIND_PRE_VOTE_RESP,
        RaftMessage::AppendEntries(_, _) => KIND_APPEND_ENTRIES,
        RaftMessage::AppendEntriesVectored(_, _) => KIND_APPEND_ENTRIES,
        RaftMessage::AppendEntriesSeeded { .. } => KIND_APPEND_ENTRIES_SEEDED,
        RaftMessage::AppendEntriesSeededVectored { .. } => KIND_APPEND_ENTRIES_SEEDED,
        RaftMessage::AppendEntriesResp(_) => KIND_APPEND_ENTRIES_RESP,
        RaftMessage::InstallSnapshot(_, _) => KIND_INSTALL_SNAPSHOT,
        RaftMessage::InstallSnapshotResp(_) => KIND_INSTALL_SNAPSHOT_RESP,
        RaftMessage::TimeoutNow(_) => KIND_TIMEOUT_NOW,
        RaftMessage::Custom(_) => KIND_CUSTOM,
        RaftMessage::CustomResponse(_) => KIND_CUSTOM_RESPONSE,
    }
}

/// The length of `entries` on the wire.
pub fn entries_total_len(entries: &[LogEntry<'_>]) -> (r: u64)
    ensures
        r == capped(entry_blocks(records(entries@)).len()),
{
    let mut len: u64 = 0;
    let mut i: usize = 0;
    assert(records(entries@.take(0)) =~= Seq::empty());
    while i < entries.len()
        invariant
            i <= entries@.len(),
            len == capped(entry_blocks(records(entries@.take(i as int))).len()),
        decreases entries@.len() - i,
    {
        let payload_len: usize = entries[i].payload.0.len();
        proof {
            let e = entries@[i as int];
            lemma_entry_blocks_push(records(entries@.take(i as int)), e@);
            lemma_entry_block_len(e@);
            assert(records(entries@.take(i + 1)) =~= records(entries@.take(i as int)).push(e@));
        }
        len = len.saturating_add(ENTRY_HEADER_SIZE as u64).saturating_add(payload_len as u64);
        i = i + 1;
    }
    assert(entries@.take(i as int) =~= entries@);
    len
}

/// The total length of `slices`.
fn slices_total_len(slices: &[&[u8]]) -> (r: u64)
    ensures
        r == capped(joined(slices@).len()),
{
    let mut len: u64 = 0;
    let mut i: usize = 0;
    while i < slices.len()
        invariant
            i <= slices@.len(),
            len == capped(joined(slices@.take(i as int)).len()),
        decreases slices@.len() - i,
    {
        assert(slices@.take(i + 1).drop_last() =~= slices@.take(i as int));
        len = len.saturating_add(slices[i].len() as u64);
        i = i + 1;
    }
    assert(slices@.take(i as int) =~= slices@);
    len
}

/// The length of `msg`'s body on the wire, or the largest `u64` where it is more.
pub fn body_total_len(msg: &RaftMessage<'_>) -> (r: u64)
    ensures
        r == capped(msg.body().len()),
{
    match msg {
        RaftMessage::RequestVote(m) => {
            proof { m.lemma_bytes_len(); }
            REQUEST_VOTE_SIZE as u64
        },
        RaftMessage::RequestVoteResp(m) => {
            proof { m.lemma_bytes_len(); }
            REQUEST_VOTE_RESP_SIZE as u64
        },
        RaftMessage::PreVote(m) => {
            proof { m.lemma_bytes_len(); }
            REQUEST_VOTE_SIZE as u64
        },
        RaftMessage::PreVoteResp(m) => {
            proof { m.lemma_bytes_len(); }
            REQUEST_VOTE_RESP_SIZE as u64
        },
        RaftMessage::AppendEntries(m, p) => {
            proof { m.lemma_bytes_len(); }
            (APPEND_ENTRIES_SIZE as u64).saturating_add(p.len() as u64)
        },
        RaftMessage::AppendEntriesVectored(m, entries) => {
            proof { m.lemma_bytes_len(); }
            (APPEND_ENTRIES_SIZE as u64).saturating_add(entries_total_len(entries))
        },
        RaftMessage::AppendEntriesSeeded { ae, headers, payloads } => {
            proof { ae.lemma_bytes_len(); }
            (APPEND_ENTRIES_SIZE as u64).saturating_add(headers.len() as u64).saturating_add(
                payloads.len() as u64,
            )
        },
        RaftMessage::AppendEntriesSeededVectored { ae, headers, payloads } => {
            proof { ae.lemma_bytes_len(); }
            (APPEND_ENTRIES_SIZE as u64).saturating_add(headers.len() as u64).saturating_add(
                slices_total_len(payloads),
            )
        },
        RaftMessage::AppendEntriesResp(m) => {
            proof { m.lemma_bytes_len(); }
            APPEND_ENTRIES_RESP_SIZE as u64
        },
        RaftMessage::InstallSnapshot(m, p) => {
            proof { m.lemma_bytes_len(); }
            (INSTALL_SNAPSHOT_SIZE as u64).saturating_add(p.len() as u64)
        },
        RaftMessage::InstallSnapshotResp(m) => {
            proof { m.lemma_bytes_len(); }
            INSTALL_SNAPSHOT_RESP_SIZE as u64
        },
        RaftMessage::TimeoutNow(m) => {
            proof { m.lemma_bytes_len(); }
            TIMEOUT_NOW_SIZE as u64
        },
        RaftMessage::Custom(p) => p.len() as u64,
        RaftMessage::CustomResponse(p) => p.len() as u64,
    }
}

/// The text of the error for a length that its wire field cannot hold.
pub open spec fn too_long(what: Seq<char>, len: nat) -> Seq<char> {
    what + (" "@ + decimal(len) + " is too long for a frame"@)
}

/// `len` as a wire field; a length that does not fit is refused, never cut.
pub fn wire_len_u32(len: u64, what: &str) -> (r: Result<u32, RaftError>)
    ensures
        len <= u32::MAX ==> r == Ok::<u32, RaftError>(len as u32),
        len > u32::MAX ==> (r matches Err(e) && e.is_protocol(too_long(what@, len as nat))),
{
    if len > u32::MAX as u64 {
        let tail = text_number_text(" ", len, " is too long for a frame");
        return Err(RaftError::Protocol(text_text(what, tail.as_str())));
    }
    Ok(len as u32)
}

} // verus!
