//! From bytes to messages.

use vstd::prelude::*;

use super::le::{field, lemma_byte_ranges, lemma_le_bytes_of_value, u32_at};
use super::wire::{
    AppendEntries, AppendEntriesResp, InstallSnapshot, InstallSnapshotResp, RaftFrameHeader,
    RequestVote, RequestVoteResp, TimeoutNow, APPEND_ENTRIES_RESP_SIZE, APPEND_ENTRIES_SIZE,
    ENTRY_HEADER_SIZE, INSTALL_SNAPSHOT_RESP_SIZE, INSTALL_SNAPSHOT_SIZE, KIND_APPEND_ENTRIES,
    KIND_APPEND_ENTRIES_RESP, KIND_APPEND_ENTRIES_SEEDED, KIND_CUSTOM, KIND_CUSTOM_RESPONSE,
    KIND_INSTALL_SNAPSHOT, KIND_INSTALL_SNAPSHOT_RESP, KIND_PRE_VOTE, KIND_PRE_VOTE_RESP,
    KIND_REQUEST_VOTE, KIND_REQUEST_VOTE_RESP, KIND_TIMEOUT_NOW, RAFT_FRAME_HEADER_SIZE,
    RAFT_MAGIC, RAFT_VERSION, REQUEST_VOTE_RESP_SIZE, REQUEST_VOTE_SIZE, TIMEOUT_NOW_SIZE,
};
use crate::error::RaftError;
use crate::protocol::message::{
    after_entry, has_entry, seeded_len, seeded_total, InboundRaftMessage, RaftMessage,
};
use crate::text::{decimal, text, text_number, text_text, text_two_numbers};
use crate::types::{GroupId, PeerId};

verus! {

/// What is wrong with a body that must be exactly one struct of `size` bytes.
pub open spec fn fixed_fault(
    body: Seq<u8>,
    size: int,
    name: Seq<char>,
    trailing: Seq<char>,
) -> Option<Seq<char>> {
    if body.len() < size {
        Some("short "@ + name)
    } else if body.len() != size {
        Some(trailing)
    } else {
        None
    }
}

/// What is wrong with `body` as `count` entries one after another.
pub open spec fn entries_fault(count: nat, body: Seq<u8>) -> Option<Seq<char>>
    decreases count,
{
    if count == 0 {
        if body.len() == 0 {
            None
        } else {
            Some("append entries trailing bytes"@)
        }
    } else if body.len() < ENTRY_HEADER_SIZE {
        Some("short "@ + "append entry header"@)
    } else if !has_entry(body) {
        Some("short append entry payload"@)
    } else {
        entries_fault((count - 1) as nat, after_entry(body))
    }
}

/// What is wrong with `rest` as `count` entry headers followed by the payloads
/// that they announce.
pub open spec fn seeded_fault(count: nat, rest: Seq<u8>) -> Option<Seq<char>> {
    if rest.len() < count * ENTRY_HEADER_SIZE {
        Some("short seeded headers block"@)
    } else {
        let total = seeded_total(rest.take((count * ENTRY_HEADER_SIZE) as int), count);
        let actual = (rest.len() - count * ENTRY_HEADER_SIZE) as nat;
        if total != actual {
            Some(
                "seeded payloads size mismatch: headers specify="@ + decimal(total) + " actual="@
                    + decimal(actual),
            )
        } else {
            None
        }
    }
}

/// What is wrong with `body` as the body of a message of `kind`.
pub open spec fn body_fault(kind: u8, body: Seq<u8>) -> Option<Seq<char>> {
    if kind == KIND_REQUEST_VOTE {
        fixed_fault(
            body,
            REQUEST_VOTE_SIZE as int,
            "request vote body"@,
            "request vote trailing bytes"@,
        )
    } else if kind == KIND_REQUEST_VOTE_RESP {
        fixed_fault(
            body,
            REQUEST_VOTE_RESP_SIZE as int,
            "request vote resp body"@,
            "request vote resp trailing bytes"@,
        )
    } else if kind == KIND_PRE_VOTE {
        fixed_fault(
            body,
            REQUEST_VOTE_SIZE as int,
            "pre vote body"@,
            "pre vote trailing bytes"@,
        )
    } else if kind == KIND_PRE_VOTE_RESP {
        fixed_fault(
            body,
            REQUEST_VOTE_RESP_SIZE as int,
            "pre vote resp body"@,
            "pre vote resp trailing bytes"@,
        )
    } else if kind == KIND_APPEND_ENTRIES {
        if body.len() < APPEND_ENTRIES_SIZE {
            Some("short "@ + "append entries body"@)
        } else {
            entries_fault(field(body, 40, 4), body.skip(APPEND_ENTRIES_SIZE as int))
        }
    } else if kind == KIND_APPEND_ENTRIES_RESP {
        fixed_fault(
            body,
            APPEND_ENTRIES_RESP_SIZE as int,
            "append entries resp body"@,
            "append entries resp trailing bytes"@,
        )
    } else if kind == KIND_APPEND_ENTRIES_SEEDED {
        if body.len() < APPEND_ENTRIES_SIZE {
            Some("short "@ + "append entries seeded body"@)
        } else {
            seeded_fault(field(body, 40, 4), body.skip(APPEND_ENTRIES_SIZE as int))
        }
    } else if kind == KIND_INSTALL_SNAPSHOT {
        if body.len() < INSTALL_SNAPSHOT_SIZE {
            Some("short "@ + "install snapshot body"@)
        } else if body.len() - INSTALL_SNAPSHOT_SIZE != field(body, 40, 4) {
            Some("install snapshot chunk length mismatch"@)
        } else {
            None
        }
    } else if kind == KIND_INSTALL_SNAPSHOT_RESP {
        fixed_fault(
            body,
            INSTALL_SNAPSHOT_RESP_SIZE as int,
            "install snapshot resp body"@,
            "install snapshot resp trailing bytes"@,
        )
    } else if kind == KIND_TIMEOUT_NOW {
        fixed_fault(
            body,
            TIMEOUT_NOW_SIZE as int,
            "timeout now body"@,
            "timeout now trailing bytes"@,
        )
    } else if kind == KIND_CUSTOM || kind == KIND_CUSTOM_RESPONSE {
        None
    } else {
        Some("unknown raft message kind "@ + decimal(kind as nat))
    }
}

/// What is wrong with `frame`, or `None` where it is a well-formed frame.
pub open spec fn decode_fault(frame: Seq<u8>) -> Option<Seq<char>> {
    if frame.len() < RAFT_FRAME_HEADER_SIZE {
        Some("short "@ + "raft frame header"@)
    } else if field(frame, 0, 4) != RAFT_MAGIC {
        Some("invalid raft frame magic"@)
    } else if frame[4] != RAFT_VERSION {
        Some("unsupported raft frame version "@ + decimal(frame[4] as nat))
    } else if frame.len() - RAFT_FRAME_HEADER_SIZE != field(frame, 16, 4) {
        Some(
            "raft frame length mismatch: header="@ + decimal(field(frame, 16, 4)) + " actual="@
                + decimal((frame.len() - RAFT_FRAME_HEADER_SIZE) as nat),
        )
    } else {
        body_fault(frame[5], frame.skip(RAFT_FRAME_HEADER_SIZE as int))
    }
}

/// Whether `m` is what the well-formed frame `frame` holds.
pub open spec fn decodes(frame: Seq<u8>, m: InboundRaftMessage<'_>) -> bool {
    &&& m.from.0 as nat == field(frame, 8, 8)
    &&& m.group_id.0 as nat == field(frame, 24, 8)
    &&& m.message.kind() == frame[5]
    &&& m.message.carries(frame.skip(RAFT_FRAME_HEADER_SIZE as int))
}

/// Splits `size` bytes off the front of `buf`.
pub(crate) fn parse_prefix<'a>(buf: &'a [u8], size: usize, name: &str) -> (r: Result<
    (&'a [u8], &'a [u8]),
    RaftError,
>)
    ensures
        buf@.len() >= size ==> (r matches Ok((front, rest)) && front@ == buf@.take(size as int)
            && rest@ == buf@.skip(size as int)),
        buf@.len() < size ==> (r matches Err(e) && e.is_protocol("short "@ + name@)),
{
    if buf.len() < size {
        return Err(RaftError::Protocol(text_text("short ", name)));
    }
    let (front, rest) = buf.split_at(size);
    assert(front@ =~= buf@.take(size as int));
    assert(rest@ =~= buf@.skip(size as int));
    Ok((front, rest))
}

/// Checks a body that must be exactly one struct of `size` bytes.
fn check_fixed(body: &[u8], size: usize, name: &str, trailing: &str) -> (r: Result<(), RaftError>)
    ensures
        match fixed_fault(body@, size as int, name@, trailing@) {
            None => r is Ok,
            Some(words) => r matches Err(e) && e.is_protocol(words),
        },
{
    match parse_prefix(body, size, name) {
        Err(e) => Err(e),
        Ok((_, rest)) => {
            if !rest.is_empty() {
                Err(RaftError::Protocol(text(trailing)))
            } else {
                Ok(())
            }
        },
    }
}

/// Checks that `body` is exactly `entry_count` entries.
pub fn validate_append_entries_body(entry_count: u32, body: &[u8]) -> (r: Result<(), RaftError>)
    ensures
        match entries_fault(entry_count as nat, body@) {
            None => r is Ok,
            Some(words) => r matches Err(e) && e.is_protocol(words),
        },
{
    let mut left: u32 = entry_count;
    let mut at: &[u8] = body;
    while left > 0
        invariant
            entries_fault(left as nat, at@) == entries_fault(entry_count as nat, body@),
        decreases left,
    {
        match parse_prefix(at, ENTRY_HEADER_SIZE, "append entry header") {
            Err(e) => {
                return Err(e);
            },
            Ok((header, rest)) => {
                let len: u32 = u32_at(header, 16);
                assert(header@.subrange(16, 20) =~= at@.subrange(16, 20));
                if (rest.len() as u64) < len as u64 {
                    return Err(RaftError::Protocol(text("short append entry payload")));
                }
                let (_, next) = rest.split_at(len as usize);
                assert(next@ =~= after_entry(at@));
                at = next;
                left = left - 1;
            },
        }
    }
    if !at.is_empty() {
        return Err(RaftError::Protocol(text("append entries trailing bytes")));
    }
    Ok(())
}

proof fn lemma_seeded_step(headers: Seq<u8>, n: nat)
    requires
        headers.len() >= (n + 1) * ENTRY_HEADER_SIZE,
    ensures
        seeded_len(headers, n as int) <= u32::MAX,
{
    let at = n * ENTRY_HEADER_SIZE + 16;
    lemma_le_bytes_of_value(headers.subrange(at, at + 4));
    lemma_byte_ranges();
}

/// Checks that `payloads` is as long as the `count` headers announce.
fn validate_seeded_payloads(headers: &[u8], payloads: &[u8], count: u32) -> (r: Result<
    (),
    RaftError,
>)
    requires
        headers@.len() == count * ENTRY_HEADER_SIZE,
    ensures
        seeded_total(headers@, count as nat) == payloads@.len() ==> r is Ok,
        seeded_total(headers@, count as nat) != payloads@.len() ==> (r matches Err(e)
            && e.is_protocol(
            "seeded payloads size mismatch: headers specify="@ + decimal(
                seeded_total(headers@, count as nat),
            ) + " actual="@ + decimal(payloads@.len()),
        )),
{
    let size: usize = headers.len();
    let mut expected_len: u64 = 0;
    let mut i: u32 = 0;
    while i < count
        invariant
            i <= count,
            size == headers@.len(),
            headers@.len() == count * ENTRY_HEADER_SIZE,
            expected_len == seeded_total(headers@, i as nat),
            expected_len <= i * 0xffff_ffff,
        decreases count - i,
    {
        let offset: usize = i as usize * ENTRY_HEADER_SIZE;
        proof {
            lemma_seeded_step(headers@, i as nat);
        }
        let len: u32 = u32_at(headers, offset + 16);
        expected_len = expected_len + len as u64;
        i = i + 1;
    }
    if expected_len != payloads.len() as u64 {
        return Err(
            RaftError::Protocol(
                text_two_numbers(
                    "seeded payloads size mismatch: headers specify=",
                    expected_len,
                    " actual=",
                    payloads.len() as u64,
                ),
            ),
        );
    }
    Ok(())
}

/// The seeded form of an append request.
fn decode_seeded<'a>(body: &'a [u8]) -> (r: Result<RaftMessage<'a>, RaftError>)
    ensures
        match body_fault(KIND_APPEND_ENTRIES_SEEDED, body@) {
            None => r matches Ok(m) && m is AppendEntriesSeeded && m.carries(body@),
            Some(words) => r matches Err(e) && e.is_protocol(words),
        },
{
    match parse_prefix(body, APPEND_ENTRIES_SIZE, "append entries seeded body") {
        Err(e) => Err(e),
        Ok((_, rest)) => {
            let ae = AppendEntries::parse(body);
            let count: u32 = ae.entry_count;
            let headers_len: u64 = count as u64 * ENTRY_HEADER_SIZE as u64;
            if (rest.len() as u64) < headers_len {
                return Err(RaftError::Protocol(text("short seeded headers block")));
            }
            let (headers, payloads) = rest.split_at(headers_len as usize);
            assert(headers@ =~= rest@.take(headers_len as int));
            match validate_seeded_payloads(headers, payloads, count) {
                Err(e) => Err(e),
                Ok(()) => {
                    let m = RaftMessage::AppendEntriesSeeded { ae, headers, payloads };
                    assert(headers@ =~= body@.subrange(
                        APPEND_ENTRIES_SIZE as int,
                        APPEND_ENTRIES_SIZE + headers_len,
                    ));
                    assert(payloads@ =~= body@.skip(APPEND_ENTRIES_SIZE + headers_len));
                    Ok(m)
                },
            }
        },
    }
}

/// The message of `kind` that `body` holds.
fn decode_body<'a>(kind: u8, body: &'a [u8]) -> (r: Result<RaftMessage<'a>, RaftError>)
    ensures
        match body_fault(kind, body@) {
            None => r matches Ok(m) && m.kind() == kind && m.carries(body@),
            Some(words) => r matches Err(e) && e.is_protocol(words),
        },
{
    if kind == KIND_REQUEST_VOTE {
        match check_fixed(
            body,
            REQUEST_VOTE_SIZE,
            "request vote body",
            "request vote trailing bytes",
        ) {
            Err(e) => Err(e),
            Ok(()) => Ok(RaftMessage::RequestVote(RequestVote::parse(body))),
        }
    } else if kind == KIND_REQUEST_VOTE_RESP {
        match check_fixed(
            body,
            REQUEST_VOTE_RESP_SIZE,
            "request vote resp body",
            "request vote resp trailing bytes",
        ) {
            Err(e) => Err(e),
            Ok(()) => Ok(RaftMessage::RequestVoteResp(RequestVoteResp::parse(body))),
        }
    } else if kind == KIND_PRE_VOTE {
        match check_fixed(body, REQUEST_VOTE_SIZE, "pre vote body", "pre vote trailing bytes") {
            Err(e) => Err(e),
            Ok(()) => Ok(RaftMessage::PreVote(RequestVote::parse(body))),
        }
    } else if kind == KIND_PRE_VOTE_RESP {
        match check_fixed(
            body,
            REQUEST_VOTE_RESP_SIZE,
            "pre vote resp body",
            "pre vote resp trailing bytes",
        ) {
            Err(e) => Err(e),
            Ok(()) => Ok(RaftMessage::PreVoteResp(RequestVoteResp::parse(body))),
        }
    } else if kind == KIND_APPEND_ENTRIES {
        match parse_prefix(body, APPEND_ENTRIES_SIZE, "append entries body") {
            Err(e) => Err(e),
            Ok((_, rest)) => {
                let ae = AppendEntries::parse(body);
                match validate_append_entries_body(ae.entry_count, rest) {
                    Err(e) => Err(e),
                    Ok(()) => Ok(RaftMessage::AppendEntries(ae, rest)),
                }
            },
        }
    } else if kind == KIND_APPEND_ENTRIES_RESP {
        match check_fixed(
            body,
            APPEND_ENTRIES_RESP_SIZE,
            "append entries resp body",
            "append entries resp trailing bytes",
        ) {
            Err(e) => Err(e),
            Ok(()) => Ok(RaftMessage::AppendEntriesResp(AppendEntriesResp::parse(body))),
        }
    } else if kind == KIND_APPEND_ENTRIES_SEEDED {
        decode_seeded(body)
    } else if kind == KIND_INSTALL_SNAPSHOT {
        match parse_prefix(body, INSTALL_SNAPSHOT_SIZE, "install snapshot body") {
            Err(e) => Err(e),
            Ok((_, rest)) => {
                let wire = InstallSnapshot::parse(body);
                if rest.len() as u64 != wire.chunk_len as u64 {
                    Err(RaftError::Protocol(text("install snapshot chunk length mismatch")))
                } else {
                    Ok(RaftMessage::InstallSnapshot(wire, rest))
                }
            },
        }
    } else if kind == KIND_INSTALL_SNAPSHOT_RESP {
        match check_fixed(
            body,
            INSTALL_SNAPSHOT_RESP_SIZE,
            "install snapshot resp body",
            "install snapshot resp trailing bytes",
        ) {
            Err(e) => Err(e),
            Ok(()) => Ok(RaftMessage::InstallSnapshotResp(InstallSnapshotResp::parse(body))),
        }
    } else if kind == KIND_TIMEOUT_NOW {
        match check_fixed(
            body,
            TIMEOUT_NOW_SIZE,
            "timeout now body",
            "timeout now trailing bytes",
        ) {
            Err(e) => Err(e),
            Ok(()) => Ok(RaftMessage::TimeoutNow(TimeoutNow::parse(body))),
        }
    } else if kind == KIND_CUSTOM {
        Ok(RaftMessage::Custom(body))
    } else if kind == KIND_CUSTOM_RESPONSE {
        Ok(RaftMessage::CustomResponse(body))
    } else {
        Err(RaftError::Protocol(text_number("unknown raft message kind ", kind as u64)))
    }
}

/// Reads one frame. Every byte sequence gives a message or a protocol error.
pub fn decode_message<'a>(frame: &'a [u8]) -> (r: Result<InboundRaftMessage<'a>, RaftError>)
    ensures
        match decode_fault(frame@) {
            None => r matches Ok(m) && decodes(frame@, m),
            Some(words) => r matches Err(e) && e.is_protocol(words),
        },
{
    match parse_prefix(frame, RAFT_FRAME_HEADER_SIZE, "raft frame header") {
        Err(e) => Err(e),
        Ok((_, body)) => {
            let header = RaftFrameHeader::parse(frame);
            if header.magic != RAFT_MAGIC {
                return Err(RaftError::Protocol(text("invalid raft frame magic")));
            }
            if header.version != RAFT_VERSION {
                return Err(
                    RaftError::Protocol(
                        text_number("unsupported raft frame version ", header.version as u64),
                    ),
                );
            }
            if body.len() as u64 != header.body_len as u64 {
                return Err(
                    RaftError::Protocol(
                        text_two_numbers(
                            "raft frame length mismatch: header=",
                            header.body_len as u64,
                            " actual=",
                            body.len() as u64,
                        ),
                    ),
                );
            }
            match decode_body(header.kind, body) {
                Err(e) => Err(e),
                Ok(message) => Ok(
                    InboundRaftMessage {
                        from: PeerId(header.from),
                        group_id: GroupId(header.group_id),
                        message,
                    },
                ),
            }
        },
    }
}

} // verus!
