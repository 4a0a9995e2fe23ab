use arbitro_raft::protocol::codec::decode::validate_append_entries_body;
use arbitro_raft::protocol::codec::encode::vectored::FrameSlice;
use arbitro_raft::protocol::codec::encode::{body_total_len, kind_of, wire_len_u32};
use arbitro_raft::protocol::codec::wire::RaftFrameHeader;
use arbitro_raft::protocol::message::{AppendEntriesRawIter, SeededPayloads};
use arbitro_raft::protocol::view::RaftMessageView;
use arbitro_raft::protocol::{
    KIND_APPEND_ENTRIES_SEEDED, KIND_PRE_VOTE, KIND_PRE_VOTE_RESP, KIND_TIMEOUT_NOW,
};
use arbitro_raft::{
    decode_message, encode_append_entries_vectored, encode_message_to_bytes,
    encode_message_vectored, encode_message_vectored_with_group, AppendEntries, AppendEntriesResp,
    EntryHeader, EntryPayload, ErrorClass, GroupId, InstallSnapshot, InstallSnapshotResp, LogEntry,
    LogIndex, PeerId, RaftError, RaftMessage, RequestVote, RequestVoteResp, Term, TimeoutNow,
    KIND_APPEND_ENTRIES, RAFT_FRAME_HEADER_SIZE, RAFT_MAGIC, RAFT_VERSION,
};

fn vote() -> RequestVote {
    RequestVote { term: 7, candidate_id: 3, last_log_index: 0x0102_0304_0506_0708, last_log_term: 6 }
}

fn append(entry_count: u32) -> AppendEntries {
    AppendEntries {
        term: 9,
        leader_id: 1,
        prev_log_index: 40,
        prev_log_term: 8,
        leader_commit: 39,
        entry_count,
        _pad: 0xdead_beef,
    }
}

fn entry(index: u64, payload: &[u8]) -> LogEntry<'_> {
    LogEntry { term: Term(9), index: LogIndex(index), payload: EntryPayload(payload) }
}

fn frame_of(msg: &RaftMessage<'_>) -> Vec<u8> {
    encode_message_to_bytes(PeerId(5), msg).unwrap().to_vec()
}

fn gather(slices: &[FrameSlice<'_>], header_buf: &[u8]) -> Vec<u8> {
    let mut out = Vec::new();
    for slice in slices {
        match slice {
            FrameSlice::Header { start, end } => out.extend_from_slice(&header_buf[*start..*end]),
            FrameSlice::Fixed(bytes) => out.extend_from_slice(bytes),
            FrameSlice::Payload(bytes) => out.extend_from_slice(bytes),
        }
    }
    out
}

fn protocol_error(frame: &[u8]) -> String {
    match decode_message(frame) {
        Err(RaftError::Protocol(words)) => words,
        other => panic!("expected a protocol error, got {:?}", other),
    }
}

/// Writes the body's length into a frame's header.
fn fix_len(frame: &mut Vec<u8>) {
    let len = (frame.len() - RAFT_FRAME_HEADER_SIZE) as u32;
    frame[16..20].copy_from_slice(&len.to_le_bytes());
}

#[test]
fn frame_layout_is_exact() {
    let frame = frame_of(&RaftMessage::RequestVote(vote()));
    assert_eq!(frame.len(), 64);
    assert_eq!(&frame[0..4], &[0x54, 0x46, 0x41, 0x52]);
    assert_eq!(frame[4], RAFT_VERSION);
    assert_eq!(frame[5], 1);
    assert_eq!(&frame[8..16], &[5, 0, 0, 0, 0, 0, 0, 0]);
    assert_eq!(&frame[16..20], &[32, 0, 0, 0]);
    assert_eq!(&frame[24..32], &[0; 8]);
    assert_eq!(&frame[32..40], &[7, 0, 0, 0, 0, 0, 0, 0]);
    assert_eq!(&frame[48..56], &[8, 7, 6, 5, 4, 3, 2, 1]);
}

#[test]
fn header_reads_back_what_it_wrote() {
    let header = RaftFrameHeader {
        magic: RAFT_MAGIC,
        version: 1,
        kind: 4,
        flags: 0x1234,
        from: 0x1122_3344_5566_7788,
        body_len: 0x0a0b_0c0d,
        reserved: 1,
        group_id: 77,
    };
    let mut out = Vec::new();
    header.put(&mut out);
    assert_eq!(out.len(), 32);
    assert_eq!(RaftFrameHeader::parse(&out), header);
}

#[test]
fn fixed_messages_round_trip() {
    let granted = RequestVoteResp { term: 7, vote_granted: 1, _pad: [0; 7] };
    let ack = AppendEntriesResp { term: 9, match_index: 41, success: 1, _pad: [1, 2, 3, 4, 0, 0, 0] };
    let snap = InstallSnapshotResp { term: 9, next_offset: 4096, accepted: 1, _pad: [0; 7] };
    let now = TimeoutNow { term: 9, leader_id: 1 };
    for msg in [
        RaftMessage::RequestVote(vote()),
        RaftMessage::RequestVoteResp(granted),
        RaftMessage::PreVote(vote()),
        RaftMessage::PreVoteResp(granted),
        RaftMessage::AppendEntriesResp(ack),
        RaftMessage::InstallSnapshotResp(snap),
        RaftMessage::TimeoutNow(now),
        RaftMessage::Custom(&[1, 2, 3]),
        RaftMessage::CustomResponse(&[]),
    ] {
        let frame = frame_of(&msg);
        assert_eq!(frame.len() as u64, 32 + body_total_len(&msg));
        assert_eq!(frame[5], kind_of(&msg));
        let inbound = decode_message(&frame).unwrap();
        assert_eq!(inbound.from, PeerId(5));
        assert_eq!(inbound.group_id, GroupId(0));
        assert_eq!(inbound.message, msg);
    }
}

#[test]
fn pre_vote_and_timeout_now_are_decoded() {
    assert_eq!(frame_of(&RaftMessage::PreVote(vote()))[5], KIND_PRE_VOTE);
    let refused = RequestVoteResp { term: 1, vote_granted: 0, _pad: [0; 7] };
    assert_eq!(frame_of(&RaftMessage::PreVoteResp(refused))[5], KIND_PRE_VOTE_RESP);
    let now = TimeoutNow { term: 2, leader_id: 8 };
    let frame = frame_of(&RaftMessage::TimeoutNow(now));
    assert_eq!(frame[5], KIND_TIMEOUT_NOW);
    assert_eq!(frame.len(), 48);
    assert_eq!(decode_message(&frame).unwrap().message, RaftMessage::TimeoutNow(now));
}

#[test]
fn batch_round_trip() {
    let entries = [entry(41, b"alpha"), entry(42, b""), entry(43, b"gamma!")];
    let frame = frame_of(&RaftMessage::AppendEntriesVectored(append(3), &entries));
    assert_eq!(frame.len(), 32 + 48 + 3 * 24 + 5 + 6);
    let inbound = decode_message(&frame).unwrap();
    let view = inbound.as_append_entries().unwrap();
    assert_eq!(view.term(), Term(9));
    assert_eq!(view.leader_id(), PeerId(1));
    assert_eq!(view.prev_log_index(), LogIndex(40));
    assert_eq!(view.prev_log_term(), Term(8));
    assert_eq!(view.leader_commit(), LogIndex(39));
    assert_eq!(view.entry_count(), 3);
    assert_eq!(view.wire(), append(3));
    let mut iter = view.entries().unwrap();
    assert_eq!(iter.next(), Some(entries[0]));
    assert_eq!(iter.next(), Some(entries[1]));
    assert_eq!(iter.next(), Some(entries[2]));
    assert_eq!(iter.next(), None);
    assert_eq!(view.entries().unwrap().collect(), entries.to_vec());
}

#[test]
fn slices_are_the_frame() {
    let entries = [entry(41, b"alpha"), entry(42, b"b")];
    let msg = RaftMessage::AppendEntriesVectored(append(2), &entries);
    let mut header_buf = vec![0u8; 512];
    let mut slices = Vec::new();
    encode_message_vectored(PeerId(5), &msg, &mut header_buf, &mut slices).unwrap();
    assert_eq!(gather(&slices, &header_buf), frame_of(&msg));

    let chunk = InstallSnapshot {
        term: 9,
        leader_id: 1,
        last_included_index: 30,
        last_included_term: 7,
        offset: 0,
        chunk_len: 4,
        done: 1,
        _pad: [0; 3],
    };
    let msg = RaftMessage::InstallSnapshot(chunk, b"snap");
    let mut header_buf = vec![0u8; 512];
    let mut slices = Vec::new();
    encode_message_vectored(PeerId(5), &msg, &mut header_buf, &mut slices).unwrap();
    assert_eq!(gather(&slices, &header_buf), frame_of(&msg));
}

#[test]
fn short_header_buffers_are_refused() {
    let mut header_buf = vec![0u8; 31];
    let mut slices = Vec::new();
    let msg = RaftMessage::RequestVote(vote());
    match encode_message_vectored(PeerId(5), &msg, &mut header_buf, &mut slices) {
        Err(RaftError::Protocol(words)) => assert_eq!(words, "header buffer too small"),
        other => panic!("{:?}", other),
    }
    let entries = [entry(41, b"alpha")];
    let msg = RaftMessage::AppendEntriesVectored(append(1), &entries);
    match encode_message_vectored(PeerId(5), &msg, &mut header_buf, &mut slices) {
        Err(RaftError::Protocol(words)) => assert_eq!(words, "header buffer too small for batch"),
        other => panic!("{:?}", other),
    }
}

#[test]
fn group_is_carried_in_the_header() {
    let msg = RaftMessage::RequestVote(vote());
    let mut header_buf = vec![0u8; 512];
    let mut slices = Vec::new();
    encode_message_vectored_with_group(PeerId(5), GroupId(513), &msg, &mut header_buf, &mut slices)
        .unwrap();
    let frame = gather(&slices, &header_buf);
    assert_eq!(&frame[24..32], &[1, 2, 0, 0, 0, 0, 0, 0]);
    let inbound = decode_message(&frame).unwrap();
    assert_eq!(inbound.group_id, GroupId(513));
    assert_eq!(inbound.message, msg);
}

#[test]
fn batched_encoder_agrees_with_the_plain_one() {
    let entries = [entry(41, b"xy")];
    let mut header_buf = vec![0u8; 512];
    let mut slices = Vec::new();
    encode_append_entries_vectored(
        PeerId(5),
        0,
        Term(9),
        PeerId(1),
        LogIndex(40),
        Term(8),
        LogIndex(39),
        &entries,
        &mut header_buf,
        &mut slices,
    )
    .unwrap();
    let mut request = append(1);
    request._pad = 0;
    let plain = frame_of(&RaftMessage::AppendEntriesVectored(request, &entries));
    assert_eq!(gather(&slices, &header_buf), plain);
}

#[test]
fn seeded_batches_round_trip() {
    let mut headers = Vec::new();
    EntryHeader { term: 9, index: 41, payload_len: 2, _pad: 0 }.put(&mut headers);
    EntryHeader { term: 9, index: 42, payload_len: 3, _pad: 0 }.put(&mut headers);
    let joined = b"abcde";
    let parts: [&[u8]; 2] = [b"ab", b"cde"];
    let contiguous = RaftMessage::AppendEntriesSeeded {
        ae: append(2),
        headers: &headers,
        payloads: joined,
    };
    let vectored = RaftMessage::AppendEntriesSeededVectored {
        ae: append(2),
        headers: &headers,
        payloads: &parts,
    };
    let frame = frame_of(&contiguous);
    assert_eq!(frame[5], KIND_APPEND_ENTRIES_SEEDED);
    assert_eq!(frame, frame_of(&vectored));
    let inbound = decode_message(&frame).unwrap();
    assert_eq!(inbound.message, contiguous);
    let (_, h, p) = inbound.as_append_entries_seeded().unwrap();
    let mut iter = AppendEntriesRawIter::new(h, SeededPayloads::Contiguous(p));
    let (header, payload) = iter.next().unwrap();
    assert_eq!((header.index, payload), (41, &b"ab"[..]));
    let (header, payload) = iter.next().unwrap();
    assert_eq!((header.index, payload), (42, &b"cde"[..]));
    assert!(iter.next().is_none());
    let mut iter = AppendEntriesRawIter::new(h, SeededPayloads::Disjoint(&parts));
    assert_eq!(iter.next().unwrap().1, b"ab");
    assert_eq!(iter.next().unwrap().1, b"cde");
    assert!(iter.next().is_none());
}

#[test]
fn malformed_frames_are_survivable_errors() {
    let good = frame_of(&RaftMessage::RequestVote(vote()));
    assert_eq!(protocol_error(&good[..31]), "short raft frame header");
    assert_eq!(protocol_error(&[]), "short raft frame header");

    let mut bad = good.clone();
    bad[0] = 0;
    assert_eq!(protocol_error(&bad), "invalid raft frame magic");

    let mut bad = good.clone();
    bad[4] = 9;
    assert_eq!(protocol_error(&bad), "unsupported raft frame version 9");

    assert_eq!(
        protocol_error(&good[..60]),
        "raft frame length mismatch: header=32 actual=28",
    );

    let mut bad = good.clone();
    bad[5] = 200;
    assert_eq!(protocol_error(&bad), "unknown raft message kind 200");

    let mut bad = good.clone();
    bad.truncate(60);
    fix_len(&mut bad);
    assert_eq!(protocol_error(&bad), "short request vote body");

    let mut bad = good.clone();
    bad.push(0);
    fix_len(&mut bad);
    assert_eq!(protocol_error(&bad), "request vote trailing bytes");

    let error = decode_message(&bad).unwrap_err();
    assert_eq!(error.class(), ErrorClass::BadFrame);
    assert!(!error.is_fatal());
    assert_eq!(decode_message(&good).unwrap().message, RaftMessage::RequestVote(vote()));
}

#[test]
fn malformed_batches_are_refused() {
    let entries = [entry(41, b"alpha")];
    let good = frame_of(&RaftMessage::AppendEntriesVectored(append(1), &entries));

    let mut bad = good.clone();
    bad.push(1);
    fix_len(&mut bad);
    assert_eq!(protocol_error(&bad), "append entries trailing bytes");

    let mut bad = good.clone();
    bad.pop();
    fix_len(&mut bad);
    assert_eq!(protocol_error(&bad), "short append entry payload");

    let mut bad = good[..32 + 48 + 10].to_vec();
    fix_len(&mut bad);
    assert_eq!(protocol_error(&bad), "short append entry header");

    // A count that the body cannot hold is refused, not believed.
    let mut bad = good.clone();
    bad[72..76].copy_from_slice(&u32::MAX.to_le_bytes());
    assert_eq!(protocol_error(&bad), "short append entry header");

    assert!(validate_append_entries_body(0, &[]).is_ok());
    assert!(validate_append_entries_body(0, &[1]).is_err());
}

#[test]
fn malformed_seeded_batches_are_refused() {
    let mut headers = Vec::new();
    EntryHeader { term: 9, index: 41, payload_len: 2, _pad: 0 }.put(&mut headers);
    let msg = RaftMessage::AppendEntriesSeeded { ae: append(1), headers: &headers, payloads: b"abc" };
    let frame = frame_of(&msg);
    assert_eq!(
        protocol_error(&frame),
        "seeded payloads size mismatch: headers specify=2 actual=3",
    );
    let msg = RaftMessage::AppendEntriesSeeded { ae: append(2), headers: &headers, payloads: b"ab" };
    assert_eq!(protocol_error(&frame_of(&msg)), "short seeded headers block");
}

#[test]
fn snapshot_chunk_length_must_agree() {
    let chunk = InstallSnapshot {
        term: 9,
        leader_id: 1,
        last_included_index: 30,
        last_included_term: 7,
        offset: 0,
        chunk_len: 5,
        done: 0,
        _pad: [0; 3],
    };
    let frame = frame_of(&RaftMessage::InstallSnapshot(chunk, b"four"));
    assert_eq!(protocol_error(&frame), "install snapshot chunk length mismatch");
}

#[test]
fn lengths_are_refused_not_cut() {
    assert_eq!(wire_len_u32(0xffff_ffff, "body length").unwrap(), 0xffff_ffff);
    match wire_len_u32(0x1_0000_0000, "body length") {
        Err(RaftError::Protocol(words)) => {
            assert_eq!(words, "body length 4294967296 is too long for a frame")
        }
        other => panic!("{:?}", other),
    }
}

#[test]
fn every_prefix_of_a_frame_is_an_error() {
    let entries = [entry(41, b"alpha"), entry(42, b"beta")];
    let frame = frame_of(&RaftMessage::AppendEntriesVectored(append(2), &entries));
    for n in 0..frame.len() {
        assert!(decode_message(&frame[..n]).is_err());
    }
    assert!(decode_message(&frame).is_ok());
    assert_eq!(frame[5], KIND_APPEND_ENTRIES);
}

#[test]
fn typed_views_read_the_same_message() {
    let frame = frame_of(&RaftMessage::RequestVote(vote()));
    let inbound = RaftMessageView::parse(&frame).unwrap();
    assert_eq!(inbound.from, PeerId(5));
    match inbound.message {
        RaftMessageView::RequestVote(view) => {
            assert_eq!(view.from(), PeerId(5));
            assert_eq!(view.term(), Term(7));
            assert_eq!(view.candidate_id(), PeerId(3));
            assert_eq!(view.last_log_term(), Term(6));
            assert_eq!(view.to_owned(), vote());
        }
        _ => panic!("not a vote request"),
    }
    let ack = AppendEntriesResp { term: 9, match_index: 41, success: 1, _pad: [0; 7] };
    let frame = frame_of(&RaftMessage::AppendEntriesResp(ack));
    match RaftMessageView::parse(&frame).unwrap().message {
        RaftMessageView::AppendEntriesResp(view) => {
            assert!(view.success());
            assert_eq!(view.match_index(), LogIndex(41));
        }
        _ => panic!("not an append response"),
    }
    assert!(RaftMessageView::parse(&frame[..40]).is_err());
}
