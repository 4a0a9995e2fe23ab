//! What holds of encoding and decoding together.

use vstd::prelude::*;

use super::decode::{body_fault, decode_fault, decodes, entries_fault};
use super::encode::vectored::{
    batch_base, batch_body, batch_front, batch_headers_len, batch_request, batch_result,
    batch_slices, body_slices, entry_headers, gathered, header_slice, payload_slice,
    payload_slices, vectored_result, with_front, SliceSpec,
};
use super::encode::{frame, frame_header};
use super::le::{field, lemma_byte_ranges, lemma_le_bytes_of_value};
use super::wire::{
    AppendEntries, ENTRY_HEADER_SIZE, KIND_APPEND_ENTRIES, MAX_ENTRY_PAYLOAD, MAX_FRAME_SIZE,
    RAFT_FRAME_HEADER_SIZE,
};
use crate::entry::EntryRecord;
use crate::error::{ErrorClass, RaftError};
use crate::protocol::message::{
    after_entry, entries_in, entry_block, entry_blocks, entry_header, first_entry, has_entry,
    joined, lemma_entry_block_len, lemma_entry_blocks_push, seeded_total, InboundRaftMessage,
    RaftMessage,
};

verus! {

/// Whether an inbound form of a message is consistent in itself: the lengths
/// and counts in its fixed part are those of the bytes beside it.
pub open spec fn consistent(msg: RaftMessage<'_>) -> bool {
    match msg {
        RaftMessage::AppendEntries(m, p) => entries_fault(m.entry_count as nat, p@) is None,
        RaftMessage::AppendEntriesVectored(_, _) => false,
        RaftMessage::AppendEntriesSeeded { ae, headers, payloads } =>
            headers@.len() == ae.entry_count * ENTRY_HEADER_SIZE
                && seeded_total(headers@, ae.entry_count as nat) == payloads@.len(),
        RaftMessage::AppendEntriesSeededVectored { .. } => false,
        RaftMessage::InstallSnapshot(m, p) => m.chunk_len == p@.len(),
        _ => true,
    }
}

/// The fields of a frame are those of its header.
proof fn lemma_frame_fields(from: u64, group_id: u64, kind: u8, body: Seq<u8>)
    ensures
        frame(from, group_id, kind, body).len() == RAFT_FRAME_HEADER_SIZE + body.len(),
        frame_header(from, group_id, kind, body.len()).reads(frame(from, group_id, kind, body)),
        frame(from, group_id, kind, body).skip(RAFT_FRAME_HEADER_SIZE as int) == body,
{
    let header = frame_header(from, group_id, kind, body.len());
    let f = frame(from, group_id, kind, body);
    header.lemma_bytes_len();
    assert(f.take(32) =~= header.bytes());
    header.lemma_reads_bytes(f);
    assert(f.skip(32) =~= body);
}

/// A consistent message is carried by its own body, and its body has no fault.
proof fn lemma_carried(msg: RaftMessage<'_>)
    requires
        consistent(msg),
    ensures
        msg.carries(msg.body()),
        body_fault(msg.kind(), msg.body()) is None,
{
    let body = msg.body();
    match msg {
        RaftMessage::RequestVote(m) => {
            m.lemma_bytes_len();
            assert(body.take(32) =~= body);
            m.lemma_reads_bytes(body);
        },
        RaftMessage::RequestVoteResp(m) => {
            m.lemma_bytes_len();
            assert(body.take(16) =~= body);
            m.lemma_reads_bytes(body);
        },
        RaftMessage::PreVote(m) => {
            m.lemma_bytes_len();
            assert(body.take(32) =~= body);
            m.lemma_reads_bytes(body);
        },
        RaftMessage::PreVoteResp(m) => {
            m.lemma_bytes_len();
            assert(body.take(16) =~= body);
            m.lemma_reads_bytes(body);
        },
        RaftMessage::AppendEntries(m, p) => {
            m.lemma_bytes_len();
            assert(body.take(48) =~= m.bytes());
            m.lemma_reads_bytes(body);
            assert(body.skip(48) =~= p@);
        },
        RaftMessage::AppendEntriesVectored(_, _) => {},
        RaftMessage::AppendEntriesSeeded { ae, headers, payloads } => {
            ae.lemma_bytes_len();
            assert(body.take(48) =~= ae.bytes());
            ae.lemma_reads_bytes(body);
            let n = ae.entry_count as int;
            assert(body.subrange(48, 48 + n * 24) =~= headers@);
            assert(body.skip(48 + n * 24) =~= payloads@);
            assert(body.skip(48).take(n * 24) =~= headers@);
        },
        RaftMessage::AppendEntriesSeededVectored { .. } => {},
        RaftMessage::AppendEntriesResp(m) => {
            m.lemma_bytes_len();
            assert(body.take(24) =~= body);
            m.lemma_reads_bytes(body);
        },
        RaftMessage::InstallSnapshot(m, p) => {
            m.lemma_bytes_len();
            assert(body.take(48) =~= m.bytes());
            m.lemma_reads_bytes(body);
            assert(body.skip(48) =~= p@);
        },
        RaftMessage::InstallSnapshotResp(m) => {
            m.lemma_bytes_len();
            assert(body.take(24) =~= body);
            m.lemma_reads_bytes(body);
        },
        RaftMessage::TimeoutNow(m) => {
            m.lemma_bytes_len();
            assert(body.take(16) =~= body);
            m.lemma_reads_bytes(body);
        },
        RaftMessage::Custom(_) => {},
        RaftMessage::CustomResponse(_) => {},
    }
}

/// A carried message has the body that carries it.
proof fn lemma_carrier_is_body(msg: RaftMessage<'_>, body: Seq<u8>)
    requires
        msg.carries(body),
    ensures
        msg.body() == body,
{
    match msg {
        RaftMessage::RequestVote(m) => {
            m.lemma_reads_bytes(body);
            assert(body.take(32) =~= body);
        },
        RaftMessage::RequestVoteResp(m) => {
            m.lemma_reads_bytes(body);
            assert(body.take(16) =~= body);
        },
        RaftMessage::PreVote(m) => {
            m.lemma_reads_bytes(body);
            assert(body.take(32) =~= body);
        },
        RaftMessage::PreVoteResp(m) => {
            m.lemma_reads_bytes(body);
            assert(body.take(16) =~= body);
        },
        RaftMessage::AppendEntries(m, p) => {
            m.lemma_reads_bytes(body);
            assert(body.take(48) + body.skip(48) =~= body);
        },
        RaftMessage::AppendEntriesVectored(_, _) => {},
        RaftMessage::AppendEntriesSeeded { ae, headers, payloads } => {
            ae.lemma_reads_bytes(body);
            let split = 48 + ae.entry_count * 24;
            assert(body.take(48) + body.subrange(48, split) + body.skip(split) =~= body);
        },
        RaftMessage::AppendEntriesSeededVectored { .. } => {},
        RaftMessage::AppendEntriesResp(m) => {
            m.lemma_reads_bytes(body);
            assert(body.take(24) =~= body);
        },
        RaftMessage::InstallSnapshot(m, p) => {
            m.lemma_reads_bytes(body);
            assert(body.take(48) + body.skip(48) =~= body);
        },
        RaftMessage::InstallSnapshotResp(m) => {
            m.lemma_reads_bytes(body);
            assert(body.take(24) =~= body);
        },
        RaftMessage::TimeoutNow(m) => {
            m.lemma_reads_bytes(body);
            assert(body.take(16) =~= body);
        },
        RaftMessage::Custom(_) => {},
        RaftMessage::CustomResponse(_) => {},
    }
}

/// Decoding what was encoded gives the sender, the group and the message that
/// went in, and nothing else.
pub proof fn law_decode_inverts_encode(
    from: u64,
    group_id: u64,
    msg: RaftMessage<'_>,
    m: InboundRaftMessage<'_>,
)
    requires
        consistent(msg),
        msg.body().len() <= u32::MAX,
    ensures
        decode_fault(frame(from, group_id, msg.kind(), msg.body())) is None,
        m.from.0 == from && m.group_id.0 == group_id && m.message == msg ==> decodes(
            frame(from, group_id, msg.kind(), msg.body()),
            m,
        ),
        decodes(frame(from, group_id, msg.kind(), msg.body()), m) ==> {
            &&& m.from.0 == from
            &&& m.group_id.0 == group_id
            &&& m.message.kind() == msg.kind()
            &&& m.message.body() == msg.body()
        },
{
    lemma_frame_fields(from, group_id, msg.kind(), msg.body());
    lemma_carried(msg);
    if decodes(frame(from, group_id, msg.kind(), msg.body()), m) {
        lemma_carrier_is_body(m.message, msg.body());
    }
}

/// Two messages of one kind with the same body have the same fixed part and the
/// same payload bytes.
pub proof fn law_body_determines_message(a: RaftMessage<'_>, b: RaftMessage<'_>)
    requires
        consistent(a),
        consistent(b),
        a.kind() == b.kind(),
        a.body() == b.body(),
    ensures
        match (a, b) {
            (RaftMessage::RequestVote(x), RaftMessage::RequestVote(y)) => x == y,
            (RaftMessage::PreVote(x), RaftMessage::PreVote(y)) => x == y,
            (RaftMessage::RequestVoteResp(x), RaftMessage::RequestVoteResp(y)) =>
                x.term == y.term && x.vote_granted == y.vote_granted && x._pad@ == y._pad@,
            (RaftMessage::PreVoteResp(x), RaftMessage::PreVoteResp(y)) =>
                x.term == y.term && x.vote_granted == y.vote_granted && x._pad@ == y._pad@,
            (RaftMessage::AppendEntries(x, p), RaftMessage::AppendEntries(y, q)) =>
                x == y && p@ == q@,
            (
                RaftMessage::AppendEntriesSeeded { ae: x, headers: h, payloads: p },
                RaftMessage::AppendEntriesSeeded { ae: y, headers: g, payloads: q },
            ) => x == y && h@ == g@ && p@ == q@,
            (RaftMessage::AppendEntriesResp(x), RaftMessage::AppendEntriesResp(y)) =>
                x.term == y.term && x.match_index == y.match_index && x.success == y.success
                    && x._pad@ == y._pad@,
            (RaftMessage::InstallSnapshot(x, p), RaftMessage::InstallSnapshot(y, q)) => {
                &&& x.term == y.term && x.leader_id == y.leader_id && x.offset == y.offset
                &&& x.last_included_index == y.last_included_index
                &&& x.last_included_term == y.last_included_term
                &&& x.chunk_len == y.chunk_len && x.done == y.done && x._pad@ == y._pad@
                &&& p@ == q@
            },
            (RaftMessage::InstallSnapshotResp(x), RaftMessage::InstallSnapshotResp(y)) =>
                x.term == y.term && x.next_offset == y.next_offset && x.accepted == y.accepted
                    && x._pad@ == y._pad@,
            (RaftMessage::TimeoutNow(x), RaftMessage::TimeoutNow(y)) => x == y,
            (RaftMessage::Custom(p), RaftMessage::Custom(q)) => p@ == q@,
            (RaftMessage::CustomResponse(p), RaftMessage::CustomResponse(q)) => p@ == q@,
            _ => false,
        },
{
    lemma_carried(a);
    lemma_carried(b);
}

/// A well-formed frame with its spare fields zero is exactly the encoding of
/// the message that it holds.
pub proof fn law_encode_inverts_decode(f: Seq<u8>, m: InboundRaftMessage<'_>)
    requires
        decode_fault(f) is None,
        decodes(f, m),
        field(f, 6, 2) == 0,
        field(f, 20, 4) == 0,
    ensures
        f == frame(m.from.0, m.group_id.0, m.message.kind(), m.message.body()),
{
    let body = f.skip(RAFT_FRAME_HEADER_SIZE as int);
    lemma_carrier_is_body(m.message, body);
    let header = frame_header(m.from.0, m.group_id.0, m.message.kind(), body.len());
    lemma_le_bytes_of_value(f.subrange(16, 20));
    lemma_byte_ranges();
    assert(header.reads(f));
    header.lemma_reads_bytes(f);
    assert(f.take(32) + f.skip(32) =~= f);
}

/// The front of a run of entries parses as its first entry.
proof fn lemma_first_block(e: EntryRecord, rest: Seq<u8>)
    requires
        e.payload.len() <= u32::MAX,
    ensures
        has_entry(entry_block(e) + rest),
        first_entry(entry_block(e) + rest) == e,
        after_entry(entry_block(e) + rest) == rest,
{
    let body = entry_block(e) + rest;
    let header = entry_header(e);
    header.lemma_bytes_len();
    assert(body.take(24) =~= header.bytes());
    header.lemma_reads_bytes(body);
    assert(body.subrange(24, 24 + e.payload.len() as int) =~= e.payload);
    assert(body.skip(24 + e.payload.len() as int) =~= rest);
}

/// A run of entries has no fault and parses back to the entries.
proof fn lemma_blocks_parse(entries: Seq<EntryRecord>)
    requires
        entry_blocks(entries).len() <= u32::MAX,
    ensures
        entries_fault(entries.len(), entry_blocks(entries)) is None,
        entries_in(entry_blocks(entries), entries.len()) == entries,
    decreases entries.len(),
{
    if entries.len() > 0 {
        let tail = entries.skip(1);
        lemma_entry_block_len(entries[0]);
        lemma_first_block(entries[0], entry_blocks(tail));
        lemma_blocks_parse(tail);
        assert(seq![entries[0]] + tail =~= entries);
    }
}

/// A batch that was sent arrives as an append request with the batch's count,
/// whose bytes read back as the very entries of the batch.
pub proof fn law_batch_round_trip(
    from: u64,
    group_id: u64,
    request: AppendEntries,
    entries: Seq<EntryRecord>,
    m: InboundRaftMessage<'_>,
)
    requires
        batch_body(request, entries).len() <= u32::MAX,
    ensures
        decode_fault(
            frame(from, group_id, KIND_APPEND_ENTRIES, batch_body(request, entries)),
        ) is None,
        decodes(frame(from, group_id, KIND_APPEND_ENTRIES, batch_body(request, entries)), m) ==> {
            &&& m.from.0 == from
            &&& m.group_id.0 == group_id
            &&& m.message matches RaftMessage::AppendEntries(ae, p)
            &&& ae == batch_request(request, entries.len())
            &&& entries_in(p@, ae.entry_count as nat) == entries
        },
{
    let body = batch_body(request, entries);
    let ae = batch_request(request, entries.len());
    lemma_frame_fields(from, group_id, KIND_APPEND_ENTRIES, body);
    ae.lemma_bytes_len();
    assert(body.take(48) =~= ae.bytes());
    ae.lemma_reads_bytes(body);
    assert(body.skip(48) =~= entry_blocks(entries));
    lemma_blocks_parse(entries);
    lemma_count_bound(entries);
}

proof fn lemma_count_bound(entries: Seq<EntryRecord>)
    ensures
        entries.len() * ENTRY_HEADER_SIZE <= entry_blocks(entries).len(),
    decreases entries.len(),
{
    if entries.len() > 0 {
        lemma_count_bound(entries.skip(1));
        lemma_entry_block_len(entries[0]);
    }
}

/// Gathering two runs of slices gathers one after the other.
proof fn lemma_gathered_concat(a: Seq<SliceSpec>, b: Seq<SliceSpec>, buf: Seq<u8>)
    ensures
        gathered(a + b, buf) == gathered(a, buf) + gathered(b, buf),
    decreases b.len(),
{
    if b.len() == 0 {
        assert(a + b =~= a);
        assert(gathered(a, buf) + gathered(b, buf) =~= gathered(a, buf));
    } else {
        lemma_gathered_concat(a, b.drop_last(), buf);
        assert((a + b).drop_last() =~= a + b.drop_last());
        assert(gathered(a + b, buf) =~= gathered(a, buf) + gathered(b, buf));
    }
}

proof fn lemma_gathered_one(s: SliceSpec, buf: Seq<u8>)
    ensures
        gathered(seq![s], buf) == s.bytes(buf),
{
    assert(seq![s].drop_last() =~= Seq::empty());
    assert(gathered(seq![s].drop_last(), buf) =~= Seq::empty());
    assert(gathered(seq![s], buf) =~= s.bytes(buf));
}

proof fn lemma_gathered_payload(p: Seq<u8>, buf: Seq<u8>)
    ensures
        gathered(payload_slice(p), buf) == p,
{
    if p.len() > 0 {
        lemma_gathered_one(SliceSpec::Payload(p), buf);
    } else {
        assert(gathered(payload_slice(p), buf) =~= p);
    }
}

proof fn lemma_gathered_payloads(payloads: Seq<&[u8]>, buf: Seq<u8>)
    ensures
        gathered(payload_slices(payloads), buf) == joined(payloads),
    decreases payloads.len(),
{
    if payloads.len() > 0 {
        lemma_gathered_payloads(payloads.drop_last(), buf);
        lemma_gathered_payload(payloads.last()@, buf);
        lemma_gathered_concat(
            payload_slices(payloads.drop_last()),
            payload_slice(payloads.last()@),
            buf,
        );
    }
}

/// The slices of a body gather to the body.
proof fn lemma_gathered_body(msg: RaftMessage<'_>, buf: Seq<u8>)
    requires
        !(msg is AppendEntriesVectored),
    ensures
        gathered(body_slices(msg), buf) == msg.body(),
{
    match msg {
        RaftMessage::RequestVote(m) => lemma_gathered_one(SliceSpec::Fixed(m.bytes()), buf),
        RaftMessage::RequestVoteResp(m) => lemma_gathered_one(SliceSpec::Fixed(m.bytes()), buf),
        RaftMessage::PreVote(m) => lemma_gathered_one(SliceSpec::Fixed(m.bytes()), buf),
        RaftMessage::PreVoteResp(m) => lemma_gathered_one(SliceSpec::Fixed(m.bytes()), buf),
        RaftMessage::AppendEntries(m, p) => {
            lemma_gathered_one(SliceSpec::Fixed(m.bytes()), buf);
            lemma_gathered_payload(p@, buf);
            lemma_gathered_concat(
                seq![SliceSpec::Fixed(m.bytes())],
                payload_slice(p@),
                buf,
            );
        },
        RaftMessage::AppendEntriesVectored(_, _) => {},
        RaftMessage::AppendEntriesSeeded { ae, headers, payloads } => {
            let fixed = seq![SliceSpec::Fixed(ae.bytes())];
            lemma_gathered_one(SliceSpec::Fixed(ae.bytes()), buf);
            lemma_gathered_payload(headers@, buf);
            lemma_gathered_payload(payloads@, buf);
            lemma_gathered_concat(fixed, payload_slice(headers@), buf);
            lemma_gathered_concat(
                fixed + payload_slice(headers@),
                payload_slice(payloads@),
                buf,
            );
        },
        RaftMessage::AppendEntriesSeededVectored { ae, headers, payloads } => {
            let fixed = seq![SliceSpec::Fixed(ae.bytes())];
            lemma_gathered_one(SliceSpec::Fixed(ae.bytes()), buf);
            lemma_gathered_payload(headers@, buf);
            lemma_gathered_payloads(payloads@, buf);
            lemma_gathered_concat(fixed, payload_slice(headers@), buf);
            lemma_gathered_concat(
                fixed + payload_slice(headers@),
                payload_slices(payloads@),
                buf,
            );
        },
        RaftMessage::AppendEntriesResp(m) => lemma_gathered_one(SliceSpec::Fixed(m.bytes()), buf),
        RaftMessage::InstallSnapshot(m, p) => {
            lemma_gathered_one(SliceSpec::Fixed(m.bytes()), buf);
            lemma_gathered_payload(p@, buf);
            lemma_gathered_concat(
                seq![SliceSpec::Fixed(m.bytes())],
                payload_slice(p@),
                buf,
            );
        },
        RaftMessage::InstallSnapshotResp(m) => {
            lemma_gathered_one(SliceSpec::Fixed(m.bytes()), buf);
        },
        RaftMessage::TimeoutNow(m) => lemma_gathered_one(SliceSpec::Fixed(m.bytes()), buf),
        RaftMessage::Custom(p) => lemma_gathered_payload(p@, buf),
        RaftMessage::CustomResponse(p) => lemma_gathered_payload(p@, buf),
    }
}

/// The slices of a batch gather to the entries, given the entry headers in the
/// header buffer.
proof fn lemma_gathered_batch(entries: Seq<EntryRecord>, buf: Seq<u8>)
    requires
        buf.len() >= batch_headers_len(entries.len()),
        buf.subrange(batch_base(), batch_headers_len(entries.len())) == entry_headers(entries),
    ensures
        gathered(batch_slices(entries), buf) == entry_blocks(entries),
    decreases entries.len(),
{
    if entries.len() > 0 {
        let front = entries.drop_last();
        let last = entries.last();
        let at = batch_headers_len(front.len());
        let whole = buf.subrange(batch_base(), batch_headers_len(entries.len()));
        lemma_headers_len(front);
        entry_header(last).lemma_bytes_len();
        assert(buf.subrange(batch_base(), at) =~= whole.take(at - batch_base()));
        assert(whole.take(at - batch_base()) =~= entry_headers(front));
        assert(buf.subrange(at, at + 24) =~= whole.skip(at - batch_base()));
        assert(whole.skip(at - batch_base()) =~= entry_header(last).bytes());
        lemma_gathered_batch(front, buf);
        let header = SliceSpec::Header(at, at + ENTRY_HEADER_SIZE);
        lemma_gathered_one(header, buf);
        lemma_gathered_payload(last.payload, buf);
        lemma_gathered_concat(batch_slices(front), seq![header], buf);
        lemma_gathered_concat(
            batch_slices(front) + seq![header],
            payload_slice(last.payload),
            buf,
        );
        lemma_entry_blocks_push(front, last);
        assert(front.push(last) =~= entries);
        assert(gathered(batch_slices(entries), buf) =~= entry_blocks(entries));
    }
}

proof fn lemma_headers_len(entries: Seq<EntryRecord>)
    ensures
        entry_headers(entries).len() == entries.len() * ENTRY_HEADER_SIZE,
    decreases entries.len(),
{
    if entries.len() > 0 {
        lemma_headers_len(entries.drop_last());
        entry_header(entries.last()).lemma_bytes_len();
    }
}

/// The slices of a vectored encoding, sent one after another, are the frame
/// that a contiguous encoding holds.
pub proof fn law_slices_are_the_frame(
    from: u64,
    group_id: u64,
    msg: RaftMessage<'_>,
    buf: Seq<u8>,
)
    requires
        !(msg is AppendEntriesVectored),
    ensures
        vectored_result(from, group_id, msg, buf) matches Ok((filled, slices)) ==> gathered(
            slices,
            filled,
        ) == frame(from, group_id, msg.kind(), msg.body()),
{
    let header = frame_header(from, group_id, msg.kind(), msg.body().len()).bytes();
    frame_header(from, group_id, msg.kind(), msg.body().len()).lemma_bytes_len();
    if vectored_result(from, group_id, msg, buf) is Ok {
        let filled = with_front(buf, header);
        assert(filled.subrange(0, 32) =~= header);
        lemma_gathered_one(SliceSpec::Header(0, 32), filled);
        lemma_gathered_body(msg, filled);
        lemma_gathered_concat(header_slice(), body_slices(msg), filled);
    }
}

/// The slices of a batch, sent one after another, are the batch's frame.
pub proof fn law_batch_slices_are_the_frame(
    from: u64,
    group_id: u64,
    request: AppendEntries,
    entries: Seq<EntryRecord>,
    buf: Seq<u8>,
)
    ensures
        batch_result(from, group_id, request, entries, buf) matches Ok((filled, slices))
            ==> gathered(slices, filled) == frame(
            from,
            group_id,
            KIND_APPEND_ENTRIES,
            batch_body(request, entries),
        ),
{
    if batch_result(from, group_id, request, entries, buf) is Ok {
        let front = batch_front(from, group_id, request, entries);
        let filled = with_front(buf, front);
        let body = batch_body(request, entries);
        let header = frame_header(from, group_id, KIND_APPEND_ENTRIES, body.len());
        let ae = batch_request(request, entries.len());
        header.lemma_bytes_len();
        ae.lemma_bytes_len();
        lemma_headers_len(entries);
        assert(filled.subrange(0, batch_base()) =~= header.bytes() + ae.bytes());
        assert(filled.subrange(batch_base(), batch_headers_len(entries.len()))
            =~= entry_headers(entries));
        lemma_gathered_one(SliceSpec::Header(0, batch_base()), filled);
        lemma_gathered_batch(entries, filled);
        lemma_gathered_concat(
            seq![SliceSpec::Header(0, batch_base())],
            batch_slices(entries),
            filled,
        );
        assert(header.bytes() + ae.bytes() + entry_blocks(entries) =~= frame(
            from,
            group_id,
            KIND_APPEND_ENTRIES,
            body,
        ));
    }
}

/// A frame with a single entry of an admissible payload fits a receiver.
pub proof fn law_lone_entry_fits(from: u64, group_id: u64, request: AppendEntries, e: EntryRecord)
    requires
        e.payload.len() <= MAX_ENTRY_PAYLOAD,
    ensures
        frame(from, group_id, KIND_APPEND_ENTRIES, batch_body(request, seq![e])).len()
            <= MAX_FRAME_SIZE,
{
    let body = batch_body(request, seq![e]);
    frame_header(from, group_id, KIND_APPEND_ENTRIES, body.len()).lemma_bytes_len();
    batch_request(request, 1).lemma_bytes_len();
    lemma_entry_block_len(e);
    assert(seq![e].skip(1) =~= Seq::empty());
    assert(entry_blocks(seq![e].skip(1)).len() == 0);
}

/// A frame that cannot be decoded is dropped; it never ends the run loop.
pub proof fn law_bad_frames_are_survivable(e: RaftError, words: Seq<char>)
    requires
        e.is_protocol(words),
    ensures
        e.class_spec() == ErrorClass::BadFrame,
{
}

/// A message is encoded exactly where the length field holds the length of its body and the
/// buffer holds its headers: 32 bytes, and for a batch 48 more and 24 for each entry. The
/// buffer keeps its length, and what is past the headers stays as it was.
pub proof fn law_encodings_succeed_where_they_fit(
    from: u64,
    group_id: u64,
    msg: RaftMessage<'_>,
    request: AppendEntries,
    entries: Seq<EntryRecord>,
    buf: Seq<u8>,
)
    ensures
        !(msg is AppendEntriesVectored) ==> {
            &&& vectored_result(from, group_id, msg, buf) is Ok <==> msg.body().len()
                <= 0xffff_ffff && buf.len() >= 32
            &&& vectored_result(from, group_id, msg, buf) matches Ok((filled, _)) ==> {
                &&& filled.len() == buf.len()
                &&& forall|i: int| 32 <= i < buf.len() ==> #[trigger] filled[i] == buf[i]
            }
        },
        batch_result(from, group_id, request, entries, buf) is Ok <==> batch_body(
            request,
            entries,
        ).len() <= 0xffff_ffff && buf.len() >= 80 + 24 * entries.len(),
        batch_result(from, group_id, request, entries, buf) matches Ok((filled, _)) ==> {
            &&& filled.len() == buf.len()
            &&& forall|i: int|
                80 + 24 * entries.len() <= i < buf.len() ==> #[trigger] filled[i] == buf[i]
        },
{
    let header = frame_header(from, group_id, msg.kind(), msg.body().len());
    header.lemma_bytes_len();
    let body = batch_body(request, entries);
    frame_header(from, group_id, KIND_APPEND_ENTRIES, body.len()).lemma_bytes_len();
    batch_request(request, entries.len()).lemma_bytes_len();
    lemma_headers_len(entries);
}

} // verus!
