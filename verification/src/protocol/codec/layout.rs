//! Where every number stands on the wire.

use vstd::prelude::*;

use super::decode::{decode_fault, entries_fault};
use super::le::{field, le_value};
use super::wire::{
    AppendEntries, AppendEntriesResp, EntryHeader, InstallSnapshot, InstallSnapshotResp,
    RaftFrameHeader, RequestVote, RequestVoteResp, TimeoutNow,
};
use crate::entry::EntryRecord;
use crate::protocol::message::{
    after_entry, entries_in, first_entry, has_entry, RaftMessage,
};

verus! {

/// The number in the two bytes of `s` from `i` on, the least significant first.
pub open spec fn two_bytes(s: Seq<u8>, i: int) -> int {
    s[i] + 0x100 * s[i + 1]
}

/// The number in the four bytes of `s` from `i` on, the least significant first.
pub open spec fn four_bytes(s: Seq<u8>, i: int) -> int {
    two_bytes(s, i) + 0x1_0000 * two_bytes(s, i + 2)
}

/// The number in the eight bytes of `s` from `i` on, the least significant first.
pub open spec fn eight_bytes(s: Seq<u8>, i: int) -> int {
    four_bytes(s, i) + 0x1_0000_0000 * four_bytes(s, i + 4)
}

proof fn lemma_value_splits(a: Seq<u8>, n: int)
    requires
        0 <= n <= a.len(),
    ensures
        n == 2 ==> le_value(a) == a[0] + 0x100 * a[1] + 0x1_0000 * le_value(a.skip(2)),
        n == 4 ==> le_value(a) == a[0] + 0x100 * a[1] + 0x1_0000 * a[2] + 0x100_0000 * a[3]
            + 0x1_0000_0000 * le_value(a.skip(4)),
{
    reveal_with_fuel(le_value, 5);
    if n == 2 || n == 4 {
        assert(a.skip(1).skip(1) =~= a.skip(2));
    }
    if n == 4 {
        assert(a.skip(2).skip(1) =~= a.skip(3));
        assert(a.skip(3).skip(1) =~= a.skip(4));
    }
}

/// A field of two, four or eight bytes is the number that they hold.
pub(crate) proof fn lemma_fields_are_numbers(s: Seq<u8>, i: int)
    requires
        0 <= i,
    ensures
        i + 2 <= s.len() ==> field(s, i, 2) == two_bytes(s, i),
        i + 4 <= s.len() ==> field(s, i, 4) == four_bytes(s, i),
        i + 8 <= s.len() ==> field(s, i, 8) == eight_bytes(s, i),
{
    if i + 2 <= s.len() {
        let a = s.subrange(i, i + 2);
        lemma_value_splits(a, 2);
        assert(a.skip(2) =~= Seq::<u8>::empty());
    }
    if i + 4 <= s.len() {
        let a = s.subrange(i, i + 4);
        lemma_value_splits(a, 4);
        assert(a.skip(4) =~= Seq::<u8>::empty());
    }
    if i + 8 <= s.len() {
        let a = s.subrange(i, i + 8);
        let b = a.skip(4);
        lemma_value_splits(a, 4);
        lemma_value_splits(b, 4);
        assert(b.skip(4) =~= Seq::<u8>::empty());
    }
}

/// A frame header on the wire: 32 bytes, each field in its place.
pub proof fn law_frame_headers_are_laid_out(m: RaftFrameHeader)
    ensures
        m.bytes().len() == 32,
        four_bytes(m.bytes(), 0) == m.magic,
        m.bytes()[4] == m.version,
        m.bytes()[5] == m.kind,
        two_bytes(m.bytes(), 6) == m.flags,
        eight_bytes(m.bytes(), 8) == m.from,
        four_bytes(m.bytes(), 16) == m.body_len,
        four_bytes(m.bytes(), 20) == m.reserved,
        eight_bytes(m.bytes(), 24) == m.group_id,
{
    let s = m.bytes();
    m.lemma_bytes_len();
    m.lemma_reads_bytes(s);
    assert(s.take(32) =~= s);
    lemma_fields_are_numbers(s, 0);
    lemma_fields_are_numbers(s, 6);
    lemma_fields_are_numbers(s, 8);
    lemma_fields_are_numbers(s, 16);
    lemma_fields_are_numbers(s, 20);
    lemma_fields_are_numbers(s, 24);
}

/// A request for a vote on the wire: 32 bytes, each field in its place.
pub proof fn law_vote_requests_are_laid_out(m: RequestVote)
    ensures
        m.bytes().len() == 32,
        eight_bytes(m.bytes(), 0) == m.term,
        eight_bytes(m.bytes(), 8) == m.candidate_id,
        eight_bytes(m.bytes(), 16) == m.last_log_index,
        eight_bytes(m.bytes(), 24) == m.last_log_term,
{
    let s = m.bytes();
    m.lemma_bytes_len();
    m.lemma_reads_bytes(s);
    assert(s.take(32) =~= s);
    lemma_fields_are_numbers(s, 0);
    lemma_fields_are_numbers(s, 8);
    lemma_fields_are_numbers(s, 16);
    lemma_fields_are_numbers(s, 24);
}

/// A vote response on the wire: 16 bytes, each field in its place.
pub proof fn law_vote_responses_are_laid_out(m: RequestVoteResp)
    ensures
        m.bytes().len() == 16,
        eight_bytes(m.bytes(), 0) == m.term,
        m.bytes()[8] == m.vote_granted,
        m.bytes().subrange(9, 16) == m._pad@,
{
    let s = m.bytes();
    m.lemma_bytes_len();
    m.lemma_reads_bytes(s);
    assert(s.take(16) =~= s);
    lemma_fields_are_numbers(s, 0);
}

/// An append request on the wire: 48 bytes, each field in its place.
pub proof fn law_append_requests_are_laid_out(m: AppendEntries)
    ensures
        m.bytes().len() == 48,
        eight_bytes(m.bytes(), 0) == m.term,
        eight_bytes(m.bytes(), 8) == m.leader_id,
        eight_bytes(m.bytes(), 16) == m.prev_log_index,
        eight_bytes(m.bytes(), 24) == m.prev_log_term,
        eight_bytes(m.bytes(), 32) == m.leader_commit,
        four_bytes(m.bytes(), 40) == m.entry_count,
        four_bytes(m.bytes(), 44) == m._pad,
{
    let s = m.bytes();
    m.lemma_bytes_len();
    m.lemma_reads_bytes(s);
    assert(s.take(48) =~= s);
    lemma_fields_are_numbers(s, 0);
    lemma_fields_are_numbers(s, 8);
    lemma_fields_are_numbers(s, 16);
    lemma_fields_are_numbers(s, 24);
    lemma_fields_are_numbers(s, 32);
    lemma_fields_are_numbers(s, 40);
    lemma_fields_are_numbers(s, 44);
}

/// A header of an entry on the wire: 24 bytes, each field in its place.
pub proof fn law_entry_headers_are_laid_out(m: EntryHeader)
    ensures
        m.bytes().len() == 24,
        eight_bytes(m.bytes(), 0) == m.term,
        eight_bytes(m.bytes(), 8) == m.index,
        four_bytes(m.bytes(), 16) == m.payload_len,
        four_bytes(m.bytes(), 20) == m._pad,
{
    let s = m.bytes();
    m.lemma_bytes_len();
    m.lemma_reads_bytes(s);
    assert(s.take(24) =~= s);
    lemma_fields_are_numbers(s, 0);
    lemma_fields_are_numbers(s, 8);
    lemma_fields_are_numbers(s, 16);
    lemma_fields_are_numbers(s, 20);
}

/// An append response on the wire: 24 bytes, each field in its place.
pub proof fn law_append_responses_are_laid_out(m: AppendEntriesResp)
    ensures
        m.bytes().len() == 24,
        eight_bytes(m.bytes(), 0) == m.term,
        eight_bytes(m.bytes(), 8) == m.match_index,
        m.bytes()[16] == m.success,
        m.bytes().subrange(17, 24) == m._pad@,
{
    let s = m.bytes();
    m.lemma_bytes_len();
    m.lemma_reads_bytes(s);
    assert(s.take(24) =~= s);
    lemma_fields_are_numbers(s, 0);
    lemma_fields_are_numbers(s, 8);
}

/// A snapshot chunk on the wire: 48 bytes, each field in its place.
pub proof fn law_snapshot_chunks_are_laid_out(m: InstallSnapshot)
    ensures
        m.bytes().len() == 48,
        eight_bytes(m.bytes(), 0) == m.term,
        eight_bytes(m.bytes(), 8) == m.leader_id,
        eight_bytes(m.bytes(), 16) == m.last_included_index,
        eight_bytes(m.bytes(), 24) == m.last_included_term,
        eight_bytes(m.bytes(), 32) == m.offset,
        four_bytes(m.bytes(), 40) == m.chunk_len,
        m.bytes()[44] == m.done,
        m.bytes().subrange(45, 48) == m._pad@,
{
    let s = m.bytes();
    m.lemma_bytes_len();
    m.lemma_reads_bytes(s);
    assert(s.take(48) =~= s);
    lemma_fields_are_numbers(s, 0);
    lemma_fields_are_numbers(s, 8);
    lemma_fields_are_numbers(s, 16);
    lemma_fields_are_numbers(s, 24);
    lemma_fields_are_numbers(s, 32);
    lemma_fields_are_numbers(s, 40);
}

/// An answer to a snapshot chunk on the wire: 24 bytes, each field in its place.
pub proof fn law_snapshot_answers_are_laid_out(m: InstallSnapshotResp)
    ensures
        m.bytes().len() == 24,
        eight_bytes(m.bytes(), 0) == m.term,
        eight_bytes(m.bytes(), 8) == m.next_offset,
        m.bytes()[16] == m.accepted,
        m.bytes().subrange(17, 24) == m._pad@,
{
    let s = m.bytes();
    m.lemma_bytes_len();
    m.lemma_reads_bytes(s);
    assert(s.take(24) =~= s);
    lemma_fields_are_numbers(s, 0);
    lemma_fields_are_numbers(s, 8);
}

/// A sanction to campaign on the wire: 16 bytes, each field in its place.
pub proof fn law_sanctions_are_laid_out(m: TimeoutNow)
    ensures
        m.bytes().len() == 16,
        eight_bytes(m.bytes(), 0) == m.term,
        eight_bytes(m.bytes(), 8) == m.leader_id,
{
    let s = m.bytes();
    m.lemma_bytes_len();
    m.lemma_reads_bytes(s);
    assert(s.take(16) =~= s);
    lemma_fields_are_numbers(s, 0);
    lemma_fields_are_numbers(s, 8);
}

/// What a frame must be to be taken: a whole header with the magic number and the version,
/// a body of exactly the length that the header says, and a kind that is known; the
/// messages of a fixed size have that size.
pub proof fn law_frames_are_checked(frame: Seq<u8>)
    requires
        decode_fault(frame) is None,
    ensures
        frame.len() >= 32,
        frame[0] == 0x54 && frame[1] == 0x46 && frame[2] == 0x41 && frame[3] == 0x52,
        frame[4] == 1,
        four_bytes(frame, 16) == frame.len() - 32,
        1 <= frame[5] <= 12,
        frame[5] == 1 || frame[5] == 10 ==> frame.len() == 64,
        frame[5] == 2 || frame[5] == 11 ==> frame.len() == 48,
        frame[5] == 4 || frame[5] == 6 ==> frame.len() == 56,
        frame[5] == 12 ==> frame.len() == 48,
        frame[5] == 3 || frame[5] == 9 || frame[5] == 5 ==> frame.len() >= 80,
        frame[5] == 5 ==> four_bytes(frame, 72) == frame.len() - 80,
{
    lemma_fields_are_numbers(frame, 0);
    lemma_fields_are_numbers(frame, 16);
    if frame[5] == 5 {
        let body = frame.skip(32);
        lemma_fields_are_numbers(body, 40);
        assert forall|i: int| 0 <= i < body.len() implies body[i] == frame[32 + i] by {}
    }
}

/// A frame that was cut short, or that has more bytes than it says, is refused.
pub proof fn law_frames_of_another_length_are_refused(frame: Seq<u8>, k: int, more: Seq<u8>)
    requires
        decode_fault(frame) is None,
        0 <= k < frame.len(),
        more.len() > 0,
    ensures
        decode_fault(frame.take(k)) is Some,
        decode_fault(frame + more) is Some,
{
    let longer = frame + more;
    assert(longer.subrange(16, 20) =~= frame.subrange(16, 20));
    if k >= 32 {
        assert(frame.take(k).subrange(16, 20) =~= frame.subrange(16, 20));
    }
}

/// The number by which a frame tells what kind of message it holds.
pub proof fn law_kinds_are_numbered<'a>(m: RaftMessage<'a>)
    ensures
        m.kind() == match m {
            RaftMessage::RequestVote(_) => 1u8,
            RaftMessage::RequestVoteResp(_) => 2u8,
            RaftMessage::AppendEntries(_, _) | RaftMessage::AppendEntriesVectored(_, _) => 3u8,
            RaftMessage::AppendEntriesResp(_) => 4u8,
            RaftMessage::InstallSnapshot(_, _) => 5u8,
            RaftMessage::InstallSnapshotResp(_) => 6u8,
            RaftMessage::Custom(_) => 7u8,
            RaftMessage::CustomResponse(_) => 8u8,
            RaftMessage::AppendEntriesSeeded { .. } => 9u8,
            RaftMessage::AppendEntriesSeededVectored { .. } => 9u8,
            RaftMessage::PreVote(_) => 10u8,
            RaftMessage::PreVoteResp(_) => 11u8,
            RaftMessage::TimeoutNow(_) => 12u8,
        },
{
}

/// An entry is read where it stands: its term, its index and the length of its payload in
/// the 24 bytes of its header, and then the payload. What follows begins right after it.
pub proof fn law_entries_are_read_in_place(body: Seq<u8>)
    ensures
        has_entry(body) <==> body.len() >= 24 && body.len() >= 24 + four_bytes(body, 16),
        has_entry(body) ==> {
            let e = first_entry(body);
            &&& e.term.0 == eight_bytes(body, 0)
            &&& e.index.0 == eight_bytes(body, 8)
            &&& e.payload.len() == four_bytes(body, 16)
            &&& forall|i: int| 0 <= i < e.payload.len() ==> #[trigger] e.payload[i] == body[24 + i]
            &&& after_entry(body) == body.skip(24 + e.payload.len() as int)
        },
{
    lemma_fields_are_numbers(body, 0);
    lemma_fields_are_numbers(body, 8);
    lemma_fields_are_numbers(body, 16);
    if body.len() >= 24 {
        lemma_field_fits(body, 0);
        lemma_field_fits(body, 8);
    }
}

/// Eight bytes hold no more than 64 bits do.
proof fn lemma_field_fits(s: Seq<u8>, i: int)
    requires
        0 <= i,
        i + 8 <= s.len(),
    ensures
        field(s, i, 8) <= u64::MAX,
{
    lemma_fields_are_numbers(s, i);
}

/// The bytes that `entries` take on the wire: 24 for each, and their payloads.
pub open spec fn wire_span(entries: Seq<EntryRecord>) -> nat
    decreases entries.len(),
{
    if entries.len() == 0 {
        0
    } else {
        24 + entries[0].payload.len() + wire_span(entries.skip(1))
    }
}

/// A batch is well formed exactly if it is as many entries as it says and nothing else:
/// none is missing or cut short, and no byte is left over.
pub proof fn law_batches_are_entries_and_nothing_else(count: nat, body: Seq<u8>)
    ensures
        entries_fault(count, body) is None <==> {
            &&& entries_in(body, count).len() == count
            &&& wire_span(entries_in(body, count)) == body.len()
        },
        entries_in(body, count).len() <= count,
        wire_span(entries_in(body, count)) <= body.len(),
    decreases count,
{
    law_entries_are_read_in_place(body);
    if count > 0 && has_entry(body) {
        let rest = after_entry(body);
        law_batches_are_entries_and_nothing_else((count - 1) as nat, rest);
        let all = entries_in(body, count);
        assert(all.skip(1) =~= entries_in(rest, (count - 1) as nat));
        assert(all[0] == first_entry(body));
    }
}

} // verus!
