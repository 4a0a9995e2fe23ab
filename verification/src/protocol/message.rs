//! Messages, and the entries inside append requests.

use vstd::prelude::*;

use super::codec::le::field;
use super::codec::view::AppendEntriesView;
use super::codec::wire::{
    AppendEntries, AppendEntriesResp, EntryHeader, InstallSnapshot, InstallSnapshotResp,
    RequestVote, RequestVoteResp, TimeoutNow, APPEND_ENTRIES_RESP_SIZE, APPEND_ENTRIES_SIZE,
    ENTRY_HEADER_SIZE, INSTALL_SNAPSHOT_RESP_SIZE, INSTALL_SNAPSHOT_SIZE, KIND_APPEND_ENTRIES,
    KIND_APPEND_ENTRIES_RESP, KIND_APPEND_ENTRIES_SEEDED, KIND_CUSTOM, KIND_CUSTOM_RESPONSE,
    KIND_INSTALL_SNAPSHOT, KIND_INSTALL_SNAPSHOT_RESP, KIND_PRE_VOTE, KIND_PRE_VOTE_RESP,
    KIND_REQUEST_VOTE, KIND_REQUEST_VOTE_RESP, KIND_TIMEOUT_NOW, REQUEST_VOTE_RESP_SIZE,
    REQUEST_VOTE_SIZE, TIMEOUT_NOW_SIZE,
};
use crate::entry::{EntryPayload, EntryRecord, LogEntry};
use crate::types::{GroupId, LogIndex, PeerId, Term};

verus! {

#[derive(Clone, Copy, Debug, PartialEq, Eq)]
pub enum RaftMessage<'a> {
    RequestVote(RequestVote),
    RequestVoteResp(RequestVoteResp),
    PreVote(RequestVote),
    PreVoteResp(RequestVoteResp),
    /// Inbound: the body and the raw bytes of the entries.
    AppendEntries(AppendEntries, &'a [u8]),
    /// Outbound: the body and the entries.
    AppendEntriesVectored(AppendEntries, &'a [LogEntry<'a>]),
    /// Inbound: all entry headers, then all payloads.
    AppendEntriesSeeded { ae: AppendEntries, headers: &'a [u8], payloads: &'a [u8] },
    /// Outbound: all entry headers, then each payload where it lies.
    AppendEntriesSeededVectored {
        ae: AppendEntries,
        headers: &'a [u8],
        payloads: &'a [&'a [u8]],
    },
    AppendEntriesResp(AppendEntriesResp),
    InstallSnapshot(InstallSnapshot, &'a [u8]),
    InstallSnapshotResp(InstallSnapshotResp),
    TimeoutNow(TimeoutNow),
    Custom(&'a [u8]),
    CustomResponse(&'a [u8]),
}

/// The entries that `entries` stands for.
pub open spec fn records(entries: Seq<LogEntry<'_>>) -> Seq<EntryRecord> {
    entries.map_values(|e: LogEntry<'_>| e@)
}

/// The header that goes in front of `e`'s payload.
pub open spec fn entry_header(e: EntryRecord) -> EntryHeader {
    EntryHeader {
        term: e.term.0,
        index: e.index.0,
        payload_len: e.payload.len() as u32,
        _pad: 0,
    }
}

/// One entry on the wire: its header, then its payload.
pub open spec fn entry_block(e: EntryRecord) -> Seq<u8> {
    entry_header(e).bytes() + e.payload
}

/// Entries on the wire, one after another.
pub open spec fn entry_blocks(entries: Seq<EntryRecord>) -> Seq<u8>
    decreases entries.len(),
{
    if entries.len() == 0 {
        Seq::empty()
    } else {
        entry_block(entries[0]) + entry_blocks(entries.skip(1))
    }
}

/// The length of one entry on the wire.
pub proof fn lemma_entry_block_len(e: EntryRecord)
    ensures
        entry_block(e).len() == ENTRY_HEADER_SIZE + e.payload.len(),
{
    entry_header(e).lemma_bytes_len();
}

/// An entry added at the end goes to the end of the bytes.
pub proof fn lemma_entry_blocks_push(entries: Seq<EntryRecord>, e: EntryRecord)
    ensures
        entry_blocks(entries.push(e)) == entry_blocks(entries) + entry_block(e),
    decreases entries.len(),
{
    let longer = entries.push(e);
    if entries.len() == 0 {
        assert(longer.skip(1) =~= Seq::<EntryRecord>::empty());
        assert(entry_blocks(longer.skip(1)) =~= Seq::<u8>::empty());
        assert(entry_blocks(longer) =~= entry_block(e));
    } else {
        lemma_entry_blocks_push(entries.skip(1), e);
        assert(longer.skip(1) =~= entries.skip(1).push(e));
        assert(entry_blocks(longer) =~= entry_blocks(entries) + entry_block(e));
    }
}

/// Payload slices put one after another.
pub open spec fn joined(slices: Seq<&[u8]>) -> Seq<u8>
    decreases slices.len(),
{
    if slices.len() == 0 {
        Seq::empty()
    } else {
        joined(slices.drop_last()) + slices.last()@
    }
}

impl<'a> RaftMessage<'a> {
    /// The message's kind on the wire.
    pub open spec fn kind(self) -> u8 {
        match self {
            RaftMessage::RequestVote(_) => KIND_REQUEST_VOTE,
            RaftMessage::RequestVoteResp(_) => KIND_REQUEST_VOTE_RESP,
            RaftMessage::PreVote(_) => KIND_PRE_VOTE,
            RaftMessage::PreVoteResp(_) => KIND_PRE_VOTE_RESP,
            RaftMessage::AppendEntries(_, _) => KIND_APPEND_ENTRIES,
            RaftMessage::AppendEntriesVectored(_, _) => KIND_APPEND_ENTRIES,
            RaftMessage::AppendEntriesSeeded { .. } => KIND_APPEND_ENTRIES_SEEDED,
            RaftMessage::AppendEntriesSeededVectored { .. } => KIND_APPEND_ENTRIES_SEEDED,
            RaftMessage::AppendEntriesResp(_) => KIND_APPEND_ENTRIES_RESP,
            RaftMessage::InstallSnapshot(_, _) => KIND_INSTALL_SNAPSHOT,
            RaftMessage::InstallSnapshotResp(_) => KIND_INSTALL_SNAPSHOT_RESP,
            RaftMessage::TimeoutNow(_) => KIND_TIMEOUT_NOW,
            RaftMessage::Custom(_) => KIND_CUSTOM,
            RaftMessage::CustomResponse(_) => KIND_CUSTOM_RESPONSE,
        }
    }

    /// The bytes that follow the frame header.
    pub open spec fn body(self) -> Seq<u8> {
        match self {
            RaftMessage::RequestVote(m) => m.bytes(),
            RaftMessage::RequestVoteResp(m) => m.bytes(),
            RaftMessage::PreVote(m) => m.bytes(),
            RaftMessage::PreVoteResp(m) => m.bytes(),
            RaftMessage::AppendEntries(m, p) => m.bytes() + p@,
            RaftMessage::AppendEntriesVectored(m, entries) =>
                m.bytes() + entry_blocks(records(entries@)),
            RaftMessage::AppendEntriesSeeded { ae, headers, payloads } =>
                ae.bytes() + headers@ + payloads@,
            RaftMessage::AppendEntriesSeededVectored { ae, headers, payloads } =>
                ae.bytes() + headers@ + joined(payloads@),
            RaftMessage::AppendEntriesResp(m) => m.bytes(),
            RaftMessage::InstallSnapshot(m, p) => m.bytes() + p@,
            RaftMessage::InstallSnapshotResp(m) => m.bytes(),
            RaftMessage::TimeoutNow(m) => m.bytes(),
            RaftMessage::Custom(p) => p@,
            RaftMessage::CustomResponse(p) => p@,
        }
    }

    /// Whether this message, in one of the inbound forms, is what `body` holds.
    pub open spec fn carries(self, body: Seq<u8>) -> bool {
        match self {
            RaftMessage::RequestVote(m) | RaftMessage::PreVote(m) =>
                body.len() == REQUEST_VOTE_SIZE && m.reads(body),
            RaftMessage::RequestVoteResp(m) | RaftMessage::PreVoteResp(m) =>
                body.len() == REQUEST_VOTE_RESP_SIZE && m.reads(body),
            RaftMessage::AppendEntries(m, p) =>
                body.len() >= APPEND_ENTRIES_SIZE && m.reads(body)
                    && p@ == body.skip(APPEND_ENTRIES_SIZE as int),
            RaftMessage::AppendEntriesVectored(_, _) => false,
            RaftMessage::AppendEntriesSeeded { ae, headers, payloads } => {
                let split = APPEND_ENTRIES_SIZE + ae.entry_count * ENTRY_HEADER_SIZE;
                &&& body.len() >= split
                &&& ae.reads(body)
                &&& headers@ == body.subrange(APPEND_ENTRIES_SIZE as int, split)
                &&& payloads@ == body.skip(split)
            },
            RaftMessage::AppendEntriesSeededVectored { .. } => false,
            RaftMessage::AppendEntriesResp(m) =>
                body.len() == APPEND_ENTRIES_RESP_SIZE && m.reads(body),
            RaftMessage::InstallSnapshot(m, p) =>
                body.len() >= INSTALL_SNAPSHOT_SIZE && m.reads(body)
                    && p@ == body.skip(INSTALL_SNAPSHOT_SIZE as int),
            RaftMessage::InstallSnapshotResp(m) =>
                body.len() == INSTALL_SNAPSHOT_RESP_SIZE && m.reads(body),
            RaftMessage::TimeoutNow(m) => body.len() == TIMEOUT_NOW_SIZE && m.reads(body),
            RaftMessage::Custom(p) | RaftMessage::CustomResponse(p) => p@ == body,
        }
    }
}

/// A message together with who sent it and the group it is for.
#[derive(Clone, Copy, Debug, PartialEq, Eq)]
pub struct InboundRaftMessage<'a> {
    pub from: PeerId,
    pub group_id: GroupId,
    pub message: RaftMessage<'a>,
}

impl<'a> InboundRaftMessage<'a> {
    pub fn as_append_entries_seeded(&self) -> (r: Option<(AppendEntries, &'a [u8], &'a [u8])>)
        ensures
            match self.message {
                RaftMessage::AppendEntriesSeeded { ae, headers, payloads } =>
                    r == Some((ae, headers, payloads)),
                _ => r is None,
            },
    {
        match self.message {
            RaftMessage::AppendEntriesSeeded { ae, headers, payloads } =>
                Some((ae, headers, payloads)),
            _ => None,
        }
    }

    pub fn as_append_entries(&self) -> (r: Option<AppendEntriesView<'a>>)
        ensures
            match self.message {
                RaftMessage::AppendEntries(msg, payload) =>
                    r matches Some(v) && v.fixed() == msg && v.entry_bytes() == payload@,
                _ => r is None,
            },
    {
        match self.message {
            RaftMessage::AppendEntries(msg, payload) => Some(AppendEntriesView::new(msg, payload)),
            _ => None,
        }
    }

    pub fn as_request_vote(&self) -> (r: Option<RequestVote>)
        ensures
            match self.message {
                RaftMessage::RequestVote(msg) => r == Some(msg),
                _ => r is None,
            },
    {
        match self.message {
            RaftMessage::RequestVote(msg) => Some(msg),
            _ => None,
        }
    }

    pub fn as_request_vote_resp(&self) -> (r: Option<RequestVoteResp>)
        ensures
            match self.message {
                RaftMessage::RequestVoteResp(msg) => r == Some(msg),
                _ => r is None,
            },
    {
        match self.message {
            RaftMessage::RequestVoteResp(msg) => Some(msg),
            _ => None,
        }
    }

    pub fn as_append_entries_resp(&self) -> (r: Option<AppendEntriesResp>)
        ensures
            match self.message {
                RaftMessage::AppendEntriesResp(msg) => r == Some(msg),
                _ => r is None,
            },
    {
        match self.message {
            RaftMessage::AppendEntriesResp(msg) => Some(msg),
            _ => None,
        }
    }

    pub fn as_install_snapshot(&self) -> (r: Option<(InstallSnapshot, &'a [u8])>)
        ensures
            match self.message {
                RaftMessage::InstallSnapshot(msg, payload) => r == Some((msg, payload)),
                _ => r is None,
            },
    {
        match self.message {
            RaftMessage::InstallSnapshot(msg, payload) => Some((msg, payload)),
            _ => None,
        }
    }

    pub fn as_install_snapshot_resp(&self) -> (r: Option<InstallSnapshotResp>)
        ensures
            match self.message {
                RaftMessage::InstallSnapshotResp(msg) => r == Some(msg),
                _ => r is None,
            },
    {
        match self.message {
            RaftMessage::InstallSnapshotResp(msg) => Some(msg),
            _ => None,
        }
    }

    pub fn as_custom(&self) -> (r: Option<&'a [u8]>)
        ensures
            match self.message {
                RaftMessage::Custom(payload) => r == Some(payload),
                _ => r is None,
            },
    {
        match self.message {
            RaftMessage::Custom(payload) => Some(payload),
            _ => None,
        }
    }

    pub fn as_custom_response(&self) -> (r: Option<&'a [u8]>)
        ensures
            match self.message {
                RaftMessage::CustomResponse(payload) => r == Some(payload),
                _ => r is None,
            },
    {
        match self.message {
            RaftMessage::CustomResponse(payload) => Some(payload),
            _ => None,
        }
    }
}

/// The payload length that the entry header at the front of `body` announces.
pub open spec fn announced_len(body: Seq<u8>) -> nat {
    field(body, 16, 4)
}

/// Whether `body` starts with a whole entry.
pub open spec fn has_entry(body: Seq<u8>) -> bool {
    body.len() >= ENTRY_HEADER_SIZE && body.len() - ENTRY_HEADER_SIZE >= announced_len(body)
}

/// The entry at the front of `body`.
pub open spec fn first_entry(body: Seq<u8>) -> EntryRecord {
    EntryRecord {
        term: Term(field(body, 0, 8) as u64),
        index: LogIndex(field(body, 8, 8) as u64),
        payload: body.subrange(
            ENTRY_HEADER_SIZE as int,
            ENTRY_HEADER_SIZE + announced_len(body),
        ),
    }
}

/// What follows the entry at the front of `body`.
pub open spec fn after_entry(body: Seq<u8>) -> Seq<u8> {
    body.skip(ENTRY_HEADER_SIZE + announced_len(body))
}

/// The entries at the front of `body`: `count` of them, or as many as are whole.
pub open spec fn entries_in(body: Seq<u8>, count: nat) -> Seq<EntryRecord>
    decreases count,
{
    if count == 0 || !has_entry(body) {
        Seq::empty()
    } else {
        seq![first_entry(body)] + entries_in(after_entry(body), (count - 1) as nat)
    }
}

/// Reads entries one at a time from the bytes of an append request.
pub struct AppendEntriesEntryIter<'a> {
    payload: &'a [u8],
    remaining: usize,
}

impl<'a> AppendEntriesEntryIter<'a> {
    /// The bytes not yet read.
    pub closed spec fn rest(self) -> Seq<u8> {
        self.payload@
    }

    /// How many entries are still to be read.
    pub closed spec fn left(self) -> nat {
        self.remaining as nat
    }

    pub fn new(payload: &'a [u8], count: usize) -> (r: Self)
        ensures
            r.rest() == payload@,
            r.left() == count,
    {
        AppendEntriesEntryIter { payload, remaining: count }
    }

    /// The next entry, while there is a whole one to be read.
    pub fn next(&mut self) -> (r: Option<LogEntry<'a>>)
        ensures
            old(self).left() > 0 && has_entry(old(self).rest()) ==> {
                &&& r matches Some(e) && e@ == first_entry(old(self).rest())
                &&& final(self).rest() == after_entry(old(self).rest())
                &&& final(self).left() == old(self).left() - 1
            },
            !(old(self).left() > 0 && has_entry(old(self).rest())) ==> {
                &&& r is None
                &&& *final(self) == *old(self)
            },
    {
        if self.remaining == 0 {
            return None;
        }
        if self.payload.len() < ENTRY_HEADER_SIZE {
            return None;
        }
        let header = EntryHeader::parse(self.payload);
        let (_, rest) = self.payload.split_at(ENTRY_HEADER_SIZE);
        let len: u32 = header.payload_len;
        if (rest.len() as u64) < len as u64 {
            return None;
        }
        let (data, next_payload) = rest.split_at(len as usize);
        assert(data@ =~= first_entry(self.payload@).payload);
        assert(next_payload@ =~= after_entry(self.payload@));
        self.payload = next_payload;
        self.remaining = self.remaining - 1;
        Some(
            LogEntry {
                term: Term(header.term),
                index: LogIndex(header.index),
                payload: EntryPayload(data),
            },
        )
    }

    /// All entries that are still to be read.
    pub fn collect(self) -> (r: Vec<LogEntry<'a>>)
        ensures
            records(r@) == entries_in(self.rest(), self.left()),
    {
        let mut it = AppendEntriesEntryIter { payload: self.payload, remaining: self.remaining };
        let mut out: Vec<LogEntry<'a>> = Vec::new();
        loop
            invariant
                records(out@) + entries_in(it.rest(), it.left()) =~= entries_in(
                    self.rest(),
                    self.left(),
                ),
            ensures
                records(out@) =~= entries_in(self.rest(), self.left()),
            decreases it.left(),
        {
            let ghost before = it;
            match it.next() {
                None => {
                    break;
                },
                Some(e) => {
                    let ghost held = out@;
                    out.push(e);
                    assert(records(out@) =~= records(held).push(e@));
                },
            }
        }
        out
    }
}

/// Where the payloads of a seeded append request lie.
#[derive(Clone, Copy)]
pub enum SeededPayloads<'a> {
    Contiguous(&'a [u8]),
    Disjoint(&'a [&'a [u8]]),
}

/// Reads headers and payloads one pair at a time from a seeded append request.
pub struct AppendEntriesRawIter<'a> {
    headers: &'a [u8],
    payloads: SeededPayloads<'a>,
    pos: usize,
    contiguous_offset: usize,
}

/// The payload length that header number `i` of `headers` announces.
pub open spec fn seeded_len(headers: Seq<u8>, i: int) -> nat {
    field(headers, i * ENTRY_HEADER_SIZE + 16, 4)
}

/// The sum of the lengths that the first `n` headers announce.
pub open spec fn seeded_total(headers: Seq<u8>, n: nat) -> nat
    decreases n,
{
    if n == 0 {
        0
    } else {
        seeded_total(headers, (n - 1) as nat) + seeded_len(headers, n - 1)
    }
}

impl<'a> AppendEntriesRawIter<'a> {
    /// The header block.
    pub closed spec fn header_bytes(self) -> Seq<u8> {
        self.headers@
    }

    /// Where the payloads lie.
    pub closed spec fn source(self) -> SeededPayloads<'a> {
        self.payloads
    }

    /// How many pairs were read.
    pub closed spec fn position(self) -> nat {
        self.pos as nat
    }

    /// How many contiguous payload bytes were read.
    pub closed spec fn consumed(self) -> nat {
        self.contiguous_offset as nat
    }

    /// The payload of the next pair, if its header and its payload are there.
    pub open spec fn upcoming(self) -> Option<Seq<u8>> {
        let i = self.position() as int;
        if (i + 1) * ENTRY_HEADER_SIZE > self.header_bytes().len() {
            None
        } else {
            match self.source() {
                SeededPayloads::Contiguous(p) => {
                    let end = self.consumed() + seeded_len(self.header_bytes(), i);
                    if end > p@.len() {
                        None
                    } else {
                        Some(p@.subrange(self.consumed() as int, end as int))
                    }
                },
                SeededPayloads::Disjoint(p) => if i >= p@.len() {
                    None
                } else {
                    Some(p@[i]@)
                },
            }
        }
    }

    pub fn new(headers: &'a [u8], payloads: SeededPayloads<'a>) -> (r: Self)
        ensures
            r.header_bytes() == headers@,
            r.source() == payloads,
            r.position() == 0,
            r.consumed() == 0,
    {
        AppendEntriesRawIter { headers, payloads, pos: 0, contiguous_offset: 0 }
    }

    /// The next header and payload.
    pub fn next(&mut self) -> (r: Option<(EntryHeader, &'a [u8])>)
        ensures
            match old(self).upcoming() {
                None => r is None && *final(self) == *old(self),
                Some(data) => {
                    let i = old(self).position() as int;
                    &&& r matches Some((h, p)) && p@ == data && h.reads(
                        old(self).header_bytes().skip(i * ENTRY_HEADER_SIZE),
                    )
                    &&& final(self).header_bytes() == old(self).header_bytes()
                    &&& final(self).source() == old(self).source()
                    &&& final(self).position() == i + 1
                    &&& final(self).consumed() == old(self).consumed() + match old(self).source() {
                        SeededPayloads::Contiguous(_) => data.len(),
                        SeededPayloads::Disjoint(_) => 0,
                    }
                },
            },
    {
        let whole: usize = self.headers.len() / ENTRY_HEADER_SIZE;
        if self.pos >= whole {
            return None;
        }
        let at: usize = self.pos * ENTRY_HEADER_SIZE;
        let (_, tail) = self.headers.split_at(at);
        let header = EntryHeader::parse(tail);
        let len: u32 = header.payload_len;
        proof {
            assert(tail@ =~= self.headers@.skip(at as int));
            assert(tail@.subrange(16, 20) =~= self.headers@.subrange(at + 16, at + 20));
        }
        let payload: &'a [u8] = match self.payloads {
            SeededPayloads::Contiguous(p) => {
                if self.contiguous_offset > p.len() {
                    return None;
                }
                let (_, rest) = p.split_at(self.contiguous_offset);
                if (rest.len() as u64) < len as u64 {
                    return None;
                }
                let (data, _) = rest.split_at(len as usize);
                self.contiguous_offset = self.contiguous_offset + data.len();
                assert(data@ =~= old(self).upcoming()->0);
                data
            },
            SeededPayloads::Disjoint(p) => {
                if self.pos >= p.len() {
                    return None;
                }
                p[self.pos]
            },
        };
        self.pos = self.pos + 1;
        Some((header, payload))
    }
}

} // verus!
