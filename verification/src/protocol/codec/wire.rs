//! The layout of every frame and message body.

use vstd::prelude::*;

use super::le::{
    field, le_bytes, lemma_le_bytes_of_value, lemma_le_fields, put_slice, u16_at, u16_bytes,
    u32_at, u32_bytes, u64_at, u64_bytes,
};

verus! {

pub const RAFT_MAGIC: u32 = 0x5241_4654;
pub const RAFT_VERSION: u8 = 0x01;

/// Largest frame that a receiver accepts, in bytes.
pub const MAX_FRAME_SIZE: usize = 64 * 1024;

/// Largest client payload, in bytes: a frame with the headers around a single
/// entry taken off, and room to spare.
pub const MAX_ENTRY_PAYLOAD: usize = MAX_FRAME_SIZE - 512;

pub const KIND_REQUEST_VOTE: u8 = 1;
pub const KIND_REQUEST_VOTE_RESP: u8 = 2;
pub const KIND_APPEND_ENTRIES: u8 = 3;
pub const KIND_APPEND_ENTRIES_RESP: u8 = 4;
pub const KIND_INSTALL_SNAPSHOT: u8 = 5;
pub const KIND_INSTALL_SNAPSHOT_RESP: u8 = 6;
pub const KIND_CUSTOM: u8 = 7;
pub const KIND_CUSTOM_RESPONSE: u8 = 8;
pub const KIND_APPEND_ENTRIES_SEEDED: u8 = 9;
pub const KIND_PRE_VOTE: u8 = 10;
pub const KIND_PRE_VOTE_RESP: u8 = 11;
pub const KIND_TIMEOUT_NOW: u8 = 12;

pub const RAFT_FRAME_HEADER_SIZE: usize = 32;
pub const REQUEST_VOTE_SIZE: usize = 32;
pub const REQUEST_VOTE_RESP_SIZE: usize = 16;
pub const APPEND_ENTRIES_SIZE: usize = 48;
pub const ENTRY_HEADER_SIZE: usize = 24;
pub const APPEND_ENTRIES_RESP_SIZE: usize = 24;
pub const INSTALL_SNAPSHOT_SIZE: usize = 48;
pub const INSTALL_SNAPSHOT_RESP_SIZE: usize = 24;
pub const TIMEOUT_NOW_SIZE: usize = 16;

/// The header in front of every frame.
#[derive(Clone, Copy, Debug, PartialEq, Eq)]
pub struct RaftFrameHeader {
    pub magic: u32,
    pub version: u8,
    pub kind: u8,
    pub flags: u16,
    pub from: u64,
    pub body_len: u32,
    pub reserved: u32,
    /// The Raft group the frame belongs to; 0 is the default group.
    pub group_id: u64,
}

impl RaftFrameHeader {
    /// The bytes on the wire.
    pub open spec fn bytes(self) -> Seq<u8> {
        le_bytes(self.magic as nat, 4)
            + seq![self.version]
            + seq![self.kind]
            + le_bytes(self.flags as nat, 2)
            + le_bytes(self.from as nat, 8)
            + le_bytes(self.body_len as nat, 4)
            + le_bytes(self.reserved as nat, 4)
            + le_bytes(self.group_id as nat, 8)
    }

    /// Whether the fields are what the front of `s` holds.
    pub open spec fn reads(self, s: Seq<u8>) -> bool {
        &&& self.magic as nat == field(s, 0, 4)
        &&& self.version == s[4]
        &&& self.kind == s[5]
        &&& self.flags as nat == field(s, 6, 2)
        &&& self.from as nat == field(s, 8, 8)
        &&& self.body_len as nat == field(s, 16, 4)
        &&& self.reserved as nat == field(s, 20, 4)
        &&& self.group_id as nat == field(s, 24, 8)
    }

    /// The struct takes 32 bytes on the wire.
    pub proof fn lemma_bytes_len(self)
        ensures
            self.bytes().len() == 32,
    {
        lemma_le_fields();
    }

    /// Fields read from `s` are the ones whose bytes are at the front of `s`.
    pub proof fn lemma_reads_bytes(self, s: Seq<u8>)
        requires
            s.len() >= 32,
        ensures
            self.bytes().len() == 32,
            self.reads(s) <==> self.bytes() == s.take(32),
    {
        lemma_le_fields();
        let b = self.bytes();
        assert(b.subrange(0, 4) =~= le_bytes(self.magic as nat, 4));
        assert(b[4] == self.version);
        assert(b[5] == self.kind);
        assert(b.subrange(6, 8) =~= le_bytes(self.flags as nat, 2));
        assert(b.subrange(8, 16) =~= le_bytes(self.from as nat, 8));
        assert(b.subrange(16, 20) =~= le_bytes(self.body_len as nat, 4));
        assert(b.subrange(20, 24) =~= le_bytes(self.reserved as nat, 4));
        assert(b.subrange(24, 32) =~= le_bytes(self.group_id as nat, 8));
        if b == s.take(32) {
            assert(s.subrange(0, 4) =~= b.subrange(0, 4));
            assert(s[4] == b[4]);
            assert(s[5] == b[5]);
            assert(s.subrange(6, 8) =~= b.subrange(6, 8));
            assert(s.subrange(8, 16) =~= b.subrange(8, 16));
            assert(s.subrange(16, 20) =~= b.subrange(16, 20));
            assert(s.subrange(20, 24) =~= b.subrange(20, 24));
            assert(s.subrange(24, 32) =~= b.subrange(24, 32));
        }
        if self.reads(s) {
            lemma_le_bytes_of_value(s.subrange(0, 4));
            lemma_le_bytes_of_value(s.subrange(6, 8));
            lemma_le_bytes_of_value(s.subrange(8, 16));
            lemma_le_bytes_of_value(s.subrange(16, 20));
            lemma_le_bytes_of_value(s.subrange(20, 24));
            lemma_le_bytes_of_value(s.subrange(24, 32));
            assert(b.subrange(0, 4) == s.subrange(0, 4));
            assert(b[4] == s[4]);
            assert(b[5] == s[5]);
            assert(b.subrange(6, 8) == s.subrange(6, 8));
            assert(b.subrange(8, 16) == s.subrange(8, 16));
            assert(b.subrange(16, 20) == s.subrange(16, 20));
            assert(b.subrange(20, 24) == s.subrange(20, 24));
            assert(b.subrange(24, 32) == s.subrange(24, 32));
            assert forall|i: int| 0 <= i < 32 implies b[i] == s[i] by {
                if 0 <= i < 4 {
                    assert(b[i] == b.subrange(0, 4)[i - 0]);
                    assert(s[i] == s.subrange(0, 4)[i - 0]);
                }
                if 6 <= i < 8 {
                    assert(b[i] == b.subrange(6, 8)[i - 6]);
                    assert(s[i] == s.subrange(6, 8)[i - 6]);
                }
                if 8 <= i < 16 {
                    assert(b[i] == b.subrange(8, 16)[i - 8]);
                    assert(s[i] == s.subrange(8, 16)[i - 8]);
                }
                if 16 <= i < 20 {
                    assert(b[i] == b.subrange(16, 20)[i - 16]);
                    assert(s[i] == s.subrange(16, 20)[i - 16]);
                }
                if 20 <= i < 24 {
                    assert(b[i] == b.subrange(20, 24)[i - 20]);
                    assert(s[i] == s.subrange(20, 24)[i - 20]);
                }
                if 24 <= i < 32 {
                    assert(b[i] == b.subrange(24, 32)[i - 24]);
                    assert(s[i] == s.subrange(24, 32)[i - 24]);
                }
            }
            assert(b =~= s.take(32));
        }
    }

    /// Takes the struct from the front of `buf`.
    pub fn parse(buf: &[u8]) -> (r: Self)
        requires
            buf@.len() >= 32,
        ensures
            r.reads(buf@),
    {
        let r = RaftFrameHeader {
            magic: u32_at(buf, 0),
            version: buf[4],
            kind: buf[5],
            flags: u16_at(buf, 6),
            from: u64_at(buf, 8),
            body_len: u32_at(buf, 16),
            reserved: u32_at(buf, 20),
            group_id: u64_at(buf, 24),
        };
        r
    }

    /// Appends the bytes to `out`.
    pub fn put(&self, out: &mut Vec<u8>)
        ensures
            final(out)@ == old(out)@ + self.bytes(),
    {
        put_slice(out, &u32_bytes(self.magic));
        out.push(self.version);
        out.push(self.kind);
        put_slice(out, &u16_bytes(self.flags));
        put_slice(out, &u64_bytes(self.from));
        put_slice(out, &u32_bytes(self.body_len));
        put_slice(out, &u32_bytes(self.reserved));
        put_slice(out, &u64_bytes(self.group_id));
        assert(out@ =~= old(out)@ + self.bytes());
    }
}

/// A candidate asks for a vote.
#[derive(Clone, Copy, Debug, PartialEq, Eq)]
pub struct RequestVote {
    pub term: u64,
    pub candidate_id: u64,
    pub last_log_index: u64,
    pub last_log_term: u64,
}

impl RequestVote {
    /// The bytes on the wire.
    pub open spec fn bytes(self) -> Seq<u8> {
        le_bytes(self.term as nat, 8)
            + le_bytes(self.candidate_id as nat, 8)
            + le_bytes(self.last_log_index as nat, 8)
            + le_bytes(self.last_log_term as nat, 8)
    }

    /// Whether the fields are what the front of `s` holds.
    pub open spec fn reads(self, s: Seq<u8>) -> bool {
        &&& self.term as nat == field(s, 0, 8)
        &&& self.candidate_id as nat == field(s, 8, 8)
        &&& self.last_log_index as nat == field(s, 16, 8)
        &&& self.last_log_term as nat == field(s, 24, 8)
    }

    /// The struct takes 32 bytes on the wire.
    pub proof fn lemma_bytes_len(self)
        ensures
            self.bytes().len() == 32,
    {
        lemma_le_fields();
    }

    /// Fields read from `s` are the ones whose bytes are at the front of `s`.
    pub proof fn lemma_reads_bytes(self, s: Seq<u8>)
        requires
            s.len() >= 32,
        ensures
            self.bytes().len() == 32,
            self.reads(s) <==> self.bytes() == s.take(32),
    {
        lemma_le_fields();
        let b = self.bytes();
        assert(b.subrange(0, 8) =~= le_bytes(self.term as nat, 8));
        assert(b.subrange(8, 16) =~= le_bytes(self.candidate_id as nat, 8));
        assert(b.subrange(16, 24) =~= le_bytes(self.last_log_index as nat, 8));
        assert(b.subrange(24, 32) =~= le_bytes(self.last_log_term as nat, 8));
        if b == s.take(32) {
            assert(s.subrange(0, 8) =~= b.subrange(0, 8));
            assert(s.subrange(8, 16) =~= b.subrange(8, 16));
            assert(s.subrange(16, 24) =~= b.subrange(16, 24));
            assert(s.subrange(24, 32) =~= b.subrange(24, 32));
        }
        if self.reads(s) {
            lemma_le_bytes_of_value(s.subrange(0, 8));
            lemma_le_bytes_of_value(s.subrange(8, 16));
            lemma_le_bytes_of_value(s.subrange(16, 24));
            lemma_le_bytes_of_value(s.subrange(24, 32));
            assert(b.subrange(0, 8) == s.subrange(0, 8));
            assert(b.subrange(8, 16) == s.subrange(8, 16));
            assert(b.subrange(16, 24) == s.subrange(16, 24));
            assert(b.subrange(24, 32) == s.subrange(24, 32));
            assert forall|i: int| 0 <= i < 32 implies b[i] == s[i] by {
                if 0 <= i < 8 {
                    assert(b[i] == b.subrange(0, 8)[i - 0]);
                    assert(s[i] == s.subrange(0, 8)[i - 0]);
                }
                if 8 <= i < 16 {
                    assert(b[i] == b.subrange(8, 16)[i - 8]);
                    assert(s[i] == s.subrange(8, 16)[i - 8]);
                }
                if 16 <= i < 24 {
                    assert(b[i] == b.subrange(16, 24)[i - 16]);
                    assert(s[i] == s.subrange(16, 24)[i - 16]);
                }
                if 24 <= i < 32 {
                    assert(b[i] == b.subrange(24, 32)[i - 24]);
                    assert(s[i] == s.subrange(24, 32)[i - 24]);
                }
            }
            assert(b =~= s.take(32));
        }
    }

    /// Takes the struct from the front of `buf`.
    pub fn parse(buf: &[u8]) -> (r: Self)
        requires
            buf@.len() >= 32,
        ensures
            r.reads(buf@),
    {
        let r = RequestVote {
            term: u64_at(buf, 0),
            candidate_id: u64_at(buf, 8),
            last_log_index: u64_at(buf, 16),
            last_log_term: u64_at(buf, 24),
        };
        r
    }

    /// Appends the bytes to `out`.
    pub fn put(&self, out: &mut Vec<u8>)
        ensures
            final(out)@ == old(out)@ + self.bytes(),
    {
        put_slice(out, &u64_bytes(self.term));
        put_slice(out, &u64_bytes(self.candidate_id));
        put_slice(out, &u64_bytes(self.last_log_index));
        put_slice(out, &u64_bytes(self.last_log_term));
        assert(out@ =~= old(out)@ + self.bytes());
    }
}

/// The answer to a vote request.
#[derive(Clone, Copy, Debug, PartialEq, Eq)]
pub struct RequestVoteResp {
    pub term: u64,
    pub vote_granted: u8,
    pub _pad: [u8; 7],
}

impl RequestVoteResp {
    /// The bytes on the wire.
    pub open spec fn bytes(self) -> Seq<u8> {
        le_bytes(self.term as nat, 8)
            + seq![self.vote_granted]
            + self._pad@
    }

    /// Whether the fields are what the front of `s` holds.
    pub open spec fn reads(self, s: Seq<u8>) -> bool {
        &&& self.term as nat == field(s, 0, 8)
        &&& self.vote_granted == s[8]
        &&& self._pad@ == s.subrange(9, 16)
    }

    /// The struct takes 16 bytes on the wire.
    pub proof fn lemma_bytes_len(self)
        ensures
            self.bytes().len() == 16,
    {
        lemma_le_fields();
    }

    /// Fields read from `s` are the ones whose bytes are at the front of `s`.
    pub proof fn lemma_reads_bytes(self, s: Seq<u8>)
        requires
            s.len() >= 16,
        ensures
            self.bytes().len() == 16,
            self.reads(s) <==> self.bytes() == s.take(16),
    {
        lemma_le_fields();
        let b = self.bytes();
        assert(b.subrange(0, 8) =~= le_bytes(self.term as nat, 8));
        assert(b[8] == self.vote_granted);
        assert(b.subrange(9, 16) =~= self._pad@);
        if b == s.take(16) {
            assert(s.subrange(0, 8) =~= b.subrange(0, 8));
            assert(s[8] == b[8]);
            assert(s.subrange(9, 16) =~= b.subrange(9, 16));
        }
        if self.reads(s) {
            lemma_le_bytes_of_value(s.subrange(0, 8));
            assert(b.subrange(0, 8) == s.subrange(0, 8));
            assert(b[8] == s[8]);
            assert(b.subrange(9, 16) == s.subrange(9, 16));
            assert forall|i: int| 0 <= i < 16 implies b[i] == s[i] by {
                if 0 <= i < 8 {
                    assert(b[i] == b.subrange(0, 8)[i - 0]);
                    assert(s[i] == s.subrange(0, 8)[i - 0]);
                }
                if 9 <= i < 16 {
                    assert(b[i] == b.subrange(9, 16)[i - 9]);
                    assert(s[i] == s.subrange(9, 16)[i - 9]);
                }
            }
            assert(b =~= s.take(16));
        }
    }

    /// Takes the struct from the front of `buf`.
    pub fn parse(buf: &[u8]) -> (r: Self)
        requires
            buf@.len() >= 16,
        ensures
            r.reads(buf@),
    {
        let r = RequestVoteResp {
            term: u64_at(buf, 0),
            vote_granted: buf[8],
            _pad: [buf[9], buf[10], buf[11], buf[12], buf[13], buf[14], buf[15]],
        };
        assert(r._pad@ =~= buf@.subrange(9, 16));
        r
    }

    /// Appends the bytes to `out`.
    pub fn put(&self, out: &mut Vec<u8>)
        ensures
            final(out)@ == old(out)@ + self.bytes(),
    {
        put_slice(out, &u64_bytes(self.term));
        out.push(self.vote_granted);
        put_slice(out, &self._pad);
        assert(out@ =~= old(out)@ + self.bytes());
    }
}

/// A leader replicates entries, or asserts its leadership when there are none.
#[derive(Clone, Copy, Debug, PartialEq, Eq)]
pub struct AppendEntries {
    pub term: u64,
    pub leader_id: u64,
    pub prev_log_index: u64,
    pub prev_log_term: u64,
    pub leader_commit: u64,
    pub entry_count: u32,
    /// The read-confirmation probe token; 0 when there is no probe.
    pub _pad: u32,
}

impl AppendEntries {
    /// The bytes on the wire.
    pub open spec fn bytes(self) -> Seq<u8> {
        le_bytes(self.term as nat, 8)
            + le_bytes(self.leader_id as nat, 8)
            + le_bytes(self.prev_log_index as nat, 8)
            + le_bytes(self.prev_log_term as nat, 8)
            + le_bytes(self.leader_commit as nat, 8)
            + le_bytes(self.entry_count as nat, 4)
            + le_bytes(self._pad as nat, 4)
    }

    /// Whether the fields are what the front of `s` holds.
    pub open spec fn reads(self, s: Seq<u8>) -> bool {
        &&& self.term as nat == field(s, 0, 8)
        &&& self.leader_id as nat == field(s, 8, 8)
        &&& self.prev_log_index as nat == field(s, 16, 8)
        &&& self.prev_log_term as nat == field(s, 24, 8)
        &&& self.leader_commit as nat == field(s, 32, 8)
        &&& self.entry_count as nat == field(s, 40, 4)
        &&& self._pad as nat == field(s, 44, 4)
    }

    /// The struct takes 48 bytes on the wire.
    pub proof fn lemma_bytes_len(self)
        ensures
            self.bytes().len() == 48,
    {
        lemma_le_fields();
    }

    /// Fields read from `s` are the ones whose bytes are at the front of `s`.
    pub proof fn lemma_reads_bytes(self, s: Seq<u8>)
        requires
            s.len() >= 48,
        ensures
            self.bytes().len() == 48,
            self.reads(s) <==> self.bytes() == s.take(48),
    {
        lemma_le_fields();
        let b = self.bytes();
        assert(b.subrange(0, 8) =~= le_bytes(self.term as nat, 8));
        assert(b.subrange(8, 16) =~= le_bytes(self.leader_id as nat, 8));
        assert(b.subrange(16, 24) =~= le_bytes(self.prev_log_index as nat, 8));
        assert(b.subrange(24, 32) =~= le_bytes(self.prev_log_term as nat, 8));
        assert(b.subrange(32, 40) =~= le_bytes(self.leader_commit as nat, 8));
        assert(b.subrange(40, 44) =~= le_bytes(self.entry_count as nat, 4));
        assert(b.subrange(44, 48) =~= le_bytes(self._pad as nat, 4));
        if b == s.take(48) {
            assert(s.subrange(0, 8) =~= b.subrange(0, 8));
            assert(s.subrange(8, 16) =~= b.subrange(8, 16));
            assert(s.subrange(16, 24) =~= b.subrange(16, 24));
            assert(s.subrange(24, 32) =~= b.subrange(24, 32));
            assert(s.subrange(32, 40) =~= b.subrange(32, 40));
            assert(s.subrange(40, 44) =~= b.subrange(40, 44));
            assert(s.subrange(44, 48) =~= b.subrange(44, 48));
        }
        if self.reads(s) {
            lemma_le_bytes_of_value(s.subrange(0, 8));
            lemma_le_bytes_of_value(s.subrange(8, 16));
            lemma_le_bytes_of_value(s.subrange(16, 24));
            lemma_le_bytes_of_value(s.subrange(24, 32));
            lemma_le_bytes_of_value(s.subrange(32, 40));
            lemma_le_bytes_of_value(s.subrange(40, 44));
            lemma_le_bytes_of_value(s.subrange(44, 48));
            assert(b.subrange(0, 8) == s.subrange(0, 8));
            assert(b.subrange(8, 16) == s.subrange(8, 16));
            assert(b.subrange(16, 24) == s.subrange(16, 24));
            assert(b.subrange(24, 32) == s.subrange(24, 32));
            assert(b.subrange(32, 40) == s.subrange(32, 40));
            assert(b.subrange(40, 44) == s.subrange(40, 44));
            assert(b.subrange(44, 48) == s.subrange(44, 48));
            assert forall|i: int| 0 <= i < 48 implies b[i] == s[i] by {
                if 0 <= i < 8 {
                    assert(b[i] == b.subrange(0, 8)[i - 0]);
                    assert(s[i] == s.subrange(0, 8)[i - 0]);
                }
                if 8 <= i < 16 {
                    assert(b[i] == b.subrange(8, 16)[i - 8]);
                    assert(s[i] == s.subrange(8, 16)[i - 8]);
                }
                if 16 <= i < 24 {
                    assert(b[i] == b.subrange(16, 24)[i - 16]);
                    assert(s[i] == s.subrange(16, 24)[i - 16]);
                }
                if 24 <= i < 32 {
                    assert(b[i] == b.subrange(24, 32)[i - 24]);
                    assert(s[i] == s.subrange(24, 32)[i - 24]);
                }
                if 32 <= i < 40 {
                    assert(b[i] == b.subrange(32, 40)[i - 32]);
                    assert(s[i] == s.subrange(32, 40)[i - 32]);
                }
                if 40 <= i < 44 {
                    assert(b[i] == b.subrange(40, 44)[i - 40]);
                    assert(s[i] == s.subrange(40, 44)[i - 40]);
                }
                if 44 <= i < 48 {
                    assert(b[i] == b.subrange(44, 48)[i - 44]);
                    assert(s[i] == s.subrange(44, 48)[i - 44]);
                }
            }
            assert(b =~= s.take(48));
        }
    }

    /// Takes the struct from the front of `buf`.
    pub fn parse(buf: &[u8]) -> (r: Self)
        requires
            buf@.len() >= 48,
        ensures
            r.reads(buf@),
    {
        let r = AppendEntries {
            term: u64_at(buf, 0),
            leader_id: u64_at(buf, 8),
            prev_log_index: u64_at(buf, 16),
            prev_log_term: u64_at(buf, 24),
            leader_commit: u64_at(buf, 32),
            entry_count: u32_at(buf, 40),
            _pad: u32_at(buf, 44),
        };
        r
    }

    /// Appends the bytes to `out`.
    pub fn put(&self, out: &mut Vec<u8>)
        ensures
            final(out)@ == old(out)@ + self.bytes(),
    {
        put_slice(out, &u64_bytes(self.term));
        put_slice(out, &u64_bytes(self.leader_id));
        put_slice(out, &u64_bytes(self.prev_log_index));
        put_slice(out, &u64_bytes(self.prev_log_term));
        put_slice(out, &u64_bytes(self.leader_commit));
        put_slice(out, &u32_bytes(self.entry_count));
        put_slice(out, &u32_bytes(self._pad));
        assert(out@ =~= old(out)@ + self.bytes());
    }
}

/// The header in front of each entry's payload.
#[derive(Clone, Copy, Debug, PartialEq, Eq)]
pub struct EntryHeader {
    pub term: u64,
    pub index: u64,
    pub payload_len: u32,
    pub _pad: u32,
}

impl EntryHeader {
    /// The bytes on the wire.
    pub open spec fn bytes(self) -> Seq<u8> {
        le_bytes(self.term as nat, 8)
            + le_bytes(self.index as nat, 8)
            + le_bytes(self.payload_len as nat, 4)
            + le_bytes(self._pad as nat, 4)
    }

    /// Whether the fields are what the front of `s` holds.
    pub open spec fn reads(self, s: Seq<u8>) -> bool {
        &&& self.term as nat == field(s, 0, 8)
        &&& self.index as nat == field(s, 8, 8)
        &&& self.payload_len as nat == field(s, 16, 4)
        &&& self._pad as nat == field(s, 20, 4)
    }

    /// The struct takes 24 bytes on the wire.
    pub proof fn lemma_bytes_len(self)
        ensures
            self.bytes().len() == 24,
    {
        lemma_le_fields();
    }

    /// Fields read from `s` are the ones whose bytes are at the front of `s`.
    pub proof fn lemma_reads_bytes(self, s: Seq<u8>)
        requires
            s.len() >= 24,
        ensures
            self.bytes().len() == 24,
            self.reads(s) <==> self.bytes() == s.take(24),
    {
        lemma_le_fields();
        let b = self.bytes();
        assert(b.subrange(0, 8) =~= le_bytes(self.term as nat, 8));
        assert(b.subrange(8, 16) =~= le_bytes(self.index as nat, 8));
        assert(b.subrange(16, 20) =~= le_bytes(self.payload_len as nat, 4));
        assert(b.subrange(20, 24) =~= le_bytes(self._pad as nat, 4));
        if b == s.take(24) {
            assert(s.subrange(0, 8) =~= b.subrange(0, 8));
            assert(s.subrange(8, 16) =~= b.subrange(8, 16));
            assert(s.subrange(16, 20) =~= b.subrange(16, 20));
            assert(s.subrange(20, 24) =~= b.subrange(20, 24));
        }
        if self.reads(s) {
            lemma_le_bytes_of_value(s.subrange(0, 8));
            lemma_le_bytes_of_value(s.subrange(8, 16));
            lemma_le_bytes_of_value(s.subrange(16, 20));
            lemma_le_bytes_of_value(s.subrange(20, 24));
            assert(b.subrange(0, 8) == s.subrange(0, 8));
            assert(b.subrange(8, 16) == s.subrange(8, 16));
            assert(b.subrange(16, 20) == s.subrange(16, 20));
            assert(b.subrange(20, 24) == s.subrange(20, 24));
            assert forall|i: int| 0 <= i < 24 implies b[i] == s[i] by {
                if 0 <= i < 8 {
                    assert(b[i] == b.subrange(0, 8)[i - 0]);
                    assert(s[i] == s.subrange(0, 8)[i - 0]);
                }
                if 8 <= i < 16 {
                    assert(b[i] == b.subrange(8, 16)[i - 8]);
                    assert(s[i] == s.subrange(8, 16)[i - 8]);
                }
                if 16 <= i < 20 {
                    assert(b[i] == b.subrange(16, 20)[i - 16]);
                    assert(s[i] == s.subrange(16, 20)[i - 16]);
                }
                if 20 <= i < 24 {
                    assert(b[i] == b.subrange(20, 24)[i - 20]);
                    assert(s[i] == s.subrange(20, 24)[i - 20]);
                }
            }
            assert(b =~= s.take(24));
        }
    }

    /// Takes the struct from the front of `buf`.
    pub fn parse(buf: &[u8]) -> (r: Self)
        requires
            buf@.len() >= 24,
        ensures
            r.reads(buf@),
    {
        let r = EntryHeader {
            term: u64_at(buf, 0),
            index: u64_at(buf, 8),
            payload_len: u32_at(buf, 16),
            _pad: u32_at(buf, 20),
        };
        r
    }

    /// Appends the bytes to `out`.
    pub fn put(&self, out: &mut Vec<u8>)
        ensures
            final(out)@ == old(out)@ + self.bytes(),
    {
        put_slice(out, &u64_bytes(self.term));
        put_slice(out, &u64_bytes(self.index));
        put_slice(out, &u32_bytes(self.payload_len));
        put_slice(out, &u32_bytes(self._pad));
        assert(out@ =~= old(out)@ + self.bytes());
    }
}

/// The answer to an append request.
#[derive(Clone, Copy, Debug, PartialEq, Eq)]
pub struct AppendEntriesResp {
    pub term: u64,
    pub match_index: u64,
    pub success: u8,
    /// Bytes 0 to 3 echo the request's probe token.
    pub _pad: [u8; 7],
}

impl AppendEntriesResp {
    /// The bytes on the wire.
    pub open spec fn bytes(self) -> Seq<u8> {
        le_bytes(self.term as nat, 8)
            + le_bytes(self.match_index as nat, 8)
            + seq![self.success]
            + self._pad@
    }

    /// Whether the fields are what the front of `s` holds.
    pub open spec fn reads(self, s: Seq<u8>) -> bool {
        &&& self.term as nat == field(s, 0, 8)
        &&& self.match_index as nat == field(s, 8, 8)
        &&& self.success == s[16]
        &&& self._pad@ == s.subrange(17, 24)
    }

    /// The struct takes 24 bytes on the wire.
    pub proof fn lemma_bytes_len(self)
        ensures
            self.bytes().len() == 24,
    {
        lemma_le_fields();
    }

    /// Fields read from `s` are the ones whose bytes are at the front of `s`.
    pub proof fn lemma_reads_bytes(self, s: Seq<u8>)
        requires
            s.len() >= 24,
        ensures
            self.bytes().len() == 24,
            self.reads(s) <==> self.bytes() == s.take(24),
    {
        lemma_le_fields();
        let b = self.bytes();
        assert(b.subrange(0, 8) =~= le_bytes(self.term as nat, 8));
        assert(b.subrange(8, 16) =~= le_bytes(self.match_index as nat, 8));
        assert(b[16] == self.success);
        assert(b.subrange(17, 24) =~= self._pad@);
        if b == s.take(24) {
            assert(s.subrange(0, 8) =~= b.subrange(0, 8));
            assert(s.subrange(8, 16) =~= b.subrange(8, 16));
            assert(s[16] == b[16]);
            assert(s.subrange(17, 24) =~= b.subrange(17, 24));
        }
        if self.reads(s) {
            lemma_le_bytes_of_value(s.subrange(0, 8));
            lemma_le_bytes_of_value(s.subrange(8, 16));
            assert(b.subrange(0, 8) == s.subrange(0, 8));
            assert(b.subrange(8, 16) == s.subrange(8, 16));
            assert(b[16] == s[16]);
            assert(b.subrange(17, 24) == s.subrange(17, 24));
            assert forall|i: int| 0 <= i < 24 implies b[i] == s[i] by {
                if 0 <= i < 8 {
                    assert(b[i] == b.subrange(0, 8)[i - 0]);
                    assert(s[i] == s.subrange(0, 8)[i - 0]);
                }
                if 8 <= i < 16 {
                    assert(b[i] == b.subrange(8, 16)[i - 8]);
                    assert(s[i] == s.subrange(8, 16)[i - 8]);
                }
                if 17 <= i < 24 {
                    assert(b[i] == b.subrange(17, 24)[i - 17]);
                    assert(s[i] == s.subrange(17, 24)[i - 17]);
                }
            }
            assert(b =~= s.take(24));
        }
    }

    /// Takes the struct from the front of `buf`.
    pub fn parse(buf: &[u8]) -> (r: Self)
        requires
            buf@.len() >= 24,
        ensures
            r.reads(buf@),
    {
        let r = AppendEntriesResp {
            term: u64_at(buf, 0),
            match_index: u64_at(buf, 8),
            success: buf[16],
            _pad: [buf[17], buf[18], buf[19], buf[20], buf[21], buf[22], buf[23]],
        };
        assert(r._pad@ =~= buf@.subrange(17, 24));
        r
    }

    /// Appends the bytes to `out`.
    pub fn put(&self, out: &mut Vec<u8>)
        ensures
            final(out)@ == old(out)@ + self.bytes(),
    {
        put_slice(out, &u64_bytes(self.term));
        put_slice(out, &u64_bytes(self.match_index));
        out.push(self.success);
        put_slice(out, &self._pad);
        assert(out@ =~= old(out)@ + self.bytes());
    }
}

/// One chunk of a snapshot.
#[derive(Clone, Copy, Debug, PartialEq, Eq)]
pub struct InstallSnapshot {
    pub term: u64,
    pub leader_id: u64,
    pub last_included_index: u64,
    pub last_included_term: u64,
    pub offset: u64,
    pub chunk_len: u32,
    pub done: u8,
    pub _pad: [u8; 3],
}

impl InstallSnapshot {
    /// The bytes on the wire.
    pub open spec fn bytes(self) -> Seq<u8> {
        le_bytes(self.term as nat, 8)
            + le_bytes(self.leader_id as nat, 8)
            + le_bytes(self.last_included_index as nat, 8)
            + le_bytes(self.last_included_term as nat, 8)
            + le_bytes(self.offset as nat, 8)
            + le_bytes(self.chunk_len as nat, 4)
            + seq![self.done]
            + self._pad@
    }

    /// Whether the fields are what the front of `s` holds.
    pub open spec fn reads(self, s: Seq<u8>) -> bool {
        &&& self.term as nat == field(s, 0, 8)
        &&& self.leader_id as nat == field(s, 8, 8)
        &&& self.last_included_index as nat == field(s, 16, 8)
        &&& self.last_included_term as nat == field(s, 24, 8)
        &&& self.offset as nat == field(s, 32, 8)
        &&& self.chunk_len as nat == field(s, 40, 4)
        &&& self.done == s[44]
        &&& self._pad@ == s.subrange(45, 48)
    }

    /// The struct takes 48 bytes on the wire.
    pub proof fn lemma_bytes_len(self)
        ensures
            self.bytes().len() == 48,
    {
        lemma_le_fields();
    }

    /// Fields read from `s` are the ones whose bytes are at the front of `s`.
    pub proof fn lemma_reads_bytes(self, s: Seq<u8>)
        requires
            s.len() >= 48,
        ensures
            self.bytes().len() == 48,
            self.reads(s) <==> self.bytes() == s.take(48),
    {
        lemma_le_fields();
        let b = self.bytes();
        assert(b.subrange(0, 8) =~= le_bytes(self.term as nat, 8));
        assert(b.subrange(8, 16) =~= le_bytes(self.leader_id as nat, 8));
        assert(b.subrange(16, 24) =~= le_bytes(self.last_included_index as nat, 8));
        assert(b.subrange(24, 32) =~= le_bytes(self.last_included_term as nat, 8));
        assert(b.subrange(32, 40) =~= le_bytes(self.offset as nat, 8));
        assert(b.subrange(40, 44) =~= le_bytes(self.chunk_len as nat, 4));
        assert(b[44] == self.done);
        assert(b.subrange(45, 48) =~= self._pad@);
        if b == s.take(48) {
            assert(s.subrange(0, 8) =~= b.subrange(0, 8));
            assert(s.subrange(8, 16) =~= b.subrange(8, 16));
            assert(s.subrange(16, 24) =~= b.subrange(16, 24));
            assert(s.subrange(24, 32) =~= b.subrange(24, 32));
            assert(s.subrange(32, 40) =~= b.subrange(32, 40));
            assert(s.subrange(40, 44) =~= b.subrange(40, 44));
            assert(s[44] == b[44]);
            assert(s.subrange(45, 48) =~= b.subrange(45, 48));
        }
        if self.reads(s) {
            lemma_le_bytes_of_value(s.subrange(0, 8));
            lemma_le_bytes_of_value(s.subrange(8, 16));
            lemma_le_bytes_of_value(s.subrange(16, 24));
            lemma_le_bytes_of_value(s.subrange(24, 32));
            lemma_le_bytes_of_value(s.subrange(32, 40));
            lemma_le_bytes_of_value(s.subrange(40, 44));
            assert(b.subrange(0, 8) == s.subrange(0, 8));
            assert(b.subrange(8, 16) == s.subrange(8, 16));
            assert(b.subrange(16, 24) == s.subrange(16, 24));
            assert(b.subrange(24, 32) == s.subrange(24, 32));
            assert(b.subrange(32, 40) == s.subrange(32, 40));
            assert(b.subrange(40, 44) == s.subrange(40, 44));
            assert(b[44] == s[44]);
            assert(b.subrange(45, 48) == s.subrange(45, 48));
            assert forall|i: int| 0 <= i < 48 implies b[i] == s[i] by {
                if 0 <= i < 8 {
                    assert(b[i] == b.subrange(0, 8)[i - 0]);
                    assert(s[i] == s.subrange(0, 8)[i - 0]);
                }
                if 8 <= i < 16 {
                    assert(b[i] == b.subrange(8, 16)[i - 8]);
                    assert(s[i] == s.subrange(8, 16)[i - 8]);
                }
                if 16 <= i < 24 {
                    assert(b[i] == b.subrange(16, 24)[i - 16]);
                    assert(s[i] == s.subrange(16, 24)[i - 16]);
                }
                if 24 <= i < 32 {
                    assert(b[i] == b.subrange(24, 32)[i - 24]);
                    assert(s[i] == s.subrange(24, 32)[i - 24]);
                }
                if 32 <= i < 40 {
                    assert(b[i] == b.subrange(32, 40)[i - 32]);
                    assert(s[i] == s.subrange(32, 40)[i - 32]);
                }
                if 40 <= i < 44 {
                    assert(b[i] == b.subrange(40, 44)[i - 40]);
                    assert(s[i] == s.subrange(40, 44)[i - 40]);
                }
                if 45 <= i < 48 {
                    assert(b[i] == b.subrange(45, 48)[i - 45]);
                    assert(s[i] == s.subrange(45, 48)[i - 45]);
                }
            }
            assert(b =~= s.take(48));
        }
    }

    /// Takes the struct from the front of `buf`.
    pub fn parse(buf: &[u8]) -> (r: Self)
        requires
            buf@.len() >= 48,
        ensures
            r.reads(buf@),
    {
        let r = InstallSnapshot {
            term: u64_at(buf, 0),
            leader_id: u64_at(buf, 8),
            last_included_index: u64_at(buf, 16),
            last_included_term: u64_at(buf, 24),
            offset: u64_at(buf, 32),
            chunk_len: u32_at(buf, 40),
            done: buf[44],
            _pad: [buf[45], buf[46], buf[47]],
        };
        assert(r._pad@ =~= buf@.subrange(45, 48));
        r
    }

    /// Appends the bytes to `out`.
    pub fn put(&self, out: &mut Vec<u8>)
        ensures
            final(out)@ == old(out)@ + self.bytes(),
    {
        put_slice(out, &u64_bytes(self.term));
        put_slice(out, &u64_bytes(self.leader_id));
        put_slice(out, &u64_bytes(self.last_included_index));
        put_slice(out, &u64_bytes(self.last_included_term));
        put_slice(out, &u64_bytes(self.offset));
        put_slice(out, &u32_bytes(self.chunk_len));
        out.push(self.done);
        put_slice(out, &self._pad);
        assert(out@ =~= old(out)@ + self.bytes());
    }
}

/// The answer to a snapshot chunk.
#[derive(Clone, Copy, Debug, PartialEq, Eq)]
pub struct InstallSnapshotResp {
    pub term: u64,
    pub next_offset: u64,
    pub accepted: u8,
    pub _pad: [u8; 7],
}

impl InstallSnapshotResp {
    /// The bytes on the wire.
    pub open spec fn bytes(self) -> Seq<u8> {
        le_bytes(self.term as nat, 8)
            + le_bytes(self.next_offset as nat, 8)
            + seq![self.accepted]
            + self._pad@
    }

    /// Whether the fields are what the front of `s` holds.
    pub open spec fn reads(self, s: Seq<u8>) -> bool {
        &&& self.term as nat == field(s, 0, 8)
        &&& self.next_offset as nat == field(s, 8, 8)
        &&& self.accepted == s[16]
        &&& self._pad@ == s.subrange(17, 24)
    }

    /// The struct takes 24 bytes on the wire.
    pub proof fn lemma_bytes_len(self)
        ensures
            self.bytes().len() == 24,
    {
        lemma_le_fields();
    }

    /// Fields read from `s` are the ones whose bytes are at the front of `s`.
    pub proof fn lemma_reads_bytes(self, s: Seq<u8>)
        requires
            s.len() >= 24,
        ensures
            self.bytes().len() == 24,
            self.reads(s) <==> self.bytes() == s.take(24),
    {
        lemma_le_fields();
        let b = self.bytes();
        assert(b.subrange(0, 8) =~= le_bytes(self.term as nat, 8));
        assert(b.subrange(8, 16) =~= le_bytes(self.next_offset as nat, 8));
        assert(b[16] == self.accepted);
        assert(b.subrange(17, 24) =~= self._pad@);
        if b == s.take(24) {
            assert(s.subrange(0, 8) =~= b.subrange(0, 8));
            assert(s.subrange(8, 16) =~= b.subrange(8, 16));
            assert(s[16] == b[16]);
            assert(s.subrange(17, 24) =~= b.subrange(17, 24));
        }
        if self.reads(s) {
            lemma_le_bytes_of_value(s.subrange(0, 8));
            lemma_le_bytes_of_value(s.subrange(8, 16));
            assert(b.subrange(0, 8) == s.subrange(0, 8));
            assert(b.subrange(8, 16) == s.subrange(8, 16));
            assert(b[16] == s[16]);
            assert(b.subrange(17, 24) == s.subrange(17, 24));
            assert forall|i: int| 0 <= i < 24 implies b[i] == s[i] by {
                if 0 <= i < 8 {
                    assert(b[i] == b.subrange(0, 8)[i - 0]);
                    assert(s[i] == s.subrange(0, 8)[i - 0]);
                }
                if 8 <= i < 16 {
                    assert(b[i] == b.subrange(8, 16)[i - 8]);
                    assert(s[i] == s.subrange(8, 16)[i - 8]);
                }
                if 17 <= i < 24 {
                    assert(b[i] == b.subrange(17, 24)[i - 17]);
                    assert(s[i] == s.subrange(17, 24)[i - 17]);
                }
            }
            assert(b =~= s.take(24));
        }
    }

    /// Takes the struct from the front of `buf`.
    pub fn parse(buf: &[u8]) -> (r: Self)
        requires
            buf@.len() >= 24,
        ensures
            r.reads(buf@),
    {
        let r = InstallSnapshotResp {
            term: u64_at(buf, 0),
            next_offset: u64_at(buf, 8),
            accepted: buf[16],
            _pad: [buf[17], buf[18], buf[19], buf[20], buf[21], buf[22], buf[23]],
        };
        assert(r._pad@ =~= buf@.subrange(17, 24));
        r
    }

    /// Appends the bytes to `out`.
    pub fn put(&self, out: &mut Vec<u8>)
        ensures
            final(out)@ == old(out)@ + self.bytes(),
    {
        put_slice(out, &u64_bytes(self.term));
        put_slice(out, &u64_bytes(self.next_offset));
        out.push(self.accepted);
        put_slice(out, &self._pad);
        assert(out@ =~= old(out)@ + self.bytes());
    }
}

/// The leader sanctions an immediate election by a caught-up peer.
#[derive(Clone, Copy, Debug, PartialEq, Eq)]
pub struct TimeoutNow {
    pub term: u64,
    pub leader_id: u64,
}

impl TimeoutNow {
    /// The bytes on the wire.
    pub open spec fn bytes(self) -> Seq<u8> {
        le_bytes(self.term as nat, 8)
            + le_bytes(self.leader_id as nat, 8)
    }

    /// Whether the fields are what the front of `s` holds.
    pub open spec fn reads(self, s: Seq<u8>) -> bool {
        &&& self.term as nat == field(s, 0, 8)
        &&& self.leader_id as nat == field(s, 8, 8)
    }

    /// The struct takes 16 bytes on the wire.
    pub proof fn lemma_bytes_len(self)
        ensures
            self.bytes().len() == 16,
    {
        lemma_le_fields();
    }

    /// Fields read from `s` are the ones whose bytes are at the front of `s`.
    pub proof fn lemma_reads_bytes(self, s: Seq<u8>)
        requires
            s.len() >= 16,
        ensures
            self.bytes().len() == 16,
            self.reads(s) <==> self.bytes() == s.take(16),
    {
        lemma_le_fields();
        let b = self.bytes();
        assert(b.subrange(0, 8) =~= le_bytes(self.term as nat, 8));
        assert(b.subrange(8, 16) =~= le_bytes(self.leader_id as nat, 8));
        if b == s.take(16) {
            assert(s.subrange(0, 8) =~= b.subrange(0, 8));
            assert(s.subrange(8, 16) =~= b.subrange(8, 16));
        }
        if self.reads(s) {
            lemma_le_bytes_of_value(s.subrange(0, 8));
            lemma_le_bytes_of_value(s.subrange(8, 16));
            assert(b.subrange(0, 8) == s.subrange(0, 8));
            assert(b.subrange(8, 16) == s.subrange(8, 16));
            assert forall|i: int| 0 <= i < 16 implies b[i] == s[i] by {
                if 0 <= i < 8 {
                    assert(b[i] == b.subrange(0, 8)[i - 0]);
                    assert(s[i] == s.subrange(0, 8)[i - 0]);
                }
                if 8 <= i < 16 {
                    assert(b[i] == b.subrange(8, 16)[i - 8]);
                    assert(s[i] == s.subrange(8, 16)[i - 8]);
                }
            }
            assert(b =~= s.take(16));
        }
    }

    /// Takes the struct from the front of `buf`.
    pub fn parse(buf: &[u8]) -> (r: Self)
        requires
            buf@.len() >= 16,
        ensures
            r.reads(buf@),
    {
        let r = TimeoutNow {
            term: u64_at(buf, 0),
            leader_id: u64_at(buf, 8),
        };
        r
    }

    /// Appends the bytes to `out`.
    pub fn put(&self, out: &mut Vec<u8>)
        ensures
            final(out)@ == old(out)@ + self.bytes(),
    {
        put_slice(out, &u64_bytes(self.term));
        put_slice(out, &u64_bytes(self.leader_id));
        assert(out@ =~= old(out)@ + self.bytes());
    }
}

} // verus!
