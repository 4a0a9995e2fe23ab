//! The layout of dispatch requests and responses.

use vstd::prelude::*;

use crate::protocol::codec::le::{
    field, le_bytes, lemma_le_bytes_of_value, lemma_le_fields, put_slice, u32_at, u32_bytes,
    u64_at, u64_bytes,
};

verus! {

pub const RAFT_DISPATCH_MAGIC: u32 = 0x4453_5054;
pub const RAFT_DISPATCH_VERSION: u8 = 1;
pub const RAFT_DISPATCH_RESPONSE_MAGIC: u32 = 0x4452_5350;
pub const RAFT_DISPATCH_RESPONSE_VERSION: u8 = 1;

pub const RAFT_DISPATCH_FRAME_HEADER_SIZE: usize = 28;
pub const RAFT_DISPATCH_RESPONSE_FRAME_HEADER_SIZE: usize = 20;

/// The header of a dispatch request.
#[derive(Clone, Copy, Debug, PartialEq, Eq)]
pub struct DispatchFrameHeader {
    pub magic: u32,
    pub version: u8,
    pub command: u8,
    pub scope: u8,
    pub ack_policy: u8,
    pub fail_policy: u8,
    pub trace: u8,
    pub _pad: [u8; 2],
    pub tx_id: u64,
    pub timeout_ms: u32,
    pub body_len: u32,
}

impl DispatchFrameHeader {
    /// The bytes on the wire.
    pub open spec fn bytes(self) -> Seq<u8> {
        le_bytes(self.magic as nat, 4)
            + seq![self.version]
            + seq![self.command]
            + seq![self.scope]
            + seq![self.ack_policy]
            + seq![self.fail_policy]
            + seq![self.trace]
            + self._pad@
            + le_bytes(self.tx_id as nat, 8)
            + le_bytes(self.timeout_ms as nat, 4)
            + le_bytes(self.body_len as nat, 4)
    }

    /// Whether the fields are what the front of `s` holds.
    pub open spec fn reads(self, s: Seq<u8>) -> bool {
        &&& self.magic as nat == field(s, 0, 4)
        &&& self.version == s[4]
        &&& self.command == s[5]
        &&& self.scope == s[6]
        &&& self.ack_policy == s[7]
        &&& self.fail_policy == s[8]
        &&& self.trace == s[9]
        &&& self._pad@ == s.subrange(10, 12)
        &&& self.tx_id as nat == field(s, 12, 8)
        &&& self.timeout_ms as nat == field(s, 20, 4)
        &&& self.body_len as nat == field(s, 24, 4)
    }

    /// The struct takes 28 bytes on the wire.
    pub proof fn lemma_bytes_len(self)
        ensures
            self.bytes().len() == 28,
    {
        lemma_le_fields();
    }

    /// Fields read from `s` are the ones whose bytes are at the front of `s`.
    pub proof fn lemma_reads_bytes(self, s: Seq<u8>)
        requires
            s.len() >= 28,
        ensures
            self.bytes().len() == 28,
            self.reads(s) <==> self.bytes() == s.take(28),
    {
        lemma_le_fields();
        let b = self.bytes();
        assert(b.subrange(0, 4) =~= le_bytes(self.magic as nat, 4));
        assert(b[4] == self.version);
        assert(b[5] == self.command);
        assert(b[6] == self.scope);
        assert(b[7] == self.ack_policy);
        assert(b[8] == self.fail_policy);
        assert(b[9] == self.trace);
        assert(b.subrange(10, 12) =~= self._pad@);
        assert(b.subrange(12, 20) =~= le_bytes(self.tx_id as nat, 8));
        assert(b.subrange(20, 24) =~= le_bytes(self.timeout_ms as nat, 4));
        assert(b.subrange(24, 28) =~= le_bytes(self.body_len as nat, 4));
        if b == s.take(28) {
            assert(s.subrange(0, 4) =~= b.subrange(0, 4));
            assert(s[4] == b[4]);
            assert(s[5] == b[5]);
            assert(s[6] == b[6]);
            assert(s[7] == b[7]);
            assert(s[8] == b[8]);
            assert(s[9] == b[9]);
            assert(s.subrange(10, 12) =~= b.subrange(10, 12));
            assert(s.subrange(12, 20) =~= b.subrange(12, 20));
            assert(s.subrange(20, 24) =~= b.subrange(20, 24));
            assert(s.subrange(24, 28) =~= b.subrange(24, 28));
        }
        if self.reads(s) {
            lemma_le_bytes_of_value(s.subrange(0, 4));
            lemma_le_bytes_of_value(s.subrange(12, 20));
            lemma_le_bytes_of_value(s.subrange(20, 24));
            lemma_le_bytes_of_value(s.subrange(24, 28));
            assert(b.subrange(0, 4) == s.subrange(0, 4));
            assert(b[4] == s[4]);
            assert(b[5] == s[5]);
            assert(b[6] == s[6]);
            assert(b[7] == s[7]);
            assert(b[8] == s[8]);
            assert(b[9] == s[9]);
            assert(b.subrange(10, 12) == s.subrange(10, 12));
            assert(b.subrange(12, 20) == s.subrange(12, 20));
            assert(b.subrange(20, 24) == s.subrange(20, 24));
            assert(b.subrange(24, 28) == s.subrange(24, 28));
            assert forall|i: int| 0 <= i < 28 implies b[i] == s[i] by {
                if 0 <= i < 4 {
                    assert(b[i] == b.subrange(0, 4)[i - 0]);
                    assert(s[i] == s.subrange(0, 4)[i - 0]);
                }
                if 10 <= i < 12 {
                    assert(b[i] == b.subrange(10, 12)[i - 10]);
                    assert(s[i] == s.subrange(10, 12)[i - 10]);
                }
                if 12 <= i < 20 {
                    assert(b[i] == b.subrange(12, 20)[i - 12]);
                    assert(s[i] == s.subrange(12, 20)[i - 12]);
                }
                if 20 <= i < 24 {
                    assert(b[i] == b.subrange(20, 24)[i - 20]);
                    assert(s[i] == s.subrange(20, 24)[i - 20]);
                }
                if 24 <= i < 28 {
                    assert(b[i] == b.subrange(24, 28)[i - 24]);
                    assert(s[i] == s.subrange(24, 28)[i - 24]);
                }
            }
            assert(b =~= s.take(28));
        }
    }

    /// Takes the struct from the front of `buf`.
    pub fn parse(buf: &[u8]) -> (r: Self)
        requires
            buf@.len() >= 28,
        ensures
            r.reads(buf@),
    {
        let r = DispatchFrameHeader {
            magic: u32_at(buf, 0),
            version: buf[4],
            command: buf[5],
            scope: buf[6],
            ack_policy: buf[7],
            fail_policy: buf[8],
            trace: buf[9],
            _pad: [buf[10], buf[11]],
            tx_id: u64_at(buf, 12),
            timeout_ms: u32_at(buf, 20),
            body_len: u32_at(buf, 24),
        };
        assert(r._pad@ =~= buf@.subrange(10, 12));
        r
    }

    /// Appends the bytes to `out`.
    pub fn put(&self, out: &mut Vec<u8>)
        ensures
            final(out)@ == old(out)@ + self.bytes(),
    {
        put_slice(out, &u32_bytes(self.magic));
        out.push(self.version);
        out.push(self.command);
        out.push(self.scope);
        out.push(self.ack_policy);
        out.push(self.fail_policy);
        out.push(self.trace);
        put_slice(out, &self._pad);
        put_slice(out, &u64_bytes(self.tx_id));
        put_slice(out, &u32_bytes(self.timeout_ms));
        put_slice(out, &u32_bytes(self.body_len));
        assert(out@ =~= old(out)@ + self.bytes());
    }
}

/// The header of a dispatch response.
#[derive(Clone, Copy, Debug, PartialEq, Eq)]
pub struct DispatchResponseFrameHeader {
    pub magic: u32,
    pub version: u8,
    pub command: u8,
    pub kind: u8,
    pub _pad: u8,
    pub tx_id: u64,
    pub body_len: u32,
}

impl DispatchResponseFrameHeader {
    /// The bytes on the wire.
    pub open spec fn bytes(self) -> Seq<u8> {
        le_bytes(self.magic as nat, 4)
            + seq![self.version]
            + seq![self.command]
            + seq![self.kind]
            + seq![self._pad]
            + le_bytes(self.tx_id as nat, 8)
            + le_bytes(self.body_len as nat, 4)
    }

    /// Whether the fields are what the front of `s` holds.
    pub open spec fn reads(self, s: Seq<u8>) -> bool {
        &&& self.magic as nat == field(s, 0, 4)
        &&& self.version == s[4]
        &&& self.command == s[5]
        &&& self.kind == s[6]
        &&& self._pad == s[7]
        &&& self.tx_id as nat == field(s, 8, 8)
        &&& self.body_len as nat == field(s, 16, 4)
    }

    /// The struct takes 20 bytes on the wire.
    pub proof fn lemma_bytes_len(self)
        ensures
            self.bytes().len() == 20,
    {
        lemma_le_fields();
    }

    /// Fields read from `s` are the ones whose bytes are at the front of `s`.
    pub proof fn lemma_reads_bytes(self, s: Seq<u8>)
        requires
            s.len() >= 20,
        ensures
            self.bytes().len() == 20,
            self.reads(s) <==> self.bytes() == s.take(20),
    {
        lemma_le_fields();
        let b = self.bytes();
        assert(b.subrange(0, 4) =~= le_bytes(self.magic as nat, 4));
        assert(b[4] == self.version);
        assert(b[5] == self.command);
        assert(b[6] == self.kind);
        assert(b[7] == self._pad);
        assert(b.subrange(8, 16) =~= le_bytes(self.tx_id as nat, 8));
        assert(b.subrange(16, 20) =~= le_bytes(self.body_len as nat, 4));
        if b == s.take(20) {
            assert(s.subrange(0, 4) =~= b.subrange(0, 4));
            assert(s[4] == b[4]);
            assert(s[5] == b[5]);
            assert(s[6] == b[6]);
            assert(s[7] == b[7]);
            assert(s.subrange(8, 16) =~= b.subrange(8, 16));
            assert(s.subrange(16, 20) =~= b.subrange(16, 20));
        }
        if self.reads(s) {
            lemma_le_bytes_of_value(s.subrange(0, 4));
            lemma_le_bytes_of_value(s.subrange(8, 16));
            lemma_le_bytes_of_value(s.subrange(16, 20));
            assert(b.subrange(0, 4) == s.subrange(0, 4));
            assert(b[4] == s[4]);
            assert(b[5] == s[5]);
            assert(b[6] == s[6]);
            assert(b[7] == s[7]);
            assert(b.subrange(8, 16) == s.subrange(8, 16));
            assert(b.subrange(16, 20) == s.subrange(16, 20));
            assert forall|i: int| 0 <= i < 20 implies b[i] == s[i] by {
                if 0 <= i < 4 {
                    assert(b[i] == b.subrange(0, 4)[i - 0]);
                    assert(s[i] == s.subrange(0, 4)[i - 0]);
                }
                if 8 <= i < 16 {
                    assert(b[i] == b.subrange(8, 16)[i - 8]);
                    assert(s[i] == s.subrange(8, 16)[i - 8]);
                }
                if 16 <= i < 20 {
                    assert(b[i] == b.subrange(16, 20)[i - 16]);
                    assert(s[i] == s.subrange(16, 20)[i - 16]);
                }
            }
            assert(b =~= s.take(20));
        }
    }

    /// Takes the struct from the front of `buf`.
    pub fn parse(buf: &[u8]) -> (r: Self)
        requires
            buf@.len() >= 20,
        ensures
            r.reads(buf@),
    {
        let r = DispatchResponseFrameHeader {
            magic: u32_at(buf, 0),
            version: buf[4],
            command: buf[5],
            kind: buf[6],
            _pad: buf[7],
            tx_id: u64_at(buf, 8),
            body_len: u32_at(buf, 16),
        };
        r
    }

    /// Appends the bytes to `out`.
    pub fn put(&self, out: &mut Vec<u8>)
        ensures
            final(out)@ == old(out)@ + self.bytes(),
    {
        put_slice(out, &u32_bytes(self.magic));
        out.push(self.version);
        out.push(self.command);
        out.push(self.kind);
        out.push(self._pad);
        put_slice(out, &u64_bytes(self.tx_id));
        put_slice(out, &u32_bytes(self.body_len));
        assert(out@ =~= old(out)@ + self.bytes());
    }
}

} // verus!
