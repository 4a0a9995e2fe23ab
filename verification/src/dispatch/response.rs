//! Dispatch responses on the wire.

use bytes::Bytes;
use vstd::prelude::*;

use super::context::{DispatchResponse, DispatchResponseKind};
use super::frame::{
    DispatchResponseFrameHeader, RAFT_DISPATCH_RESPONSE_FRAME_HEADER_SIZE,
    RAFT_DISPATCH_RESPONSE_MAGIC, RAFT_DISPATCH_RESPONSE_VERSION,
};
use super::spec::DispatchSpec;
use crate::error::RaftError;
use crate::protocol::codec::buffer::{
    bytes_as_slice, bytes_content, bytes_from, bytes_mut_extend, bytes_mut_freeze,
    bytes_mut_with_capacity,
};
use crate::protocol::codec::le::{field, le_bytes, lemma_le_fields, put_slice, u32_at, u64_at};
use crate::text::{decimal, text, text_number, text_two_numbers};

verus! {

/// The number of a kind of response on the wire.
pub open spec fn kind_number(kind: DispatchResponseKind) -> u8 {
    match kind {
        DispatchResponseKind::Accepted => 0,
        DispatchResponseKind::Rejected => 1,
        DispatchResponseKind::Progress => 2,
        DispatchResponseKind::Failed => 3,
    }
}

/// The kind of response with this number; one that is not known is a failure.
pub open spec fn response_kind_of(n: u8) -> DispatchResponseKind {
    if n == 0 {
        DispatchResponseKind::Accepted
    } else if n == 1 {
        DispatchResponseKind::Rejected
    } else if n == 2 {
        DispatchResponseKind::Progress
    } else {
        DispatchResponseKind::Failed
    }
}

/// What is wrong with a response frame, if anything is.
pub open spec fn response_fault(frame: Seq<u8>) -> Option<Seq<char>> {
    if frame.len() < RAFT_DISPATCH_RESPONSE_FRAME_HEADER_SIZE {
        Some("short dispatch response header"@)
    } else if field(frame, 0, 4) != RAFT_DISPATCH_RESPONSE_MAGIC {
        Some("invalid dispatch response magic"@)
    } else if frame[4] != RAFT_DISPATCH_RESPONSE_VERSION {
        Some("unsupported dispatch response version "@ + decimal(frame[4] as nat))
    } else if frame.len() - RAFT_DISPATCH_RESPONSE_FRAME_HEADER_SIZE != field(frame, 16, 4) {
        Some("dispatch response body length mismatch"@)
    } else {
        None
    }
}

/// The bytes of a response. The length field holds the low 32 bits of the
/// payload's length.
pub open spec fn response_bytes(
    tx_id: u64,
    command: u8,
    kind: DispatchResponseKind,
    payload: Seq<u8>,
) -> Seq<u8> {
    le_bytes(RAFT_DISPATCH_RESPONSE_MAGIC as nat, 4) + seq![
        RAFT_DISPATCH_RESPONSE_VERSION,
        command,
        kind_number(kind),
        0u8,
    ] + le_bytes(tx_id as nat, 8) + le_bytes(payload.len() % 0x1_0000_0000, 4) + payload
}

/// A response that has been checked, in a slice.
#[derive(Clone, Copy, Debug)]
pub struct DispatchResponseRef<'a> {
    frame: &'a [u8],
}

impl<'a> DispatchResponseRef<'a> {
    #[verifier::type_invariant]
    spec fn inv(self) -> bool {
        response_fault(self.frame@) is None
    }

    /// The whole frame.
    pub closed spec fn content(self) -> Seq<u8> {
        self.frame@
    }

    /// Checks a frame.
    pub fn parse(frame: &'a [u8]) -> (r: Result<Self, RaftError>)
        ensures
            match response_fault(frame@) {
                Some(words) => r matches Err(e) && e.is_dispatch(words),
                None => r matches Ok(v) && v.content() == frame@,
            },
    {
        if frame.len() < RAFT_DISPATCH_RESPONSE_FRAME_HEADER_SIZE {
            return Err(RaftError::Dispatch(text("short dispatch response header")));
        }
        if u32_at(frame, 0) != RAFT_DISPATCH_RESPONSE_MAGIC {
            return Err(RaftError::Dispatch(text("invalid dispatch response magic")));
        }
        if frame[4] != RAFT_DISPATCH_RESPONSE_VERSION {
            return Err(
                RaftError::Dispatch(
                    text_number("unsupported dispatch response version ", frame[4] as u64),
                ),
            );
        }
        if (frame.len() - RAFT_DISPATCH_RESPONSE_FRAME_HEADER_SIZE) as u64 != u32_at(
            frame,
            16,
        ) as u64 {
            return Err(RaftError::Dispatch(text("dispatch response body length mismatch")));
        }
        Ok(DispatchResponseRef { frame })
    }

    pub fn tx_id(&self) -> (r: u64)
        ensures
            r == field(self.content(), 8, 8),
    {
        proof {
            use_type_invariant(self);
        }
        u64_at(self.frame, 8)
    }

    pub fn command(&self) -> (r: u8)
        ensures
            r == self.content()[5],
    {
        proof {
            use_type_invariant(self);
        }
        self.frame[5]
    }

    pub fn kind(&self) -> (r: DispatchResponseKind)
        ensures
            r == response_kind_of(self.content()[6]),
    {
        proof {
            use_type_invariant(self);
        }
        match self.frame[6] {
            0 => DispatchResponseKind::Accepted,
            1 => DispatchResponseKind::Rejected,
            2 => DispatchResponseKind::Progress,
            _ => DispatchResponseKind::Failed,
        }
    }

    pub fn body(&self) -> (r: &'a [u8])
        ensures
            r@ == self.content().skip(RAFT_DISPATCH_RESPONSE_FRAME_HEADER_SIZE as int),
    {
        proof {
            use_type_invariant(self);
        }
        let (_, body) = self.frame.split_at(RAFT_DISPATCH_RESPONSE_FRAME_HEADER_SIZE);
        assert(body@ =~= self.frame@.skip(RAFT_DISPATCH_RESPONSE_FRAME_HEADER_SIZE as int));
        body
    }

    /// The response as a value of its own.
    pub fn to_response(&self) -> (r: DispatchResponse)
        ensures
            r.tx_id == field(self.content(), 8, 8),
            r.command == self.content()[5],
            r.kind == response_kind_of(self.content()[6]),
            r.payload@ == self.content().skip(RAFT_DISPATCH_RESPONSE_FRAME_HEADER_SIZE as int),
    {
        let mut payload: Vec<u8> = Vec::new();
        put_slice(&mut payload, self.body());
        assert(payload@ =~= self.content().skip(RAFT_DISPATCH_RESPONSE_FRAME_HEADER_SIZE as int));
        DispatchResponse {
            tx_id: self.tx_id(),
            command: self.command(),
            kind: self.kind(),
            payload,
        }
    }
}

/// A response that has been checked, with its bytes shared.
pub struct DispatchResponseView {
    frame: Bytes,
}

impl DispatchResponseView {
    #[verifier::type_invariant]
    spec fn inv(self) -> bool {
        response_fault(bytes_content(self.frame)) is None
    }

    /// The whole frame.
    pub closed spec fn content(self) -> Seq<u8> {
        bytes_content(self.frame)
    }

    /// Checks a frame.
    pub fn parse(frame: Bytes) -> (r: Result<Self, RaftError>)
        ensures
            match response_fault(bytes_content(frame)) {
                Some(words) => r matches Err(e) && e.is_dispatch(words),
                None => r matches Ok(v) && v.content() == bytes_content(frame),
            },
    {
        match DispatchResponseRef::parse(bytes_as_slice(&frame)) {
            Err(e) => Err(e),
            Ok(_) => Ok(DispatchResponseView { frame }),
        }
    }

    /// The response in its slice.
    fn as_slice(&self) -> (r: DispatchResponseRef<'_>)
        ensures
            r.content() == self.content(),
    {
        proof {
            use_type_invariant(self);
        }
        DispatchResponseRef { frame: bytes_as_slice(&self.frame) }
    }

    pub fn frame_bytes(&self) -> (r: &Bytes)
        ensures
            bytes_content(*r) == self.content(),
    {
        &self.frame
    }

    pub fn tx_id(&self) -> (r: u64)
        ensures
            r == field(self.content(), 8, 8),
    {
        self.as_slice().tx_id()
    }

    pub fn command(&self) -> (r: u8)
        ensures
            r == self.content()[5],
    {
        self.as_slice().command()
    }

    pub fn kind(&self) -> (r: DispatchResponseKind)
        ensures
            r == response_kind_of(self.content()[6]),
    {
        self.as_slice().kind()
    }

    pub fn body(&self) -> (r: &[u8])
        ensures
            r@ == self.content().skip(RAFT_DISPATCH_RESPONSE_FRAME_HEADER_SIZE as int),
    {
        self.as_slice().body()
    }

    /// The body, sharing the frame's memory.
    pub fn body_bytes(&self) -> (r: Bytes)
        ensures
            bytes_content(r) == self.content().skip(
                RAFT_DISPATCH_RESPONSE_FRAME_HEADER_SIZE as int,
            ),
    {
        proof {
            use_type_invariant(self);
        }
        bytes_from(&self.frame, RAFT_DISPATCH_RESPONSE_FRAME_HEADER_SIZE)
    }

    /// The value, where the response is for this command.
    pub fn decode_with<P, R, EP, DP, ER, DR>(
        &self,
        spec: &DispatchSpec<P, R, EP, DP, ER, DR>,
    ) -> (r: Result<R, RaftError>) where
        EP: Fn(&P) -> Result<Vec<u8>, RaftError>,
        DP: Fn(&[u8]) -> Result<P, RaftError>,
        ER: Fn(&R) -> Result<Vec<u8>, RaftError>,
        DR: Fn(&[u8]) -> Result<R, RaftError>,

        requires
            forall|b: &[u8]|
                b@ == self.content().skip(RAFT_DISPATCH_RESPONSE_FRAME_HEADER_SIZE as int)
                    ==> #[trigger] call_requires(spec.decode_response, (b,)),
        ensures
            self.content()[5] != spec.command ==> (r matches Err(e) && e.is_dispatch(
                "dispatch response command mismatch: got "@ + decimal(self.content()[5] as nat)
                    + ", expected "@ + decimal(spec.command as nat),
            )),
            self.content()[5] == spec.command ==> exists|b: &[u8]|
                b@ == self.content().skip(RAFT_DISPATCH_RESPONSE_FRAME_HEADER_SIZE as int)
                    && #[trigger] call_ensures(spec.decode_response, (b,), r),
    {
        let command: u8 = self.command();
        if command != spec.command {
            return Err(
                RaftError::Dispatch(
                    text_two_numbers(
                        "dispatch response command mismatch: got ",
                        command as u64,
                        ", expected ",
                        spec.command as u64,
                    ),
                ),
            );
        }
        spec.decode_response(self.body())
    }
}

/// The bytes of a response.
pub fn encode_dispatch_response(response: &DispatchResponse) -> (r: Bytes)
    requires
        response.payload@.len() + RAFT_DISPATCH_RESPONSE_FRAME_HEADER_SIZE <= isize::MAX,
    ensures
        bytes_content(r) == response_bytes(
            response.tx_id,
            response.command,
            response.kind,
            response.payload@,
        ),
{
    let len: u64 = response.payload.len() as u64;
    let header = DispatchResponseFrameHeader {
        magic: RAFT_DISPATCH_RESPONSE_MAGIC,
        version: RAFT_DISPATCH_RESPONSE_VERSION,
        command: response.command,
        kind: match response.kind {
            DispatchResponseKind::Accepted => 0,
            DispatchResponseKind::Rejected => 1,
            DispatchResponseKind::Progress => 2,
            DispatchResponseKind::Failed => 3,
        },
        _pad: 0,
        tx_id: response.tx_id,
        body_len: (len % 0x1_0000_0000) as u32,
    };
    let mut head: Vec<u8> = Vec::new();
    header.put(&mut head);
    proof {
        header.lemma_bytes_len();
    }
    let mut out = bytes_mut_with_capacity(
        RAFT_DISPATCH_RESPONSE_FRAME_HEADER_SIZE + response.payload.len(),
    );
    bytes_mut_extend(&mut out, head.as_slice());
    bytes_mut_extend(&mut out, response.payload.as_slice());
    let frame = bytes_mut_freeze(out);
    assert(bytes_content(frame) =~= response_bytes(
        response.tx_id,
        response.command,
        response.kind,
        response.payload@,
    ));
    frame
}

/// A response reads back as it was written, and with its last byte gone or one more
/// byte at its end it is refused.
pub proof fn law_responses_read_back(
    tx_id: u64,
    command: u8,
    kind: DispatchResponseKind,
    payload: Seq<u8>,
)
    requires
        payload.len() <= u32::MAX,
    ensures
        ({
            let frame = response_bytes(tx_id, command, kind, payload);
            &&& response_fault(frame) is None
            &&& field(frame, 8, 8) == tx_id
            &&& frame[5] == command
            &&& response_kind_of(frame[6]) == kind
            &&& frame.skip(RAFT_DISPATCH_RESPONSE_FRAME_HEADER_SIZE as int) == payload
            &&& response_fault(frame.drop_last()) is Some
            &&& forall|b: u8| response_fault(#[trigger] frame.push(b)) is Some
        }),
{
    lemma_le_fields();
    let frame = response_bytes(tx_id, command, kind, payload);
    let len: u32 = payload.len() as u32;
    assert(le_bytes(len as nat, 4).len() == 4);
    assert(frame.subrange(0, 4) =~= le_bytes(RAFT_DISPATCH_RESPONSE_MAGIC as nat, 4));
    assert(frame.subrange(8, 16) =~= le_bytes(tx_id as nat, 8));
    assert(frame.subrange(16, 20) =~= le_bytes(len as nat, 4));
    assert(frame.skip(20) =~= payload);
    if payload.len() > 0 {
        assert(frame.drop_last().subrange(16, 20) =~= frame.subrange(16, 20));
    }
    assert forall|b: u8| response_fault(#[trigger] frame.push(b)) is Some by {
        assert(frame.push(b).subrange(16, 20) =~= frame.subrange(16, 20));
    }
}

} // verus!
