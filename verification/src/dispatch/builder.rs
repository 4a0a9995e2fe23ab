//! Building a dispatch request.

use std::marker::PhantomData;
use vstd::prelude::*;

use super::frame::{
    DispatchFrameHeader, RAFT_DISPATCH_FRAME_HEADER_SIZE, RAFT_DISPATCH_MAGIC,
    RAFT_DISPATCH_VERSION,
};
use super::spec::{
    ack_number, fail_number, scope_number, DispatchAckOptions, DispatchAckPolicy,
    DispatchFailOptions, DispatchFailPolicy, DispatchOptions, DispatchScope, DispatchSpec,
};
use super::tx::{DispatchPeerResult, DispatchPeerState, DispatchState, DispatchTx};
use super::tx::state::TxModel;
use super::tx_ids::{tx_number, TxIds, TX_ID_SEQ_COUNT};
use super::view::{ack_policy_of, dispatch_fault, fail_policy_of, scope_of, DispatchView};
use crate::error::RaftError;
use crate::protocol::codec::le::{field, le_bytes, lemma_le_fields, put_slice};
use crate::text::text;
use crate::time::Duration;
use crate::types::PeerId;

verus! {

/// A timeout as the wire holds it: in whole milliseconds, at most the largest `u32`.
pub open spec fn wire_timeout(timeout: Duration) -> u32 {
    if timeout.whole_millis() > u32::MAX {
        u32::MAX
    } else {
        timeout.whole_millis() as u32
    }
}

/// The bytes of a dispatch request.
pub open spec fn request_bytes(
    tx_id: u64,
    command: u8,
    options: DispatchOptions,
    body: Seq<u8>,
) -> Seq<u8> {
    le_bytes(RAFT_DISPATCH_MAGIC as nat, 4) + seq![
        RAFT_DISPATCH_VERSION,
        command,
        scope_number(options.scope),
        ack_number(options.ack.policy),
        fail_number(options.fail.policy),
        if options.trace {
            1u8
        } else {
            0u8
        },
        0u8,
        0u8,
    ] + le_bytes(tx_id as nat, 8) + le_bytes(wire_timeout(options.timeout) as nat, 4) + le_bytes(
        body.len(),
        4,
    ) + body
}

/// A call of a command before it is built.
pub struct DispatchBuilder<'a, P, R, EP, DP, ER, DR> {
    pub spec: &'a DispatchSpec<P, R, EP, DP, ER, DR>,
    pub params: P,
    pub options: DispatchOptions,
}

/// A dispatch request, ready to send.
pub struct DispatchEnvelope<P, R> {
    pub tx_id: u64,
    pub command: u8,
    pub bytes: Vec<u8>,
    pub options: DispatchOptions,
    pub _marker: PhantomData<(P, R)>,
}

impl<P, R> DispatchEnvelope<P, R> {
    /// The request for a body that fits its length field.
    pub fn seal(tx_id: u64, command: u8, options: DispatchOptions, body: &[u8]) -> (r: Self)
        requires
            body@.len() <= u32::MAX,
        ensures
            r.tx_id == tx_id,
            r.command == command,
            r.options == options,
            r.bytes@ == request_bytes(tx_id, command, options, body@),
    {
        let header = DispatchFrameHeader {
            magic: RAFT_DISPATCH_MAGIC,
            version: RAFT_DISPATCH_VERSION,
            command,
            scope: options.scope.number(),
            ack_policy: options.ack.policy.number(),
            fail_policy: options.fail.policy.number(),
            trace: if options.trace {
                1
            } else {
                0
            },
            _pad: [0, 0],
            tx_id,
            timeout_ms: if options.timeout.as_millis() > u32::MAX as u128 {
                u32::MAX
            } else {
                options.timeout.as_millis() as u32
            },
            body_len: body.len() as u32,
        };
        let mut out: Vec<u8> = Vec::new();
        header.put(&mut out);
        put_slice(&mut out, body);
        assert(header._pad@ =~= seq![0u8, 0]);
        assert(out@ =~= request_bytes(tx_id, command, options, body@));
        DispatchEnvelope { tx_id, command, bytes: out, options, _marker: PhantomData }
    }

    pub fn tx_id(&self) -> (r: u64)
        ensures
            r == self.tx_id,
    {
        self.tx_id
    }

    pub fn bytes(&self) -> (r: &[u8])
        ensures
            r@ == self.bytes@,
    {
        self.bytes.as_slice()
    }

    pub fn command(&self) -> (r: u8)
        ensures
            r == self.command,
    {
        self.command
    }

    pub fn into_bytes(self) -> (r: Vec<u8>)
        ensures
            r@ == self.bytes@,
    {
        self.bytes
    }

    pub fn options(&self) -> (r: DispatchOptions)
        ensures
            r == self.options,
    {
        self.options
    }

    /// The request read back.
    pub fn view(&self) -> (r: Result<DispatchView<'_>, RaftError>)
        ensures
            match dispatch_fault(self.bytes@) {
                Some(words) => r matches Err(e) && e.is_dispatch(words),
                None => r matches Ok(v) && v.content() == self.bytes@,
            },
    {
        DispatchView::parse(self.bytes.as_slice())
    }

    /// Starts to track the command across `targets`.
    pub fn begin<F>(&self, targets: &Vec<PeerId>, decode_response: F) -> (r: DispatchTx<R, F>)
        ensures
            r.state@ == (TxModel {
                tx_id: self.tx_id,
                command: self.command,
                options: self.options,
                peers: targets@.map_values(
                    |peer: PeerId|
                        DispatchPeerResult { peer, state: DispatchPeerState::<R>::Pending },
                ),
                completion: None,
            }).evaluated(),
            r.state@.wf(),
            r.decode_response == decode_response,
    {
        DispatchTx {
            state: DispatchState::begin(self.tx_id, self.command, self.options, targets),
            decode_response,
        }
    }
}

/// How building a request came out, for what the command's function made of
/// the parameters. A transaction number is used up only where it did.
pub open spec fn build_outcome<P, R>(
    command: u8,
    options: DispatchOptions,
    encoded: Result<Vec<u8>, RaftError>,
    ids: TxIds,
    r: Result<DispatchEnvelope<P, R>, RaftError>,
    ids_after: TxIds,
) -> bool {
    match encoded {
        Err(e) => r == Err::<DispatchEnvelope<P, R>, RaftError>(e) && ids_after == ids,
        Ok(body) => if body@.len() > u32::MAX {
            (r matches Err(e) && e.is_dispatch("dispatch body length exceeds u32 wire field"@))
                && ids_after == ids
        } else {
            &&& r matches Ok(envelope) && {
                &&& envelope.tx_id == tx_number(command, ids.seq as int)
                &&& envelope.command == command
                &&& envelope.options == options
                &&& envelope.bytes@ == request_bytes(envelope.tx_id, command, options, body@)
            }
            &&& ids_after.command == ids.command
            &&& ids_after.seq == (ids.seq + 1) % 0x1_0000_0000_0000_0000
        },
    }
}

impl<'a, P, R, EP, DP, ER, DR> DispatchBuilder<'a, P, R, EP, DP, ER, DR> where
    EP: Fn(&P) -> Result<Vec<u8>, RaftError>,
    DP: Fn(&[u8]) -> Result<P, RaftError>,
    ER: Fn(&R) -> Result<Vec<u8>, RaftError>,
    DR: Fn(&[u8]) -> Result<R, RaftError>,
 {
    pub fn new(spec: &'a DispatchSpec<P, R, EP, DP, ER, DR>, params: P) -> (r: Self)
        ensures
            r.spec == spec,
            r.params == params,
            r.options == spec.defaults,
    {
        DispatchBuilder { spec, params, options: spec.defaults() }
    }

    /// Whether two calls differ in their options at most.
    pub open spec fn same_call(self, other: Self) -> bool {
        self.spec == other.spec && self.params == other.params
    }

    pub fn scope(self, scope: DispatchScope) -> (r: Self)
        ensures
            r.same_call(self),
            r.options == (DispatchOptions { scope, ..self.options }),
    {
        let mut call = self;
        call.options.scope = scope;
        call
    }

    pub fn ack_policy(self, policy: DispatchAckPolicy) -> (r: Self)
        ensures
            r.same_call(self),
            r.options == (DispatchOptions {
                ack: DispatchAckOptions { policy, ..self.options.ack },
                ..self.options
            }),
    {
        let mut call = self;
        call.options.ack.policy = policy;
        call
    }

    /// A count of 0 counts as 1.
    pub fn ack_count(self, count: u16) -> (r: Self)
        ensures
            r.same_call(self),
            r.options == self.options.ack_count_set(count),
    {
        let mut call = self;
        call.options.set_ack_count(count);
        call
    }

    /// The share is brought into the range from 1 to 100.
    pub fn ack_percent(self, percent: u8) -> (r: Self)
        ensures
            r.same_call(self),
            r.options == self.options.ack_percent_set(percent),
    {
        let mut call = self;
        call.options.set_ack_percent(percent);
        call
    }

    pub fn fail_policy(self, policy: DispatchFailPolicy) -> (r: Self)
        ensures
            r.same_call(self),
            r.options == (DispatchOptions {
                fail: DispatchFailOptions { policy, ..self.options.fail },
                ..self.options
            }),
    {
        let mut call = self;
        call.options.fail.policy = policy;
        call
    }

    pub fn fail_count(self, count: u16) -> (r: Self)
        ensures
            r.same_call(self),
            r.options == (DispatchOptions {
                fail: DispatchFailOptions { count, ..self.options.fail },
                ..self.options
            }),
    {
        let mut call = self;
        call.options.fail.count = count;
        call
    }

    /// A share above 100 counts as 100.
    pub fn fail_percent(self, percent: u8) -> (r: Self)
        ensures
            r.same_call(self),
            r.options == self.options.fail_percent_set(percent),
    {
        let mut call = self;
        call.options.set_fail_percent(percent);
        call
    }

    pub fn timeout(self, timeout: Duration) -> (r: Self)
        ensures
            r.same_call(self),
            r.options == (DispatchOptions { timeout, ..self.options }),
    {
        let mut call = self;
        call.options.timeout = timeout;
        call
    }

    pub fn trace(self, trace: bool) -> (r: Self)
        ensures
            r.same_call(self),
            r.options == (DispatchOptions { trace, ..self.options }),
    {
        let mut call = self;
        call.options.trace = trace;
        call
    }

    /// Builds the request, with the next number of `ids`, which are those of the
    /// command.
    pub fn build(self, ids: &mut TxIds) -> (r: Result<DispatchEnvelope<P, R>, RaftError>)
        requires
            old(ids).command == self.spec.command,
            call_requires(self.spec.encode_params, (&self.params,)),
        ensures
            exists|encoded: Result<Vec<u8>, RaftError>| #[trigger]
                call_ensures(self.spec.encode_params, (&self.params,), encoded) && build_outcome(
                    self.spec.command,
                    self.options,
                    encoded,
                    *old(ids),
                    r,
                    *final(ids),
                ),
    {
        let encoded = self.spec.encode_params(&self.params);
        let ghost made = encoded;
        assert(call_ensures(self.spec.encode_params, (&self.params,), made));
        let body: Vec<u8> = match encoded {
            Err(e) => {
                return Err(e);
            },
            Ok(body) => body,
        };
        if body.len() as u64 > u32::MAX as u64 {
            return Err(RaftError::Dispatch(text("dispatch body length exceeds u32 wire field")));
        }
        let tx_id: u64 = ids.next_tx_id();
        Ok(DispatchEnvelope::seal(tx_id, self.spec.command, self.options, body.as_slice()))
    }
}

impl<P, R, EP, DP, ER, DR> DispatchSpec<P, R, EP, DP, ER, DR> where
    EP: Fn(&P) -> Result<Vec<u8>, RaftError>,
    DP: Fn(&[u8]) -> Result<P, RaftError>,
    ER: Fn(&R) -> Result<Vec<u8>, RaftError>,
    DR: Fn(&[u8]) -> Result<R, RaftError>,
 {
    /// Begins a call of the command with its own options.
    pub fn dispatch<'a>(&'a self, params: P) -> (r: DispatchBuilder<'a, P, R, EP, DP, ER, DR>)
        ensures
            r.spec == self,
            r.params == params,
            r.options == self.defaults,
    {
        DispatchBuilder::new(self, params)
    }
}

/// A request that could be encoded is built, its number carries its own command in
/// the highest byte, and the other seven continue the command's sequence.
pub proof fn law_envelopes_carry_their_command<P, R>(
    command: u8,
    options: DispatchOptions,
    body: Vec<u8>,
    ids: TxIds,
    r: Result<DispatchEnvelope<P, R>, RaftError>,
    ids_after: TxIds,
)
    requires
        body@.len() <= u32::MAX,
        build_outcome(command, options, Ok(body), ids, r, ids_after),
    ensures
        r matches Ok(envelope) && {
            &&& envelope.tx_id / TX_ID_SEQ_COUNT == command
            &&& envelope.tx_id >> 56u64 == command
            &&& envelope.tx_id % TX_ID_SEQ_COUNT == ids.seq % TX_ID_SEQ_COUNT
        },
        ids_after.seq % TX_ID_SEQ_COUNT == (ids.seq + 1) % (TX_ID_SEQ_COUNT as int),
{
    let tx_id: u64 = (r->Ok_0).tx_id;
    assert(tx_id >> 56u64 == tx_id / 0x100_0000_0000_0000u64) by (bit_vector);
}

/// A request reads back as it was built: it is well formed, and every field and
/// the body are what went in.
pub proof fn law_requests_read_back(
    tx_id: u64,
    command: u8,
    options: DispatchOptions,
    body: Seq<u8>,
)
    requires
        body.len() <= u32::MAX,
    ensures
        ({
            let frame = request_bytes(tx_id, command, options, body);
            &&& dispatch_fault(frame) is None
            &&& frame[5] == command
            &&& scope_of(frame[6]) == options.scope
            &&& ack_policy_of(frame[7]) == options.ack.policy
            &&& fail_policy_of(frame[8]) == options.fail.policy
            &&& (frame[9] != 0) == options.trace
            &&& field(frame, 12, 8) == tx_id
            &&& field(frame, 20, 4) == wire_timeout(options.timeout)
            &&& field(frame, 24, 4) == body.len()
            &&& frame.skip(RAFT_DISPATCH_FRAME_HEADER_SIZE as int) == body
        }),
{
    lemma_le_fields();
    let frame = request_bytes(tx_id, command, options, body);
    let len: u32 = body.len() as u32;
    assert(le_bytes(len as nat, 4).len() == 4);
    assert(frame.subrange(0, 4) =~= le_bytes(RAFT_DISPATCH_MAGIC as nat, 4));
    assert(frame.subrange(12, 20) =~= le_bytes(tx_id as nat, 8));
    assert(frame.subrange(20, 24) =~= le_bytes(wire_timeout(options.timeout) as nat, 4));
    assert(frame.subrange(24, 28) =~= le_bytes(len as nat, 4));
    assert(frame.skip(28) =~= body);
}

} // verus!
