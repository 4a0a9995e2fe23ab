//! Where every number of a dispatch frame stands, and which frames are taken.

use vstd::prelude::*;

use super::builder::request_bytes;
use super::context::DispatchResponseKind;
use super::response::{response_bytes, response_fault, response_kind_of};
use super::spec::{DispatchAckPolicy, DispatchFailPolicy, DispatchOptions, DispatchScope};
use super::view::{ack_policy_of, dispatch_fault, fail_policy_of, scope_of};
use crate::protocol::codec::layout::{eight_bytes, four_bytes, lemma_fields_are_numbers};
use crate::protocol::codec::le::{le_bytes, lemma_le_fields};
use crate::time::Duration;

verus! {

/// Whether `ms` stands for a timeout: the timeout ends within the millisecond that
/// follows `ms`, or `ms` is the largest number and the timeout is no shorter.
pub open spec fn stands_for(ms: int, timeout: Duration) -> bool {
    &&& ms * 1_000_000 <= timeout.length()
    &&& timeout.length() < (ms + 1) * 1_000_000 || ms == 0xffff_ffff
}

/// A request on the wire: 28 bytes, each field in its place, and then the body. The
/// timeout is in whole milliseconds.
pub proof fn law_requests_are_laid_out(
    tx_id: u64,
    command: u8,
    options: DispatchOptions,
    body: Seq<u8>,
)
    requires
        body.len() <= u32::MAX,
    ensures
        ({
            let frame = request_bytes(tx_id, command, options, body);
            &&& frame.len() == 28 + body.len()
            &&& four_bytes(frame, 0) == 0x4453_5054
            &&& frame[4] == 1
            &&& frame[5] == command
            &&& frame[9] == 1 <==> options.trace
            &&& frame[9] == 0 <==> !options.trace
            &&& frame[10] == 0 && frame[11] == 0
            &&& eight_bytes(frame, 12) == tx_id
            &&& stands_for(four_bytes(frame, 20), options.timeout)
            &&& four_bytes(frame, 24) == body.len()
            &&& forall|i: int| 0 <= i < body.len() ==> #[trigger] frame[28 + i] == body[i]
        }),
        ({
            let n = request_bytes(tx_id, command, options, body)[6];
            match options.scope {
                DispatchScope::All => n == 0,
                DispatchScope::Others => n == 1,
                DispatchScope::Followers => n == 2,
                DispatchScope::Leader => n == 3,
                DispatchScope::LocalOnly => n == 4,
            }
        }),
        ({
            let n = request_bytes(tx_id, command, options, body)[7];
            match options.ack.policy {
                DispatchAckPolicy::All => n == 0,
                DispatchAckPolicy::Quorum => n == 1,
                DispatchAckPolicy::AtLeast => n == 2,
                DispatchAckPolicy::Percent => n == 3,
                DispatchAckPolicy::BestEffort => n == 4,
            }
        }),
        ({
            let n = request_bytes(tx_id, command, options, body)[8];
            match options.fail.policy {
                DispatchFailPolicy::AllowFailures => n == 0,
                DispatchFailPolicy::NoFailures => n == 1,
                DispatchFailPolicy::MaxFailures => n == 2,
                DispatchFailPolicy::MaxFailurePercent => n == 3,
                DispatchFailPolicy::FailFast => n == 4,
            }
        }),
{
    super::builder::law_requests_read_back(tx_id, command, options, body);
    lemma_le_fields();
    let frame = request_bytes(tx_id, command, options, body);
    let len: u32 = body.len() as u32;
    assert(le_bytes(len as nat, 4).len() == 4);
    lemma_fields_are_numbers(frame, 0);
    lemma_fields_are_numbers(frame, 12);
    lemma_fields_are_numbers(frame, 20);
    lemma_fields_are_numbers(frame, 24);
}

/// A request is taken if and only if it is long enough for its header and for the
/// body it announces, it carries the right mark and version, and its scope and its
/// policies are among the five of each.
pub proof fn law_requests_are_checked(frame: Seq<u8>)
    ensures
        dispatch_fault(frame) is None <==> {
            &&& frame.len() >= 28
            &&& four_bytes(frame, 0) == 0x4453_5054
            &&& frame[4] == 1
            &&& frame.len() >= 28 + four_bytes(frame, 24)
            &&& frame[6] < 5
            &&& frame[7] < 5
            &&& frame[8] < 5
        },
{
    lemma_fields_are_numbers(frame, 0);
    lemma_fields_are_numbers(frame, 24);
}

/// Two requests that are taken say the same of scope and policies only where they
/// hold the same numbers.
pub proof fn law_numbers_tell_policies_apart(a: u8, b: u8)
    requires
        a < 5,
        b < 5,
    ensures
        scope_of(a) == scope_of(b) <==> a == b,
        ack_policy_of(a) == ack_policy_of(b) <==> a == b,
        fail_policy_of(a) == fail_policy_of(b) <==> a == b,
        scope_of(a) is LocalOnly <==> a == 4,
        scope_of(a) is All <==> a == 0,
        ack_policy_of(a) is BestEffort <==> a == 4,
        ack_policy_of(a) is All <==> a == 0,
        fail_policy_of(a) is FailFast <==> a == 4,
        fail_policy_of(a) is AllowFailures <==> a == 0,
{
}

/// A response on the wire: 20 bytes, each field in its place, and then the payload.
pub proof fn law_responses_are_laid_out(
    tx_id: u64,
    command: u8,
    kind: DispatchResponseKind,
    payload: Seq<u8>,
)
    requires
        payload.len() <= u32::MAX,
    ensures
        ({
            let frame = response_bytes(tx_id, command, kind, payload);
            &&& frame.len() == 20 + payload.len()
            &&& four_bytes(frame, 0) == 0x4452_5350
            &&& frame[4] == 1
            &&& frame[5] == command
            &&& frame[6] == match kind {
                DispatchResponseKind::Accepted => 0u8,
                DispatchResponseKind::Rejected => 1u8,
                DispatchResponseKind::Progress => 2u8,
                DispatchResponseKind::Failed => 3u8,
            }
            &&& frame[7] == 0
            &&& eight_bytes(frame, 8) == tx_id
            &&& four_bytes(frame, 16) == payload.len()
            &&& forall|i: int| 0 <= i < payload.len() ==> #[trigger] frame[20 + i] == payload[i]
        }),
{
    super::response::law_responses_read_back(tx_id, command, kind, payload);
    lemma_le_fields();
    let frame = response_bytes(tx_id, command, kind, payload);
    let len: u32 = payload.len() as u32;
    assert(le_bytes(len as nat, 4).len() == 4);
    assert(frame.subrange(16, 20) =~= le_bytes(len as nat, 4));
    lemma_fields_are_numbers(frame, 0);
    lemma_fields_are_numbers(frame, 8);
    lemma_fields_are_numbers(frame, 16);
}

/// A response is taken if and only if it carries the right mark and version and is
/// exactly as long as it announces. A kind that nobody knows is a failure, and only
/// what says so counts as accepted.
pub proof fn law_responses_are_checked(frame: Seq<u8>, n: u8)
    ensures
        response_fault(frame) is None <==> {
            &&& frame.len() >= 20
            &&& four_bytes(frame, 0) == 0x4452_5350
            &&& frame[4] == 1
            &&& frame.len() == 20 + four_bytes(frame, 16)
        },
        response_kind_of(n) is Accepted <==> n == 0,
        response_kind_of(n) is Rejected <==> n == 1,
        response_kind_of(n) is Progress <==> n == 2,
        response_kind_of(n) is Failed <==> n >= 3,
{
    lemma_fields_are_numbers(frame, 0);
    lemma_fields_are_numbers(frame, 16);
}

} // verus!
