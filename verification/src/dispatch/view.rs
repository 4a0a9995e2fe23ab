//! A dispatch request read in place.

use vstd::prelude::*;

use super::frame::{
    RAFT_DISPATCH_FRAME_HEADER_SIZE, RAFT_DISPATCH_MAGIC, RAFT_DISPATCH_VERSION,
};
use super::spec::{DispatchAckPolicy, DispatchFailPolicy, DispatchScope, DispatchSpec};
use crate::error::RaftError;
use crate::protocol::codec::le::{field, u32_at, u64_at};
use crate::text::{decimal, text, text_number, text_two_numbers};

verus! {

/// What is wrong with a frame, if anything is.
pub open spec fn dispatch_fault(frame: Seq<u8>) -> Option<Seq<char>> {
    if frame.len() < RAFT_DISPATCH_FRAME_HEADER_SIZE {
        Some("short dispatch frame header"@)
    } else if field(frame, 0, 4) != RAFT_DISPATCH_MAGIC {
        Some("invalid dispatch magic"@)
    } else if frame[4] != RAFT_DISPATCH_VERSION {
        Some("unsupported dispatch version "@ + decimal(frame[4] as nat))
    } else if frame.len() - RAFT_DISPATCH_FRAME_HEADER_SIZE < field(frame, 24, 4) {
        Some("dispatch body length mismatch"@)
    } else if frame[6] > 4 {
        Some("unknown dispatch scope"@)
    } else if frame[7] > 4 {
        Some("unknown dispatch ack policy"@)
    } else if frame[8] > 4 {
        Some("unknown dispatch fail policy"@)
    } else {
        None
    }
}

/// The scope with this number.
pub open spec fn scope_of(n: u8) -> DispatchScope {
    if n == 1 {
        DispatchScope::Others
    } else if n == 2 {
        DispatchScope::Followers
    } else if n == 3 {
        DispatchScope::Leader
    } else if n == 4 {
        DispatchScope::LocalOnly
    } else {
        DispatchScope::All
    }
}

/// The acknowledgement policy with this number.
pub open spec fn ack_policy_of(n: u8) -> DispatchAckPolicy {
    if n == 0 {
        DispatchAckPolicy::All
    } else if n == 2 {
        DispatchAckPolicy::AtLeast
    } else if n == 3 {
        DispatchAckPolicy::Percent
    } else if n == 4 {
        DispatchAckPolicy::BestEffort
    } else {
        DispatchAckPolicy::Quorum
    }
}

/// The failure policy with this number.
pub open spec fn fail_policy_of(n: u8) -> DispatchFailPolicy {
    if n == 1 {
        DispatchFailPolicy::NoFailures
    } else if n == 2 {
        DispatchFailPolicy::MaxFailures
    } else if n == 3 {
        DispatchFailPolicy::MaxFailurePercent
    } else if n == 4 {
        DispatchFailPolicy::FailFast
    } else {
        DispatchFailPolicy::AllowFailures
    }
}

/// A dispatch request that has been checked.
#[derive(Clone, Copy, Debug)]
pub struct DispatchView<'a> {
    frame: &'a [u8],
}

impl<'a> DispatchView<'a> {
    #[verifier::type_invariant]
    spec fn inv(self) -> bool {
        dispatch_fault(self.frame@) is None
    }

    /// The whole frame.
    pub closed spec fn content(self) -> Seq<u8> {
        self.frame@
    }

    /// Checks a frame.
    pub fn parse(frame: &'a [u8]) -> (r: Result<Self, RaftError>)
        ensures
            match dispatch_fault(frame@) {
                Some(words) => r matches Err(e) && e.is_dispatch(words),
                None => r matches Ok(v) && v.content() == frame@,
            },
    {
        if frame.len() < RAFT_DISPATCH_FRAME_HEADER_SIZE {
            return Err(RaftError::Dispatch(text("short dispatch frame header")));
        }
        if u32_at(frame, 0) != RAFT_DISPATCH_MAGIC {
            return Err(RaftError::Dispatch(text("invalid dispatch magic")));
        }
        if frame[4] != RAFT_DISPATCH_VERSION {
            return Err(
                RaftError::Dispatch(
                    text_number("unsupported dispatch version ", frame[4] as u64),
                ),
            );
        }
        if ((frame.len() - RAFT_DISPATCH_FRAME_HEADER_SIZE) as u64) < u32_at(frame, 24) as u64 {
            return Err(RaftError::Dispatch(text("dispatch body length mismatch")));
        }
        if frame[6] > 4 {
            return Err(RaftError::Dispatch(text("unknown dispatch scope")));
        }
        if frame[7] > 4 {
            return Err(RaftError::Dispatch(text("unknown dispatch ack policy")));
        }
        if frame[8] > 4 {
            return Err(RaftError::Dispatch(text("unknown dispatch fail policy")));
        }
        Ok(DispatchView { frame })
    }

    pub fn frame_bytes(&self) -> (r: &'a [u8])
        ensures
            r@ == self.content(),
    {
        self.frame
    }

    pub fn command(&self) -> (r: u8)
        ensures
            r == self.content()[5],
    {
        proof {
            use_type_invariant(self);
        }
        self.frame[5]
    }

    pub fn tx_id(&self) -> (r: u64)
        ensures
            r == field(self.content(), 12, 8),
    {
        proof {
            use_type_invariant(self);
        }
        u64_at(self.frame, 12)
    }

    pub fn scope(&self) -> (r: DispatchScope)
        ensures
            r == scope_of(self.content()[6]),
    {
        proof {
            use_type_invariant(self);
        }
        match self.frame[6] {
            1 => DispatchScope::Others,
            2 => DispatchScope::Followers,
            3 => DispatchScope::Leader,
            4 => DispatchScope::LocalOnly,
            _ => DispatchScope::All,
        }
    }

    pub fn ack_policy(&self) -> (r: DispatchAckPolicy)
        ensures
            r == ack_policy_of(self.content()[7]),
    {
        proof {
            use_type_invariant(self);
        }
        match self.frame[7] {
            0 => DispatchAckPolicy::All,
            2 => DispatchAckPolicy::AtLeast,
            3 => DispatchAckPolicy::Percent,
            4 => DispatchAckPolicy::BestEffort,
            _ => DispatchAckPolicy::Quorum,
        }
    }

    pub fn fail_policy(&self) -> (r: DispatchFailPolicy)
        ensures
            r == fail_policy_of(self.content()[8]),
    {
        proof {
            use_type_invariant(self);
        }
        match self.frame[8] {
            1 => DispatchFailPolicy::NoFailures,
            2 => DispatchFailPolicy::MaxFailures,
            3 => DispatchFailPolicy::MaxFailurePercent,
            4 => DispatchFailPolicy::FailFast,
            _ => DispatchFailPolicy::AllowFailures,
        }
    }

    pub fn trace(&self) -> (r: bool)
        ensures
            r == (self.content()[9] != 0),
    {
        proof {
            use_type_invariant(self);
        }
        self.frame[9] != 0
    }

    pub fn timeout_ms(&self) -> (r: u32)
        ensures
            r == field(self.content(), 20, 4),
    {
        proof {
            use_type_invariant(self);
        }
        u32_at(self.frame, 20)
    }

    /// Everything after the header.
    pub fn body(&self) -> (r: &'a [u8])
        ensures
            r@ == self.content().skip(RAFT_DISPATCH_FRAME_HEADER_SIZE as int),
    {
        proof {
            use_type_invariant(self);
        }
        let (_, body) = self.frame.split_at(RAFT_DISPATCH_FRAME_HEADER_SIZE);
        assert(body@ =~= self.frame@.skip(RAFT_DISPATCH_FRAME_HEADER_SIZE as int));
        body
    }

    /// The parameters, where the request is for this command.
    pub fn params<P, R, EP, DP, ER, DR>(&self, spec: &DispatchSpec<P, R, EP, DP, ER, DR>) -> (r:
        Result<P, RaftError>) where
        EP: Fn(&P) -> Result<Vec<u8>, RaftError>,
        DP: Fn(&[u8]) -> Result<P, RaftError>,
        ER: Fn(&R) -> Result<Vec<u8>, RaftError>,
        DR: Fn(&[u8]) -> Result<R, RaftError>,

        requires
            forall|b: &[u8]|
                b@ == self.content().skip(RAFT_DISPATCH_FRAME_HEADER_SIZE as int)
                    ==> #[trigger] call_requires(spec.decode_params, (b,)),
        ensures
            self.content()[5] != spec.command ==> (r matches Err(e) && e.is_dispatch(
                "dispatch command mismatch: got "@ + decimal(self.content()[5] as nat)
                    + ", expected "@ + decimal(spec.command as nat),
            )),
            self.content()[5] == spec.command ==> exists|b: &[u8]|
                b@ == self.content().skip(RAFT_DISPATCH_FRAME_HEADER_SIZE as int)
                    && #[trigger] call_ensures(spec.decode_params, (b,), r),
    {
        let command: u8 = self.command();
        if command != spec.command {
            return Err(
                RaftError::Dispatch(
                    text_two_numbers(
                        "dispatch command mismatch: got ",
                        command as u64,
                        ", expected ",
                        spec.command as u64,
                    ),
                ),
            );
        }
        spec.decode_params(self.body())
    }
}

} // verus!
