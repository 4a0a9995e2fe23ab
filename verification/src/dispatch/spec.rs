//! What a command is, where it goes, and when it counts as done.

use std::marker::PhantomData;
use vstd::prelude::*;

use crate::error::RaftError;
use crate::time::Duration;

verus! {

/// Which nodes a command goes to.
#[derive(Clone, Copy, Debug, PartialEq, Eq, Structural)]
pub enum DispatchScope {
    All,
    Others,
    Followers,
    Leader,
    LocalOnly,
}

#[derive(Clone, Copy, Debug, PartialEq, Eq, Structural)]
pub enum DispatchNodeRole {
    Leader,
    Follower,
}

/// A node as a scope sees it.
#[derive(Clone, Copy, Debug, PartialEq, Eq, Structural)]
pub struct DispatchRoute {
    pub role: DispatchNodeRole,
    /// Whether the command comes from this node itself.
    pub is_origin: bool,
}

impl DispatchRoute {
    pub fn leader(is_origin: bool) -> (r: Self)
        ensures
            r == (DispatchRoute { role: DispatchNodeRole::Leader, is_origin }),
    {
        DispatchRoute { role: DispatchNodeRole::Leader, is_origin }
    }

    pub fn follower(is_origin: bool) -> (r: Self)
        ensures
            r == (DispatchRoute { role: DispatchNodeRole::Follower, is_origin }),
    {
        DispatchRoute { role: DispatchNodeRole::Follower, is_origin }
    }
}

/// Whether a scope takes a node in.
pub open spec fn in_scope(scope: DispatchScope, route: DispatchRoute) -> bool {
    match scope {
        DispatchScope::All => true,
        DispatchScope::Others => !route.is_origin,
        DispatchScope::Followers => route.role is Follower,
        DispatchScope::Leader => route.role is Leader,
        DispatchScope::LocalOnly => route.is_origin,
    }
}

/// The number of a scope on the wire.
pub open spec fn scope_number(scope: DispatchScope) -> u8 {
    match scope {
        DispatchScope::All => 0,
        DispatchScope::Others => 1,
        DispatchScope::Followers => 2,
        DispatchScope::Leader => 3,
        DispatchScope::LocalOnly => 4,
    }
}

impl DispatchScope {
    /// Whether the scope takes in a node.
    pub fn allows(self, route: DispatchRoute) -> (r: bool)
        ensures
            r == in_scope(self, route),
    {
        match self {
            DispatchScope::All => true,
            DispatchScope::Others => !route.is_origin,
            DispatchScope::Followers => matches!(route.role, DispatchNodeRole::Follower),
            DispatchScope::Leader => matches!(route.role, DispatchNodeRole::Leader),
            DispatchScope::LocalOnly => route.is_origin,
        }
    }

    /// The number on the wire.
    pub fn number(self) -> (r: u8)
        ensures
            r == scope_number(self),
    {
        match self {
            DispatchScope::All => 0,
            DispatchScope::Others => 1,
            DispatchScope::Followers => 2,
            DispatchScope::Leader => 3,
            DispatchScope::LocalOnly => 4,
        }
    }
}

/// How many accepts a command needs.
#[derive(Clone, Copy, Debug, PartialEq, Eq, Structural)]
pub enum DispatchAckPolicy {
    All,
    Quorum,
    AtLeast,
    Percent,
    BestEffort,
}

/// The number of an acknowledgement policy on the wire.
pub open spec fn ack_number(policy: DispatchAckPolicy) -> u8 {
    match policy {
        DispatchAckPolicy::All => 0,
        DispatchAckPolicy::Quorum => 1,
        DispatchAckPolicy::AtLeast => 2,
        DispatchAckPolicy::Percent => 3,
        DispatchAckPolicy::BestEffort => 4,
    }
}

impl DispatchAckPolicy {
    /// The number on the wire.
    pub fn number(self) -> (r: u8)
        ensures
            r == ack_number(self),
    {
        match self {
            DispatchAckPolicy::All => 0,
            DispatchAckPolicy::Quorum => 1,
            DispatchAckPolicy::AtLeast => 2,
            DispatchAckPolicy::Percent => 3,
            DispatchAckPolicy::BestEffort => 4,
        }
    }
}

/// How many failures a command survives.
#[derive(Clone, Copy, Debug, PartialEq, Eq, Structural)]
pub enum DispatchFailPolicy {
    AllowFailures,
    NoFailures,
    MaxFailures,
    MaxFailurePercent,
    FailFast,
}

/// The number of a failure policy on the wire.
pub open spec fn fail_number(policy: DispatchFailPolicy) -> u8 {
    match policy {
        DispatchFailPolicy::AllowFailures => 0,
        DispatchFailPolicy::NoFailures => 1,
        DispatchFailPolicy::MaxFailures => 2,
        DispatchFailPolicy::MaxFailurePercent => 3,
        DispatchFailPolicy::FailFast => 4,
    }
}

impl DispatchFailPolicy {
    /// The number on the wire.
    pub fn number(self) -> (r: u8)
        ensures
            r == fail_number(self),
    {
        match self {
            DispatchFailPolicy::AllowFailures => 0,
            DispatchFailPolicy::NoFailures => 1,
            DispatchFailPolicy::MaxFailures => 2,
            DispatchFailPolicy::MaxFailurePercent => 3,
            DispatchFailPolicy::FailFast => 4,
        }
    }
}

/// An acknowledgement policy with its thresholds.
#[derive(Clone, Copy, Debug, PartialEq, Eq, Structural)]
pub struct DispatchAckOptions {
    pub policy: DispatchAckPolicy,
    /// Accepts needed, for `AtLeast`.
    pub count: u16,
    /// Share of accepts needed, for `Percent`.
    pub percent: u8,
}

/// A failure policy with its thresholds.
#[derive(Clone, Copy, Debug, PartialEq, Eq, Structural)]
pub struct DispatchFailOptions {
    pub policy: DispatchFailPolicy,
    /// Failures allowed, for `MaxFailures`.
    pub count: u16,
    /// Share of failures allowed, for `MaxFailurePercent`.
    pub percent: u8,
}

#[derive(Clone, Copy, Debug, PartialEq, Eq, Structural)]
pub struct DispatchOptions {
    pub scope: DispatchScope,
    pub ack: DispatchAckOptions,
    pub fail: DispatchFailOptions,
    pub timeout: Duration,
    pub trace: bool,
}

/// The options of a command that sets none.
pub open spec fn default_options() -> DispatchOptions {
    DispatchOptions {
        scope: DispatchScope::All,
        ack: DispatchAckOptions { policy: DispatchAckPolicy::Quorum, count: 1, percent: 100 },
        fail: DispatchFailOptions {
            policy: DispatchFailPolicy::AllowFailures,
            count: 0,
            percent: 0,
        },
        timeout: Duration { secs: 2, nanos: 0 },
        trace: false,
    }
}

impl Default for DispatchAckOptions {
    fn default() -> (r: Self)
        ensures
            r == default_options().ack,
    {
        DispatchAckOptions { policy: DispatchAckPolicy::Quorum, count: 1, percent: 100 }
    }
}

impl Default for DispatchFailOptions {
    fn default() -> (r: Self)
        ensures
            r == default_options().fail,
    {
        DispatchFailOptions { policy: DispatchFailPolicy::AllowFailures, count: 0, percent: 0 }
    }
}

impl Default for DispatchOptions {
    fn default() -> (r: Self)
        ensures
            r == default_options(),
    {
        DispatchOptions {
            scope: DispatchScope::All,
            ack: DispatchAckOptions::default(),
            fail: DispatchFailOptions::default(),
            timeout: Duration::from_secs(2),
            trace: false,
        }
    }
}

impl DispatchOptions {
    /// With an accept count of at least 1.
    pub open spec fn ack_count_set(self, count: u16) -> DispatchOptions {
        DispatchOptions {
            ack: DispatchAckOptions {
                count: if count == 0 {
                    1
                } else {
                    count
                },
                ..self.ack
            },
            ..self
        }
    }

    /// With an accept share between 1 and 100.
    pub open spec fn ack_percent_set(self, percent: u8) -> DispatchOptions {
        DispatchOptions {
            ack: DispatchAckOptions {
                percent: if percent == 0 {
                    1
                } else if percent > 100 {
                    100
                } else {
                    percent
                },
                ..self.ack
            },
            ..self
        }
    }

    /// With a failure share of at most 100.
    pub open spec fn fail_percent_set(self, percent: u8) -> DispatchOptions {
        DispatchOptions {
            fail: DispatchFailOptions {
                percent: if percent > 100 {
                    100
                } else {
                    percent
                },
                ..self.fail
            },
            ..self
        }
    }

    pub fn set_ack_count(&mut self, count: u16)
        ensures
            *final(self) == old(self).ack_count_set(count),
    {
        self.ack.count = if count == 0 {
            1
        } else {
            count
        };
    }

    pub fn set_ack_percent(&mut self, percent: u8)
        ensures
            *final(self) == old(self).ack_percent_set(percent),
    {
        self.ack.percent = if percent == 0 {
            1
        } else if percent > 100 {
            100
        } else {
            percent
        };
    }

    pub fn set_fail_percent(&mut self, percent: u8)
        ensures
            *final(self) == old(self).fail_percent_set(percent),
    {
        self.fail.percent = if percent > 100 {
            100
        } else {
            percent
        };
    }
}

/// A command: its number, its options where a call sets none, and the four
/// functions that turn parameters and responses into bytes and back.
pub struct DispatchSpec<P, R, EP, DP, ER, DR> {
    pub command: u8,
    pub defaults: DispatchOptions,
    pub encode_params: EP,
    pub decode_params: DP,
    pub encode_response: ER,
    pub decode_response: DR,
    pub _marker: PhantomData<(P, R)>,
}

impl<P, R, EP, DP, ER, DR> DispatchSpec<P, R, EP, DP, ER, DR> where
    EP: Fn(&P) -> Result<Vec<u8>, RaftError>,
    DP: Fn(&[u8]) -> Result<P, RaftError>,
    ER: Fn(&R) -> Result<Vec<u8>, RaftError>,
    DR: Fn(&[u8]) -> Result<R, RaftError>,
 {
    pub fn new(
        command: u8,
        encode_params: EP,
        decode_params: DP,
        encode_response: ER,
        decode_response: DR,
    ) -> (r: Self)
        ensures
            r.command == command,
            r.defaults == default_options(),
            r.encode_params == encode_params,
            r.decode_params == decode_params,
            r.encode_response == encode_response,
            r.decode_response == decode_response,
    {
        DispatchSpec {
            command,
            defaults: DispatchOptions::default(),
            encode_params,
            decode_params,
            encode_response,
            decode_response,
            _marker: PhantomData,
        }
    }

    /// What only the options of two commands may differ in.
    pub open spec fn same_codec(self, other: Self) -> bool {
        &&& self.command == other.command
        &&& self.encode_params == other.encode_params
        &&& self.decode_params == other.decode_params
        &&& self.encode_response == other.encode_response
        &&& self.decode_response == other.decode_response
    }

    pub fn command(&self) -> (r: u8)
        ensures
            r == self.command,
    {
        self.command
    }

    pub fn defaults(&self) -> (r: DispatchOptions)
        ensures
            r == self.defaults,
    {
        self.defaults
    }

    pub fn with_scope(self, scope: DispatchScope) -> (r: Self)
        ensures
            r.same_codec(self),
            r.defaults == (DispatchOptions { scope, ..self.defaults }),
    {
        let mut spec = self;
        spec.defaults.scope = scope;
        spec
    }

    pub fn with_ack_policy(self, policy: DispatchAckPolicy) -> (r: Self)
        ensures
            r.same_codec(self),
            r.defaults == (DispatchOptions {
                ack: DispatchAckOptions { policy, ..self.defaults.ack },
                ..self.defaults
            }),
    {
        let mut spec = self;
        spec.defaults.ack.policy = policy;
        spec
    }

    /// A count of 0 counts as 1.
    pub fn with_ack_count(self, count: u16) -> (r: Self)
        ensures
            r.same_codec(self),
            r.defaults == self.defaults.ack_count_set(count),
    {
        let mut spec = self;
        spec.defaults.set_ack_count(count);
        spec
    }

    /// The share is brought into the range from 1 to 100.
    pub fn with_ack_percent(self, percent: u8) -> (r: Self)
        ensures
            r.same_codec(self),
            r.defaults == self.defaults.ack_percent_set(percent),
    {
        let mut spec = self;
        spec.defaults.set_ack_percent(percent);
        spec
    }

    pub fn with_fail_policy(self, policy: DispatchFailPolicy) -> (r: Self)
        ensures
            r.same_codec(self),
            r.defaults == (DispatchOptions {
                fail: DispatchFailOptions { policy, ..self.defaults.fail },
                ..self.defaults
            }),
    {
        let mut spec = self;
        spec.defaults.fail.policy = policy;
        spec
    }

    pub fn with_fail_count(self, count: u16) -> (r: Self)
        ensures
            r.same_codec(self),
            r.defaults == (DispatchOptions {
                fail: DispatchFailOptions { count, ..self.defaults.fail },
                ..self.defaults
            }),
    {
        let mut spec = self;
        spec.defaults.fail.count = count;
        spec
    }

    /// A share above 100 counts as 100.
    pub fn with_fail_percent(self, percent: u8) -> (r: Self)
        ensures
            r.same_codec(self),
            r.defaults == self.defaults.fail_percent_set(percent),
    {
        let mut spec = self;
        spec.defaults.set_fail_percent(percent);
        spec
    }

    pub fn with_timeout(self, timeout: Duration) -> (r: Self)
        ensures
            r.same_codec(self),
            r.defaults == (DispatchOptions { timeout, ..self.defaults }),
    {
        let mut spec = self;
        spec.defaults.timeout = timeout;
        spec
    }

    pub fn with_trace(self, trace: bool) -> (r: Self)
        ensures
            r.same_codec(self),
            r.defaults == (DispatchOptions { trace, ..self.defaults }),
    {
        let mut spec = self;
        spec.defaults.trace = trace;
        spec
    }

    /// What the command's function makes of `params`.
    pub fn encode_params(&self, params: &P) -> (r: Result<Vec<u8>, RaftError>)
        requires
            call_requires(self.encode_params, (params,)),
        ensures
            call_ensures(self.encode_params, (params,), r),
    {
        (self.encode_params)(params)
    }

    /// What the command's function makes of `bytes`.
    pub fn decode_params(&self, bytes: &[u8]) -> (r: Result<P, RaftError>)
        requires
            call_requires(self.decode_params, (bytes,)),
        ensures
            call_ensures(self.decode_params, (bytes,), r),
    {
        (self.decode_params)(bytes)
    }

    /// What the command's function makes of `value`.
    pub fn encode_response(&self, value: &R) -> (r: Result<Vec<u8>, RaftError>)
        requires
            call_requires(self.encode_response, (value,)),
        ensures
            call_ensures(self.encode_response, (value,), r),
    {
        (self.encode_response)(value)
    }

    /// What the command's function makes of `bytes`.
    pub fn decode_response(&self, bytes: &[u8]) -> (r: Result<R, RaftError>)
        requires
            call_requires(self.decode_response, (bytes,)),
        ensures
            call_ensures(self.decode_response, (bytes,), r),
    {
        (self.decode_response)(bytes)
    }
}

/// What a call sets stays within its bounds, and a value within the bounds is taken as it
/// is: a command waits for one accept at least, asks for a share of accepts between 1 and
/// 100, and allows a share of failures of 100 at most. Nothing else is touched.
pub proof fn law_options_stay_within_bounds(o: DispatchOptions, count: u16, percent: u8)
    ensures
        ({
            let n = o.ack_count_set(count);
            &&& 1 <= n.ack.count && count <= n.ack.count <= count + 1
            &&& count >= 1 ==> n.ack.count == count
            &&& n.ack.policy == o.ack.policy && n.ack.percent == o.ack.percent
            &&& n.scope == o.scope && n.fail == o.fail && n.timeout == o.timeout
            &&& n.trace == o.trace
        }),
        ({
            let n = o.ack_percent_set(percent);
            &&& 1 <= n.ack.percent <= 100
            &&& 1 <= percent <= 100 ==> n.ack.percent == percent
            &&& percent > 100 ==> n.ack.percent == 100
            &&& n.ack.policy == o.ack.policy && n.ack.count == o.ack.count
            &&& n.scope == o.scope && n.fail == o.fail && n.timeout == o.timeout
            &&& n.trace == o.trace
        }),
        ({
            let n = o.fail_percent_set(percent);
            &&& n.fail.percent <= 100
            &&& percent <= 100 ==> n.fail.percent == percent
            &&& percent > 100 ==> n.fail.percent == 100
            &&& n.fail.policy == o.fail.policy && n.fail.count == o.fail.count
            &&& n.scope == o.scope && n.ack == o.ack && n.timeout == o.timeout
            &&& n.trace == o.trace
        }),
{
}

} // verus!
