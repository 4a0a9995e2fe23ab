//! One turn of the driver: the frames that were parked, a burst from the transport,
//! a wait for one frame where there was nothing, and the timers.

use vstd::prelude::*;

use super::driver::MultiRaftDriver;
use super::timers::GroupTimers;
use crate::time::{millis_span, Duration};
use crate::traits::{RaftStorage, StateMachine};

verus! {

/// Frames that one turn handles at most before it looks at the timers.
pub const TURN_FRAMES: usize = 128;

/// Where the frames of a turn come from.
#[derive(Clone, Copy, Debug, PartialEq, Eq, Structural)]
pub enum TurnStage {
    /// From those that were parked.
    Parked,
    /// From the transport, without waiting.
    Burst,
    /// From the transport, after a wait.
    Idle,
    /// From nowhere any more.
    Done,
}

/// A turn under way.
#[derive(Clone, Copy, Debug, PartialEq, Eq, Structural)]
pub struct Turn {
    pub stage: TurnStage,
    /// Frames handled so far.
    pub handled: usize,
}

/// What a turn does next.
#[derive(Clone, Copy, Debug, PartialEq, Eq, Structural)]
pub enum TurnStep {
    /// Take a parked frame.
    Parked,
    /// Take a frame from the transport if there is one.
    Poll,
    /// Wait so long for a frame from the transport.
    Wait(Duration),
    /// Service the timers; the turn ends.
    Timers,
}

impl Turn {
    /// Whether the turn takes no more frames.
    pub open spec fn over(self) -> bool {
        self.stage is Done || self.handled >= TURN_FRAMES
    }

    /// The turn once a step has brought a frame, or none. A source that has none is
    /// left for the next one; after a wait there is no other.
    pub open spec fn after(self, took: bool) -> Turn {
        Turn {
            stage: match self.stage {
                TurnStage::Parked => if took {
                    TurnStage::Parked
                } else {
                    TurnStage::Burst
                },
                TurnStage::Burst => if took {
                    TurnStage::Burst
                } else {
                    TurnStage::Idle
                },
                TurnStage::Idle => TurnStage::Done,
                TurnStage::Done => TurnStage::Done,
            },
            handled: if took && !self.over() {
                (self.handled + 1) as usize
            } else {
                self.handled
            },
        }
    }

    /// How many steps the turn may still take before the timers.
    pub open spec fn steps_left(self) -> int {
        if self.over() {
            0
        } else {
            TURN_FRAMES - self.handled + match self.stage {
                TurnStage::Parked => 3int,
                TurnStage::Burst => 2int,
                TurnStage::Idle => 1int,
                TurnStage::Done => 0int,
            }
        }
    }

    /// A turn begins with the parked frames.
    pub fn new() -> (r: Self)
        ensures
            r == (Turn { stage: TurnStage::Parked, handled: 0 }),
    {
        Turn { stage: TurnStage::Parked, handled: 0 }
    }

    /// Notes whether the last step brought a frame.
    pub fn note(&mut self, took: bool)
        ensures
            *final(self) == old(self).after(took),
    {
        if took && self.handled < TURN_FRAMES && !matches!(self.stage, TurnStage::Done) {
            self.handled = self.handled + 1;
        }
        self.stage =
        match self.stage {
            TurnStage::Parked => if took {
                TurnStage::Parked
            } else {
                TurnStage::Burst
            },
            TurnStage::Burst => if took {
                TurnStage::Burst
            } else {
                TurnStage::Idle
            },
            TurnStage::Idle => TurnStage::Done,
            TurnStage::Done => TurnStage::Done,
        };
    }
}

/// Whether `wait` is how long an idle driver may wait: at most `max_wait`, no timer
/// falls due before it is over, and where it is shorter than `max_wait` a timer
/// falls due at its end, or it is the longest wait that milliseconds count.
pub open spec fn is_idle_wait(
    timers: Map<u64, GroupTimers>,
    max_wait: Duration,
    now_ms: u64,
    wait: Duration,
) -> bool {
    &&& wait.length() <= max_wait.length()
    &&& forall|g: u64, t: u64|
        timers.dom().contains(g) && now_ms <= t && (t - now_ms) * 1_000_000 < wait.length() ==> !(
        #[trigger] timers[g].due(t))
    &&& wait.length() < max_wait.length() ==> wait == millis_span(u64::MAX) || falls_due(
        timers,
        now_ms,
        wait,
    )
}

/// Whether a timer is due once `wait` is over.
pub open spec fn falls_due(timers: Map<u64, GroupTimers>, now_ms: u64, wait: Duration) -> bool {
    exists|g: u64, t: u64|
        timers.dom().contains(g) && now_ms <= t && wait == millis_span((t - now_ms) as u64)
            && #[trigger] timers[g].due(t)
}

/// What a turn does next.
pub open spec fn turn_outcome(
    timers: Map<u64, GroupTimers>,
    turn: Turn,
    max_wait: Duration,
    now_ms: u64,
    r: TurnStep,
) -> bool {
    if turn.over() {
        r == TurnStep::Timers
    } else {
        match turn.stage {
            TurnStage::Parked => r == TurnStep::Parked,
            TurnStage::Burst => r == TurnStep::Poll,
            _ => if turn.handled > 0 || max_wait.length() == 0 {
                r == TurnStep::Timers
            } else {
                match r {
                    TurnStep::Wait(wait) => wait.length() > 0 && is_idle_wait(
                        timers,
                        max_wait,
                        now_ms,
                        wait,
                    ),
                    _ => r == TurnStep::Timers && falls_due(timers, now_ms, millis_span(0)),
                }
            },
        }
    }
}

/// The milliseconds that cover a span, as far as 64 bits count.
fn covering_millis(span: Duration) -> (r: u64)
    ensures
        r * 1_000_000 >= span.length() || r == u64::MAX,
        r > 0 ==> (r - 1) * 1_000_000 < span.length(),
{
    let nanos: u128 = span.as_nanos();
    let whole: u128 = nanos / 1_000_000;
    let covering: u128 = if nanos % 1_000_000 == 0 {
        whole
    } else {
        whole + 1
    };
    if covering > u64::MAX as u128 {
        u64::MAX
    } else {
        covering as u64
    }
}

impl<S: RaftStorage, T, M: StateMachine> MultiRaftDriver<S, T, M> {
    /// What a turn does next. Frames come first, up to a bound: those that were
    /// parked, then what the transport has. Only where there was none at all is one
    /// waited for, for at most `max_wait` and not past the first timer. The timers
    /// come last.
    pub fn turn_step(&self, turn: &Turn, max_wait: Duration, now_ms: u64) -> (r: TurnStep)
        ensures
            turn_outcome(self.timers@, *turn, max_wait, now_ms, r),
    {
        if turn.handled >= TURN_FRAMES {
            return TurnStep::Timers;
        }
        match turn.stage {
            TurnStage::Parked => TurnStep::Parked,
            TurnStage::Burst => TurnStep::Poll,
            TurnStage::Done => TurnStep::Timers,
            TurnStage::Idle => {
                let most: u64 = covering_millis(max_wait);
                if turn.handled > 0 || most == 0 {
                    return TurnStep::Timers;
                }
                let millis: u64 = self.idle_wait(most, now_ms);
                let wait = Duration::from_millis(millis);
                proof {
                    if millis < most {
                        let due_at = (now_ms + millis) as u64;
                        let g = choose|g: u64| #[trigger]
                            self.timers@.dom().contains(g) && self.timers@[g].due(due_at);
                        assert(self.timers@[g].due(due_at));
                    }
                }
                if millis == 0 {
                    TurnStep::Timers
                } else if wait.as_nanos() > max_wait.as_nanos() {
                    TurnStep::Wait(max_wait)
                } else {
                    TurnStep::Wait(wait)
                }
            },
        }
    }
}

/// A turn comes to its timers: every step before them brings it closer, whether it
/// brought a frame or not, and no turn handles more than its share of frames.
pub proof fn law_turns_reach_the_timers(turn: Turn, took: bool)
    requires
        turn.handled <= TURN_FRAMES,
    ensures
        turn.after(took).handled <= TURN_FRAMES,
        !turn.over() ==> 0 <= turn.after(took).steps_left() < turn.steps_left(),
        turn.over() ==> turn.after(took).over(),
{
}

/// Every source of frames is used until it has none left, in this order: what was parked,
/// what the transport has, and one frame that is waited for. Each frame counts once, and a
/// turn ends with its sources or with its share of frames.
pub proof fn law_turns_go_through_their_sources(turn: Turn, took: bool)
    requires
        turn.handled < 128,
    ensures
        turn.stage is Parked ==> {
            &&& turn.after(true).stage is Parked
            &&& turn.after(false).stage is Burst
        },
        turn.stage is Burst ==> {
            &&& turn.after(true).stage is Burst
            &&& turn.after(false).stage is Idle
        },
        turn.stage is Idle ==> turn.after(took).stage is Done,
        turn.stage is Done ==> turn.after(took) == turn,
        turn.over() <==> turn.stage is Done,
        !(turn.stage is Done) ==> turn.after(true).handled == turn.handled + 1,
        turn.after(false).handled == turn.handled,
        !(turn.stage is Done) && turn.handled == 127 ==> turn.after(true).over(),
{
}

/// A turn takes what was parked before it asks the transport, and it waits only where there
/// was nothing at all: for some time, no longer than it may, and past no timer of any group.
/// It goes to the timers without a wait only where a frame came or one of them is due, or
/// where it may not wait.
pub proof fn law_waits_end_before_the_timers(
    timers: Map<u64, GroupTimers>,
    turn: Turn,
    max_wait: Duration,
    now_ms: u64,
    r: TurnStep,
    g: u64,
)
    requires
        turn_outcome(timers, turn, max_wait, now_ms, r),
    ensures
        r is Parked <==> turn.stage is Parked && turn.handled < 128,
        r is Poll <==> turn.stage is Burst && turn.handled < 128,
        r matches TurnStep::Wait(wait) ==> {
            &&& turn.stage is Idle && turn.handled == 0
            &&& 0 < wait.length() <= max_wait.length()
            &&& timers.dom().contains(g) ==> {
                let t = timers[g];
                &&& t.next_heartbeat_ms > now_ms && t.next_election_ms > now_ms
                &&& wait.length() <= (t.next_heartbeat_ms - now_ms) * 1_000_000
                &&& wait.length() <= (t.next_election_ms - now_ms) * 1_000_000
            }
        },
        r is Timers && turn.stage is Idle && turn.handled == 0 && max_wait.length() > 0
            ==> exists|h: u64| #[trigger]
            timers.dom().contains(h) && (timers[h].next_heartbeat_ms <= now_ms
                || timers[h].next_election_ms <= now_ms),
{
    match r {
        TurnStep::Wait(wait) => {
            if timers.dom().contains(g) {
                let t = timers[g];
                assert(!t.due(now_ms));
                assert(t.due(t.next_heartbeat_ms));
                assert(t.due(t.next_election_ms));
            }
        },
        TurnStep::Timers => {
            if turn.stage is Idle && turn.handled == 0 && max_wait.length() > 0 {
                let (h, t) = choose|h: u64, t: u64|
                    timers.dom().contains(h) && now_ms <= t && millis_span(0) == millis_span(
                        (t - now_ms) as u64,
                    ) && #[trigger] timers[h].due(t);
                assert(timers.dom().contains(h));
                let ms = (t - now_ms) as u64;
                assert(millis_span(ms).length() == ms * 1_000_000) by {
                    assert(ms == 1000 * (ms / 1000) + ms % 1000);
                }
                assert(millis_span(0).length() == 0);
            }
        },
        _ => {},
    }
}

} // verus!
