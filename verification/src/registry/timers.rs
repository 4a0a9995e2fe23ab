//! When a group's heartbeats and elections are due.

use vstd::prelude::*;

use crate::config::TimingConfig;
use crate::node::progress::deadline;
use crate::types::GroupId;

verus! {

/// `a` times `b`, without what overflows.
pub open spec fn product(a: u64, b: u64) -> u64 {
    ((a * b) % 0x1_0000_0000_0000_0000) as u64
}

/// The finalizer of the splitmix generator.
pub open spec fn mixed64(x: u64) -> u64 {
    let a = product(x ^ (x >> 30), 0xbf58_476d_1ce4_e5b9);
    let b = product(a ^ (a >> 27), 0x94d0_49bb_1331_11eb);
    b ^ (b >> 31)
}

/// The finalizer of the splitmix generator.
pub fn mix64(x: u64) -> (r: u64)
    ensures
        r == mixed64(x),
{
    let a: u64 = (x ^ (x >> 30)).wrapping_mul(0xbf58_476d_1ce4_e5b9);
    let b: u64 = (a ^ (a >> 27)).wrapping_mul(0x94d0_49bb_1331_11eb);
    b ^ (b >> 31)
}

/// The timers of one group. Times are in milliseconds.
#[derive(Clone, Copy, Debug, PartialEq, Eq, Structural)]
pub struct GroupTimers {
    pub next_election_ms: u64,
    pub next_heartbeat_ms: u64,
    /// Whether the next election was sanctioned by the leader, so that it skips
    /// the pre-vote.
    pub forced_campaign: bool,
    pub rng: u64,
    pub heartbeat_ms: u64,
    pub election_min_ms: u64,
    pub election_max_ms: u64,
}

pub open spec fn at_least_one(n: u64) -> u64 {
    if n == 0 {
        1
    } else {
        n
    }
}

/// The timers of a group that has just come: the election is put off by a
/// timeout that depends on the group and the node, the heartbeat by an interval.
pub open spec fn fresh_timers(
    gid: GroupId,
    node_id: u64,
    timing: TimingConfig,
    now_ms: u64,
) -> GroupTimers {
    GroupTimers {
        next_election_ms: now_ms,
        next_heartbeat_ms: now_ms,
        forced_campaign: false,
        rng: mixed64(gid.0 ^ product(node_id, 0x9e37_79b9_7f4a_7c15)),
        heartbeat_ms: at_least_one(timing.heartbeat_ms),
        election_min_ms: at_least_one(timing.election_min_ms),
        election_max_ms: if timing.election_max_ms < at_least_one(
            timing.election_min_ms,
        ) {
            at_least_one(timing.election_min_ms)
        } else {
            timing.election_max_ms
        },
    }.election_reset(now_ms).heartbeat_reset(now_ms)
}

impl GroupTimers {
    pub open spec fn wf(self) -> bool {
        &&& self.heartbeat_ms >= 1
        &&& 1 <= self.election_min_ms <= self.election_max_ms
    }

    /// How long the next election timeout is: somewhere between the shortest
    /// and the longest.
    pub open spec fn next_timeout(self) -> u64 {
        (self.election_min_ms + mixed64(self.rng) % ((self.election_max_ms - self.election_min_ms
            + 1) as u64)) as u64
    }

    /// The timers with the election put off.
    pub open spec fn election_reset(self, now_ms: u64) -> GroupTimers {
        GroupTimers {
            rng: mixed64(self.rng),
            next_election_ms: deadline(now_ms, self.next_timeout()),
            ..self
        }
    }

    /// The timers with the heartbeat put off.
    pub open spec fn heartbeat_reset(self, now_ms: u64) -> GroupTimers {
        GroupTimers { next_heartbeat_ms: deadline(now_ms, self.heartbeat_ms), ..self }
    }

    /// The timers after a frame for the group. A campaign that it sanctions is
    /// due at once.
    pub open spec fn after_frame(self, forced: bool, now_ms: u64) -> GroupTimers {
        let t = self.election_reset(now_ms);
        if forced {
            GroupTimers { next_election_ms: now_ms, forced_campaign: true, ..t }
        } else {
            t
        }
    }

    /// Whether one of them is due.
    pub open spec fn due(self, now_ms: u64) -> bool {
        now_ms >= self.next_heartbeat_ms || now_ms >= self.next_election_ms
    }

    pub fn new(gid: GroupId, node_id: u64, timing: TimingConfig, now_ms: u64) -> (r: Self)
        ensures
            r.wf(),
            r == fresh_timers(gid, node_id, timing, now_ms),
    {
        let shortest: u64 = if timing.election_min_ms == 0 {
            1
        } else {
            timing.election_min_ms
        };
        let mut t = GroupTimers {
            next_election_ms: now_ms,
            next_heartbeat_ms: now_ms,
            forced_campaign: false,
            rng: mix64(gid.0 ^ node_id.wrapping_mul(0x9e37_79b9_7f4a_7c15)),
            heartbeat_ms: if timing.heartbeat_ms == 0 {
                1
            } else {
                timing.heartbeat_ms
            },
            election_min_ms: shortest,
            election_max_ms: if timing.election_max_ms < shortest {
                shortest
            } else {
                timing.election_max_ms
            },
        };
        t.reset_election(now_ms);
        t.reset_heartbeat(now_ms);
        t
    }

    pub fn reset_heartbeat(&mut self, now_ms: u64)
        ensures
            *final(self) == old(self).heartbeat_reset(now_ms),
    {
        self.next_heartbeat_ms = now_ms.saturating_add(self.heartbeat_ms);
    }

    pub fn reset_election(&mut self, now_ms: u64)
        requires
            old(self).wf(),
        ensures
            *final(self) == old(self).election_reset(now_ms),
            final(self).wf(),
    {
        let span: u64 = self.election_max_ms - self.election_min_ms + 1;
        self.rng = mix64(self.rng);
        let jitter: u64 = self.rng % span;
        self.next_election_ms = now_ms.saturating_add(self.election_min_ms + jitter);
    }

    /// Puts the election off because a frame for the group arrived, or makes it
    /// due at once because the frame sanctions a campaign.
    pub fn note_frame(&mut self, forced: bool, now_ms: u64)
        requires
            old(self).wf(),
        ensures
            *final(self) == old(self).after_frame(forced, now_ms),
            final(self).wf(),
    {
        self.reset_election(now_ms);
        if forced {
            self.next_election_ms = now_ms;
            self.forced_campaign = true;
        }
    }

    /// How long until one of them is due, and at most `wait`.
    pub fn wait_at_most(&self, wait: u64, now_ms: u64) -> (r: u64)
        ensures
            r <= wait,
            self.due(now_ms) ==> r == 0,
            !self.due(now_ms) ==> (r == wait || self.due((now_ms + r) as u64)) && (r < wait
                ==> now_ms + r <= u64::MAX) && forall|t: u64|
                now_ms <= t < now_ms + r ==> !(#[trigger] self.due(t)),
    {
        let heartbeat: u64 = self.next_heartbeat_ms.saturating_sub(now_ms);
        let election: u64 = self.next_election_ms.saturating_sub(now_ms);
        let mut r: u64 = wait;
        if heartbeat < r {
            r = heartbeat;
        }
        if election < r {
            r = election;
        }
        r
    }
}

/// Every election timeout lies between the shortest and the longest configured
/// one.
pub proof fn law_election_timeouts_are_in_range(t: GroupTimers, now_ms: u64)
    requires
        t.wf(),
        now_ms + t.election_max_ms <= u64::MAX,
    ensures
        ({
            let n = t.election_reset(now_ms);
            &&& now_ms + t.election_min_ms <= n.next_election_ms
            &&& n.next_election_ms <= now_ms + t.election_max_ms
            &&& n.wf()
        }),
{
}

/// A group that has just come waits an interval for its first heartbeat and a timeout in
/// the configured range for its first election, and nothing of it is sanctioned.
pub proof fn law_new_groups_wait_their_turn(
    gid: GroupId,
    node_id: u64,
    timing: TimingConfig,
    now_ms: u64,
)
    requires
        now_ms + timing.heartbeat_ms < u64::MAX,
        now_ms + timing.election_min_ms < u64::MAX,
        now_ms + timing.election_max_ms < u64::MAX,
    ensures
        ({
            let t = fresh_timers(gid, node_id, timing, now_ms);
            &&& timing.heartbeat_ms > 0 ==> t.next_heartbeat_ms == now_ms + timing.heartbeat_ms
            &&& t.next_heartbeat_ms > now_ms
            &&& t.next_election_ms > now_ms
            &&& t.next_election_ms >= now_ms + timing.election_min_ms
            &&& 0 < timing.election_min_ms <= timing.election_max_ms ==> t.next_election_ms
                <= now_ms + timing.election_max_ms
            &&& !t.forced_campaign
        }),
{
    let shortest = at_least_one(timing.election_min_ms);
    let longest = if timing.election_max_ms < shortest {
        shortest
    } else {
        timing.election_max_ms
    };
    let start = GroupTimers {
        next_election_ms: now_ms,
        next_heartbeat_ms: now_ms,
        forced_campaign: false,
        rng: mixed64(gid.0 ^ product(node_id, 0x9e37_79b9_7f4a_7c15)),
        heartbeat_ms: at_least_one(timing.heartbeat_ms),
        election_min_ms: shortest,
        election_max_ms: longest,
    };
    law_election_timeouts_are_in_range(start, now_ms);
}

/// A frame for a group puts its election off by a timeout in the configured range, unless
/// it sanctions a campaign: that is due at once, and skips the pre-vote. Neither touches
/// the heartbeat.
pub proof fn law_frames_put_elections_off(t: GroupTimers, forced: bool, now_ms: u64)
    requires
        t.wf(),
        now_ms + t.election_max_ms <= u64::MAX,
    ensures
        ({
            let n = t.after_frame(forced, now_ms);
            &&& forced ==> n.next_election_ms == now_ms && n.forced_campaign
            &&& !forced ==> {
                &&& now_ms + t.election_min_ms <= n.next_election_ms <= now_ms + t.election_max_ms
                &&& n.forced_campaign == t.forced_campaign
            }
            &&& n.next_heartbeat_ms == t.next_heartbeat_ms
            &&& n.election_min_ms == t.election_min_ms && n.election_max_ms == t.election_max_ms
            &&& n.heartbeat_ms == t.heartbeat_ms
        }),
{
    law_election_timeouts_are_in_range(t, now_ms);
}

/// Multiplying by a number that has an inverse loses nothing.
proof fn lemma_product_undone(a: u64, c: int, inverse: int, k: int)
    requires
        0 <= c <= u64::MAX,
        c * inverse == k * 0x1_0000_0000_0000_0000 + 1,
    ensures
        (product(a, c as u64) * inverse) % 0x1_0000_0000_0000_0000 == a,
{
    let size: int = 0x1_0000_0000_0000_0000;
    vstd::arithmetic::div_mod::lemma_mul_mod_noop_left(a * c, inverse, size);
    assert((a * c) * inverse == size * (a * k) + a) by (nonlinear_arith)
        requires
            c * inverse == k * size + 1,
    ;
    vstd::arithmetic::div_mod::lemma_mod_multiples_vanish(a * k, a as int, size);
    vstd::arithmetic::div_mod::lemma_small_mod(a as nat, size as nat);
}

/// The finalizer takes no two numbers to the same one.
proof fn lemma_mixing_loses_nothing(x: u64, y: u64)
    requires
        mixed64(x) == mixed64(y),
    ensures
        x == y,
{
    let (p, q) = (x ^ (x >> 30), y ^ (y >> 30));
    let (a, b) = (product(p, 0xbf58_476d_1ce4_e5b9), product(q, 0xbf58_476d_1ce4_e5b9));
    let (s, t) = (a ^ (a >> 27), b ^ (b >> 27));
    let (c, d) = (product(s, 0x94d0_49bb_1331_11eb), product(t, 0x94d0_49bb_1331_11eb));
    assert(c ^ (c >> 31) == d ^ (d >> 31) ==> c == d) by (bit_vector);
    lemma_product_undone(
        s,
        0x94d0_49bb_1331_11eb,
        0x3196_42b2_d24d_8ec3,
        2077064247507883091,
    );
    lemma_product_undone(
        t,
        0x94d0_49bb_1331_11eb,
        0x3196_42b2_d24d_8ec3,
        2077064247507883091,
    );
    assert(a ^ (a >> 27) == b ^ (b >> 27) ==> a == b) by (bit_vector);
    lemma_product_undone(
        p,
        0xbf58_476d_1ce4_e5b9,
        0x96de_1b17_3f11_9089,
        8125545580553827436,
    );
    lemma_product_undone(
        q,
        0xbf58_476d_1ce4_e5b9,
        0x96de_1b17_3f11_9089,
        8125545580553827436,
    );
    assert(x ^ (x >> 30) == y ^ (y >> 30) ==> x == y) by (bit_vector);
}

/// Timeouts are drawn apart: no two nodes of a group start from the same state, nor do two
/// groups of a node, and a draw never takes two states to the same one.
pub proof fn law_timeouts_are_drawn_apart(
    gid: GroupId,
    other: GroupId,
    a: u64,
    b: u64,
    timing: TimingConfig,
    now_ms: u64,
    s: GroupTimers,
    t: GroupTimers,
)
    ensures
        fresh_timers(gid, a, timing, now_ms).rng == fresh_timers(gid, b, timing, now_ms).rng
            <==> a == b,
        fresh_timers(gid, a, timing, now_ms).rng == fresh_timers(other, a, timing, now_ms).rng
            <==> gid == other,
        s.election_reset(now_ms).rng == t.election_reset(now_ms).rng <==> s.rng == t.rng,
{
    let (x, y) = (product(a, 0x9e37_79b9_7f4a_7c15), product(b, 0x9e37_79b9_7f4a_7c15));
    let (g, h) = (gid.0, other.0);
    lemma_product_undone(a, 0x9e37_79b9_7f4a_7c15, 0xf1de_83e1_9937_733d, 10771413168148108919);
    lemma_product_undone(b, 0x9e37_79b9_7f4a_7c15, 0xf1de_83e1_9937_733d, 10771413168148108919);
    assert(g ^ x == g ^ y ==> x == y) by (bit_vector);
    assert(g ^ x == h ^ x ==> g == h) by (bit_vector);
    if mixed64(mixed64(g ^ x)) == mixed64(mixed64(g ^ y)) {
        lemma_mixing_loses_nothing(mixed64(g ^ x), mixed64(g ^ y));
        lemma_mixing_loses_nothing(g ^ x, g ^ y);
    }
    if mixed64(mixed64(g ^ x)) == mixed64(mixed64(h ^ x)) {
        lemma_mixing_loses_nothing(mixed64(g ^ x), mixed64(h ^ x));
        lemma_mixing_loses_nothing(g ^ x, h ^ x);
    }
    if mixed64(s.rng) == mixed64(t.rng) {
        lemma_mixing_loses_nothing(s.rng, t.rng);
    }
}

} // verus!
