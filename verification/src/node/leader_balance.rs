//! A placement heuristic that spreads leaderships over the nodes of many groups.

use vstd::prelude::*;

use crate::time::{millis_span, Duration};

verus! {

/// The least number of groups per node that covers all groups: the quotient
/// rounded up. Without nodes it is the number of groups.
pub open spec fn fair_share_spec(total_groups: int, total_nodes: int) -> int {
    if total_nodes == 0 {
        total_groups
    } else {
        (total_groups + total_nodes - 1) / total_nodes
    }
}

/// The fair share of groups per node when leaders are spread evenly.
pub fn fair_share(total_groups: usize, total_nodes: usize) -> (r: usize)
    ensures
        r == fair_share_spec(total_groups as int, total_nodes as int),
{
    if total_nodes == 0 {
        return total_groups;
    }
    let whole: usize = total_groups / total_nodes;
    let left: usize = total_groups % total_nodes;
    proof {
        lemma_rounded_up(total_groups as int, total_nodes as int);
    }
    if left > 0 {
        whole + 1
    } else {
        whole
    }
}

proof fn lemma_rounded_up(a: int, d: int)
    by (nonlinear_arith)
    requires
        a >= 0,
        d > 0,
    ensures
        (a + d - 1) / d == a / d + (if a % d > 0 {
            1int
        } else {
            0int
        }),
        a % d > 0 ==> a / d < a || a / d == 0,
        0 <= a / d <= a,
{
    let q = a / d;
    let r = a % d;
    assert(a == q * d + r);
    if r > 0 {
        assert(a + d - 1 == (q + 1) * d + (r - 1));
        assert((a + d - 1) / d == q + 1);
    } else {
        assert(a + d - 1 == q * d + (d - 1));
        assert((a + d - 1) / d == q);
    }
}

/// The penalty in milliseconds before it is capped: linear in the leaderships above
/// the fair share, as far as 64 bits count.
pub open spec fn linear_penalty(leaders_held: int, share: int, per_extra_leader_ms: int) -> int {
    if leaders_held <= share {
        0
    } else if (leaders_held - share) * per_extra_leader_ms > u64::MAX {
        u64::MAX as int
    } else {
        (leaders_held - share) * per_extra_leader_ms
    }
}

/// The penalty: linear in the leaderships above the fair share, and at most
/// `max_penalty`.
pub open spec fn pre_vote_penalty(
    leaders_held: int,
    share: int,
    per_extra_leader_ms: int,
    max_penalty: Duration,
) -> Duration {
    let linear = linear_penalty(leaders_held, share, per_extra_leader_ms);
    if leaders_held <= share {
        Duration { secs: 0, nanos: 0 }
    } else if linear * 1_000_000 > max_penalty.length() {
        max_penalty
    } else {
        millis_span(linear as u64)
    }
}

/// The extra time a node waits before a pre-vote when it already leads more
/// groups than its fair share.
pub fn extra_pre_vote_delay(
    leaders_held: usize,
    total_groups: usize,
    total_nodes: usize,
    per_extra_leader_ms: u64,
    max_penalty: Duration,
) -> (r: Duration)
    ensures
        r == pre_vote_penalty(
            leaders_held as int,
            fair_share_spec(total_groups as int, total_nodes as int),
            per_extra_leader_ms as int,
            max_penalty,
        ),
{
    let share: usize = fair_share(total_groups, total_nodes);
    if leaders_held <= share {
        return Duration::zero();
    }
    let excess: u64 = (leaders_held - share) as u64;
    let linear: u64 = match excess.checked_mul(per_extra_leader_ms) {
        Some(ms) => ms,
        None => u64::MAX,
    };
    let penalty = Duration::from_millis(linear);
    if penalty.as_nanos() > max_penalty.as_nanos() {
        max_penalty
    } else {
        penalty
    }
}

/// A node at or below its fair share is never delayed, no node is delayed past
/// the cap, and leading one group more never shortens the delay.
pub proof fn law_penalty_is_bounded_and_monotone(
    held: int,
    share: int,
    per_extra_leader_ms: int,
    max_penalty: Duration,
)
    requires
        0 <= per_extra_leader_ms,
    ensures
        held <= share ==> pre_vote_penalty(
            held,
            share,
            per_extra_leader_ms,
            max_penalty,
        ).length() == 0,
        0 <= pre_vote_penalty(held, share, per_extra_leader_ms, max_penalty).length()
            <= max_penalty.length(),
        pre_vote_penalty(held, share, per_extra_leader_ms, max_penalty).length()
            <= pre_vote_penalty(held + 1, share, per_extra_leader_ms, max_penalty).length(),
{
    if held > share {
        assert((held - share) * per_extra_leader_ms >= 0) by (nonlinear_arith)
            requires
                held > share,
                per_extra_leader_ms >= 0,
        ;
        assert((held + 1 - share) * per_extra_leader_ms == (held - share) * per_extra_leader_ms
            + per_extra_leader_ms) by (nonlinear_arith);
    } else {
        assert((held + 1 - share) * per_extra_leader_ms >= 0 || held + 1 <= share)
            by (nonlinear_arith)
            requires
                per_extra_leader_ms >= 0,
        ;
    }
}

/// The fair shares of all nodes together cover every group, and no smaller
/// share would.
pub proof fn law_fair_share_covers(total_groups: int, total_nodes: int)
    requires
        total_groups >= 0,
        total_nodes > 0,
    ensures
        fair_share_spec(total_groups, total_nodes) * total_nodes >= total_groups,
        total_groups > 0 ==> (fair_share_spec(total_groups, total_nodes) - 1) * total_nodes
            < total_groups,
{
    lemma_rounded_up(total_groups, total_nodes);
    let q = total_groups / total_nodes;
    let r = total_groups % total_nodes;
    assert(total_groups == q * total_nodes + r && 0 <= r < total_nodes) by (nonlinear_arith)
        requires
            total_nodes > 0,
            q == total_groups / total_nodes,
            r == total_groups % total_nodes,
    ;
    assert((q + 1) * total_nodes == q * total_nodes + total_nodes) by (nonlinear_arith);
    assert((q - 1) * total_nodes == q * total_nodes - total_nodes) by (nonlinear_arith);
}

/// Below the cap every leadership above the fair share costs the same: the delay is the
/// price of one, as many times as there are too many. The cap is reached only where that
/// would be more.
pub proof fn law_penalty_is_linear_below_the_cap(
    held: int,
    share: int,
    per_extra_leader_ms: int,
    max_penalty: Duration,
)
    requires
        held > share,
        0 <= per_extra_leader_ms,
        (held - share) * per_extra_leader_ms <= u64::MAX,
    ensures
        ({
            let delay = pre_vote_penalty(held, share, per_extra_leader_ms, max_penalty).length();
            let price = (held - share) * per_extra_leader_ms * 1_000_000;
            &&& price <= max_penalty.length() ==> delay == price
            &&& price >= max_penalty.length() ==> delay == max_penalty.length()
        }),
{
    assert((held - share) * per_extra_leader_ms >= 0) by (nonlinear_arith)
        requires
            held > share,
            per_extra_leader_ms >= 0,
    ;
}

} // verus!
