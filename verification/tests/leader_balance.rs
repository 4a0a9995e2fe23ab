use arbitro_raft::node::leader_balance::{extra_pre_vote_delay, fair_share};
use arbitro_raft::time::Duration;

#[test]
fn zero_when_at_share() {
    assert_eq!(
        extra_pre_vote_delay(4, 12, 3, 25, Duration::from_millis(500)),
        Duration::zero(),
    );
}

#[test]
fn linear_penalty_above_share() {
    // Share = 4 (12 / 3). Held 6, so 2 above it: 2 * 25 = 50ms.
    assert_eq!(
        extra_pre_vote_delay(6, 12, 3, 25, Duration::from_millis(500)),
        Duration::from_millis(50),
    );
}

#[test]
fn caps_at_max_penalty() {
    // Share = 1 (10 / 10). Held 10, so 9 above it: 9 * 500 = 4500ms, capped at 200ms.
    assert_eq!(
        extra_pre_vote_delay(10, 10, 10, 500, Duration::from_millis(200)),
        Duration::from_millis(200),
    );
}

#[test]
fn zero_nodes_returns_share_equal_to_groups() {
    assert_eq!(fair_share(5, 0), 5);
}

#[test]
fn share_is_rounded_up() {
    assert_eq!(fair_share(10, 3), 4);
    assert_eq!(fair_share(9, 3), 3);
    assert_eq!(fair_share(0, 3), 0);
}

#[test]
fn caps_hold_to_the_nanosecond() {
    // 2 * 25 = 50ms above the share.
    let below = Duration::new(0, 49_999_999);
    assert_eq!(extra_pre_vote_delay(6, 12, 3, 25, below), below);
    let above = Duration::new(0, 50_000_001);
    assert_eq!(extra_pre_vote_delay(6, 12, 3, 25, above), Duration::from_millis(50));
    let tiny = Duration::new(0, 500);
    assert_eq!(extra_pre_vote_delay(6, 12, 3, 25, tiny), tiny);
}

#[test]
fn spans_of_time_are_exact() {
    assert_eq!(Duration::from_millis(1_500), Duration { secs: 1, nanos: 500_000_000 });
    assert_eq!(Duration::from_secs(2), Duration::from_millis(2_000));
    assert_eq!(Duration::new(1, 2_000_000_003), Duration { secs: 3, nanos: 3 });
    assert_eq!(Duration::new(1, 1_999_999).as_millis(), 1_001);
    assert_eq!(Duration::new(1, 7).as_nanos(), 1_000_000_007);
    assert_eq!(Duration::zero().as_nanos(), 0);
    assert_eq!(Duration::from_secs(u64::MAX).as_millis(), u64::MAX as u128 * 1_000);
}

#[test]
fn penalty_saturates_instead_of_wrapping() {
    assert_eq!(
        extra_pre_vote_delay(usize::MAX, 1, 1, u64::MAX, Duration::from_millis(700)),
        Duration::from_millis(700),
    );
    assert_eq!(
        extra_pre_vote_delay(usize::MAX, 1, 1, u64::MAX, Duration::from_secs(u64::MAX)),
        Duration::from_millis(u64::MAX),
    );
}
