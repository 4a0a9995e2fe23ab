use vstd::prelude::*;

verus! {

#[derive(Clone, Copy, Debug, PartialEq, Eq, Structural)]
pub struct LimitsConfig {
    pub append_batch_bytes: usize,
    pub append_batch_entries: usize,
    pub snapshot_chunk_bytes: usize,
    pub max_inflight_per_peer: usize,
    /// Largest incoming snapshot transfer, in bytes. A chunk past it is refused
    /// and the transfer is dropped.
    pub max_snapshot_bytes: usize,
    /// Milliseconds an inbound snapshot transfer may sit without an accepted
    /// chunk before it is evicted.
    pub snapshot_stall_timeout_ms: u64,
    /// Consecutive failed snapshot installs to one peer before further installs
    /// to it are refused for the cooldown. Also bounds the response rounds
    /// without progress inside one install.
    pub snapshot_max_attempts_per_peer: u32,
    /// Milliseconds a peer stays refused after exhausting its attempts.
    pub snapshot_attempt_cooldown_ms: u64,
    /// Entries applied since the last snapshot that trigger a compaction. 0
    /// disables this trigger.
    pub compaction_threshold_entries: u64,
    /// Payload bytes applied since the last snapshot that trigger a compaction.
    /// 0 disables this trigger.
    pub compaction_threshold_bytes: u64,
    /// Most recent entries kept in the log below the compaction horizon.
    pub compaction_min_retain: u64,
    /// Decode errors tolerated from one peer inside one window before it is
    /// jailed. 0 disables jailing.
    pub inbound_decode_error_jail_threshold: u32,
    /// Width of the decode-error window, in milliseconds.
    pub inbound_decode_error_window_ms: u64,
    /// Milliseconds a jailed peer stays jailed.
    pub inbound_jail_cooldown_ms: u64,
    /// Capacity of the client mailbox, in proposals.
    pub client_mailbox_capacity: usize,
}

/// Four gibibytes, or the largest `usize` where that is less.
pub open spec fn default_max_snapshot_bytes() -> int {
    if usize::MAX < 0x1_0000_0000 {
        usize::MAX as int
    } else {
        0x1_0000_0000
    }
}

/// The limits of a node that sets none.
pub open spec fn default_limits() -> LimitsConfig {
    LimitsConfig {
        append_batch_bytes: 0x4_0000,
        append_batch_entries: 1024,
        snapshot_chunk_bytes: 0x4_0000,
        max_inflight_per_peer: 8,
        max_snapshot_bytes: default_max_snapshot_bytes() as usize,
        snapshot_stall_timeout_ms: 60_000,
        snapshot_max_attempts_per_peer: 3,
        snapshot_attempt_cooldown_ms: 5_000,
        compaction_threshold_entries: 4_096,
        compaction_threshold_bytes: 0x400_0000,
        compaction_min_retain: 64,
        inbound_decode_error_jail_threshold: 32,
        inbound_decode_error_window_ms: 10_000,
        inbound_jail_cooldown_ms: 3_000,
        client_mailbox_capacity: 8_192,
    }
}

fn four_gib() -> (r: usize)
    ensures
        r == default_max_snapshot_bytes(),
{
    match 0x4000_0000usize.checked_mul(4) {
        Some(bytes) => bytes,
        None => usize::MAX,
    }
}

impl Default for LimitsConfig {
    fn default() -> (r: Self)
        ensures
            r == default_limits(),
    {
        LimitsConfig {
            append_batch_bytes: 256 * 1024,
            append_batch_entries: 1024,
            snapshot_chunk_bytes: 256 * 1024,
            max_inflight_per_peer: 8,
            max_snapshot_bytes: four_gib(),
            snapshot_stall_timeout_ms: 60_000,
            snapshot_max_attempts_per_peer: 3,
            snapshot_attempt_cooldown_ms: 5_000,
            compaction_threshold_entries: 4_096,
            compaction_threshold_bytes: 64 * 1024 * 1024,
            compaction_min_retain: 64,
            inbound_decode_error_jail_threshold: 32,
            inbound_decode_error_window_ms: 10_000,
            inbound_jail_cooldown_ms: 3_000,
            client_mailbox_capacity: 8_192,
        }
    }
}

} // verus!
