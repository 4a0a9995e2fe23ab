//! Lifecycle counters.

use vstd::prelude::*;

verus! {

/// The counters at one moment.
#[derive(Clone, Copy, Debug, PartialEq, Eq, Structural)]
pub struct RaftMetricsSnapshot {
    /// Elections this node started, after any pre-vote.
    pub elections_started: u64,
    /// Elections this node won.
    pub elections_won: u64,
    /// Times this node gave up candidacy or leadership.
    pub step_downs: u64,
    /// Configuration entries this node applied.
    pub config_changes_applied: u64,
    /// Inbound frames dropped after an error that is not fatal.
    pub frames_dropped_nonfatal: u64,
    /// Inbound snapshot transfers evicted for lack of progress.
    pub snapshots_evicted: u64,
    /// Snapshot installs refused because the peer is in cooldown.
    pub snapshot_installs_refused: u64,
    /// Log compactions completed.
    pub log_compactions: u64,
    /// Times a peer was put in the inbound jail.
    pub peers_jailed: u64,
    /// Frames shed because their sender was jailed.
    pub frames_shed_jailed: u64,
    /// Storage operations that failed for lack of resources.
    pub resource_exhausted: u64,
}

/// `n` more than `x`, starting again from 0 past the largest `u64`.
pub open spec fn wrapped(x: u64, n: nat) -> u64 {
    ((x + n) % 0x1_0000_0000_0000_0000) as u64
}

/// One more than `x`, starting again from 0.
pub open spec fn bumped(x: u64) -> u64 {
    wrapped(x, 1)
}

/// Lifecycle counters of a node, which counts in them alone: there are no copies
/// that would fall behind. What others are to see is read with `snapshot`.
#[derive(Debug)]
pub struct RaftMetrics {
    pub counters: RaftMetricsSnapshot,
}

impl Default for RaftMetrics {
    fn default() -> (r: Self)
        ensures
            r.counters == zero_counters(),
    {
        RaftMetrics {
            counters: RaftMetricsSnapshot {
                elections_started: 0,
                elections_won: 0,
                step_downs: 0,
                config_changes_applied: 0,
                frames_dropped_nonfatal: 0,
                snapshots_evicted: 0,
                snapshot_installs_refused: 0,
                log_compactions: 0,
                peers_jailed: 0,
                frames_shed_jailed: 0,
                resource_exhausted: 0,
            },
        }
    }
}

/// All counters at 0.
pub open spec fn zero_counters() -> RaftMetricsSnapshot {
    RaftMetricsSnapshot {
        elections_started: 0,
        elections_won: 0,
        step_downs: 0,
        config_changes_applied: 0,
        frames_dropped_nonfatal: 0,
        snapshots_evicted: 0,
        snapshot_installs_refused: 0,
        log_compactions: 0,
        peers_jailed: 0,
        frames_shed_jailed: 0,
        resource_exhausted: 0,
    }
}

fn bump(x: u64) -> (r: u64)
    ensures
        r == bumped(x),
{
    x.wrapping_add(1)
}

impl RaftMetrics {
    /// Reads all counters at once.
    pub fn snapshot(&self) -> (r: RaftMetricsSnapshot)
        ensures
            r == self.counters,
    {
        self.counters
    }

    pub fn inc_elections_started(&mut self)
        ensures
            final(self).counters == (RaftMetricsSnapshot {
                elections_started: bumped(old(self).counters.elections_started),
                ..old(self).counters
            }),
    {
        self.counters.elections_started = bump(self.counters.elections_started);
    }

    pub fn inc_elections_won(&mut self)
        ensures
            final(self).counters == (RaftMetricsSnapshot {
                elections_won: bumped(old(self).counters.elections_won),
                ..old(self).counters
            }),
    {
        self.counters.elections_won = bump(self.counters.elections_won);
    }

    pub fn inc_step_downs(&mut self)
        ensures
            final(self).counters == (RaftMetricsSnapshot {
                step_downs: bumped(old(self).counters.step_downs),
                ..old(self).counters
            }),
    {
        self.counters.step_downs = bump(self.counters.step_downs);
    }

    pub fn inc_config_changes_applied(&mut self)
        ensures
            final(self).counters == (RaftMetricsSnapshot {
                config_changes_applied: bumped(old(self).counters.config_changes_applied),
                ..old(self).counters
            }),
    {
        self.counters.config_changes_applied = bump(self.counters.config_changes_applied);
    }

    pub fn inc_frames_dropped_nonfatal(&mut self)
        ensures
            final(self).counters == (RaftMetricsSnapshot {
                frames_dropped_nonfatal: bumped(old(self).counters.frames_dropped_nonfatal),
                ..old(self).counters
            }),
    {
        self.counters.frames_dropped_nonfatal = bump(self.counters.frames_dropped_nonfatal);
    }

    pub fn inc_snapshots_evicted(&mut self)
        ensures
            final(self).counters == (RaftMetricsSnapshot {
                snapshots_evicted: bumped(old(self).counters.snapshots_evicted),
                ..old(self).counters
            }),
    {
        self.counters.snapshots_evicted = bump(self.counters.snapshots_evicted);
    }

    pub fn inc_snapshot_installs_refused(&mut self)
        ensures
            final(self).counters == (RaftMetricsSnapshot {
                snapshot_installs_refused: bumped(old(self).counters.snapshot_installs_refused),
                ..old(self).counters
            }),
    {
        self.counters.snapshot_installs_refused = bump(self.counters.snapshot_installs_refused);
    }

    pub fn inc_log_compactions(&mut self)
        ensures
            final(self).counters == (RaftMetricsSnapshot {
                log_compactions: bumped(old(self).counters.log_compactions),
                ..old(self).counters
            }),
    {
        self.counters.log_compactions = bump(self.counters.log_compactions);
    }

    pub fn inc_peers_jailed(&mut self)
        ensures
            final(self).counters == (RaftMetricsSnapshot {
                peers_jailed: bumped(old(self).counters.peers_jailed),
                ..old(self).counters
            }),
    {
        self.counters.peers_jailed = bump(self.counters.peers_jailed);
    }

    pub fn inc_frames_shed_jailed(&mut self)
        ensures
            final(self).counters == (RaftMetricsSnapshot {
                frames_shed_jailed: bumped(old(self).counters.frames_shed_jailed),
                ..old(self).counters
            }),
    {
        self.counters.frames_shed_jailed = bump(self.counters.frames_shed_jailed);
    }

    pub fn inc_resource_exhausted(&mut self)
        ensures
            final(self).counters == (RaftMetricsSnapshot {
                resource_exhausted: bumped(old(self).counters.resource_exhausted),
                ..old(self).counters
            }),
    {
        self.counters.resource_exhausted = bump(self.counters.resource_exhausted);
    }
}

} // verus!
