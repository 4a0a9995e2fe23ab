use vstd::prelude::*;

verus! {

#[derive(Clone, Copy, Debug, PartialEq, Eq, Structural)]
pub struct TimingConfig {
    pub heartbeat_ms: u64,
    pub election_min_ms: u64,
    pub election_max_ms: u64,
}

impl Default for TimingConfig {
    fn default() -> (r: Self)
        ensures
            r.heartbeat_ms == 50,
            r.election_min_ms == 300,
            r.election_max_ms == 600,
    {
        TimingConfig { heartbeat_ms: 50, election_min_ms: 300, election_max_ms: 600 }
    }
}

} // verus!
