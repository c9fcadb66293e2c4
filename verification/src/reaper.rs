//! The idle reaper: the policy by which hub entries are reclaimed.

use crate::hub::BroadcastHub;
use vstd::prelude::*;

verus! {

/// The time between two sweeps.
pub const SWEEP_PERIOD: u64 = 60;

/// The age that an entry may reach: a sweep removes the entries that are
/// older.
pub const IDLE_TTL: u64 = 300;

/// The sweep policy: how often to sweep, and which age an entry may reach.
/// The caller keeps the clock and wakes the reaper once per period.
#[derive(Debug)]
pub struct IdleReaper {
    period: u64,
    ttl: u64,
}

impl IdleReaper {
    /// The time between two sweeps.
    pub closed spec fn period_spec(&self) -> u64 {
        self.period
    }

    /// The age that an entry may reach before a sweep removes it.
    pub closed spec fn ttl_spec(&self) -> u64 {
        self.ttl
    }

    /// The policy with the period `SWEEP_PERIOD` and the age `IDLE_TTL`.
    pub fn new() -> (reaper: Self)
        ensures
            reaper.period() == SWEEP_PERIOD,
            reaper.ttl() == IDLE_TTL,
    {
        IdleReaper { period: SWEEP_PERIOD, ttl: IDLE_TTL }
    }

    /// The time between two sweeps.
    #[verifier::when_used_as_spec(period_spec)]
    pub fn period(&self) -> (period: u64)
        ensures
            period == self.period_spec(),
    {
        self.period
    }

    /// The age that an entry may reach before a sweep removes it.
    #[verifier::when_used_as_spec(ttl_spec)]
    pub fn ttl(&self) -> (ttl: u64)
        ensures
            ttl == self.ttl_spec(),
    {
        self.ttl
    }

    /// One wake-up at the time `now`: removes the entries of the hub that
    /// are older than the policy's age, and returns how many were removed.
    pub fn tick(&self, hub: &mut BroadcastHub, now: u64) -> (removed: usize)
        requires
            old(hub).wf(),
        ensures
            final(hub).wf(),
            final(hub)@ == old(hub)@.sweep(now as nat, self.ttl() as nat),
            removed == old(hub)@.registry.len() - final(hub)@.registry.len(),
    {
        hub.sweep_idle(now, self.ttl)
    }
}

} // verus!
