//! Poll scheduler: which request to issue on each timer tick.
//!
//! The scheduler is a state machine whose whole state is a tick counter and
//! the currently active request type. The counter increments by one per
//! timer period (`interval` seconds) and never resets. The transition rule,
//! evaluated once per tick with the highest-priority match winning, is:
//! `tick % (20 * interval) == 0` selects temperatures, else
//! `tick % (10 * interval) == 0` selects cell voltages, else levels.
//!
//! Note that the rule compares the per-period tick counter against
//! `N * interval`, so the wall-clock cadence of the rarer requests scales
//! with the square of the interval. That is the device policy as shipped;
//! it is preserved here literally rather than corrected.

use vstd::prelude::*;

verus! {

use crate::codec::RequestType;

/// Largest poll interval the scheduler accepts, so that `20 * interval`
/// stays within `u64`.
pub const MAX_INTERVAL: u64 = 0x0CCC_CCCC_CCCC_CCCC;

/// The transition rule: the request type selected at a given tick.
pub open spec fn spec_select_request(tick: u64, interval: u64) -> RequestType
    recommends
        1 <= interval <= MAX_INTERVAL,
{
    if tick % (20 * interval) as u64 == 0 {
        RequestType::Temperatures
    } else if tick % (10 * interval) as u64 == 0 {
        RequestType::CellVoltages
    } else {
        RequestType::Levels
    }
}

/// Evaluate the transition rule at one tick.
pub fn select_request(tick: u64, interval: u64) -> (request_type: RequestType)
    requires
        1 <= interval <= MAX_INTERVAL,
    ensures
        request_type == spec_select_request(tick, interval),
{
    if tick % (20 * interval) == 0 {
        RequestType::Temperatures
    } else if tick % (10 * interval) == 0 {
        RequestType::CellVoltages
    } else {
        RequestType::Levels
    }
}

/// Scheduler state: the configured interval, the tick counter, and the
/// request type selected at the most recent tick.
#[derive(Clone, Copy, PartialEq, Eq, Structural, Debug)]
pub struct PollState {
    /// Timer period in seconds.
    pub interval: u64,
    /// Number of timer periods elapsed so far; starts at zero.
    pub tick: u64,
    /// The currently active request type; what the next notification is
    /// decoded under.
    pub active: RequestType,
}

impl PollState {
    /// The interval is in range and the active request type agrees with the
    /// transition rule at the current tick (levels before the first tick).
    pub open spec fn wf(self) -> bool {
        &&& 1 <= self.interval <= MAX_INTERVAL
        &&& self.active == if self.tick == 0 {
            RequestType::Levels
        } else {
            spec_select_request(self.tick, self.interval)
        }
    }

    /// Fresh scheduler state: no ticks yet, polling levels.
    pub fn new(interval: u64) -> (state: Self)
        requires
            1 <= interval <= MAX_INTERVAL,
        ensures
            state.interval == interval,
            state.tick == 0,
            state.active == RequestType::Levels,
            state.wf(),
    {
        PollState { interval, tick: 0, active: RequestType::Levels }
    }

    /// One timer tick: increment the counter and select the next request.
    pub fn advance(&mut self) -> (request_type: RequestType)
        requires
            old(self).wf(),
            old(self).tick < u64::MAX,
        ensures
            final(self).interval == old(self).interval,
            final(self).tick == old(self).tick + 1,
            final(self).active == spec_select_request(final(self).tick, final(self).interval),
            request_type == final(self).active,
            final(self).wf(),
    {
        self.tick = self.tick + 1;
        let request_type = select_request(self.tick, self.interval);
        self.active = request_type;
        request_type
    }
}

/// The transition rule is periodic: selections repeat every `20 * interval`
/// ticks, so the schedule over any tick range is fully determined by the
/// tick values modulo that period.
pub proof fn lemma_select_request_periodic(tick: u64, interval: u64)
    requires
        1 <= interval <= MAX_INTERVAL,
        tick + 20 * interval <= u64::MAX,
    ensures
        spec_select_request((tick + 20 * interval) as u64, interval)
            == spec_select_request(tick, interval),
{
    let p20: int = 20 * interval;
    let p10: int = 10 * interval;
    let t2 = (tick + p20) as u64;
    assert(t2 == tick + p20);
    assert(t2 % ((20 * interval) as u64) == tick % ((20 * interval) as u64)) by {
        vstd::arithmetic::div_mod::lemma_mod_add_multiples_vanish(tick as int, p20);
    }
    assert(t2 % ((10 * interval) as u64) == tick % ((10 * interval) as u64)) by {
        vstd::arithmetic::div_mod::lemma_mod_add_multiples_vanish(tick + p10, p10);
        vstd::arithmetic::div_mod::lemma_mod_add_multiples_vanish(tick as int, p10);
        assert(p10 + (tick + p10) == tick + p20);
    }
}

} // verus!
