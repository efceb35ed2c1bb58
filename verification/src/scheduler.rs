//! The schedule of the cycles: one after the other, each followed by a
//! pause of the configured length, whatever the cycle's end was. A cycle
//! is begun with the schedule in its hands and gives it back at its end
//! as a pause, and only the end of the pause allows the next cycle. So
//! while one cycle is at work no other can begin.

use std::time::Duration;
use vstd::prelude::*;

verus! {

/// The schedule when a cycle may begin: before the first, and after each
/// pause.
#[derive(Debug)]
pub struct Scheduler {
    interval: Duration,
    cycles: u64,
}

/// The schedule while a cycle is at work. It goes into the cycle and
/// comes back as a pause when the cycle has ended.
#[derive(Debug)]
pub struct ScheduledCycle {
    interval: Duration,
    cycles: u64,
}

/// The schedule during the pause that follows a cycle.
#[derive(Debug)]
pub struct Pause {
    interval: Duration,
    cycles: u64,
}

/// The count of ended cycles after one more: it stops at the largest
/// number that it can hold.
pub open spec fn counted(cycles: u64) -> u64 {
    if cycles == u64::MAX {
        u64::MAX
    } else {
        (cycles + 1) as u64
    }
}

impl Scheduler {
    /// The pause after each cycle.
    pub closed spec fn interval(&self) -> Duration {
        self.interval
    }

    /// The number of cycles that have ended.
    pub closed spec fn cycles(&self) -> u64 {
        self.cycles
    }

    /// A schedule with the pause `interval`, before the first cycle.
    pub fn new(interval: Duration) -> (schedule: Scheduler)
        ensures
            schedule.interval() == interval,
            schedule.cycles() == 0,
    {
        Scheduler { interval, cycles: 0 }
    }

    /// The number of cycles that have ended.
    pub fn ended_cycles(&self) -> (cycles: u64)
        ensures
            cycles == self.cycles(),
    {
        self.cycles
    }

    /// Starts the next cycle.
    pub fn start_cycle(self) -> (cycle: ScheduledCycle)
        ensures
            cycle.interval() == self.interval(),
            cycle.cycles() == self.cycles(),
    {
        ScheduledCycle { interval: self.interval, cycles: self.cycles }
    }
}

impl ScheduledCycle {
    /// The pause after each cycle.
    pub closed spec fn interval(&self) -> Duration {
        self.interval
    }

    /// The number of cycles that ended before this one.
    pub closed spec fn cycles(&self) -> u64 {
        self.cycles
    }

    /// Takes the end of the cycle, failed or not: the pause that follows
    /// has the configured length, and the cycle is counted. Only a cycle
    /// can end itself.
    pub(crate) fn ended(self) -> (pause: Pause)
        ensures
            pause.follows(self),
    {
        let cycles = if self.cycles == u64::MAX {
            u64::MAX
        } else {
            self.cycles + 1
        };
        Pause { interval: self.interval, cycles }
    }
}

impl Pause {
    /// The pause after each cycle.
    pub closed spec fn interval(&self) -> Duration {
        self.interval
    }

    /// The number of cycles that have ended.
    pub closed spec fn cycles(&self) -> u64 {
        self.cycles
    }

    /// Whether this is the pause that the end of `cycle` leaves: it has
    /// the configured length, and the cycle is counted.
    pub open spec fn follows(&self, cycle: ScheduledCycle) -> bool {
        self.interval() == cycle.interval() && self.cycles() == counted(cycle.cycles())
    }

    /// How long to pause.
    pub fn length(&self) -> (length: Duration)
        ensures
            length == self.interval(),
    {
        self.interval
    }

    /// The number of cycles that have ended.
    pub fn ended_cycles(&self) -> (cycles: u64)
        ensures
            cycles == self.cycles(),
    {
        self.cycles
    }

    /// Takes the end of the pause: the next cycle may begin.
    pub fn over(self) -> (schedule: Scheduler)
        ensures
            schedule.interval() == self.interval(),
            schedule.cycles() == self.cycles(),
    {
        Scheduler { interval: self.interval, cycles: self.cycles }
    }
}

} // verus!
