use vstd::prelude::*;

verus! {

/// Seconds in one hour of simulated time.
pub const SECONDS_PER_HOUR: u64 = 3600;

/// A person taking part in the simulation.
#[derive(Clone, Copy, Debug, PartialEq, Eq, Structural, PartialOrd, Ord, Hash)]
pub struct PersonID(pub usize);

/// A building that people can be inside of.
#[derive(Clone, Copy, Debug, PartialEq, Eq, Structural, PartialOrd, Ord, Hash)]
pub struct BuildingID(pub usize);

/// A stop where people wait for a bus.
#[derive(Clone, Copy, Debug, PartialEq, Eq, Structural, PartialOrd, Ord, Hash)]
pub struct BusStopID(pub usize);

/// A vehicle (a bus) that people ride.
#[derive(Clone, Copy, Debug, PartialEq, Eq, Structural, PartialOrd, Ord, Hash)]
pub struct CarID(pub usize);

/// A moment of simulated time, in whole seconds since the start of the day.
#[derive(Clone, Copy, Debug, PartialEq, Eq, Structural, PartialOrd, Ord, Hash)]
pub struct Time(pub u64);

/// A span of simulated time, in whole seconds. Never negative.
#[derive(Clone, Copy, Debug, PartialEq, Eq, Structural, PartialOrd, Ord, Hash)]
pub struct Duration(pub u64);

/// Length of the span from `start` to `now`; zero when `now` is not after `start`.
pub open spec fn span(start: u64, now: u64) -> u64 {
    if now >= start {
        (now - start) as u64
    } else {
        0
    }
}

/// Seconds from `now` plus `d`, held at the largest representable time.
pub open spec fn later(now: u64, d: u64) -> u64 {
    if now + d <= u64::MAX {
        (now + d) as u64
    } else {
        u64::MAX
    }
}

impl Time {
    /// Midnight, when every simulation starts.
    pub fn start_of_day() -> (r: Time)
        ensures
            r.0 == 0,
    {
        Time(0)
    }

    /// The time `d` after this one, held at the largest representable time.
    pub fn offset(self, d: Duration) -> (r: Time)
        ensures
            r.0 == later(self.0, d.0),
    {
        Time(self.0.saturating_add(d.0))
    }

    /// The span from `start` to this time, or zero when `start` comes later.
    pub fn since(self, start: Time) -> (r: Duration)
        ensures
            r.0 == span(start.0, self.0),
    {
        Duration(self.0.saturating_sub(start.0))
    }

    /// The later of two times.
    pub fn latest(self, other: Time) -> (r: Time)
        ensures
            r.0 == if self.0 >= other.0 { self.0 } else { other.0 },
    {
        if self.0 >= other.0 {
            self
        } else {
            other
        }
    }
}

impl Duration {
    /// A span of whole seconds.
    pub fn seconds(s: u64) -> (r: Duration)
        ensures
            r.0 == s,
    {
        Duration(s)
    }

    /// A span of whole hours.
    pub fn hours(h: u64) -> (r: Duration)
        requires
            h * SECONDS_PER_HOUR <= u64::MAX,
        ensures
            r.0 == h * SECONDS_PER_HOUR,
    {
        Duration(h * SECONDS_PER_HOUR)
    }
}

} // verus!
