//! The time as the daemon sees it.

use std::time::{Duration, Instant};

use vstd::prelude::*;

verus! {

/// `std::time::Instant`, carried as it is.
#[verifier::external_type_specification]
#[verifier::external_body]
pub struct ExInstant(Instant);

/// `std::time::Instant::now`: the present. Nothing is claimed of it.
pub assume_specification[ Instant::now ]() -> Instant
;

/// `std::time::Instant::elapsed`: the time since an instant. It depends on when
/// it is asked, so nothing is claimed of it.
pub assume_specification[ Instant::elapsed ](start: &Instant) -> Duration
;

/// `std::time::Duration::as_nanos`: the length of a duration in nanoseconds.
/// Durations are opaque here and come from the clock alone, so nothing is
/// claimed of the number.
pub assume_specification[ Duration::as_nanos ](d: &Duration) -> u128
;

/// A clock that counts nanoseconds from its start and never goes back.
#[derive(Debug)]
pub struct Clock {
    start: Instant,
    last: u64,
}

impl View for Clock {
    type V = u64;

    /// The time that was read last.
    closed spec fn view(&self) -> u64 {
        self.last
    }
}

impl Clock {
    /// A clock that starts now.
    pub fn new() -> (r: Clock)
        ensures
            r@ == 0,
    {
        Clock { start: Instant::now(), last: 0 }
    }

    /// The time after `passed` nanoseconds since the start, as far as 64 bits
    /// hold it, and no earlier than the time that was read last.
    pub fn reach(&mut self, passed: u128) -> (r: u64)
        ensures
            r == final(self)@,
            final(self)@ == if passed > u64::MAX {
                u64::MAX
            } else if passed > old(self)@ {
                passed as u64
            } else {
                old(self)@
            },
    {
        let t: u64 = if passed > u64::MAX as u128 {
            u64::MAX
        } else {
            passed as u64
        };
        if t > self.last {
            self.last = t;
        }
        self.last
    }

    /// Read the time.
    pub fn now(&mut self) -> (r: u64)
        ensures
            r == final(self)@,
            old(self)@ <= final(self)@,
    {
        let passed: u128 = self.start.elapsed().as_nanos();
        self.reach(passed)
    }
}

} // verus!
