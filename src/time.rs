//! Frame timing.
use vstd::prelude::*;
use std::time::{Duration, Instant};

verus! {

#[verifier::external_type_specification]
#[verifier::external_body]
pub struct ExInstant(std::time::Instant);

/// Relies on `Instant::now`; nothing is known of the instant it returns.
pub assume_specification[ std::time::Instant::now ]() -> std::time::Instant;

/// Relies on `Instant::elapsed`; nothing is known of the duration.
pub assume_specification[ std::time::Instant::elapsed ](i: &std::time::Instant) -> std::time::Duration;

/// Relies on `Duration::from_nanos`; used here for the zero duration.
pub assume_specification[ std::time::Duration::from_nanos ](nanos: u64) -> std::time::Duration;

/// The start of the current frame and the length of the previous one.
#[derive(Debug)]
pub struct Time {
    last_frame: Instant,
    delta: Duration,
}

impl View for Time {
    type V = (Instant, Duration);

    closed spec fn view(&self) -> (Instant, Duration) {
        (self.last_frame, self.delta)
    }
}

impl Time {
    pub fn new() -> (r: Time) {
        Time { last_frame: Instant::now(), delta: Duration::from_nanos(0) }
    }

    /// Starts a new frame: the time since the last one becomes the delta.
    pub fn update(&mut self) {
        let new_instant = Instant::now();
        let delta = self.last_frame.elapsed();
        self.record_frame(new_instant, delta);
    }

    /// Starts a new frame at `now` after a previous frame of `delta`.
    pub fn record_frame(&mut self, now: Instant, delta: Duration)
        ensures
            final(self)@ == (now, delta),
    {
        self.last_frame = now;
        self.delta = delta;
    }

    pub fn delta(&self) -> (r: Duration)
        ensures
            r == self@.1,
    {
        self.delta
    }
}

} // verus!
