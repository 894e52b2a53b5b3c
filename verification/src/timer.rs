//! Wall-clock timing of a phase, in milliseconds.
use std::time::Instant;
use vstd::prelude::*;

verus! {

#[verifier::external_type_specification]
#[verifier::external_body]
pub struct ExInstant(Instant);

/// `Instant::now()`: the current time, of which nothing is promised.
#[verifier::external_body]
fn instant_now() -> Instant {
    Instant::now()
}

/// `stop.duration_since(start).as_millis()`: the whole milliseconds from
/// `start` to `stop` (zero when `stop` is earlier). The instants are opaque,
/// so the number is not stated.
#[verifier::external_body]
fn millis_between(start: Instant, stop: Instant) -> u128 {
    stop.duration_since(start).as_millis()
}

pub struct Timer {
    start: Option<Instant>,
    stop: Option<Instant>,
}

impl Timer {
    /// A start time has been recorded.
    pub closed spec fn is_started(&self) -> bool {
        self.start_reading() is Some
    }

    /// A stop time has been recorded.
    pub closed spec fn is_stopped(&self) -> bool {
        self.stop_reading() is Some
    }

    /// The clock reading taken at the last start, if any.
    pub closed spec fn start_reading(&self) -> Option<Instant> {
        self.start
    }

    /// The clock reading taken at the last stop, if any.
    pub closed spec fn stop_reading(&self) -> Option<Instant> {
        self.stop
    }

    pub fn new() -> (r: Self)
        ensures
            !r.is_started(),
            !r.is_stopped(),
            r.start_reading() is None,
            r.stop_reading() is None,
    {
        Timer { start: None, stop: None }
    }

    pub fn start(&mut self)
        ensures
            final(self).is_started(),
            final(self).is_stopped() == old(self).is_stopped(),
            final(self).stop_reading() == old(self).stop_reading(),
    {
        self.start = Some(instant_now());
    }

    pub fn stop(&mut self)
        ensures
            final(self).is_stopped(),
            final(self).is_started() == old(self).is_started(),
            final(self).start_reading() == old(self).start_reading(),
    {
        self.stop = Some(instant_now());
    }

    /// The milliseconds from start to stop; 0 until both are recorded.
    pub fn elapsed_ms(&self) -> (r: u128)
        ensures
            !(self.is_started() && self.is_stopped()) ==> r == 0,
    {
        match (self.start, self.stop) {
            (Some(s), Some(e)) => millis_between(s, e),
            _ => 0,
        }
    }

    /// Times one call of `f`: records the start, runs `f`, records the stop,
    /// and returns the elapsed milliseconds.
    pub fn benchmark<F: FnOnce()>(&mut self, f: F) -> (r: u128)
        requires
            f.requires(()),
        ensures
            final(self).is_started(),
            final(self).is_stopped(),
    {
        self.start();
        f();
        self.stop();
        self.elapsed_ms()
    }
}

impl Default for Timer {
    fn default() -> (r: Self)
        ensures
            !r.is_started(),
            !r.is_stopped(),
    {
        Self::new()
    }
}

} // verus!
