//! A small stopwatch over the monotonic clock: started, read, stopped and
//! reset. What the clock reads is opaque; what is verified is the
//! lifecycle — when a reading is owed and when the watch counts as
//! finished.

use vstd::prelude::*;

verus! {

#[verifier::external_type_specification]
#[verifier::external_body]
pub struct ExInstant(std::time::Instant);

/// Relies on std::time::Instant::now: an opaque reading of the monotonic
/// clock; nothing can be promised of its value.
#[verifier::external_body]
fn instant_now() -> std::time::Instant {
    std::time::Instant::now()
}

/// Relies on std::time::Instant::elapsed: the opaque time span since the
/// reading was taken; its value depends on the clock.
#[verifier::external_body]
fn elapsed_since(start: &std::time::Instant) -> core::time::Duration {
    start.elapsed()
}

/// Relies on core::time::Duration::new with both parts zero: the zero
/// span, used only as the initial and reset value.
#[verifier::external_body]
fn zero_duration() -> core::time::Duration {
    core::time::Duration::new(0, 0)
}

/// Measures how long something has been running.
pub struct StopWatch {
    start_time: Option<std::time::Instant>,
    time_elapsed: core::time::Duration,
    is_finished: bool,
}

impl StopWatch {
    /// True while the watch has a start reading to measure from.
    pub closed spec fn running(&self) -> bool {
        self.start_time is Some
    }

    /// True once the watch was stopped after a start.
    pub closed spec fn finished(&self) -> bool {
        self.is_finished
    }

    pub fn new() -> (r: StopWatch)
        ensures
            !r.running(),
            !r.finished(),
    {
        StopWatch { start_time: None, time_elapsed: zero_duration(), is_finished: false }
    }

    /// Takes a fresh clock reading to measure from.
    pub fn start(&mut self)
        ensures
            final(self).running(),
            !final(self).finished(),
    {
        self.start_time = Some(instant_now());
        self.is_finished = false;
    }

    /// The time elapsed since the start, owed exactly when the watch was
    /// started.
    pub fn get_current_instant(self) -> (r: Result<core::time::Duration, String>)
        ensures
            r is Ok <==> self.running(),
    {
        if let Some(start_time) = self.start_time {
            Ok(elapsed_since(&start_time))
        } else {
            Err("start_time not initialized".to_owned())
        }
    }

    /// Forgets the start reading and the measured span.
    pub fn reset(&mut self)
        ensures
            !final(self).running(),
            !final(self).finished(),
    {
        self.start_time = None;
        self.time_elapsed = zero_duration();
        self.is_finished = false;
    }

    /// Records the span since the start and marks the watch finished; a
    /// watch never started stays as it is.
    pub fn stop(&mut self)
        ensures
            final(self).running() == old(self).running(),
            final(self).finished() == (old(self).running() || old(self).finished()),
    {
        if let Some(start_time) = &self.start_time {
            self.time_elapsed = elapsed_since(start_time);
            self.is_finished = true;
        }
    }
}

} // verus!
