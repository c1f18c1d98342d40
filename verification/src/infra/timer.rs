//! One-shot timers over the monotonic clock. A timer's period is held in
//! milliseconds; the clock is read as the milliseconds elapsed since a
//! start, and whether a timer fires is decided from that number.
use vstd::prelude::*;
use std::time::Instant;

verus! {

/// A point in time of the monotonic clock.
#[verifier::external_type_specification]
#[verifier::external_body]
pub struct ExInstant(Instant);

/// The current time (`Instant::now`). Nothing is stated of it.
#[verifier::external_body]
pub(crate) fn instant_now() -> Instant {
    Instant::now()
}

/// The whole milliseconds elapsed since `start` (`Instant::elapsed`, then
/// `Duration::as_millis`). Nothing is stated of it: it depends on the clock.
#[verifier::external_body]
pub(crate) fn elapsed_millis(start: &Instant) -> u128 {
    start.elapsed().as_millis()
}

/// Something a timer can notify.
pub trait Timeout<Id> {
    fn action(&mut self, id: Id);
}

/// A one-shot timer: once started, it fires on the first tick at least its
/// period later, and is then idle until started again.
pub struct Timer {
    period_ms: u64,
    now: Option<Instant>,
}

impl Timer {
    /// Whether the timer was started and has not fired since.
    pub closed spec fn active(&self) -> bool {
        self.now is Some
    }

    /// The timer's period, in milliseconds.
    pub closed spec fn period(&self) -> u64 {
        self.period_ms
    }

    /// Whether the timer fires when `elapsed_ms` milliseconds have passed
    /// since its start: it is active and its period has passed.
    pub open spec fn fires(&self, elapsed_ms: u128) -> bool {
        self.active() && elapsed_ms >= self.period()
    }

    /// An idle timer of `period_ms` milliseconds.
    pub fn new(period_ms: u64) -> (r: Self)
        ensures
            !r.active(),
            r.period() == period_ms,
    {
        Timer { period_ms, now: None }
    }

    /// Starts (or restarts) the timer from now.
    pub fn start(&mut self)
        ensures
            final(self).active(),
            final(self).period() == old(self).period(),
    {
        self.now = Some(instant_now());
    }

    /// Whether the timer fires when `elapsed_ms` milliseconds have passed
    /// since it was started: it does exactly when it is active and its
    /// period has passed. A timer that fires becomes idle; otherwise nothing
    /// changes.
    pub fn tick_after(&mut self, elapsed_ms: u128) -> (r: bool)
        ensures
            r == old(self).fires(elapsed_ms),
            r ==> !final(self).active() && final(self).period() == old(self).period(),
            !r ==> *final(self) == *old(self),
    {
        let fired = self.now.is_some() && elapsed_ms >= self.period_ms as u128;
        if fired {
            self.now = None;
        }
        fired
    }

    /// Whether the timer fires now (see `tick_after`): the clock is read as
    /// the milliseconds elapsed since the start.
    pub fn tick(&mut self) -> (r: bool)
        ensures
            exists|elapsed_ms: u128| r == #[trigger] old(self).fires(elapsed_ms),
            r ==> old(self).active() && !final(self).active(),
            !r ==> *final(self) == *old(self),
            final(self).period() == old(self).period(),
    {
        let elapsed = match &self.now {
            None => 0,
            Some(start) => elapsed_millis(start),
        };
        let r = self.tick_after(elapsed);
        assert(r == old(self).fires(elapsed));
        r
    }

    /// Whether the timer was started and has not fired since.
    pub fn is_active(&self) -> (r: bool)
        ensures
            r == self.active(),
    {
        self.now.is_some()
    }
}

} // verus!
