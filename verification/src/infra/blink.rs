//! A value that blinks: it switches from its "on" to its "off" value and
//! back, a given number of times, one timer period each.
use vstd::prelude::*;
use crate::infra::timer::{Timeout, Timer};

verus! {

/// The "on" period ended.
pub struct TimerOn;

/// The "off" period ended.
pub struct TimerOff;

pub struct Blink<T: Clone> {
    on: T,
    off: T,
    current: T,
    timer_on: Timer,
    timer_off: Timer,
    total_blinks: usize,
    num_blinks: usize,
}

impl<T: Clone> Blink<T> {
    pub closed spec fn on_value(&self) -> T {
        self.on
    }

    pub closed spec fn off_value(&self) -> T {
        self.off
    }

    pub closed spec fn shown(&self) -> T {
        self.current
    }

    pub closed spec fn blinks(&self) -> nat {
        self.num_blinks as nat
    }

    pub closed spec fn total(&self) -> nat {
        self.total_blinks as nat
    }

    /// Whether the "on" period is running.
    pub closed spec fn on_running(&self) -> bool {
        self.timer_on.active()
    }

    /// Whether the "off" period is running.
    pub closed spec fn off_running(&self) -> bool {
        self.timer_off.active()
    }

    /// The blink `b1` after a tick of `b0` in which the "on" period ended
    /// (`on_ended`, only if it was running) and then the "off" period ended
    /// (`off_ended`, only if it was running by then).
    pub open spec fn ticked(b0: Self, b1: Self, on_ended: bool, off_ended: bool) -> bool {
        let off_before = b0.off_running() || on_ended;
        let on_before = b0.on_running() && !on_ended;
        &&& on_ended ==> b0.on_running()
        &&& off_ended ==> off_before
        &&& b1.on_value() == b0.on_value()
        &&& b1.off_value() == b0.off_value()
        &&& b1.total() == b0.total()
        &&& b1.blinks() == if off_ended && b0.blinks() < usize::MAX {
            b0.blinks() + 1
        } else {
            b0.blinks()
        }
        &&& b1.off_running() == (off_before && !off_ended)
        &&& b1.on_running() == if off_ended {
            on_before || b1.blinks() < b0.total()
        } else {
            on_before
        }
        &&& if off_ended {
            cloned::<T>(b0.on_value(), b1.shown())
        } else if on_ended {
            cloned::<T>(b0.off_value(), b1.shown())
        } else {
            b1.shown() == b0.shown()
        }
    }

    /// Once neither period runs, a tick changes nothing that is shown or
    /// counted: the blinking has ended (or not started) and stays so.
    pub proof fn lemma_idle_stays(b0: Self, b1: Self, on_ended: bool, off_ended: bool)
        requires
            !b0.on_running(),
            !b0.off_running(),
            Self::ticked(b0, b1, on_ended, off_ended),
        ensures
            !on_ended && !off_ended,
            !b1.on_running() && !b1.off_running(),
            b1.shown() == b0.shown(),
            b1.blinks() == b0.blinks(),
    {
    }

    /// A tick that ends the "off" period counts a blink and shows the "on"
    /// value; a new "on" period starts only while blinks are left, so once
    /// `total` blinks are counted, with no "on" period running, the blink
    /// is idle, showing "on".
    pub proof fn lemma_off_end_counts(b0: Self, b1: Self, on_ended: bool)
        requires
            Self::ticked(b0, b1, on_ended, true),
            b0.blinks() < usize::MAX,
        ensures
            b1.blinks() == b0.blinks() + 1,
            cloned::<T>(b0.on_value(), b1.shown()),
            !b1.off_running(),
            b1.blinks() >= b0.total() && !(b0.on_running() && !on_ended) ==> !b1.on_running(),
    {
    }

    /// The state a started blink keeps through its ticks: no more blinks
    /// than its total; at most one period runs, and only while blinks are
    /// left; the "off" value shown while its period runs, the "on" value
    /// otherwise.
    pub open spec fn blinking_ok(b: Self) -> bool {
        &&& b.blinks() <= b.total()
        &&& !(b.on_running() && b.off_running())
        &&& (b.on_running() || b.off_running()) ==> b.blinks() < b.total()
        &&& if b.off_running() {
            cloned::<T>(b.off_value(), b.shown())
        } else {
            cloned::<T>(b.on_value(), b.shown())
        }
    }

    /// A blink just started (no blink counted, the "on" period running and
    /// the "on" value shown) with at least one blink to give is in that
    /// state.
    pub proof fn lemma_started_ok(b: Self)
        requires
            b.total() >= 1,
            b.blinks() == 0,
            b.on_running(),
            !b.off_running(),
            cloned::<T>(b.on_value(), b.shown()),
        ensures
            Self::blinking_ok(b),
    {
    }

    /// Each tick keeps that state, and counts a blink exactly when the "off"
    /// period ends. So the shown value goes on, off, on, ..., one "off"
    /// phase per blink; no more than `total` blinks are counted; and once
    /// they are, no period runs and the "on" value stays shown (see
    /// `lemma_idle_stays`).
    pub proof fn lemma_tick_keeps_ok(b0: Self, b1: Self, on_ended: bool, off_ended: bool)
        requires
            Self::blinking_ok(b0),
            Self::ticked(b0, b1, on_ended, off_ended),
        ensures
            Self::blinking_ok(b1),
            b1.blinks() == if off_ended {
                b0.blinks() + 1
            } else {
                b0.blinks() + 0
            },
            b1.blinks() == b1.total() ==> !b1.on_running() && !b1.off_running(),
    {
    }

    /// An idle blink showing `on`, that will blink `total_blinks` times once
    /// started, each period lasting `period_ms` milliseconds.
    pub fn new(period_ms: u64, total_blinks: usize, on: T, off: T) -> (r: Self)
        ensures
            r.shown() == on,
            cloned::<T>(on, r.on_value()),
            r.off_value() == off,
            r.blinks() == 0,
            r.total() == total_blinks,
            !r.on_running(),
            !r.off_running(),
    {
        Blink {
            on: on.clone(),
            off,
            current: on,
            timer_on: Timer::new(period_ms),
            timer_off: Timer::new(period_ms),
            total_blinks,
            num_blinks: 0,
        }
    }

    /// Starts blinking: shows the "on" value and starts its period.
    pub fn start(&mut self)
        ensures
            final(self).blinks() == 0,
            final(self).on_running(),
            cloned::<T>(old(self).on_value(), final(self).shown()),
            final(self).on_value() == old(self).on_value(),
            final(self).off_value() == old(self).off_value(),
            final(self).total() == old(self).total(),
            final(self).off_running() == old(self).off_running(),
    {
        self.num_blinks = 0;
        self.timer_on.start();
        self.current = self.on.clone();
    }

    /// Advances the blinking: when the "on" period ends, shows the "off"
    /// value and starts its period; when the "off" period ends, counts a
    /// blink, shows the "on" value and starts a new "on" period while
    /// blinks are left. Whether a period has ended depends on the clock;
    /// the contract holds for each of the outcomes.
    pub fn tick(&mut self)
        ensures
            exists|on_ended: bool, off_ended: bool| #[trigger]
                Self::ticked(*old(self), *final(self), on_ended, off_ended),
    {
        let on_ended = self.timer_on.tick();
        if on_ended {
            self.action(TimerOn);
        }
        let off_ended = self.timer_off.tick();
        if off_ended {
            self.action(TimerOff);
        }
        assert(Self::ticked(*old(self), *self, on_ended, off_ended));
    }

    /// Whether the blinking is under way: one of its periods is running.
    pub fn is_active(&self) -> (r: bool)
        ensures
            r == (self.on_running() || self.off_running()),
    {
        self.timer_on.is_active() || self.timer_off.is_active()
    }

    /// The value shown now.
    pub fn get_current(&self) -> (r: T)
        ensures
            cloned::<T>(self.shown(), r),
    {
        self.current.clone()
    }
}

impl<T: Clone> Timeout<TimerOn> for Blink<T> {
    /// The "on" period ended: show the "off" value for one period.
    fn action(&mut self, _id: TimerOn)
        ensures
            final(self).off_running(),
            cloned::<T>(old(self).off_value(), final(self).shown()),
            final(self).on_running() == old(self).on_running(),
            final(self).on_value() == old(self).on_value(),
            final(self).off_value() == old(self).off_value(),
            final(self).total() == old(self).total(),
            final(self).blinks() == old(self).blinks(),
    {
        self.timer_off.start();
        self.current = self.off.clone();
    }
}

impl<T: Clone> Timeout<TimerOff> for Blink<T> {
    /// The "off" period ended: count a blink, show the "on" value, and
    /// start the next "on" period while blinks are left.
    fn action(&mut self, _id: TimerOff)
        ensures
            final(self).blinks() == if old(self).blinks() < usize::MAX {
                old(self).blinks() + 1
            } else {
                old(self).blinks()
            },
            cloned::<T>(old(self).on_value(), final(self).shown()),
            final(self).on_running() == (old(self).on_running() || final(self).blinks()
                < old(self).total()),
            final(self).off_running() == old(self).off_running(),
            final(self).on_value() == old(self).on_value(),
            final(self).off_value() == old(self).off_value(),
            final(self).total() == old(self).total(),
    {
        if self.num_blinks < usize::MAX {
            self.num_blinks = self.num_blinks + 1;
        }
        self.current = self.on.clone();
        if self.num_blinks < self.total_blinks {
            self.timer_on.start();
        }
    }
}

} // verus!
