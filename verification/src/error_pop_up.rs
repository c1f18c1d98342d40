//! A pop-up that shows an error message for a few seconds.
use vstd::prelude::*;
use std::time::Instant;
use crate::infra::timer::{elapsed_millis, instant_now};

verus! {

pub struct ErrorPopUp {
    message: String,
    spawn_time: Instant,
}

impl ErrorPopUp {
    /// How long the pop-up stays, in milliseconds.
    pub const TIMEOUT_MS: u64 = 5000;

    pub closed spec fn text(&self) -> Seq<char> {
        self.message@
    }

    /// A pop-up showing `message`, from now.
    pub fn new(message: String) -> (r: Self)
        ensures
            r.text() == message@,
    {
        ErrorPopUp { message, spawn_time: instant_now() }
    }

    /// The message shown.
    pub fn message(&self) -> (r: &str)
        ensures
            r@ == self.text(),
    {
        self.message.as_str()
    }

    /// Whether a pop-up shown for `elapsed_ms` milliseconds has had its
    /// time: `TIMEOUT_MS` or more.
    pub fn timed_out(elapsed_ms: u128) -> (r: bool)
        ensures
            r == (elapsed_ms >= Self::TIMEOUT_MS),
    {
        elapsed_ms >= Self::TIMEOUT_MS as u128
    }

    /// Whether the pop-up has been shown for its whole time (see
    /// `timed_out`), the clock read as the milliseconds since it was made.
    pub fn is_timeout(&self) -> (r: bool)
        ensures
            exists|elapsed_ms: u128| r == #[trigger] Self::timed_out_spec(elapsed_ms),
    {
        let elapsed = elapsed_millis(&self.spawn_time);
        let r = Self::timed_out(elapsed);
        assert(r == Self::timed_out_spec(elapsed));
        r
    }

    pub open spec fn timed_out_spec(elapsed_ms: u128) -> bool {
        elapsed_ms >= Self::TIMEOUT_MS
    }
}

} // verus!
