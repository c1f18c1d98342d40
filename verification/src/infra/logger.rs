//! Severity levels of log messages.
use vstd::prelude::*;

verus! {

/// The severity of a log message, from the most to the least severe.
#[derive(Clone, Copy, Debug, PartialEq, Eq, Structural)]
pub enum LogLevel {
    Error,
    Warning,
    Success,
    Info,
    Debug,
}

/// The position of a level in severity order: `Error` is 0, `Debug` 4.
pub open spec fn level_rank(level: LogLevel) -> nat {
    match level {
        LogLevel::Error => 0,
        LogLevel::Warning => 1,
        LogLevel::Success => 2,
        LogLevel::Info => 3,
        LogLevel::Debug => 4,
    }
}

/// The position of `level` in severity order.
pub fn level_index(level: LogLevel) -> (r: u32)
    ensures
        r == level_rank(level),
{
    match level {
        LogLevel::Error => 0,
        LogLevel::Warning => 1,
        LogLevel::Success => 2,
        LogLevel::Info => 3,
        LogLevel::Debug => 4,
    }
}

} // verus!
