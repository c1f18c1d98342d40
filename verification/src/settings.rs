//! How the settings of a run are chosen: a command-line flag wins over the
//! configuration file, which wins over the built-in default.
use vstd::prelude::*;
use crate::text::to_owned_string;

verus! {

/// Scrollback lines kept when nothing else is said.
pub const DEFAULT_CAPACITY: usize = 2000;

/// The tag file read when nothing else is said.
pub const DEFAULT_TAG_FILE: &'static str = "tags.yml";

/// Polling latency, in microseconds, when none is given.
pub const DEFAULT_LATENCY: u64 = 100;

/// The longest polling latency accepted, in microseconds.
pub const MAX_LATENCY: u64 = 100_000;

/// What the settings file gives: each setting it names, `None` for those
/// it leaves out.
pub struct Config {
    /// Scrollback capacity in lines.
    pub capacity: Option<usize>,
    /// The tag file, used as written.
    pub tag_file: Option<String>,
}

impl Default for Config {
    /// No settings file: nothing given.
    fn default() -> (r: Self)
        ensures
            r.capacity is None,
            r.tag_file is None,
    {
        Config { capacity: None, tag_file: None }
    }
}

/// The polling latency: the one given, or the default, at most
/// `MAX_LATENCY`.
pub fn effective_latency(flag: Option<u64>) -> (r: u64)
    ensures
        r == match flag {
            Some(l) => if l > MAX_LATENCY { MAX_LATENCY } else { l },
            None => DEFAULT_LATENCY,
        },
{
    let l = match flag {
        Some(l) => l,
        None => DEFAULT_LATENCY,
    };
    if l > MAX_LATENCY { MAX_LATENCY } else { l }
}

/// The scrollback capacity: the flag's, else the configuration's, else the
/// default.
pub fn effective_capacity(flag: Option<usize>, config: Option<usize>) -> (r: usize)
    ensures
        r == match flag {
            Some(c) => c,
            None => match config {
                Some(c) => c,
                None => DEFAULT_CAPACITY,
            },
        },
{
    match flag {
        Some(c) => c,
        None => match config {
            Some(c) => c,
            None => DEFAULT_CAPACITY,
        },
    }
}

/// The tag file: the flag's, else the configuration's, else the default.
pub fn effective_tag_file(flag: Option<String>, config: Option<String>) -> (r: String)
    ensures
        r@ == match flag {
            Some(f) => f@,
            None => match config {
                Some(f) => f@,
                None => DEFAULT_TAG_FILE@,
            },
        },
{
    match flag {
        Some(f) => f,
        None => match config {
            Some(f) => f,
            None => to_owned_string(DEFAULT_TAG_FILE),
        },
    }
}

} // verus!
