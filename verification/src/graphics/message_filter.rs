//! The filter that decides which received lines the history view shows: a
//! regular expression that received lines must match (allow mode) or must
//! not match (mute mode). Sent data and log messages are always shown.
use vstd::prelude::*;
use crate::graphics::ansi::strip_csi;
use crate::graphics::buffer::BufferLine;
use crate::infra::logger::LogLevel;
use crate::graphics::screen::{ScreenDecoder, decode_spec};
use crate::text::{push_str, to_owned_string};

verus! {

/// The message the regular expression compiler gives for `pattern`, or
/// `None` when the pattern compiles.
pub uninterp spec fn regex_error(pattern: Seq<char>) -> Option<Seq<char>>;

/// Whether the regular expression `pattern` matches somewhere in `text`
/// (unanchored).
pub uninterp spec fn regex_matches(pattern: Seq<char>, text: Seq<char>) -> bool;

/// Compiles `pattern` (`regex::Regex::new`) and gives the error's message
/// when it does not compile. The result is named by `regex_error`; the
/// pattern `.*` compiles.
#[verifier::external_body]
fn regex_check(pattern: &str) -> (r: Option<String>)
    ensures
        match r {
            Some(m) => regex_error(pattern@) == Some(m@),
            None => regex_error(pattern@) is None,
        },
        pattern@ == ".*"@ ==> r is None,
{
    match regex::Regex::new(pattern) {
        Ok(_) => None,
        Err(err) => Some(err.to_string()),
    }
}

/// Whether the compiled `pattern` matches somewhere in `text`
/// (`regex::Regex::new`, then `Regex::is_match`). The result is named by
/// `regex_matches`. The pattern `.*` matches every text: an empty match at
/// the start always exists.
#[verifier::external_body]
fn regex_is_match(pattern: &str, text: &str) -> (r: bool)
    requires
        regex_error(pattern@) is None,
    ensures
        r == regex_matches(pattern@, text@),
        pattern@ == ".*"@ ==> r,
{
    match regex::Regex::new(pattern) {
        Ok(re) => re.is_match(text),
        Err(_) => false,
    }
}

/// A regular expression applied to each received line: in allow mode a
/// line is shown when it matches, in mute (`exclude`) mode when it does
/// not.
pub struct MessageFilter {
    pattern: String,
    exclude: bool,
}

impl MessageFilter {
    /// The pattern of no filter: `.*` matches every line.
    pub const DEFAULT_PATTERN: &'static str = ".*";

    pub closed spec fn pattern_text(&self) -> Seq<char> {
        self.pattern@
    }

    pub closed spec fn excluding(&self) -> bool {
        self.exclude
    }

    /// The pattern compiles.
    pub open spec fn wf(&self) -> bool {
        regex_error(self.pattern_text()) is None
    }

    /// A filter with `pattern` in allow or mute (`exclude`) mode; the
    /// compiler's message when the pattern does not compile.
    pub fn new(pattern: &str, exclude: bool) -> (r: Result<Self, String>)
        ensures
            match r {
                Ok(f) => regex_error(pattern@) is None && f.wf() && f.pattern_text() == pattern@
                    && f.excluding() == exclude,
                Err(m) => regex_error(pattern@) == Some(m@),
            },
            pattern@ == ".*"@ ==> r is Ok,
    {
        match regex_check(pattern) {
            Some(m) => Err(m),
            None => Ok(MessageFilter { pattern: to_owned_string(pattern), exclude }),
        }
    }

    /// The filter of `!mute` without a pattern: every received line hidden,
    /// sent data and log messages shown.
    pub fn mute_all() -> (r: Self)
        ensures
            r.wf(),
            r.pattern_text() == ".*"@,
            r.excluding(),

    {
        match Self::new(".*", true) {
            Ok(f) => f,
            Err(_) => {
                proof {
                    assert(false);
                }
                MessageFilter { pattern: String::new(), exclude: true }
            },
        }
    }

    /// What the command bar shows of the filter: the pattern, after `mute `
    /// in mute mode.
    pub fn label(&self) -> (r: String)
        ensures
            r@ == if self.excluding() {
                "mute "@ + self.pattern_text()
            } else {
                self.pattern_text()
            },
    {
        if self.exclude {
            let mut l = to_owned_string("mute ");
            push_str(&mut l, self.pattern.as_str());
            l
        } else {
            to_owned_string(self.pattern.as_str())
        }
    }

    /// Whether a line with these level, direction and bytes is shown.
    pub open spec fn allows_spec(&self, level: Option<LogLevel>, is_tx: bool, message: Seq<u8>, decoder: ScreenDecoder) -> bool {
        level is Some || is_tx || regex_matches(self.pattern_text(), strip_csi(decode_spec(decoder, message)))
            != self.excluding()
    }

    /// Whether `line` is shown: sent data and log messages always are; a
    /// received line is matched, as the screen shows it without its escape
    /// sequences, and shown when the match differs from the mode.
    pub fn allows(&self, line: &BufferLine<Vec<u8>>, decoder: ScreenDecoder) -> (r: bool)
        requires
            self.wf(),
        ensures
            r == self.allows_spec(line.level, line.is_tx, line.message@, decoder),
            self.pattern_text() == ".*"@ ==> r == (line.level is Some || line.is_tx || !self.excluding()),
    {
        if line.level.is_some() || line.is_tx {
            return true;
        }
        let message = decoder.plain_text(line.message.as_slice());
        regex_is_match(self.pattern.as_str(), message.as_str()) != self.exclude
    }
}

impl Default for MessageFilter {
    /// No filter: the default pattern in allow mode.
    fn default() -> (r: Self)
        ensures
            r.wf(),
            r.pattern_text() == ".*"@,
            !r.excluding(),
    {
        match Self::new(".*", false) {
            Ok(f) => f,
            Err(_) => {
                proof {
                    assert(false);
                }
                MessageFilter { pattern: String::new(), exclude: false }
            },
        }
    }
}

} // verus!
