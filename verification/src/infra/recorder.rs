//! Recordings: numbered files, `<base>_rec<n>.txt`, that receive the
//! session's lines while a recording runs (the file itself is opened and
//! written by the caller).
use vstd::prelude::*;
use vstd::utf8::encode_utf8;
use crate::infra::typewriter::recorded_line;
use crate::text::{chars_of, decimal_chars, decimal_spec, push_str, string_of, to_owned_string};

verus! {

/// What `Path::with_extension` with an empty extension gives for the path
/// `path`, as text (by the path rules of the platform built for).
pub uninterp spec fn path_without_ext(path: Seq<char>) -> Seq<char>;

/// What `Path::file_name` gives for the path `path`, as text, when it is
/// valid text (by the path rules of the platform built for).
pub uninterp spec fn path_file_name_of(path: Seq<char>) -> Option<Seq<char>>;

/// `filename` with its extension removed (`Path::with_extension` with an
/// empty extension), as a string.
#[verifier::external_body]
fn path_without_extension(filename: &str) -> (r: String)
    ensures
        r@ == path_without_ext(filename@),
{
    std::path::Path::new(filename).with_extension("").to_string_lossy().into_owned()
}

/// The last component of the path `path` (`Path::file_name`), when there is
/// one that is valid text.
#[verifier::external_body]
pub(crate) fn path_file_name(path: &str) -> (r: Option<String>)
    ensures
        r matches Some(n) ==> path_file_name_of(path@) == Some(n@),
        r is None ==> path_file_name_of(path@) is None,
{
    std::path::Path::new(path).file_name().and_then(|name| name.to_str()).map(|name| name.to_string())
}

pub struct Recorder {
    base_filename: String,
    suffix: usize,
    recording: bool,
    file_size: u128,
}

/// The bare name recordings are named after for the file `filename`: its
/// last path component without the extension, when there is one.
pub open spec fn recording_base(filename: Seq<char>) -> Option<Seq<char>> {
    path_file_name_of(path_without_ext(filename))
}

/// The name of recording number `suffix`: `<base>_rec<suffix>.txt`.
pub open spec fn record_name(base: Seq<char>, suffix: nat) -> Seq<char> {
    base + "_rec"@ + decimal_spec(suffix) + ".txt"@
}

impl Recorder {
    pub closed spec fn base(&self) -> Seq<char> {
        self.base_filename@
    }

    pub closed spec fn number(&self) -> nat {
        self.suffix as nat
    }

    pub closed spec fn running(&self) -> bool {
        self.recording
    }

    pub closed spec fn size(&self) -> u128 {
        self.file_size
    }

    /// The bare name of `filename`: its last path component without the
    /// extension.
    fn base_name(filename: &str) -> (r: Result<String, String>)
        ensures
            r matches Ok(n) ==> recording_base(filename@) == Some(n@),
            r is Err <==> recording_base(filename@) is None,
            r matches Err(e) ==> e@ == "Cannot get filename to record"@,
    {
        let stem = path_without_extension(filename);
        match path_file_name(stem.as_str()) {
            Some(name) => Ok(name),
            None => Err(to_owned_string("Cannot get filename to record")),
        }
    }

    /// A recorder named after `filename` (see `base_name`), at recording 1.
    pub fn new(filename: String) -> (r: Result<Self, String>)
        ensures
            r matches Ok(rec) ==> rec.number() == 1 && !rec.running() && rec.size() == 0 && recording_base(filename@)
                == Some(rec.base()),
            r is Err <==> recording_base(filename@) is None,
            r matches Err(e) ==> e@ == "Cannot get filename to record"@,
    {
        match Self::base_name(filename.as_str()) {
            Ok(base) => Ok(Recorder { base_filename: base, suffix: 1, recording: false, file_size: 0 }),
            Err(e) => Err(e),
        }
    }

    /// Names later recordings after `filename`; a recording in progress
    /// keeps its file.
    pub fn rename(&mut self, filename: &str) -> (r: Result<(), String>)
        ensures
            final(self).number() == old(self).number(),
            final(self).running() == old(self).running(),
            final(self).size() == old(self).size(),
            r is Ok ==> recording_base(filename@) == Some(final(self).base()),
            r is Err ==> final(self).base() == old(self).base(),
            r is Err <==> recording_base(filename@) is None,
            r matches Err(e) ==> e@ == "Cannot get filename to record"@,
    {
        match Self::base_name(filename) {
            Ok(base) => {
                self.base_filename = base;
                Ok(())
            },
            Err(e) => Err(e),
        }
    }

    /// The name of the current recording's file.
    pub fn get_filename(&self) -> (r: String)
        ensures
            r@ == record_name(self.base(), self.number()),
    {
        let mut name = to_owned_string(self.base_filename.as_str());
        push_str(&mut name, "_rec");
        let digits = decimal_chars(self.suffix as u64);
        let digits = string_of(digits.as_slice());
        push_str(&mut name, digits.as_str());
        push_str(&mut name, ".txt");
        name
    }

    pub fn get_size(&self) -> (r: u128)
        ensures
            r == self.size(),
    {
        self.file_size
    }

    pub fn is_recording(&self) -> (r: bool)
        ensures
            r == self.running(),
    {
        self.recording
    }

    /// Marks the recording as running, its file having been created.
    pub fn start_record(&mut self)
        ensures
            final(self).running(),
            final(self).base() == old(self).base(),
            final(self).number() == old(self).number(),
            final(self).size() == old(self).size(),
    {
        self.recording = true;
    }

    /// Ends the recording: the next one gets the next number and starts
    /// empty.
    pub fn stop_record(&mut self)
        requires
            old(self).number() < usize::MAX,
        ensures
            !final(self).running(),
            final(self).base() == old(self).base(),
            final(self).number() == old(self).number() + 1,
            final(self).size() == 0,
    {
        self.recording = false;
        self.suffix = self.suffix + 1;
        self.file_size = 0;
    }

    /// The text a line is recorded as (ended by `\r\n` unless it ends with
    /// `\n`), or the error when no recording runs.
    pub fn record_line(&self, content: &str) -> (r: Result<String, String>)
        ensures
            self.running() ==> (r matches Ok(l) && l@ == recorded_line(content@)),
            !self.running() ==> (r matches Err(e) && e@ == "No file recording now"@),
    {
        if !self.recording {
            return Err(to_owned_string("No file recording now"));
        }
        let cs = chars_of(content);
        let mut line = to_owned_string(content);
        if !(cs.len() > 0 && cs[cs.len() - 1] == '\n') {
            push_str(&mut line, "\r\n");
            proof {
                reveal_strlit("\r\n");
            }
        }
        Ok(line)
    }

    /// Counts a line written to the recording (its size in bytes).
    pub fn add_written(&mut self, line: &str)
        requires
            old(self).size() + encode_utf8(line@).len() <= u128::MAX,
            encode_utf8(line@).len() <= usize::MAX,
        ensures
            final(self).size() == old(self).size() + encode_utf8(line@).len(),
            final(self).base() == old(self).base(),
            final(self).number() == old(self).number(),
            final(self).running() == old(self).running(),
    {
        let n = line.len();
        self.file_size = self.file_size + n as u128;
    }
}

} // verus!
