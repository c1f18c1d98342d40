//! The session record: the lines of a session, gathered until they are
//! written out to the record file.
use vstd::prelude::*;
use vstd::utf8::encode_utf8;
use crate::text::{chars_of, push_str, to_owned_string};

verus! {

pub struct TypeWriter {
    contents: Vec<String>,
    filename: String,
    file_size: u128,
}

pub open spec fn string_views(v: Seq<String>) -> Seq<Seq<char>> {
    v.map_values(|s: String| s@)
}

/// A line as it is recorded: ended by `\r\n` unless it already ends with
/// `\n`.
pub open spec fn recorded_line(line: Seq<char>) -> Seq<char> {
    if line.len() > 0 && line.last() == '\n' {
        line
    } else {
        line + seq!['\r', '\n']
    }
}

/// The lines as they are recorded.
pub open spec fn recorded_lines(lines: Seq<Seq<char>>) -> Seq<Seq<char>> {
    lines.map_values(|l: Seq<char>| recorded_line(l))
}

/// The lines one after the other.
pub open spec fn concat(lines: Seq<Seq<char>>) -> Seq<char>
    decreases lines.len(),
{
    if lines.len() == 0 {
        Seq::empty()
    } else {
        concat(lines.drop_last()) + lines.last()
    }
}

/// The size in bytes of the lines.
pub open spec fn total_bytes(lines: Seq<Seq<char>>) -> nat
    decreases lines.len(),
{
    if lines.len() == 0 {
        0
    } else {
        total_bytes(lines.drop_last()) + encode_utf8(lines.last()).len()
    }
}

impl TypeWriter {
    pub closed spec fn pending(&self) -> Seq<Seq<char>> {
        string_views(self.contents@)
    }

    pub closed spec fn name(&self) -> Seq<char> {
        self.filename@
    }

    pub closed spec fn size(&self) -> nat {
        self.file_size as nat
    }

    /// An empty record for the file `filename`.
    pub fn new(filename: String) -> (r: Self)
        ensures
            r.pending().len() == 0,
            r.name() == filename@,
            r.size() == 0,
    {
        TypeWriter { contents: Vec::new(), filename, file_size: 0 }
    }

    /// The record file's name.
    pub fn get_filename(&self) -> (r: String)
        ensures
            r@ == self.name(),
    {
        self.filename.clone()
    }

    /// Points the record at `filename` (once the file, if any, was moved).
    pub fn set_filename(&mut self, filename: String)
        ensures
            final(self).name() == filename@,
            final(self).pending() == old(self).pending(),
            final(self).size() == old(self).size(),
    {
        self.filename = filename;
    }

    /// The size of everything recorded so far, in bytes.
    pub fn get_size(&self) -> (r: u128)
        ensures
            r == self.size(),
    {
        self.file_size
    }

    /// Records `rhs`, each line ended by `\r\n` unless it ends with `\n`,
    /// and counts their bytes.
    pub fn add_lines(&mut self, rhs: Vec<String>)
        requires
            old(self).size() + total_bytes(recorded_lines(string_views(rhs@))) <= u128::MAX,
            forall|i: int|
                0 <= i < rhs@.len() ==> encode_utf8(recorded_line(#[trigger] rhs@[i]@)).len()
                    <= usize::MAX,
        ensures
            final(self).pending() == old(self).pending() + recorded_lines(string_views(rhs@)),
            final(self).size() == old(self).size() + total_bytes(recorded_lines(string_views(rhs@))),
            final(self).name() == old(self).name(),
    {
        let ghost lines = recorded_lines(string_views(rhs@));
        let ghost start = self.pending();
        let ghost start_size = self.size();
        let mut i: usize = 0;
        while i < rhs.len()
            invariant
                i <= rhs@.len(),
                lines == recorded_lines(string_views(rhs@)),
                self.pending() == start + lines.take(i as int),
                self.size() == start_size + total_bytes(lines.take(i as int)),
                start_size + total_bytes(lines) <= u128::MAX,
                forall|k: int|
                    0 <= k < rhs@.len() ==> encode_utf8(recorded_line(#[trigger] rhs@[k]@)).len()
                        <= usize::MAX,
                self.name() == old(self).name(),
            decreases rhs.len() - i,
        {
            assert(lines.take(i + 1).drop_last() =~= lines.take(i as int));
            proof {
                lemma_total_bytes_prefix(lines, i + 1);
            }
            let cs = chars_of(rhs[i].as_str());
            let line = if cs.len() > 0 && cs[cs.len() - 1] == '\n' {
                rhs[i].clone()
            } else {
                let mut l = rhs[i].clone();
                push_str(&mut l, "\r\n");
                proof {
                    reveal_strlit("\r\n");
                }
                l
            };
            assert(line@ == lines[i as int]);
            assert(lines[i as int] == recorded_line(rhs@[i as int]@));
            let n = line.as_str().len();
            self.file_size = self.file_size + n as u128;
            let ghost before = self.pending();
            self.contents.push(line);
            assert(self.pending() =~= before.push(line@));
            assert(self.pending() =~= start + lines.take(i + 1));
            i += 1;
        }
        assert(lines.take(rhs@.len() as int) =~= lines);
    }

    /// Takes the recorded lines out, one after the other, to be written to
    /// the file.
    pub fn take_contents(&mut self) -> (r: String)
        ensures
            r@ == concat(old(self).pending()),
            final(self).pending().len() == 0,
            final(self).name() == old(self).name(),
            final(self).size() == old(self).size(),
    {
        let mut out = String::new();
        let mut i: usize = 0;
        while i < self.contents.len()
            invariant
                i <= self.contents@.len(),
                out@ == concat(self.pending().take(i as int)),
            decreases self.contents.len() - i,
        {
            assert(self.pending().take(i + 1).drop_last() =~= self.pending().take(i as int));
            push_str(&mut out, self.contents[i].as_str());
            i += 1;
        }
        assert(self.pending().take(self.contents@.len() as int) =~= self.pending());
        self.contents = Vec::new();
        assert(self.pending() =~= Seq::<Seq<char>>::empty());
        out
    }
}

proof fn lemma_total_bytes_prefix(lines: Seq<Seq<char>>, k: int)
    requires
        0 <= k <= lines.len(),
    ensures
        total_bytes(lines.take(k)) <= total_bytes(lines),
    decreases lines.len(),
{
    if k < lines.len() {
        assert(lines.drop_last().take(k) =~= lines.take(k));
        lemma_total_bytes_prefix(lines.drop_last(), k);
    } else {
        assert(lines.take(k) =~= lines);
    }
}


/// What renaming a session file from `current` to `new_name` does.
#[derive(Clone, Copy, Debug, PartialEq, Eq, Structural)]
pub enum RenamePlan {
    /// The name is the same: nothing to do.
    Same,
    /// A file named `new_name` exists already: it is never overwritten, and
    /// the current name stays.
    Refuse,
    /// The current file exists: it is moved to the new name.
    Move,
    /// Nothing was written yet: the new name is simply taken.
    Adopt,
}

/// How a session file (the save file or its backup) is renamed, given
/// whether files of the new and of the current name exist.
pub fn rename_plan(current: &str, new_name: &str, new_exists: bool, current_exists: bool) -> (r: RenamePlan)
    ensures
        r == if new_name@ == current@ {
            RenamePlan::Same
        } else if new_exists {
            RenamePlan::Refuse
        } else if current_exists {
            RenamePlan::Move
        } else {
            RenamePlan::Adopt
        },
{
    if crate::text::str_eq(new_name, current) {
        RenamePlan::Same
    } else if new_exists {
        RenamePlan::Refuse
    } else if current_exists {
        RenamePlan::Move
    } else {
        RenamePlan::Adopt
    }
}

} // verus!
