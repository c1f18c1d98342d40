//! `!ipsum`: placeholder text for trying the display. Random words are cut
//! into lines of a random width, optionally with stray characters and a
//! coloured stretch in each line, and shown as received, sent or logged
//! lines. The random draws are made here or by the caller; what is done
//! with them is stated exactly.
use vstd::prelude::*;
use crate::infra::logger::LogLevel;
use crate::list::string_views;
use crate::text::{chars_of, push_str, str_eq, string_of, sub_chars, to_owned_string};

verus! {

/// Where the generated lines go.
#[derive(Clone, Copy, Debug, PartialEq, Eq, Structural)]
pub enum IpsumTarget {
    /// Shown as received data.
    Rx,
    /// Sent, and shown as sent data.
    Tx,
    /// Logged at a level.
    Log(LogLevel),
}

/// The pieces one after the other.
pub open spec fn concat(parts: Seq<Seq<char>>) -> Seq<char>
    decreases parts.len(),
{
    if parts.len() == 0 {
        Seq::empty()
    } else {
        concat(parts.drop_last()) + parts.last()
    }
}

/// Whether `parts` cut `cs` into pieces of `size` characters, the last one
/// holding what is left (at least one character).
pub open spec fn is_chunking(parts: Seq<Seq<char>>, cs: Seq<char>, size: int) -> bool {
    &&& concat(parts) == cs
    &&& forall|k: int| 0 <= k < parts.len() ==> 0 < #[trigger] parts[k].len() <= size
    &&& forall|k: int| 0 <= k < parts.len() - 1 ==> #[trigger] parts[k].len() == size
}

/// The pieces joined by `\r\n`.
pub open spec fn join_crlf(parts: Seq<Seq<char>>) -> Seq<char>
    decreases parts.len(),
{
    if parts.len() == 0 {
        Seq::empty()
    } else if parts.len() == 1 {
        parts[0]
    } else {
        join_crlf(parts.drop_last()) + seq!['\r', '\n'] + parts.last()
    }
}

/// `cs` with the character at `i` replaced by `picks[i]` where that is
/// given.
pub open spec fn sprinkled(cs: Seq<char>, picks: Seq<Option<char>>) -> Seq<char> {
    Seq::new(
        cs.len(),
        |i: int|
            if i < picks.len() && picks[i] is Some {
                picks[i]->0
            } else {
                cs[i]
            },
    )
}

/// `l` without one `\r` at its end.
pub open spec fn strip_cr(l: Seq<char>) -> Seq<char> {
    if l.len() > 0 && l.last() == '\r' {
        l.drop_last()
    } else {
        l
    }
}

/// The lines ended so far in `cs`, and the line being read at its end.
pub open spec fn line_scan(cs: Seq<char>) -> (Seq<Seq<char>>, Seq<char>)
    decreases cs.len(),
{
    if cs.len() == 0 {
        (Seq::empty(), Seq::empty())
    } else {
        let (ls, cur) = line_scan(cs.drop_last());
        if cs.last() == '\n' {
            (ls.push(strip_cr(cur)), Seq::empty())
        } else {
            (ls, cur.push(cs.last()))
        }
    }
}

/// The lines of `cs` as `str::lines` gives them: split at `\n`, a `\r`
/// before it dropped; a last line without `\n` is kept as it is.
pub open spec fn text_lines(cs: Seq<char>) -> Seq<Seq<char>> {
    let (ls, cur) = line_scan(cs);
    if cur.len() > 0 {
        ls.push(cur)
    } else {
        ls
    }
}

/// The colour codes a coloured stretch may take.
pub open spec fn color_code(i: int) -> Seq<char> {
    if i == 0 {
        "\x1b[31m"@
    } else if i == 1 {
        "\x1b[32m"@
    } else if i == 2 {
        "\x1b[33m"@
    } else if i == 3 {
        "\x1b[34m"@
    } else if i == 4 {
        "\x1b[35m"@
    } else if i == 5 {
        "\x1b[36m"@
    } else {
        "\x1b[37m"@
    }
}

/// The number of colours.
pub const COLOR_COUNT: usize = 7;

/// Whether `(start, end, color)` picks a stretch of a line of `len`
/// characters and a colour: it starts before the last character and ends
/// after its start.
pub open spec fn color_draw_ok(len: int, start: int, end: int, color: int) -> bool {
    &&& 0 <= start < len - 1
    &&& start < end <= len
    &&& 0 <= color < COLOR_COUNT
}

/// `line` with the characters from `start` to `end` in colour `color`,
/// followed by a reset; lines of fewer than two characters stay as they are.
pub open spec fn colored_line(line: Seq<char>, start: int, end: int, color: int) -> Seq<char> {
    if line.len() < 2 {
        line
    } else {
        line.take(start) + color_code(color) + line.subrange(start, end) + "\x1b[0m"@ + line.skip(end)
    }
}

/// The mode `!ipsum` was given (its second word, `rx` when there is none).
pub open spec fn ipsum_mode(words: Seq<Seq<char>>) -> Seq<char> {
    if words.len() >= 2 {
        words[1]
    } else {
        "rx"@
    }
}

pub open spec fn invalid_mode_message() -> Seq<char> {
    "Invalid mode for \"!ipsum\" command. Valid modes are: rx, tx, dbg, inf, ok, warn, err"@
}

/// Where the lines of `!ipsum` with the words `words` go, or the message
/// refusing the mode.
pub open spec fn ipsum_target_spec(words: Seq<Seq<char>>) -> Result<IpsumTarget, Seq<char>> {
    let m = ipsum_mode(words);
    if m == "err"@ {
        Ok(IpsumTarget::Log(LogLevel::Error))
    } else if m == "warn"@ {
        Ok(IpsumTarget::Log(LogLevel::Warning))
    } else if m == "ok"@ {
        Ok(IpsumTarget::Log(LogLevel::Success))
    } else if m == "inf"@ {
        Ok(IpsumTarget::Log(LogLevel::Info))
    } else if m == "dbg"@ {
        Ok(IpsumTarget::Log(LogLevel::Debug))
    } else if m == "rx"@ {
        Ok(IpsumTarget::Rx)
    } else if m == "tx"@ {
        Ok(IpsumTarget::Tx)
    } else {
        Err(invalid_mode_message())
    }
}

/// The text `lipsum::lipsum` gives for `n` words. Its source documents
/// it as randomly generated but deterministic: the generator is seeded with
/// a fixed value on each call, so the text depends on `n` alone.
pub uninterp spec fn lorem_text(n: usize) -> Seq<char>;

/// `n` words of lorem ipsum (`lipsum::lipsum`), named by `lorem_text`; as
/// its documentation says, the text starts with "Lorem ipsum" (stated here
/// for two words or more).
#[verifier::external_body]
fn lorem(n: usize) -> (r: String)
    ensures
        r@ == lorem_text(n),
        n >= 2 ==> r@.len() >= 11 && r@.take(11) == "Lorem ipsum"@,
{
    lipsum::lipsum(n)
}

/// A random number from `lo` to `hi`, both included
/// (`rand::Rng::gen_range` on `thread_rng`).
#[verifier::external_body]
fn draw_between(lo: usize, hi: usize) -> (r: usize)
    requires
        lo <= hi,
    ensures
        lo <= r <= hi,
{
    rand::Rng::gen_range(&mut rand::thread_rng(), lo..=hi)
}

/// Cuts `text` into pieces of `size` characters, the last one holding what
/// is left (see `is_chunking`).
pub fn chunk_chars(text: &str, size: usize) -> (r: Vec<String>)
    requires
        size > 0,
    ensures
        is_chunking(string_views(r@), text@, size as int),
{
    let cs = chars_of(text);
    let mut out: Vec<String> = Vec::new();
    let mut i: usize = 0;
    while i < cs.len()
        invariant
            cs@ == text@,
            size > 0,
            i <= cs@.len(),
            concat(string_views(out@)) == cs@.take(i as int),
            forall|k: int| 0 <= k < out@.len() ==> #[trigger] out@[k]@.len() == size,
        decreases cs.len() - i,
    {
        let end = if cs.len() - i <= size { cs.len() } else { i + size };
        let piece = string_of(sub_chars(cs.as_slice(), i, end).as_slice());
        let ghost before = out@;
        out.push(piece);
        proof {
            assert(string_views(out@).drop_last() =~= string_views(before));
            assert(cs@.take(end as int) =~= cs@.take(i as int) + cs@.subrange(i as int, end as int));
        }
        if end < cs.len() {
            i = end;
        } else {
            i = end;
            proof {
                assert(cs@.take(i as int) =~= cs@);
                assert forall|k: int| 0 <= k < out@.len() implies 0 < #[trigger] string_views(out@)[k].len()
                    <= size by {
                    if k < out@.len() - 1 {
                        assert(out@[k]@.len() == size);
                    }
                }
            }
            return out;
        }
    }
    assert(cs@.take(i as int) =~= cs@);
    assert forall|k: int| 0 <= k < out@.len() implies 0 < #[trigger] string_views(out@)[k].len() <= size by {
        assert(out@[k]@.len() == size);
    }
    out
}

/// The pieces joined by `\r\n` (see `join_crlf`).
pub fn join_lines(parts: &[String]) -> (r: String)
    ensures
        r@ == join_crlf(string_views(parts@)),
{
    let mut out = String::new();
    let mut i: usize = 0;
    while i < parts.len()
        invariant
            i <= parts@.len(),
            out@ == join_crlf(string_views(parts@).take(i as int)),
        decreases parts.len() - i,
    {
        let ghost before = out@;
        if i > 0 {
            push_str(&mut out, "\r\n");
            proof {
                reveal_strlit("\r\n");
            }
        }
        push_str(&mut out, parts[i].as_str());
        proof {
            let t = string_views(parts@).take(i + 1);
            assert(t.drop_last() =~= string_views(parts@).take(i as int));
            assert(t.last() == parts@[i as int]@);
            if i == 0 {
                assert(before =~= Seq::<char>::empty());
                assert(out@ =~= t[0]);
            } else {
                assert(out@ =~= before + seq!['\r', '\n'] + t.last());
            }
        }
        i += 1;
    }
    assert(string_views(parts@).take(parts@.len() as int) =~= string_views(parts@));
    out
}

/// `text` with the character at `i` replaced by `picks[i]` where that is
/// given (see `sprinkled`).
pub fn sprinkle(text: &str, picks: &[Option<char>]) -> (r: String)
    ensures
        r@ == sprinkled(text@, picks@),
{
    let cs = chars_of(text);
    let mut out: Vec<char> = Vec::new();
    let mut i: usize = 0;
    while i < cs.len()
        invariant
            cs@ == text@,
            i <= cs@.len(),
            out@ == sprinkled(text@, picks@).take(i as int),
        decreases cs.len() - i,
    {
        let c = if i < picks.len() {
            match picks[i] {
                Some(p) => p,
                None => cs[i],
            }
        } else {
            cs[i]
        };
        out.push(c);
        i += 1;
        assert(out@ =~= sprinkled(text@, picks@).take(i as int));
    }
    assert(sprinkled(text@, picks@).take(cs@.len() as int) =~= sprinkled(text@, picks@));
    string_of(out.as_slice())
}

/// The lines of `text` (see `text_lines`).
pub fn split_lines(text: &str) -> (r: Vec<String>)
    ensures
        string_views(r@) == text_lines(text@),
{
    let cs = chars_of(text);
    let mut lines: Vec<String> = Vec::new();
    let mut cur: Vec<char> = Vec::new();
    let mut i: usize = 0;
    while i < cs.len()
        invariant
            cs@ == text@,
            i <= cs@.len(),
            (string_views(lines@), cur@) == line_scan(cs@.take(i as int)),
        decreases cs.len() - i,
    {
        assert(cs@.take(i + 1).drop_last() =~= cs@.take(i as int));
        let c = cs[i];
        if c == '\n' {
            let n = cur.len();
            let line = if n > 0 && cur[n - 1] == '\r' {
                string_of(sub_chars(cur.as_slice(), 0, n - 1).as_slice())
            } else {
                string_of(cur.as_slice())
            };
            proof {
                if n > 0 && cur@[n - 1] == '\r' {
                    assert(cur@.subrange(0, n - 1) =~= cur@.drop_last());
                }
            }
            let ghost before = lines@;
            lines.push(line);
            assert(string_views(lines@) =~= string_views(before).push(strip_cr(cur@)));
            cur = Vec::new();
        } else {
            cur.push(c);
        }
        i += 1;
    }
    assert(cs@.take(cs@.len() as int) =~= cs@);
    if cur.len() > 0 {
        let ghost before = lines@;
        lines.push(string_of(cur.as_slice()));
        assert(string_views(lines@) =~= string_views(before).push(cur@));
    }
    lines
}

/// `line` with a coloured stretch (see `colored_line`).
pub fn color_line(line: &str, start: usize, end: usize, color: usize) -> (r: String)
    requires
        line@.len() >= 2 ==> color_draw_ok(line@.len() as int, start as int, end as int, color as int),
    ensures
        r@ == colored_line(line@, start as int, end as int, color as int),
{
    let cs = chars_of(line);
    if cs.len() < 2 {
        return to_owned_string(line);
    }
    let mut out = string_of(sub_chars(cs.as_slice(), 0, start).as_slice());
    let code = if color == 0 {
        "\x1b[31m"
    } else if color == 1 {
        "\x1b[32m"
    } else if color == 2 {
        "\x1b[33m"
    } else if color == 3 {
        "\x1b[34m"
    } else if color == 4 {
        "\x1b[35m"
    } else if color == 5 {
        "\x1b[36m"
    } else {
        "\x1b[37m"
    };
    push_str(&mut out, code);
    let middle = string_of(sub_chars(cs.as_slice(), start, end).as_slice());
    push_str(&mut out, middle.as_str());
    push_str(&mut out, "\x1b[0m");
    let rest = string_of(sub_chars(cs.as_slice(), end, cs.len()).as_slice());
    push_str(&mut out, rest.as_str());
    assert(cs@.subrange(0, start as int) =~= line@.take(start as int));
    assert(cs@.subrange(end as int, cs@.len() as int) =~= line@.skip(end as int));
    assert(code@ == color_code(color as int));
    out
}

/// A random coloured stretch and colour for a line of `len` characters
/// (at least two).
pub fn draw_color(len: usize) -> (r: (usize, usize, usize))
    requires
        len >= 2,
    ensures
        color_draw_ok(len as int, r.0 as int, r.1 as int, r.2 as int),
{
    let start = draw_between(0, len - 2);
    let end = draw_between(start + 1, len);
    let color = draw_between(0, COLOR_COUNT - 1);
    (start, end, color)
}

/// Whether `out` is `line` with some coloured stretch (see `colored_line`).
pub open spec fn colored_somehow(line: Seq<char>, out: Seq<char>) -> bool {
    exists|start: int, end: int, color: int|
        (line.len() >= 2 ==> color_draw_ok(line.len() as int, start, end, color)) && out
            == #[trigger] colored_line(line, start, end, color)
}

/// Each of `lines` with a random coloured stretch (see `colored_line`).
pub fn color_lines(lines: Vec<String>) -> (r: Vec<String>)
    ensures
        r@.len() == lines@.len(),
        forall|i: int| 0 <= i < lines@.len() ==> colored_somehow(lines@[i]@, #[trigger] r@[i]@),
{
    let mut out: Vec<String> = Vec::new();
    let mut i: usize = 0;
    while i < lines.len()
        invariant
            i <= lines@.len(),
            out@.len() == i,
            forall|k: int| 0 <= k < i ==> colored_somehow(lines@[k]@, #[trigger] out@[k]@),
        decreases lines.len() - i,
    {
        let cs = chars_of(lines[i].as_str());
        let (start, end, color) = if cs.len() >= 2 {
            draw_color(cs.len())
        } else {
            (0, 0, 0)
        };
        let l = color_line(lines[i].as_str(), start, end, color);
        let ghost old_out = out@;
        out.push(l);
        proof {
            assert(out@[i as int]@ == colored_line(lines@[i as int]@, start as int, end as int, color as int));
            assert(colored_somehow(lines@[i as int]@, out@[i as int]@));
            assert forall|k: int| 0 <= k < i + 1 implies colored_somehow(lines@[k]@, #[trigger] out@[k]@) by {
                if k < i {
                    assert(out@[k] == old_out[k]);
                }
            }
        }
        i += 1;
    }
    out
}

/// Random lorem ipsum for `!ipsum`: ten to a hundred words, cut into
/// pieces of twenty to eighty characters.
pub fn ipsum_pieces() -> (r: Vec<String>)
    ensures
        exists|n: int, size: int|
            10 <= n <= 100 && 20 <= size <= 80 && #[trigger] is_chunking(
                string_views(r@),
                lorem_text(n as usize),
                size,
            ),
        r@.len() > 0,
{
    let n_words = draw_between(10, 100);
    let size = draw_between(20, 80);
    let text = lorem(n_words);
    let r = chunk_chars(text.as_str(), size);
    proof {
        assert((n_words as int) as usize == n_words);
        assert(is_chunking(string_views(r@), lorem_text((n_words as int) as usize), size as int));
        if r@.len() == 0 {
            assert(string_views(r@) =~= Seq::<Seq<char>>::empty());
            assert(concat(string_views(r@)).len() == 0);
        }
    }
    r
}

/// The lines `!ipsum` shows for the pieces `pieces`: joined by `\r\n`,
/// with the characters `picks` gives put in (the `--sp` option), split into
/// lines again.
pub fn ipsum_lines(pieces: &[String], picks: &[Option<char>]) -> (r: Vec<String>)
    ensures
        string_views(r@) == text_lines(sprinkled(join_crlf(string_views(pieces@)), picks@)),
{
    let joined = join_lines(pieces);
    let text = sprinkle(joined.as_str(), picks);
    split_lines(text.as_str())
}

/// Whether the word `w` is among `words`.
pub fn has_word(words: &[String], w: &str) -> (r: bool)
    ensures
        r == string_views(words@).contains(w@),
{
    let mut i: usize = 0;
    while i < words.len()
        invariant
            i <= words@.len(),
            forall|k: int| 0 <= k < i ==> words@[k]@ != w@,
        decreases words.len() - i,
    {
        if str_eq(words[i].as_str(), w) {
            assert(string_views(words@)[i as int] == w@);
            return true;
        }
        i += 1;
    }
    assert forall|k: int| 0 <= k < string_views(words@).len() implies string_views(words@)[k] != w@ by {
        assert(string_views(words@)[k] == words@[k]@);
    }
    false
}

/// Where the lines of `!ipsum` with the words `words` go (see
/// `ipsum_target_spec`).
pub fn ipsum_target(words: &[String]) -> (r: Result<IpsumTarget, String>)
    ensures
        match r {
            Ok(t) => ipsum_target_spec(string_views(words@)) == Ok::<IpsumTarget, Seq<char>>(t),
            Err(m) => ipsum_target_spec(string_views(words@)) == Err::<IpsumTarget, Seq<char>>(m@),
        },
{
    let m = if words.len() >= 2 {
        assert(string_views(words@)[1] == words@[1]@);
        words[1].as_str()
    } else {
        "rx"
    };
    if str_eq(m, "err") {
        Ok(IpsumTarget::Log(LogLevel::Error))
    } else if str_eq(m, "warn") {
        Ok(IpsumTarget::Log(LogLevel::Warning))
    } else if str_eq(m, "ok") {
        Ok(IpsumTarget::Log(LogLevel::Success))
    } else if str_eq(m, "inf") {
        Ok(IpsumTarget::Log(LogLevel::Info))
    } else if str_eq(m, "dbg") {
        Ok(IpsumTarget::Log(LogLevel::Debug))
    } else if str_eq(m, "rx") {
        Ok(IpsumTarget::Rx)
    } else if str_eq(m, "tx") {
        Ok(IpsumTarget::Tx)
    } else {
        Err(to_owned_string("Invalid mode for \"!ipsum\" command. Valid modes are: rx, tx, dbg, inf, ok, warn, err"))
    }
}

} // verus!
