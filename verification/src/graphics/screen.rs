//! How received bytes are shown on screen: the decoders that turn them into
//! printable text, and the positions the screen works with.
use vstd::prelude::*;
use vstd::utf8::{decode_utf8, encode_utf8, valid_utf8};
use crate::graphics::ansi::{ANSI, strip_csi};
use crate::graphics::ansi::Color;
use crate::graphics::buffer::{Buffer, BufferLine, BufferPosition};
use crate::graphics::bytes::occurs_at;
use crate::graphics::graphics_task::SaveStats;
use crate::graphics::selection::Selection;
use crate::graphics::special_char::utf8_width;
use crate::text::{char_from_ascii, chars_of, chars_to_lower, lower_seq, string_of};

verus! {

/// A position on the screen, in cells.
#[derive(Clone, Copy, Debug, PartialEq, Eq, Structural)]
pub struct ScreenPosition {
    pub x: u16,
    pub y: u16,
}

/// A search match: where it is, and the id of its line, which stays the
/// same when the buffer re-indexes its lines.
#[derive(Clone, Copy, Debug, PartialEq, Eq, Structural)]
pub struct SearchHit {
    pub position: BufferPosition,
    pub line_id: u64,
}

/// How received bytes are turned into text.
#[derive(Clone, Copy, Debug, PartialEq, Eq, Structural)]
pub enum ScreenDecoder {
    Ascii,
    Utf8,
}

/// The lower-case hexadecimal digit of `d` (below 16).
pub open spec fn hex_digit(d: nat) -> char {
    if d < 10 {
        ((d + 0x30) as u32) as char
    } else {
        ((d - 10 + 0x61) as u32) as char
    }
}

/// `\xNN`: a byte written as two lower-case hexadecimal digits.
pub open spec fn hex_escape(b: u8) -> Seq<char> {
    seq!['\\', 'x', hex_digit((b / 16) as nat), hex_digit((b % 16) as nat)]
}

/// Every byte of `bytes` written as `\xNN`.
pub open spec fn hex_escapes(bytes: Seq<u8>) -> Seq<char>
    decreases bytes.len(),
{
    if bytes.len() == 0 {
        Seq::empty()
    } else {
        hex_escapes(bytes.drop_last()) + hex_escape(bytes.last())
    }
}

/// A byte as the ASCII decoder shows it: `\n` and `\r` escaped, a tab as
/// four spaces, printable ASCII as itself, anything else as `\xNN`.
pub open spec fn ascii_shown(b: u8) -> Seq<char> {
    if b == 0x0a {
        seq!['\\', 'n']
    } else if b == 0x0d {
        seq!['\\', 'r']
    } else if b == 0x09 {
        seq![' ', ' ', ' ', ' ']
    } else if 0x20 <= b <= 0x7e {
        seq![(b as u32) as char]
    } else {
        hex_escape(b)
    }
}

/// The bytes as the ASCII decoder shows them.
pub open spec fn ascii_text(data: Seq<u8>) -> Seq<char>
    decreases data.len(),
{
    if data.len() == 0 {
        Seq::empty()
    } else {
        ascii_text(data.drop_last()) + ascii_shown(data.last())
    }
}

/// The length of the longest prefix of `data` that is valid UTF-8 (what
/// `Utf8Error::valid_up_to` reports).
pub open spec fn valid_prefix_len(data: Seq<u8>) -> int {
    choose|k: int|
        0 <= k <= data.len() && valid_utf8(data.take(k)) && forall|j: int|
            k < j <= data.len() ==> !valid_utf8(#[trigger] data.take(j))
}

/// The length of the invalid sequence at the end of the longest valid
/// prefix of `data`, as `Utf8Error::error_len` reports it; `None` when the
/// input ends inside an incomplete character.
pub uninterp spec fn utf8_error_len(data: Seq<u8>) -> Option<nat>;

/// The text of `data` read as UTF-8, with every byte of an invalid or
/// incomplete sequence written as `\xNN`.
pub open spec fn utf8_text(data: Seq<u8>) -> Seq<char>
    decreases data.len(),
{
    if valid_utf8(data) {
        decode_utf8(data)
    } else {
        let k = valid_prefix_len(data);
        if 0 <= k <= data.len() {
            let head = decode_utf8(data.take(k));
            match utf8_error_len(data) {
                Some(n) => if 1 <= n && k + n <= data.len() {
                    head + hex_escapes(data.subrange(k, k + n)) + utf8_text(data.skip(k + n))
                } else {
                    head + hex_escapes(data.skip(k))
                },
                None => head + hex_escapes(data.skip(k)),
            }
        } else {
            hex_escapes(data)
        }
    }
}

/// A character as the UTF-8 decoder finally shows it: newline and
/// carriage return escaped, a tab as four spaces.
pub open spec fn control_shown(c: char) -> Seq<char> {
    if c == '\n' {
        seq!['\\', 'n']
    } else if c == '\r' {
        seq!['\\', 'r']
    } else if c == '\t' {
        seq![' ', ' ', ' ', ' ']
    } else {
        seq![c]
    }
}

pub open spec fn controls_shown(s: Seq<char>) -> Seq<char>
    decreases s.len(),
{
    if s.len() == 0 {
        Seq::empty()
    } else {
        controls_shown(s.drop_last()) + control_shown(s.last())
    }
}

/// What a decoder shows for `data`.
pub open spec fn decode_spec(decoder: ScreenDecoder, data: Seq<u8>) -> Seq<char> {
    match decoder {
        ScreenDecoder::Ascii => ascii_text(data),
        ScreenDecoder::Utf8 => controls_shown(utf8_text(data)),
    }
}

/// Reads `bytes` as UTF-8 (`str::from_utf8`): the text when they are
/// valid; otherwise the length of the longest valid prefix
/// (`Utf8Error::valid_up_to`, stated exactly) and the length of the invalid
/// sequence after it (`Utf8Error::error_len`, named by `utf8_error_len`,
/// not zero, and within the input).
#[verifier::external_body]
fn read_utf8(bytes: &[u8]) -> (r: Result<String, (usize, Option<usize>)>)
    ensures
        r is Ok <==> valid_utf8(bytes@),
        r matches Ok(s) ==> s@ == decode_utf8(bytes@),
        r matches Err((k, n)) ==> {
            &&& k < bytes@.len()
            &&& valid_utf8(bytes@.take(k as int))
            &&& forall|j: int| k < j <= bytes@.len() ==> !valid_utf8(#[trigger] bytes@.take(j))
            &&& utf8_error_len(bytes@) == match n {
                Some(len) => Some(len as nat),
                None => None::<nat>,
            }
            &&& n matches Some(len) ==> 1 <= len && k + len <= bytes@.len()
        },
{
    match std::str::from_utf8(bytes) {
        Ok(s) => Ok(s.to_string()),
        Err(e) => Err((e.valid_up_to(), e.error_len())),
    }
}

/// The character of a hexadecimal digit.
fn hex_digit_char(d: u8) -> (r: char)
    requires
        d < 16,
    ensures
        r == hex_digit(d as nat),
{
    let c = if d < 10 {
        char_from_ascii(0x30 + d)
    } else {
        char_from_ascii(0x61 + d - 10)
    };
    proof {
        vstd::utf8::char_u32_cast(c, c as u32);
    }
    c
}

/// Appends `\xNN` for `b`.
fn push_hex_escape(out: &mut Vec<char>, b: u8)
    ensures
        final(out)@ == old(out)@ + hex_escape(b),
{
    out.push('\\');
    out.push('x');
    out.push(hex_digit_char(b / 16));
    out.push(hex_digit_char(b % 16));
    assert(final(out)@ =~= old(out)@ + hex_escape(b));
}

/// Appends `\xNN` for every byte of `bytes[from..to]`.
fn push_hex_escapes(out: &mut Vec<char>, bytes: &[u8], from: usize, to: usize)
    requires
        from <= to <= bytes@.len(),
    ensures
        final(out)@ == old(out)@ + hex_escapes(bytes@.subrange(from as int, to as int)),
{
    let mut k = from;
    while k < to
        invariant
            from <= k <= to <= bytes@.len(),
            out@ == old(out)@ + hex_escapes(bytes@.subrange(from as int, k as int)),
        decreases to - k,
    {
        assert(bytes@.subrange(from as int, k + 1).drop_last() =~= bytes@.subrange(
            from as int,
            k as int,
        ));
        push_hex_escape(out, bytes[k]);
        k += 1;
    }
}

proof fn lemma_valid_prefix_len(data: Seq<u8>, k: int)
    requires
        0 <= k <= data.len(),
        valid_utf8(data.take(k)),
        forall|j: int| k < j <= data.len() ==> !valid_utf8(#[trigger] data.take(j)),
    ensures
        valid_prefix_len(data) == k,
{
    let c = valid_prefix_len(data);
    assert(c == k) by {
        if c < k {
            assert(!valid_utf8(data.take(k)));
        } else if c > k {
            assert(!valid_utf8(data.take(c)));
        }
    }
}

impl ScreenDecoder {
    /// The decoder's name, as shown in the screen's title.
    pub fn name(&self) -> (r: &'static str)
        ensures
            r@ == match self {
                ScreenDecoder::Ascii => "ASCII"@,
                ScreenDecoder::Utf8 => "UTF-8"@,
            },
    {
        match self {
            ScreenDecoder::Ascii => "ASCII",
            ScreenDecoder::Utf8 => "UTF-8",
        }
    }

    /// The text the screen shows for `data` (see `decode_spec`).
    pub fn decode(&self, data: &[u8]) -> (r: String)
        ensures
            r@ == decode_spec(*self, data@),
    {
        let chars = match self {
            ScreenDecoder::Ascii => ascii_chars(data),
            ScreenDecoder::Utf8 => {
                let text = utf8_chars(data);
                controls_chars(text.as_slice())
            },
        };
        string_of(chars.as_slice())
    }

    /// The text shown for `data` without its ANSI escape sequences, as the
    /// screen draws it.
    pub fn plain_text(&self, data: &[u8]) -> (r: String)
        ensures
            r@ == strip_csi(decode_spec(*self, data@)),
    {
        ANSI::remove_encoding(self.decode(data))
    }
}

/// The ASCII decoder's text for `data`.
fn ascii_chars(data: &[u8]) -> (r: Vec<char>)
    ensures
        r@ == ascii_text(data@),
{
    let mut out: Vec<char> = Vec::new();
    let mut i: usize = 0;
    while i < data.len()
        invariant
            i <= data@.len(),
            out@ == ascii_text(data@.take(i as int)),
        decreases data.len() - i,
    {
        assert(data@.take(i + 1).drop_last() =~= data@.take(i as int));
        let b = data[i];
        let ghost before = out@;
        if b == 0x0a {
            out.push('\\');
            out.push('n');
        } else if b == 0x0d {
            out.push('\\');
            out.push('r');
        } else if b == 0x09 {
            out.push(' ');
            out.push(' ');
            out.push(' ');
            out.push(' ');
        } else if 0x20 <= b && b <= 0x7e {
            let c = char_from_ascii(b);
            proof {
                vstd::utf8::char_u32_cast(c, b as u32);
            }
            out.push(c);
        } else {
            push_hex_escape(&mut out, b);
        }
        assert(out@ =~= before + ascii_shown(b));
        i += 1;
    }
    assert(data@.take(data@.len() as int) =~= data@);
    out
}

/// The UTF-8 text of `data`, invalid bytes escaped (see `utf8_text`).
fn utf8_chars(data: &[u8]) -> (r: Vec<char>)
    ensures
        r@ == utf8_text(data@),
{
    let mut out: Vec<char> = Vec::new();
    let mut i: usize = 0;
    assert(data@.skip(0) =~= data@);
    assert(out@ + utf8_text(data@) =~= utf8_text(data@));
    loop
        invariant
            i <= data@.len(),
            out@ + utf8_text(data@.skip(i as int)) == utf8_text(data@),
        decreases data@.len() - i,
    {
        let rest = &data[i..data.len()];
        assert(rest@ =~= data@.skip(i as int));
        match read_utf8(rest) {
            Ok(s) => {
                let cs = crate::text::chars_of(s.as_str());
                let ghost before = out@;
                crate::text::extend_chars(&mut out, cs.as_slice());
                return out;
            },
            Err((valid, error_len)) => {
                proof {
                    lemma_valid_prefix_len(rest@, valid as int);
                }
                let head = &rest[0..valid];
                assert(head@ =~= rest@.take(valid as int));
                let ghost before = out@;
                match read_utf8(head) {
                    Ok(s) => {
                        let cs = crate::text::chars_of(s.as_str());
                        crate::text::extend_chars(&mut out, cs.as_slice());
                    },
                    Err(_) => {},
                }
                match error_len {
                    Some(len) => {
                        push_hex_escapes(&mut out, rest, valid, valid + len);
                        assert(rest@.skip(valid + len) =~= data@.skip(i + valid + len));
                        assert(out@ + utf8_text(data@.skip(i + valid + len)) =~= before + (
                        decode_utf8(rest@.take(valid as int)) + hex_escapes(
                            rest@.subrange(valid as int, valid + len),
                        ) + utf8_text(rest@.skip(valid + len))));
                        i = i + valid + len;
                    },
                    None => {
                        push_hex_escapes(&mut out, rest, valid, rest.len());
                        assert(rest@.subrange(valid as int, rest@.len() as int) =~= rest@.skip(
                            valid as int,
                        ));
                        return out;
                    },
                }
            },
        }
    }
}

/// `s` with newlines and carriage returns escaped and tabs as four spaces.
fn controls_chars(s: &[char]) -> (r: Vec<char>)
    ensures
        r@ == controls_shown(s@),
{
    let mut out: Vec<char> = Vec::new();
    let mut i: usize = 0;
    while i < s.len()
        invariant
            i <= s@.len(),
            out@ == controls_shown(s@.take(i as int)),
        decreases s.len() - i,
    {
        assert(s@.take(i + 1).drop_last() =~= s@.take(i as int));
        let c = s[i];
        let ghost before = out@;
        if c == '\n' {
            out.push('\\');
            out.push('n');
        } else if c == '\r' {
            out.push('\\');
            out.push('r');
        } else if c == '\t' {
            out.push(' ');
            out.push(' ');
            out.push(' ');
            out.push(' ');
        } else {
            out.push(c);
        }
        assert(out@ =~= before + control_shown(c));
        i += 1;
    }
    assert(s@.take(s@.len() as int) =~= s@);
    out
}

/// The area the screen occupies, in cells.
#[derive(Clone, Copy, Debug, PartialEq, Eq, Structural)]
pub struct ScreenRect {
    pub x: u16,
    pub y: u16,
    pub width: u16,
    pub height: u16,
}

/// The non-overlapping occurrences of the non-empty `needle` in `haystack`
/// from position `p` on, left to right, each as its position and length.
pub open spec fn plain_from(haystack: Seq<char>, needle: Seq<char>, p: int) -> Seq<(usize, usize)>
    decreases haystack.len() - p,
{
    if needle.len() == 0 || p < 0 || p + needle.len() > haystack.len() {
        Seq::empty()
    } else if occurs_at(haystack, needle, p) {
        seq![(p as usize, needle.len() as usize)] + plain_from(haystack, needle, p + needle.len())
    } else {
        plain_from(haystack, needle, p + 1)
    }
}

/// The matches of a literal search: case folded (ASCII only) unless the
/// search is case-sensitive.
pub open spec fn plain_matches(line: Seq<char>, needle: Seq<char>, is_case_sensitive: bool) -> Seq<(usize, usize)> {
    if is_case_sensitive {
        plain_from(line, needle, 0)
    } else {
        plain_from(lower_seq(line), lower_seq(needle), 0)
    }
}

/// Whether the regular expression `pattern` compiles, with ASCII and
/// Unicode case folding when `case_insensitive`.
pub uninterp spec fn regex_builds(pattern: Seq<char>, case_insensitive: bool) -> bool;

/// The successive non-overlapping leftmost-first matches of the compiled
/// `pattern` in `line`, each as its start and end byte offset in the UTF-8
/// encoding of `line`; none when the pattern does not compile.
pub uninterp spec fn regex_spans(pattern: Seq<char>, case_insensitive: bool, line: Seq<char>) -> Seq<(usize, usize)>;

/// Compiles `pattern` with `regex::RegexBuilder` (`case_insensitive` as
/// asked) and says whether that succeeded. The result is named by
/// `regex_builds`.
#[verifier::external_body]
fn regex_build_check(pattern: &str, case_insensitive: bool) -> (r: bool)
    ensures
        r == regex_builds(pattern@, case_insensitive),
{
    regex::RegexBuilder::new(pattern).case_insensitive(case_insensitive).build().is_ok()
}

/// Byte spans that each start no later than they end and follow one
/// another without overlapping.
pub open spec fn spans_in_order(spans: Seq<(usize, usize)>) -> bool {
    &&& forall|i: int| 0 <= i < spans.len() ==> #[trigger] spans[i].0 <= spans[i].1
    &&& forall|i: int, j: int| 0 <= i < j < spans.len() ==> #[trigger] spans[i].1 <= #[trigger] spans[j].0
}

/// Compiles `pattern` as `regex_build_check` does and lists the byte spans
/// of `Regex::find_iter` over `line`, which the regex documentation
/// describes as the successive non-overlapping matches. The result is named
/// by `regex_spans`; that the spans lie on character boundaries is not
/// stated.
#[verifier::external_body]
fn regex_find_spans(pattern: &str, case_insensitive: bool, line: &str) -> (r: Vec<(usize, usize)>)
    ensures
        r@ == regex_spans(pattern@, case_insensitive, line@),
        spans_in_order(r@),
{
    match regex::RegexBuilder::new(pattern).case_insensitive(case_insensitive).build() {
        Ok(re) => re.find_iter(line).map(|m| (m.start(), m.end())).collect(),
        Err(_) => Vec::new(),
    }
}

/// How many leading characters of `s` fit entirely within its first `byte`
/// bytes of UTF-8: the character column of a byte offset.
pub open spec fn char_column(s: Seq<char>, byte: int) -> nat
    decreases s.len(),
{
    if s.len() == 0 || utf8_width(s[0]) > byte {
        0
    } else {
        1 + char_column(s.drop_first(), byte - utf8_width(s[0]))
    }
}

/// The regular expression matches of `spans` over `line` in characters:
/// each non-empty span as its column and length; empty spans are dropped.
pub open spec fn regex_columns(line: Seq<char>, spans: Seq<(usize, usize)>) -> Seq<(usize, usize)>
    decreases spans.len(),
{
    if spans.len() == 0 {
        Seq::empty()
    } else {
        let rest = regex_columns(line, spans.drop_last());
        let (start, end) = spans.last();
        if start == end {
            rest
        } else {
            let column = char_column(line, start as int);
            rest.push((column as usize, sat_sub(char_column(line, end as int) as int, column as int) as usize))
        }
    }
}

fn utf8_width_exec(c: char) -> (r: usize)
    ensures
        r == utf8_width(c),
{
    let v = c as u32;
    if v < 0x80 {
        1
    } else if v < 0x800 {
        2
    } else if v < 0x10000 {
        3
    } else {
        4
    }
}

fn char_column_exec(line: &[char], byte: usize) -> (r: usize)
    ensures
        r == char_column(line@, byte as int),
{
    let mut i: usize = 0;
    let mut rest: usize = byte;
    assert(line@.skip(0) =~= line@);
    while i < line.len()
        invariant
            i <= line@.len(),
            char_column(line@, byte as int) == i + char_column(line@.skip(i as int), rest as int),
        decreases line.len() - i,
    {
        assert(line@.skip(i as int).drop_first() =~= line@.skip(i + 1));
        assert(line@.skip(i as int)[0] == line@[i as int]);
        let w = utf8_width_exec(line[i]);
        if w > rest {
            return i;
        }
        rest = rest - w;
        i += 1;
    }
    i
}

/// The matches of a regular expression in characters, from the byte spans
/// the regex engine gave for `line` (see `regex_columns`).
pub fn regex_columns_exec(line: &[char], spans: &[(usize, usize)]) -> (r: Vec<(usize, usize)>)
    ensures
        r@ == regex_columns(line@, spans@),
{
    let mut out: Vec<(usize, usize)> = Vec::new();
    let mut i: usize = 0;
    assert(spans@.take(0) =~= Seq::<(usize, usize)>::empty());
    while i < spans.len()
        invariant
            i <= spans@.len(),
            out@ == regex_columns(line@, spans@.take(i as int)),
        decreases spans.len() - i,
    {
        assert(spans@.take(i + 1).drop_last() =~= spans@.take(i as int));
        assert(spans@.take(i + 1).last() == spans@[i as int]);
        let (start, end) = spans[i];
        if start != end {
            let column = char_column_exec(line, start);
            let end_column = char_column_exec(line, end);
            let len = if end_column >= column { end_column - column } else { 0 };
            out.push((column, len));
        }
        i += 1;
    }
    assert(spans@.take(spans@.len() as int) =~= spans@);
    out
}

/// The matches of the search `query` in `line`: none for an empty query;
/// a literal search, or a regular expression (none when it does not
/// compile).
pub open spec fn query_matches(query: Seq<char>, is_case_sensitive: bool, is_regex: bool, line: Seq<char>) -> Seq<
    (usize, usize),
> {
    if query.len() == 0 {
        Seq::empty()
    } else if !is_regex {
        plain_matches(line, query, is_case_sensitive)
    } else if regex_builds(query, !is_case_sensitive) {
        regex_columns(line, regex_spans(query, !is_case_sensitive, line))
    } else {
        Seq::empty()
    }
}


/// Every match lies within a text of `len` characters.
pub open spec fn matches_within(matches: Seq<(usize, usize)>, len: int) -> bool {
    forall|k: int| 0 <= k < matches.len() ==> #[trigger] matches[k].0 + matches[k].1 <= len
}

/// Every match ends before the next one starts.
pub open spec fn sorted_matches(matches: Seq<(usize, usize)>) -> bool {
    forall|i: int, j: int| 0 <= i < j < matches.len() ==> #[trigger] matches[i].0 + matches[i].1 <= #[trigger] matches[j].0
}

proof fn lemma_plain_from_ordered(h: Seq<char>, n: Seq<char>, p: int)
    requires
        h.len() <= usize::MAX,
        p >= 0,
    ensures
        matches_within(plain_from(h, n, p), h.len() as int),
        sorted_matches(plain_from(h, n, p)),
        forall|k: int| 0 <= k < plain_from(h, n, p).len() ==> #[trigger] plain_from(h, n, p)[k].0 >= p,
    decreases h.len() - p,
{
    if n.len() == 0 || p + n.len() > h.len() {
    } else if occurs_at(h, n, p) {
        lemma_plain_from_ordered(h, n, p + n.len());
        let rest = plain_from(h, n, p + n.len());
        let all = seq![(p as usize, n.len() as usize)] + rest;
        assert forall|k: int| 0 < k < all.len() implies #[trigger] all[k] == rest[k - 1] by {}
        assert forall|k: int| 0 <= k < all.len() implies #[trigger] all[k].0 + all[k].1 <= h.len() && all[k].0 >= p by {
            if k > 0 {
                assert(all[k] == rest[k - 1]);
            }
        }
        assert forall|i: int, j: int| 0 <= i < j < all.len() implies #[trigger] all[i].0 + all[i].1 <= #[trigger] all[j].0 by {
            assert(all[j] == rest[j - 1]);
            if i > 0 {
                assert(all[i] == rest[i - 1]);
            }
        }
    } else {
        lemma_plain_from_ordered(h, n, p + 1);
    }
}

proof fn lemma_char_column_bound(s: Seq<char>, b: int)
    ensures
        char_column(s, b) <= s.len(),
    decreases s.len(),
{
    if s.len() > 0 && utf8_width(s[0]) <= b {
        lemma_char_column_bound(s.drop_first(), b - utf8_width(s[0]));
    }
}

proof fn lemma_char_column_mono(s: Seq<char>, a: int, b: int)
    requires
        a <= b,
    ensures
        char_column(s, a) <= char_column(s, b),
    decreases s.len(),
{
    if s.len() > 0 && utf8_width(s[0]) <= a {
        lemma_char_column_mono(s.drop_first(), a - utf8_width(s[0]), b - utf8_width(s[0]));
    }
}

/// Each column match of `spans` ends no later than the character column of
/// byte `bound`, when every span ends by then.
proof fn lemma_regex_columns_below(line: Seq<char>, spans: Seq<(usize, usize)>, bound: int)
    requires
        line.len() <= usize::MAX,
        forall|i: int| 0 <= i < spans.len() ==> #[trigger] spans[i].0 <= spans[i].1,
        forall|i: int| 0 <= i < spans.len() ==> #[trigger] spans[i].1 <= bound,
    ensures
        forall|k: int|
            0 <= k < regex_columns(line, spans).len() ==> #[trigger] regex_columns(line, spans)[k].0
                + regex_columns(line, spans)[k].1 <= char_column(line, bound),
    decreases spans.len(),
{
    if spans.len() > 0 {
        let rest = spans.drop_last();
        assert forall|i: int| 0 <= i < rest.len() implies #[trigger] rest[i].0 <= rest[i].1 && rest[i].1 <= bound by {
            assert(rest[i] == spans[i]);
        }
        lemma_regex_columns_below(line, rest, bound);
        let (start, end) = spans.last();
        assert(spans.last() == spans[spans.len() - 1]);
        lemma_char_column_mono(line, start as int, end as int);
        lemma_char_column_mono(line, end as int, bound);
        lemma_char_column_bound(line, end as int);
        let prev = regex_columns(line, rest);
        let all = regex_columns(line, spans);
        if start != end {
            assert(all == prev.push(all.last()));
            assert forall|k: int| 0 <= k < all.len() implies #[trigger] all[k].0 + all[k].1 <= char_column(line, bound) by {
                if k < prev.len() {
                    assert(all[k] == prev[k]);
                }
            }
        } else {
            assert(all == prev);
        }
    }
}

proof fn lemma_regex_columns_ordered(line: Seq<char>, spans: Seq<(usize, usize)>)
    requires
        line.len() <= usize::MAX,
        spans_in_order(spans),
    ensures
        matches_within(regex_columns(line, spans), line.len() as int),
        sorted_matches(regex_columns(line, spans)),
    decreases spans.len(),
{
    if spans.len() > 0 {
        let rest = spans.drop_last();
        assert forall|i: int| 0 <= i < rest.len() implies #[trigger] rest[i].0 <= rest[i].1 by {
            assert(rest[i] == spans[i]);
        }
        assert forall|i: int, j: int| 0 <= i < j < rest.len() implies #[trigger] rest[i].1 <= #[trigger] rest[j].0 by {
            assert(rest[i] == spans[i] && rest[j] == spans[j]);
        }
        lemma_regex_columns_ordered(line, rest);
        let (start, end) = spans.last();
        assert forall|i: int| 0 <= i < rest.len() implies #[trigger] rest[i].1 <= start by {
            assert(rest[i] == spans[i]);
            assert(spans[i].1 <= spans[spans.len() - 1].0);
        }
        lemma_regex_columns_below(line, rest, start as int);
        lemma_char_column_mono(line, start as int, end as int);
        lemma_char_column_bound(line, end as int);
        let prev = regex_columns(line, rest);
        let all = regex_columns(line, spans);
        if start != end {
            assert(all == prev.push(all.last()));
            assert forall|i: int, j: int| 0 <= i < j < all.len() implies #[trigger] all[i].0 + all[i].1 <= #[trigger] all[j].0 by {
                assert(all[i] == prev[i]);
                if j < prev.len() {
                    assert(all[j] == prev[j]);
                }
            }
            assert forall|k: int| 0 <= k < all.len() implies #[trigger] all[k].0 + all[k].1 <= line.len() by {
                if k < prev.len() {
                    assert(all[k] == prev[k]);
                }
            }
        }
    }
}

/// What a search query looks for on each line.
pub enum SearchMatcher {
    /// An empty query, or a regular expression that does not compile:
    /// nothing matches.
    Empty,
    /// A literal substring.
    Plain { needle: String, is_case_sensitive: bool },
    /// A regular expression that compiles (with case folding unless the
    /// search is case-sensitive).
    Regex { pattern: String, is_case_sensitive: bool },
}

impl SearchMatcher {
    /// The matcher of `query`: nothing for an empty query, a literal search
    /// otherwise.
    pub fn build(query: &str, is_case_sensitive: bool, is_regex: bool) -> (r: Self)
        ensures
            query@.len() == 0 ==> r is Empty,
            query@.len() > 0 && !is_regex ==> (r matches SearchMatcher::Plain { needle, is_case_sensitive: c }
                && needle@ == query@ && c == is_case_sensitive),
            query@.len() > 0 && is_regex && regex_builds(query@, !is_case_sensitive) ==> (
            r matches SearchMatcher::Regex { pattern, is_case_sensitive: c } && pattern@ == query@ && c
                == is_case_sensitive),
            query@.len() > 0 && is_regex && !regex_builds(query@, !is_case_sensitive) ==> r is Empty,
            forall|line: Seq<char>| #[trigger] r.matches_spec(line) == query_matches(query@, is_case_sensitive, is_regex, line),
    {
        if query.is_empty() {
            return SearchMatcher::Empty;
        }
        if is_regex {
            if regex_build_check(query, !is_case_sensitive) {
                SearchMatcher::Regex { pattern: crate::text::to_owned_string(query), is_case_sensitive }
            } else {
                SearchMatcher::Empty
            }
        } else {
            SearchMatcher::Plain { needle: crate::text::to_owned_string(query), is_case_sensitive }
        }
    }

    pub fn is_empty(&self) -> (r: bool)
        ensures
            r == (*self is Empty),
    {
        match self {
            SearchMatcher::Empty => true,
            _ => false,
        }
    }

    /// The matches within `line`, each as its column and length in
    /// characters.
    pub open spec fn matches_spec(&self, line: Seq<char>) -> Seq<(usize, usize)> {
        match self {
            SearchMatcher::Empty => Seq::empty(),
            SearchMatcher::Plain { needle, is_case_sensitive } => plain_matches(line, needle@, *is_case_sensitive),
            SearchMatcher::Regex { pattern, is_case_sensitive } => regex_columns(
                line,
                regex_spans(pattern@, !*is_case_sensitive, line),
            ),
        }
    }

    /// The non-overlapping matches within `line`, each as its column and
    /// length in characters.
    pub fn matches(&self, line: &str) -> (r: Vec<(usize, usize)>)
        ensures
            r@ == self.matches_spec(line@),
            matches_within(r@, line@.len() as int),
            sorted_matches(r@),
    {
        match self {
            SearchMatcher::Empty => Vec::new(),
            SearchMatcher::Regex { pattern, is_case_sensitive } => {
                let spans = regex_find_spans(pattern.as_str(), !*is_case_sensitive, line);
                let line_chars = chars_of(line);
                let n = line_chars.len();
                proof {
                    lemma_regex_columns_ordered(line@, spans@);
                }
                regex_columns_exec(line_chars.as_slice(), spans.as_slice())
            },
            SearchMatcher::Plain { needle, is_case_sensitive } => {
                let line_chars = chars_of(line);
                let n = line_chars.len();
                let needle_chars = chars_of(needle.as_str());
                if *is_case_sensitive {
                    proof {
                        lemma_plain_from_ordered(line@, needle@, 0);
                    }
                    plain_matches_exec(line_chars.as_slice(), needle_chars.as_slice())
                } else {
                    let h = chars_to_lower(line_chars.as_slice());
                    let nd = chars_to_lower(needle_chars.as_slice());
                    proof {
                        lemma_plain_from_ordered(lower_seq(line@), lower_seq(needle@), 0);
                    }
                    plain_matches_exec(h.as_slice(), nd.as_slice())
                }
            },
        }
    }
}

fn plain_matches_exec(haystack: &[char], needle: &[char]) -> (r: Vec<(usize, usize)>)
    ensures
        r@ == plain_from(haystack@, needle@, 0),
{
    let mut out: Vec<(usize, usize)> = Vec::new();
    if needle.len() == 0 {
        return out;
    }
    let mut p: usize = 0;
    while p < haystack.len() && needle.len() <= haystack.len() - p
        invariant
            needle@.len() > 0,
            out@ + plain_from(haystack@, needle@, p as int) == plain_from(haystack@, needle@, 0),
        decreases haystack.len() - p,
    {
        if crate::text::chars_occur_at(haystack, needle, p) {
            let ghost before = out@;
            out.push((p, needle.len()));
            assert(out@ + plain_from(haystack@, needle@, p + needle@.len()) =~= before + plain_from(
                haystack@,
                needle@,
                p as int,
            ));
            p = p + needle.len();
        } else {
            p = p + 1;
        }
    }
    assert(plain_from(haystack@, needle@, p as int) == Seq::<(usize, usize)>::empty());
    assert(out@ + Seq::<(usize, usize)>::empty() =~= out@);
    out
}

/// What the screen shows: the history, or the history with a search's hits.
pub enum ScreenMode {
    Normal,
    Search { current: usize, entries: Vec<SearchHit>, matcher: SearchMatcher },
}

/// The first index of `hits` where `pred` holds.
pub open spec fn first_hit(hits: Seq<SearchHit>, prev: SearchHit, same: bool) -> Option<int>
    decreases hits.len(),
{
    if hits.len() == 0 {
        None
    } else if (same && hits[0] == prev) || (!same && hits[0].line_id >= prev.line_id) {
        Some(0)
    } else {
        match first_hit(hits.drop_first(), prev, same) {
            Some(i) => Some(i + 1),
            None => None,
        }
    }
}

/// Where the navigation goes back after a re-scan: to `prev` itself if it is
/// still a hit, else to the first hit on its line or a later one, else to
/// the first hit.
pub open spec fn restored(hits: Seq<SearchHit>, prev: Option<SearchHit>) -> int {
    match prev {
        None => 0,
        Some(p) => match first_hit(hits, p, true) {
            Some(i) => i,
            None => match first_hit(hits, p, false) {
                Some(i) => i,
                None => 0,
            },
        },
    }
}

fn find_hit(hits: &[SearchHit], prev: SearchHit, same: bool) -> (r: Option<usize>)
    ensures
        match r {
            Some(i) => first_hit(hits@, prev, same) == Some(i as int),
            None => first_hit(hits@, prev, same) is None,
        },
{
    let mut i: usize = 0;
    assert(hits@.skip(0) =~= hits@);
    while i < hits.len()
        invariant
            i <= hits@.len(),
            first_hit(hits@, prev, same) == match first_hit(hits@.skip(i as int), prev, same) {
                Some(k) => Some(k + i),
                None => None,
            },
        decreases hits.len() - i,
    {
        assert(hits@.skip(i as int).drop_first() =~= hits@.skip(i + 1));
        assert(hits@.skip(i as int)[0] == hits@[i as int]);
        let h = hits[i];
        if (same && h == prev) || (!same && h.line_id >= prev.line_id) {
            return Some(i);
        }
        i += 1;
    }
    None
}

impl ScreenMode {
    /// A new query: its matcher, no hits yet, at the first.
    pub fn set_query(&mut self, query: String, is_case_sensitive: bool, is_regex: bool)
        ensures
            *old(self) is Normal ==> *final(self) is Normal,
            *old(self) is Search ==> (*final(self) matches ScreenMode::Search { current, entries, matcher } && current
                == 0 && entries@.len() == 0 && !(matcher is Empty) == (query@.len() > 0 && (!is_regex
                || regex_builds(query@, !is_case_sensitive))) && forall|line: Seq<char>| #[trigger] matcher.matches_spec(line)
                == query_matches(query@, is_case_sensitive, is_regex, line)),
    {
        if let ScreenMode::Search { entries, matcher, current } = self {
            *matcher = SearchMatcher::build(query.as_str(), is_case_sensitive, is_regex);
            *current = 0;
            *entries = Vec::new();
        }
    }

    /// Adds a hit of the search.
    pub fn add_entry(&mut self, entry: SearchHit)
        ensures
            *old(self) is Normal ==> *final(self) is Normal,
            *old(self) matches ScreenMode::Search { current: c0, entries: e0, matcher: m0 } ==> (*final(self) matches ScreenMode::Search { current, entries, matcher } && current == c0 && entries@ == e0@.push(entry) && matcher == m0),
    {
        if let ScreenMode::Search { entries, .. } = self {
            entries.push(entry);
        }
    }

    /// Whether a search with a non-empty query is on.
    pub fn is_searching(&self) -> (r: bool)
        ensures
            r == (self matches ScreenMode::Search { matcher, .. } && !(matcher is Empty)),
    {
        match self {
            ScreenMode::Search { matcher, .. } => !matcher.is_empty(),
            ScreenMode::Normal => false,
        }
    }

    /// The hit the navigation is on.
    pub fn current_hit(&self) -> (r: Option<SearchHit>)
        ensures
            r == match self {
                ScreenMode::Search { current, entries, .. } => if *current < entries@.len() {
                    Some(entries@[*current as int])
                } else {
                    None
                },
                ScreenMode::Normal => None,
            },
    {
        match self {
            ScreenMode::Search { current, entries, .. } => {
                if *current < entries.len() {
                    Some(entries[*current])
                } else {
                    None
                }
            },
            ScreenMode::Normal => None,
        }
    }

    /// Empties the hits before they are found again, giving back the one
    /// the navigation was on.
    pub fn take_hits_for_rescan(&mut self) -> (r: Option<SearchHit>)
        ensures
            r == old(self).current_hit_spec(),
            *old(self) is Normal ==> *final(self) is Normal,
            *old(self) matches ScreenMode::Search { current: c0, .. } ==> (*final(self) matches ScreenMode::Search { current, entries, .. } && current == c0 && entries@.len() == 0),
    {
        let previous = self.current_hit();
        if let ScreenMode::Search { entries, .. } = self {
            *entries = Vec::new();
        }
        previous
    }

    pub open spec fn current_hit_spec(&self) -> Option<SearchHit> {
        match self {
            ScreenMode::Search { current, entries, .. } => if *current < entries@.len() {
                Some(entries@[*current as int])
            } else {
                None
            },
            ScreenMode::Normal => None,
        }
    }

    /// Puts the navigation back after a re-scan (see `restored`).
    pub fn restore_current(&mut self, previous: Option<SearchHit>)
        ensures
            *old(self) is Normal ==> *final(self) is Normal,
            *old(self) matches ScreenMode::Search { entries: e0, matcher: m0, .. } ==> (*final(self) matches ScreenMode::Search { current, entries, matcher } && entries@ == e0@ && matcher == m0 && current == restored(
                e0@,
                previous,
            )),
    {
        if let ScreenMode::Search { entries, current, .. } = self {
            let index = match previous {
                None => 0,
                Some(prev) => match find_hit(entries.as_slice(), prev, true) {
                    Some(i) => i,
                    None => match find_hit(entries.as_slice(), prev, false) {
                        Some(i) => i,
                        None => 0,
                    },
                },
            };
            *current = index;
        }
    }

    /// The matches of the search in `line`; none outside a search.
    pub fn search_matches(&self, line: &str) -> (r: Vec<(usize, usize)>)
        ensures
            r@ == match self {
                ScreenMode::Search { matcher, .. } => matcher.matches_spec(line@),
                ScreenMode::Normal => Seq::empty(),
            },
    {
        match self {
            ScreenMode::Search { matcher, .. } => matcher.matches(line),
            ScreenMode::Normal => Vec::new(),
        }
    }

    /// The colour of the screen's border: white, yellow while searching.
    pub fn color(&self) -> (r: Color)
        ensures
            r == if *self is Normal { Color::White } else { Color::Yellow },
    {
        match self {
            ScreenMode::Normal => Color::White,
            ScreenMode::Search { .. } => Color::Yellow,
        }
    }
}

/// The screen's view of the history: where it is scrolled to, whether it
/// follows new lines, its mode, the selection, and the bookmarked lines (by
/// line identity).
pub struct Screen {
    pub position: BufferPosition,
    pub auto_scroll: bool,
    pub mode: ScreenMode,
    pub decoder: ScreenDecoder,
    pub size: ScreenRect,
    pub selection: Option<Selection>,
    /// The bookmarked line identities, each once (see `wf`).
    pub bookmarks: Vec<u64>,
    pub current_bookmark: Option<u64>,
    /// The buffer's eviction count when the view last caught up with it.
    pub evicted_seen: u64,
}

/// `a - b`, or 0 when `b` is larger.
pub open spec fn sat_sub(a: int, b: int) -> int {
    if a >= b { a - b } else { 0 }
}

/// The rows of content: the height without the two borders.
pub open spec fn visible_rows(size: ScreenRect) -> int {
    sat_sub(size.height as int, 2)
}

/// The bookmarked lines of `lines`, top to bottom, as line index and id.
pub open spec fn bookmark_positions_spec(lines: Seq<BufferLine<Vec<u8>>>, marks: Set<u64>) -> Seq<(usize, u64)>
    decreases lines.len(),
{
    if lines.len() == 0 {
        Seq::empty()
    } else {
        let rest = bookmark_positions_spec(lines.drop_last(), marks);
        if marks.contains(lines.last().id) {
            rest.push((lines.last().line, lines.last().id))
        } else {
            rest
        }
    }
}

/// The first index of `positions` whose line is past `anchor`.
pub open spec fn first_below(positions: Seq<(usize, u64)>, anchor: int) -> Option<int>
    decreases positions.len(),
{
    if positions.len() == 0 {
        None
    } else if positions[0].0 > anchor {
        Some(0)
    } else {
        match first_below(positions.drop_first(), anchor) {
            Some(i) => Some(i + 1),
            None => None,
        }
    }
}

/// The last index of `positions` whose line is before `anchor`.
pub open spec fn last_above(positions: Seq<(usize, u64)>, anchor: int) -> Option<int>
    decreases positions.len(),
{
    if positions.len() == 0 {
        None
    } else if positions.last().0 < anchor {
        Some(positions.len() - 1)
    } else {
        last_above(positions.drop_last(), anchor)
    }
}

/// The first index of `positions` holding the bookmark `id`.
pub open spec fn index_of_id(positions: Seq<(usize, u64)>, id: u64) -> Option<int>
    decreases positions.len(),
{
    if positions.len() == 0 {
        None
    } else if positions[0].1 == id {
        Some(0)
    } else {
        match index_of_id(positions.drop_first(), id) {
            Some(i) => Some(i + 1),
            None => None,
        }
    }
}

/// Which bookmark to jump to: one step from `current` (wrapping around)
/// when it is still shown; otherwise the first past `anchor` going forward
/// (or the first of all), the last before it going backward (or the last
/// of all). None when there are no bookmarks.
pub open spec fn next_bookmark_spec(positions: Seq<(usize, u64)>, current: Option<u64>, anchor: int, forward: bool) -> Option<int> {
    let len = positions.len() as int;
    if len == 0 {
        None
    } else {
        match (match current {
            Some(c) => index_of_id(positions, c),
            None => None,
        }) {
            Some(i) => Some(if forward {
                if i + 1 == len { 0 } else { i + 1 }
            } else {
                if i == 0 { len - 1 } else { i - 1 }
            }),
            None => Some(if forward {
                match first_below(positions, anchor) {
                    Some(i) => i,
                    None => 0,
                }
            } else {
                match last_above(positions, anchor) {
                    Some(i) => i,
                    None => len - 1,
                }
            }),
        }
    }
}

fn index_of_id_exec(positions: &[(usize, u64)], id: u64) -> (r: Option<usize>)
    ensures
        match r {
            Some(i) => index_of_id(positions@, id) == Some(i as int),
            None => index_of_id(positions@, id) is None,
        },
{
    let mut i: usize = 0;
    assert(positions@.skip(0) =~= positions@);
    while i < positions.len()
        invariant
            i <= positions@.len(),
            index_of_id(positions@, id) == match index_of_id(positions@.skip(i as int), id) {
                Some(k) => Some(k + i),
                None => None,
            },
        decreases positions.len() - i,
    {
        assert(positions@.skip(i as int).drop_first() =~= positions@.skip(i + 1));
        assert(positions@.skip(i as int)[0] == positions@[i as int]);
        if positions[i].1 == id {
            return Some(i);
        }
        i += 1;
    }
    None
}

fn first_below_exec(positions: &[(usize, u64)], anchor: usize) -> (r: Option<usize>)
    ensures
        match r {
            Some(i) => first_below(positions@, anchor as int) == Some(i as int),
            None => first_below(positions@, anchor as int) is None,
        },
{
    let mut i: usize = 0;
    assert(positions@.skip(0) =~= positions@);
    while i < positions.len()
        invariant
            i <= positions@.len(),
            first_below(positions@, anchor as int) == match first_below(positions@.skip(i as int), anchor as int) {
                Some(k) => Some(k + i),
                None => None,
            },
        decreases positions.len() - i,
    {
        assert(positions@.skip(i as int).drop_first() =~= positions@.skip(i + 1));
        assert(positions@.skip(i as int)[0] == positions@[i as int]);
        if positions[i].0 > anchor {
            return Some(i);
        }
        i += 1;
    }
    None
}

fn last_above_exec(positions: &[(usize, u64)], anchor: usize) -> (r: Option<usize>)
    ensures
        match r {
            Some(i) => last_above(positions@, anchor as int) == Some(i as int),
            None => last_above(positions@, anchor as int) is None,
        },
{
    let mut n: usize = positions.len();
    assert(positions@.take(n as int) =~= positions@);
    while n > 0
        invariant
            n <= positions@.len(),
            last_above(positions@, anchor as int) == last_above(positions@.take(n as int), anchor as int),
        decreases n,
    {
        assert(positions@.take(n as int).drop_last() =~= positions@.take(n - 1));
        assert(positions@.take(n as int).last() == positions@[n - 1]);
        if positions[n - 1].0 < anchor {
            return Some(n - 1);
        }
        n -= 1;
    }
    None
}

/// A found bookmark id is at an index of `positions`.
proof fn lemma_index_of_id_bound(positions: Seq<(usize, u64)>, id: u64)
    ensures
        index_of_id(positions, id) matches Some(i) ==> 0 <= i < positions.len(),
    decreases positions.len(),
{
    if positions.len() > 0 {
        lemma_index_of_id_bound(positions.drop_first(), id);
    }
}

proof fn lemma_first_below_bound(positions: Seq<(usize, u64)>, anchor: int)
    ensures
        first_below(positions, anchor) matches Some(i) ==> 0 <= i < positions.len(),
    decreases positions.len(),
{
    if positions.len() > 0 {
        lemma_first_below_bound(positions.drop_first(), anchor);
    }
}

proof fn lemma_last_above_bound(positions: Seq<(usize, u64)>, anchor: int)
    ensures
        last_above(positions, anchor) matches Some(i) ==> 0 <= i < positions.len(),
    decreases positions.len(),
{
    if positions.len() > 0 {
        lemma_last_above_bound(positions.drop_last(), anchor);
    }
}

/// The bookmark chosen for a jump is one of `positions`.
proof fn lemma_next_bookmark_bound(positions: Seq<(usize, u64)>, current: Option<u64>, anchor: int, forward: bool)
    ensures
        next_bookmark_spec(positions, current, anchor, forward) matches Some(i) ==> 0 <= i < positions.len(),
{
    if let Some(c) = current {
        lemma_index_of_id_bound(positions, c);
    }
    lemma_first_below_bound(positions, anchor);
    lemma_last_above_bound(positions, anchor);
}

/// Removing the element at `i` of a sequence without repeats removes
/// that value from its set, and leaves no repeats.
proof fn lemma_remove_unique(s: Seq<u64>, i: int)
    requires
        s.no_duplicates(),
        0 <= i < s.len(),
    ensures
        s.remove(i).no_duplicates(),
        s.remove(i).to_set() == s.to_set().remove(s[i]),
{
    let t = s.remove(i);
    assert forall|a: int, b: int| 0 <= a < b < t.len() implies t[a] != t[b] by {
        let a2 = if a < i { a } else { a + 1 };
        let b2 = if b < i { b } else { b + 1 };
        assert(t[a] == s[a2] && t[b] == s[b2]);
    }
    assert forall|x: u64| t.to_set().contains(x) <==> s.to_set().remove(s[i]).contains(x) by {
        if t.contains(x) {
            let k = choose|k: int| 0 <= k < t.len() && t[k] == x;
            let k2 = if k < i { k } else { k + 1 };
            assert(s[k2] == x);
            assert(k2 != i);
        }
        if s.to_set().remove(s[i]).contains(x) {
            assert(s.contains(x));
            let k = choose|k: int| 0 <= k < s.len() && s[k] == x;
            assert(k != i);
            if k < i {
                assert(t[k] == x);
            } else {
                assert(t[k - 1] == x);
            }
        }
    }
    assert(t.to_set() =~= s.to_set().remove(s[i]));
}

impl Screen {
    pub const CONTENT_OFFSET_X: usize = 14;
    pub const CONTENT_OFFSET_Y: usize = 1;

    pub open spec fn bookmark_ids(&self) -> Seq<u64> {
        self.bookmarks@
    }

    /// The bookmarked line identities.
    pub open spec fn marks(&self) -> Set<u64> {
        self.bookmark_ids().to_set()
    }

    /// No line is bookmarked twice.
    pub open spec fn wf(&self) -> bool {
        self.bookmark_ids().no_duplicates()
    }

    /// The row at the middle of the content.
    pub open spec fn center_y(&self) -> int {
        visible_rows(self.size) / 2
    }

    /// Whether the line `id` is bookmarked.
    pub fn has_bookmark(&self, id: u64) -> (r: bool)
        ensures
            r == self.marks().contains(id),
    {
        let mut i: usize = 0;
        while i < self.bookmarks.len()
            invariant
                i <= self.bookmarks@.len(),
                forall|k: int| 0 <= k < i ==> self.bookmarks@[k] != id,
            decreases self.bookmarks.len() - i,
        {
            if self.bookmarks[i] == id {
                assert(self.bookmarks@.contains(id));
                return true;
            }
            i += 1;
        }
        assert(!self.bookmarks@.contains(id));
        false
    }

    /// Bookmarks the line `id`.
    pub fn add_bookmark(&mut self, id: u64)
        requires
            old(self).wf(),
        ensures
            final(self).wf(),
            final(self).marks() == old(self).marks().insert(id),
            final(self).position == old(self).position,
            final(self).current_bookmark == old(self).current_bookmark,
            final(self).auto_scroll == old(self).auto_scroll,
            final(self).mode == old(self).mode,
            final(self).selection == old(self).selection,
    {
        if !self.has_bookmark(id) {
            let ghost before = self.bookmarks@;
            self.bookmarks.push(id);
            proof {
                before.lemma_push_to_set_commute(id);
                assert(self.bookmarks@.no_duplicates()) by {
                    assert forall|a: int, b: int| 0 <= a < b < self.bookmarks@.len() implies self.bookmarks@[a]
                        != self.bookmarks@[b] by {
                        if b == before.len() {
                            assert(before.contains(before[a]));
                        }
                    }
                }
            }
        } else {
            assert(old(self).marks().insert(id) =~= old(self).marks());
        }
    }

    /// Removes the bookmark of the line `id`; says whether there was one.
    fn remove_bookmark(&mut self, id: u64) -> (r: bool)
        requires
            old(self).wf(),
        ensures
            final(self).wf(),
            r == old(self).marks().contains(id),
            final(self).marks() == old(self).marks().remove(id),
            final(self).position == old(self).position,
            final(self).current_bookmark == old(self).current_bookmark,
            final(self).auto_scroll == old(self).auto_scroll,
            final(self).mode == old(self).mode,
            final(self).selection == old(self).selection,
    {
        let mut i: usize = 0;
        while i < self.bookmarks.len()
            invariant
                i <= self.bookmarks@.len(),
                *self == *old(self),
                self.wf(),
                forall|k: int| 0 <= k < i ==> self.bookmarks@[k] != id,
            decreases self.bookmarks.len() - i,
        {
            if self.bookmarks[i] == id {
                let ghost before = self.bookmarks@;
                self.bookmarks.remove(i);
                proof {
                    lemma_remove_unique(before, i as int);
                }
                return true;
            }
            i += 1;
        }
        assert(!self.bookmarks@.contains(id));
        assert(old(self).marks().remove(id) =~= old(self).marks());
        false
    }

    /// How many lines are bookmarked.
    pub fn bookmark_count(&self) -> (r: usize)
        ensures
            r == self.bookmark_ids().len(),
    {
        self.bookmarks.len()
    }

    fn clamp_position(&mut self, max_main_axis: usize)
        ensures
            final(self).position.line == if old(self).position.line <= max_main_axis {
                old(self).position.line
            } else {
                max_main_axis
            },
            final(self).auto_scroll == (old(self).auto_scroll || final(self).position.line == max_main_axis),
            final(self).position.column == old(self).position.column,
            final(self).bookmarks == old(self).bookmarks,
            final(self).mode == old(self).mode,
            final(self).selection == old(self).selection,
            final(self).size == old(self).size,
            final(self).current_bookmark == old(self).current_bookmark,
            final(self).evicted_seen == old(self).evicted_seen,
            final(self).decoder == old(self).decoder,
    {
        if self.position.line > max_main_axis {
            self.position.line = max_main_axis;
        }
        if self.position.line == max_main_axis {
            self.auto_scroll = true;
        }
    }

    /// The selection, if there is one.
    pub fn selection(&self) -> (r: Option<Selection>)
        ensures
            r == self.selection,
    {
        self.selection
    }

    /// What `change_mode_to_normal` does.
    pub open spec fn normal_mode_effect(before: Screen, after: Screen, max_main_axis: usize) -> bool {
        &&& (after.mode is Normal)
        &&& (after.position.line == if before.position.line <= max_main_axis {
            before.position.line
        } else {
            max_main_axis
        })
        &&& (after.auto_scroll == (before.auto_scroll || after.position.line == max_main_axis))
        &&& (after.bookmarks == before.bookmarks)
        &&& (after.selection == before.selection)
    }

    /// Back to showing the history, within `max_main_axis`.
    pub fn change_mode_to_normal(&mut self, max_main_axis: usize)
        ensures
            Screen::normal_mode_effect(*old(self), *final(self), max_main_axis),
    {
        self.mode = ScreenMode::Normal;
        self.clamp_position(max_main_axis);
    }

    /// A search for `query`, with no hits yet.
    pub fn change_mode_to_search(&mut self, query: String, is_case_sensitive: bool, is_regex: bool)
        ensures
            final(self).mode matches ScreenMode::Search { current, entries, .. } && current == 0
                && entries@.len() == 0,
            final(self).is_searching_spec() == (query@.len() > 0 && (!is_regex || regex_builds(
                query@,
                !is_case_sensitive,
            ))),
            final(self).position == old(self).position,
            final(self).bookmarks == old(self).bookmarks,
    {
        let matcher = SearchMatcher::build(query.as_str(), is_case_sensitive, is_regex);
        self.mode = ScreenMode::Search { current: 0, entries: Vec::new(), matcher };
    }

    pub open spec fn is_searching_spec(&self) -> bool {
        self.mode matches ScreenMode::Search { matcher, .. } && !(matcher is Empty)
    }

    /// Whether a search with a non-empty query is on.
    pub fn is_searching(&self) -> (r: bool)
        ensures
            r == self.is_searching_spec(),
    {
        self.mode.is_searching()
    }

    /// The hit the navigation is on and how many there are, while
    /// searching.
    pub fn search_indexes(&self) -> (r: Option<(usize, usize)>)
        ensures
            r == match self.mode {
                ScreenMode::Search { current, entries, .. } => Some((current, entries@.len() as usize)),
                ScreenMode::Normal => None,
            },
    {
        match &self.mode {
            ScreenMode::Search { current, entries, .. } => Some((*current, entries.len())),
            ScreenMode::Normal => None,
        }
    }

    pub fn size(&self) -> (r: ScreenRect)
        ensures
            r == self.size,
    {
        self.size
    }

    /// A new size: the view stays within the scroll range of a buffer of
    /// `buffer_len` lines.
    pub fn set_size(&mut self, size: ScreenRect, buffer_len: usize)
        ensures
            final(self).size == size,
            final(self).position.line == if old(self).position.line <= sat_sub(buffer_len as int, visible_rows(size)) {
                old(self).position.line as int
            } else {
                sat_sub(buffer_len as int, visible_rows(size))
            },
            final(self).auto_scroll == (old(self).auto_scroll || final(self).position.line == sat_sub(
                buffer_len as int,
                visible_rows(size),
            )),
            final(self).position.column == old(self).position.column,
            final(self).bookmarks == old(self).bookmarks,
            final(self).selection == old(self).selection,
    {
        self.size = size;
        let visible = if size.height >= 2 { (size.height - 2) as usize } else { 0 };
        let max_main_axis = if buffer_len >= visible { buffer_len - visible } else { 0 };
        self.clamp_position(max_main_axis);
    }

    /// What `set_selection` does.
    pub open spec fn selection_start_effect(before: Screen, after: Screen, start_point: ScreenPosition) -> bool {
        &&& (after.selection == Some(Selection {
            start: BufferPosition {
                line: sat_sub(start_point.y + before.position.line, 1) as usize,
                column: sat_sub(start_point.x + before.position.column, 14) as usize,
            },
            end: BufferPosition {
                line: sat_sub(start_point.y + before.position.line, 1) as usize,
                column: sat_sub(start_point.x + before.position.column, 14) as usize,
            }
        }))
        &&& (after.position == before.position)
        &&& (after.bookmarks == before.bookmarks)
    }

    /// Starts a selection at the screen cell `start_point`.
    pub fn set_selection(&mut self, start_point: ScreenPosition)
        requires
            start_point.y + old(self).position.line <= usize::MAX,
            start_point.x + old(self).position.column <= usize::MAX,
        ensures
            Screen::selection_start_effect(*old(self), *final(self), start_point),
    {
        let row = start_point.y as usize + self.position.line;
        let col = start_point.x as usize + self.position.column;
        let line = if row >= 1 { row - 1 } else { 0 };
        let column = if col >= 14 { col - 14 } else { 0 };
        let p = BufferPosition { line, column };
        self.selection = Some(Selection::new(p, p));
    }

    /// What `set_selection_end` does.
    pub open spec fn selection_end_effect(before: Screen, after: Screen, end_point: ScreenPosition) -> bool {
        &&& (before.selection is None ==> after.selection is None)
        &&& (before.selection matches Some(sel) ==> after.selection == Some(Selection {
            start: sel.start,
            end: BufferPosition {
                line: sat_sub(end_point.y + before.position.line, 1) as usize,
                column: sat_sub(end_point.x + before.position.column, 14) as usize,
            }
        }))
        &&& (after.position == before.position)
        &&& (after.bookmarks == before.bookmarks)
    }

    /// Moves the end of the selection, if there is one, to the screen cell
    /// `end_point`.
    pub fn set_selection_end(&mut self, end_point: ScreenPosition)
        requires
            end_point.y + old(self).position.line <= usize::MAX,
            end_point.x + old(self).position.column <= usize::MAX,
        ensures
            Screen::selection_end_effect(*old(self), *final(self), end_point),
    {
        let row = end_point.y as usize + self.position.line;
        let col = end_point.x as usize + self.position.column;
        if let Some(selection) = &mut self.selection {
            let line = if row >= 1 { row - 1 } else { 0 };
            let column = if col >= 14 { col - 14 } else { 0 };
            selection.update(BufferPosition { line, column });
        }
    }

    /// After the history was cleared: the view is re-anchored (see
    /// `rebase_on_rebuilt_buffer`) and every bookmark dropped.
    pub fn clear(&mut self)
        ensures
            final(self).wf(),
            final(self).auto_scroll,
            final(self).position == (BufferPosition { line: 0, column: 0 }),
            final(self).selection is None,
            final(self).evicted_seen == 0,
            final(self).marks().len() == 0,
            final(self).bookmark_ids().len() == 0,
            final(self).current_bookmark is None,
            final(self).mode == old(self).mode,
            final(self).size == old(self).size,
            final(self).decoder == old(self).decoder,
    {
        self.rebase_on_rebuilt_buffer();
        self.bookmarks = Vec::new();
        self.current_bookmark = None;
        assert(self.bookmarks@.to_set() =~= Set::<u64>::empty());
    }

    /// After the shown buffer was rebuilt (a filter change re-indexes every
    /// line): the view follows the bottom again from the top-left, the
    /// selection is dropped and the eviction count restarts; bookmarks,
    /// which follow line identities, stay.
    pub fn rebase_on_rebuilt_buffer(&mut self)
        ensures
            final(self).auto_scroll,
            final(self).position == (BufferPosition { line: 0, column: 0 }),
            final(self).selection is None,
            final(self).evicted_seen == 0,
            final(self).bookmarks == old(self).bookmarks,
            final(self).current_bookmark == old(self).current_bookmark,
            final(self).mode == old(self).mode,
            final(self).size == old(self).size,
            final(self).decoder == old(self).decoder,
    {
        self.auto_scroll = true;
        self.position = BufferPosition { line: 0, column: 0 };
        self.selection = None;
        self.evicted_seen = 0;
    }

    /// Stops following new lines.
    pub fn disable_auto_scroll(&mut self)
        ensures
            *final(self) == (Screen { auto_scroll: false, ..*old(self) }),
    {
        self.auto_scroll = false;
    }

    /// What `scroll_horizontal` does.
    pub open spec fn scroll_horizontal_effect(before: Screen, after: Screen, horizontal: isize, max_main_axis: usize) -> bool {
        &&& (after.position.column == if horizontal < 0 {
            sat_sub(before.position.column as int, -horizontal)
        } else if before.position.column + horizontal <= usize::MAX {
            before.position.column + horizontal
        } else {
            usize::MAX as int
        })
        &&& (after.auto_scroll == (horizontal < 0 && after.position.column == 0
            && before.position.line == max_main_axis))
        &&& (after.position.line == before.position.line)
        &&& (after.bookmarks == before.bookmarks)
        &&& (after.selection == before.selection)
    }

    /// Scrolls sideways by `horizontal` columns (left when negative, never
    /// before column 0). Scrolling stops following new lines, unless it
    /// comes back to column 0 at the bottom (`max_main_axis`).
    pub fn scroll_horizontal(&mut self, horizontal: isize, max_main_axis: usize)
        ensures
            Screen::scroll_horizontal_effect(*old(self), *final(self), horizontal, max_main_axis),
    {
        if horizontal < 0 {
            let step: usize = if horizontal == isize::MIN {
                (isize::MAX as usize) + 1
            } else {
                (-horizontal) as usize
            };
            self.position.column = if self.position.column >= step { self.position.column - step } else { 0 };
            if self.position.column == 0 && self.position.line == max_main_axis {
                self.auto_scroll = true;
                return;
            }
        } else {
            let step = horizontal as usize;
            self.position.column = if self.position.column <= usize::MAX - step {
                self.position.column + step
            } else {
                usize::MAX
            };
        }
        self.auto_scroll = false;
    }

    /// What `update_after_new_lines` does for a buffer of `len` lines that
    /// has evicted `evicted` lines over its life.
    pub open spec fn caught_up_effect(before: Screen, after: Screen, evicted: u64, len: nat) -> bool {
        let dropped = sat_sub(evicted as int, before.evicted_seen as int) as usize;
        &&& after.evicted_seen == evicted
        &&& after.selection == if dropped > 0 {
            match before.selection {
                Some(sel) => sel.shifted_up(dropped as nat),
                None => None,
            }
        } else {
            before.selection
        }
        &&& after.position.line == if before.auto_scroll {
            sat_sub(len as int, visible_rows(before.size))
        } else {
            sat_sub(before.position.line as int, dropped as int)
        }
        &&& after.position.column == before.position.column
        &&& after.auto_scroll == before.auto_scroll
        &&& after.bookmarks == before.bookmarks
        &&& after.current_bookmark == before.current_bookmark
        &&& after.mode == before.mode
        &&& after.size == before.size
        &&& after.decoder == before.decoder
    }

    /// Catches up with the buffer after new lines arrived: the lines evicted
    /// since last time slide the selection up (dropping it when all of its
    /// lines are gone) and, when not following the bottom, the view too, so
    /// that both stay on the same content; when following, the view goes to
    /// the bottom.
    pub fn update_after_new_lines(&mut self, buffer: &Buffer)
        ensures
            Screen::caught_up_effect(*old(self), *final(self), buffer.evicted_count(), buffer.contents().len()),
    {
        let evicted = buffer.evicted();
        let dropped_count = if evicted >= self.evicted_seen { evicted - self.evicted_seen } else { 0 };
        let dropped = dropped_count as usize;
        self.evicted_seen = evicted;
        if dropped > 0 {
            if let Some(selection) = &mut self.selection {
                let kept = selection.shift_up(dropped);
                if !kept {
                    self.selection = None;
                }
            }
        }
        if self.auto_scroll {
            let visible = if self.size.height >= 2 { (self.size.height - 2) as usize } else { 0 };
            let len = buffer.len();
            self.position.line = if len >= visible { len - visible } else { 0 };
        } else {
            self.position.line = if self.position.line >= dropped { self.position.line - dropped } else { 0 };
        }
    }

    /// What `scroll_vertical` does.
    pub open spec fn scroll_vertical_effect(before: Screen, after: Screen, vertical: isize, max_main_axis: usize) -> bool {
        &&& (vertical < 0 ==> after.position.line == sat_sub(before.position.line as int, -vertical)
            && after.auto_scroll == (before.auto_scroll && !(after.position.line
            < max_main_axis)))
        &&& (vertical >= 0 ==> ({
            let moved = if before.position.line + vertical <= usize::MAX {
                before.position.line + vertical
            } else {
                usize::MAX as int
            };
            &&& after.position.line == if moved <= max_main_axis { moved } else { max_main_axis as int }
            &&& after.auto_scroll == (before.auto_scroll || after.position.line == max_main_axis)
        }))
        &&& (after.position.column == before.position.column)
        &&& (after.bookmarks == before.bookmarks)
        &&& (after.selection == before.selection)
    }

    /// Scrolls by `vertical` lines (up when negative, never before line 0,
    /// never past `max_main_axis`). Scrolling up stops following new lines
    /// unless still at the bottom; reaching the bottom follows them again.
    pub fn scroll_vertical(&mut self, vertical: isize, max_main_axis: usize)
        ensures
            Screen::scroll_vertical_effect(*old(self), *final(self), vertical, max_main_axis),
    {
        if vertical < 0 {
            let step: usize = if vertical == isize::MIN {
                (isize::MAX as usize) + 1
            } else {
                (-vertical) as usize
            };
            self.position.line = if self.position.line >= step { self.position.line - step } else { 0 };
            if self.position.line < max_main_axis {
                self.auto_scroll = false;
            }
        } else {
            let step = vertical as usize;
            self.position.line = if self.position.line <= usize::MAX - step {
                self.position.line + step
            } else {
                usize::MAX
            };
            self.clamp_position(max_main_axis);
        }
    }

    /// Shows the history from its first line.
    pub fn jump_to_start(&mut self)
        ensures
            *final(self) == (Screen { position: BufferPosition { line: 0, ..old(self).position }, ..*old(self) }),
    {
        self.position.line = 0;
    }

    /// Shows the bottom of the history (from `max_main_axis`) and follows
    /// new lines again.
    pub fn jump_to_end(&mut self, max_main_axis: usize)
        ensures
            *final(self) == (Screen {
                position: BufferPosition { line: max_main_axis, ..old(self).position },
                auto_scroll: true,
                ..*old(self)
            }),
    {
        self.position.line = max_main_axis;
        self.auto_scroll = true;
    }

    pub fn mode_mut(&mut self) -> (r: &mut ScreenMode)
        ensures
            *r == old(self).mode,
            final(self).mode == *final(r),
            final(self).position == old(self).position,
            final(self).bookmarks == old(self).bookmarks,
            final(self).auto_scroll == old(self).auto_scroll,
            final(self).selection == old(self).selection,
            final(self).current_bookmark == old(self).current_bookmark,
            final(self).evicted_seen == old(self).evicted_seen,
            final(self).size == old(self).size,
            final(self).decoder == old(self).decoder,
    {
        &mut self.mode
    }

    pub fn decoder(&self) -> (r: ScreenDecoder)
        ensures
            r == self.decoder,
    {
        self.decoder
    }

    fn screen_center_y(&self) -> (r: usize)
        ensures
            r == self.center_y(),
    {
        let rows = if self.size.height >= 2 { self.size.height - 2 } else { 0 };
        (rows / 2) as usize
    }

    /// Shows `target` near the middle of the screen.
    fn jump_to_centered_position(&mut self, target: BufferPosition, max_main_axis: usize)
        ensures
            ({
                let line = sat_sub(target.line as int, old(self).center_y());
                &&& final(self).position.line == if line <= max_main_axis { line } else { max_main_axis as int }
                &&& final(self).auto_scroll == (old(self).auto_scroll || final(self).position.line == max_main_axis)
            }),
            final(self).position.column == sat_sub(target.column as int, (old(self).size.width / 2) as int),
            final(self).bookmarks == old(self).bookmarks,
            final(self).selection == old(self).selection,
            final(self).mode == old(self).mode,
            final(self).size == old(self).size,
            final(self).current_bookmark == old(self).current_bookmark,
            final(self).decoder == old(self).decoder,
            final(self).evicted_seen == old(self).evicted_seen,
    {
        let center = self.screen_center_y();
        self.position.line = if target.line >= center { target.line - center } else { 0 };
        let half = (self.size.width / 2) as usize;
        self.position.column = if target.column >= half { target.column - half } else { 0 };
        self.clamp_position(max_main_axis);
    }

    /// Shows the hit the search navigation is on, and stops following new
    /// lines.
    pub fn jump_to_current_search(&mut self, max_main_axis: usize)
        ensures
            match old(self).mode.current_hit_spec() {
                None => *final(self) == *old(self),
                Some(hit) => {
                    let line = sat_sub(hit.position.line as int, old(self).center_y());
                    &&& final(self).position.line == if line <= max_main_axis { line } else { max_main_axis as int }
                    &&& final(self).position.column == sat_sub(hit.position.column as int, (old(self).size.width / 2) as int)
                    &&& !final(self).auto_scroll
                    &&& final(self).mode == old(self).mode
                    &&& final(self).bookmarks == old(self).bookmarks
                    &&& final(self).selection == old(self).selection
                    &&& final(self).size == old(self).size
                    &&& final(self).decoder == old(self).decoder
                    &&& final(self).current_bookmark == old(self).current_bookmark
                    &&& final(self).evicted_seen == old(self).evicted_seen
                },
            },
    {
        match self.mode.current_hit() {
            None => {},
            Some(hit) => {
                self.jump_to_centered_position(hit.position, max_main_axis);
                self.auto_scroll = false;
            },
        }
    }

    /// What `jump_to_next_search` does.
    pub open spec fn next_search_effect(before: Screen, after: Screen, max_main_axis: usize) -> bool {
        &&& (match before.mode {
            ScreenMode::Search { current, entries, .. } => if entries@.len() <= 1 {
                after == before
            } else {
                let next = (current + 1) % (entries@.len() as int);
                let target = entries@[next];
                let line = sat_sub(target.position.line as int, before.center_y());
                &&& after.mode matches ScreenMode::Search { current: c, entries: e, .. } && c == next
                    && e@ == entries@
                &&& after.position.line == if line <= max_main_axis { line } else { max_main_axis as int }
                &&& after.position.column == sat_sub(target.position.column as int, (before.size.width / 2) as int)
                &&& after.bookmarks == before.bookmarks
            },
            ScreenMode::Normal => after == before
        })
    }

    /// Moves the search navigation to the next hit, wrapping around, and
    /// shows it; with fewer than two hits nothing moves.
    pub fn jump_to_next_search(&mut self, max_main_axis: usize)
        requires
            old(self).mode matches ScreenMode::Search { current, .. } ==> current < usize::MAX,
        ensures
            Screen::next_search_effect(*old(self), *final(self), max_main_axis),
    {
        let target = match &mut self.mode {
            ScreenMode::Search { current, entries, .. } => {
                if entries.len() <= 1 {
                    return;
                }
                *current = (*current + 1) % entries.len();
                entries[*current].position
            },
            ScreenMode::Normal => {
                return;
            },
        };
        self.jump_to_centered_position(target, max_main_axis);
    }

    /// What `jump_to_previous_search` does.
    pub open spec fn previous_search_effect(before: Screen, after: Screen, max_main_axis: usize) -> bool {
        &&& (match before.mode {
            ScreenMode::Search { current, entries, .. } => if entries@.len() <= 1 {
                after == before
            } else {
                let prev = if current == 0 { entries@.len() - 1 } else { current - 1 };
                let target = entries@[prev];
                let line = sat_sub(target.position.line as int, before.center_y());
                &&& after.mode matches ScreenMode::Search { current: c, entries: e, .. } && c == prev
                    && e@ == entries@
                &&& after.position.line == if line <= max_main_axis { line } else { max_main_axis as int }
                &&& after.position.column == sat_sub(target.position.column as int, (before.size.width / 2) as int)
                &&& after.bookmarks == before.bookmarks
            },
            ScreenMode::Normal => after == before
        })
    }

    /// Moves the search navigation to the previous hit, wrapping around, and
    /// shows it; with fewer than two hits nothing moves.
    pub fn jump_to_previous_search(&mut self, max_main_axis: usize)
        requires
            old(self).mode matches ScreenMode::Search { current, entries, .. } ==> current <= entries@.len(),
        ensures
            Screen::previous_search_effect(*old(self), *final(self), max_main_axis),
    {
        let target = match &mut self.mode {
            ScreenMode::Search { current, entries, .. } => {
                if entries.len() <= 1 {
                    return;
                }
                if *current == 0 {
                    *current = entries.len() - 1;
                } else {
                    *current = *current - 1;
                }
                entries[*current].position
            },
            ScreenMode::Normal => {
                return;
            },
        };
        self.jump_to_centered_position(target, max_main_axis);
    }

    /// What `toggle_bookmark` does on `lines`.
    pub open spec fn toggle_effect(before: Screen, after: Screen, lines: Seq<BufferLine<Vec<u8>>>, point: ScreenPosition) -> bool {
        &&& (after.wf())
        &&& (({
            let line = point.y + before.position.line - 1;
            if point.y < 1 || line >= lines.len() {
                after == before
            } else {
                let id = lines[line].id;
                &&& after.position == before.position
                &&& after.auto_scroll == before.auto_scroll
                &&& if before.marks().contains(id) {
                    &&& after.marks() == before.marks().remove(id)
                    &&& after.current_bookmark == if before.current_bookmark == Some(id) {
                        None
                    } else {
                        before.current_bookmark
                    }
                } else {
                    &&& after.marks() == before.marks().insert(id)
                    &&& after.current_bookmark == before.current_bookmark
                }
            }
        }))
    }

    /// Bookmarks the line under the screen cell `point` (a right click), or
    /// removes its bookmark, forgetting it as the current one. Clicks on the
    /// top border or past the last line do nothing.
    pub fn toggle_bookmark(&mut self, buffer: &Buffer, point: ScreenPosition)
        requires
            old(self).wf(),
            point.y + old(self).position.line < usize::MAX,
        ensures
            Screen::toggle_effect(*old(self), *final(self), buffer.contents(), point),
    {
        let row = point.y as usize;
        if row < Self::CONTENT_OFFSET_Y {
            return;
        }
        let line = (row + self.position.line) - Self::CONTENT_OFFSET_Y;
        let found = buffer.get_range(line, line + 1);
        if found.len() == 0 {
            return;
        }
        let id = found[0].id;
        assert(*found@[0] == buffer.contents()[line as int]);
        if self.remove_bookmark(id) {
            if self.current_bookmark == Some(id) {
                self.current_bookmark = None;
            }
            assert(self.marks() == old(self).marks().remove(id));
        } else {
            self.add_bookmark(id);
            assert(self.marks() == old(self).marks().insert(id));
        }
    }

    /// The bookmarked lines present in `buffer`, top to bottom, as line index
    /// and id: a bookmark whose line is filtered out or evicted is left out.
    pub fn bookmark_positions(&self, buffer: &Buffer) -> (r: Vec<(usize, u64)>)
        ensures
            r@ == bookmark_positions_spec(buffer.contents(), self.marks()),
    {
        let lines = buffer.iter();
        let mut out: Vec<(usize, u64)> = Vec::new();
        let mut i: usize = 0;
        assert(buffer.contents().take(0) =~= Seq::<BufferLine<Vec<u8>>>::empty());
        while i < lines.len()
            invariant
                i <= lines@.len(),
                lines@.len() == buffer.contents().len(),
                forall|k: int| 0 <= k < lines@.len() ==> *#[trigger] lines@[k] == buffer.contents()[k],
                out@ == bookmark_positions_spec(buffer.contents().take(i as int), self.marks()),
            decreases lines.len() - i,
        {
            assert(buffer.contents().take(i + 1).drop_last() =~= buffer.contents().take(i as int));
            assert(buffer.contents().take(i + 1).last() == *lines@[i as int]);
            let line = lines[i];
            if self.has_bookmark(line.id) {
                out.push((line.line, line.id));
            }
            i += 1;
        }
        assert(buffer.contents().take(lines@.len() as int) =~= buffer.contents());
        out
    }

    /// Which of `positions` to jump to (see `next_bookmark_spec`).
    pub fn next_bookmark_index(positions: &[(usize, u64)], current: Option<u64>, anchor: usize, forward: bool) -> (r:
        Option<usize>)
        ensures
            match r {
                Some(i) => next_bookmark_spec(positions@, current, anchor as int, forward) == Some(i as int),
                None => next_bookmark_spec(positions@, current, anchor as int, forward) is None,
            },
    {
        let len = positions.len();
        if len == 0 {
            return None;
        }
        let at = match current {
            Some(c) => index_of_id_exec(positions, c),
            None => None,
        };
        match at {
            Some(i) => {
                proof {
                    lemma_index_of_id_bound(positions@, current->0);
                }
                if forward {
                    Some(if i + 1 == len { 0 } else { i + 1 })
                } else {
                    Some(if i == 0 { len - 1 } else { i - 1 })
                }
            },
            None => {
                if forward {
                    match first_below_exec(positions, anchor) {
                        Some(i) => Some(i),
                        None => Some(0),
                    }
                } else {
                    match last_above_exec(positions, anchor) {
                        Some(i) => Some(i),
                        None => Some(len - 1),
                    }
                }
            },
        }
    }

    /// Makes `target` (a line index and its bookmark) the current bookmark,
    /// shows it centred and stops following new lines.
    fn focus_bookmark(&mut self, target: (usize, u64), max_main_axis: usize)
        ensures
            ({
                let line = sat_sub(target.0 as int, old(self).center_y());
                &&& final(self).position.line == if line <= max_main_axis { line } else { max_main_axis as int }
            }),
            final(self).position.column == 0,
            final(self).current_bookmark == Some(target.1),
            !final(self).auto_scroll,
            final(self).bookmarks == old(self).bookmarks,
            final(self).mode == old(self).mode,
            final(self).selection == old(self).selection,
    {
        self.current_bookmark = Some(target.1);
        self.jump_to_centered_position(BufferPosition { line: target.0, column: 0 }, max_main_axis);
        self.auto_scroll = false;
    }

    /// Jumps to the next bookmark shown in `buffer` (see
    /// `next_bookmark_spec`; the anchor is the line at the middle of the
    /// view); nothing happens without bookmarks.
    pub fn jump_to_next_bookmark(&mut self, buffer: &Buffer, max_main_axis: usize)
        requires
            old(self).position.line + old(self).center_y() <= usize::MAX,
        ensures
            Screen::bookmark_jump(*old(self), *final(self), buffer.contents(), max_main_axis, true),
    {
        self.jump_to_bookmark(buffer, max_main_axis, true);
    }

    /// Jumps to the previous bookmark shown in `buffer` (see
    /// `next_bookmark_spec`); nothing happens without bookmarks.
    pub fn jump_to_previous_bookmark(&mut self, buffer: &Buffer, max_main_axis: usize)
        requires
            old(self).position.line + old(self).center_y() <= usize::MAX,
        ensures
            Screen::bookmark_jump(*old(self), *final(self), buffer.contents(), max_main_axis, false),
    {
        self.jump_to_bookmark(buffer, max_main_axis, false);
    }

    /// What a bookmark jump does: from `before`, with the bookmarks of
    /// `lines`, it focuses the chosen bookmark, or changes nothing when there
    /// is none.
    pub open spec fn bookmark_jump(
        before: Screen,
        after: Screen,
        lines: Seq<BufferLine<Vec<u8>>>,
        max_main_axis: usize,
        forward: bool,
    ) -> bool {
        let positions = bookmark_positions_spec(lines, before.marks());
        let anchor = before.position.line + before.center_y();
        match next_bookmark_spec(positions, before.current_bookmark, anchor, forward) {
            None => after == before,
            Some(i) => {
                let line = sat_sub(positions[i].0 as int, before.center_y());
                &&& after.current_bookmark == Some(positions[i].1)
                &&& after.position.line == if line <= max_main_axis { line } else { max_main_axis as int }
                &&& after.position.column == 0
                &&& !after.auto_scroll
                &&& after.bookmarks == before.bookmarks
                &&& after.mode == before.mode
                &&& after.selection == before.selection
            },
        }
    }

    fn jump_to_bookmark(&mut self, buffer: &Buffer, max_main_axis: usize, forward: bool)
        requires
            old(self).position.line + old(self).center_y() <= usize::MAX,
        ensures
            Screen::bookmark_jump(*old(self), *final(self), buffer.contents(), max_main_axis, forward),
    {
        let positions = self.bookmark_positions(buffer);
        let anchor = self.position.line + self.screen_center_y();
        match Self::next_bookmark_index(positions.as_slice(), self.current_bookmark, anchor, forward) {
            None => {},
            Some(index) => {
                proof {
                    lemma_next_bookmark_bound(positions@, self.current_bookmark, anchor as int, forward);
                }
                self.focus_bookmark(positions[index], max_main_axis);
            },
        }
    }

    /// The colour of the border: red while recording, the save colour while
    /// saving, otherwise the mode's (see `ScreenMode::color`).
    pub fn border_color(&self, save_stats: &SaveStats) -> (r: Color)
        ensures
            r == if save_stats.recording() {
                Color::Red
            } else if save_stats.saving() {
                save_stats.color()
            } else if self.mode is Normal {
                Color::White
            } else {
                Color::Yellow
            },
    {
        if save_stats.is_recording() {
            Color::Red
        } else if save_stats.is_saving() {
            save_stats.save_color()
        } else {
            self.mode.color()
        }
    }
}

impl Default for Screen {
    /// A screen following the bottom of an empty view, at the largest size,
    /// decoding as ASCII, with nothing selected or bookmarked.
    fn default() -> (r: Self)
        ensures
            r.wf(),
            r.position == (BufferPosition { line: 0, column: 0 }),
            r.auto_scroll,
            r.mode is Normal,
            r.decoder == ScreenDecoder::Ascii,
            r.size == (ScreenRect { x: 0, y: 0, width: u16::MAX, height: u16::MAX }),
            r.selection is None,
            r.bookmark_ids().len() == 0,
            r.current_bookmark is None,
            r.evicted_seen == 0,
    {
        Screen {
            position: BufferPosition { line: 0, column: 0 },
            auto_scroll: true,
            mode: ScreenMode::Normal,
            decoder: ScreenDecoder::Ascii,
            size: ScreenRect { x: 0, y: 0, width: u16::MAX, height: u16::MAX },
            selection: None,
            bookmarks: Vec::new(),
            current_bookmark: None,
            evicted_seen: 0,
        }
    }
}


/// Lowering ASCII letters twice is lowering them once.
proof fn lemma_lower_twice(s: Seq<char>)
    ensures
        lower_seq(lower_seq(s)) == lower_seq(s),
{
    assert forall|i: int| 0 <= i < s.len() implies #[trigger] lower_seq(lower_seq(s))[i] == lower_seq(s)[i] by {
        let c = s[i];
        if crate::text::is_upper(c) {
            let l = ((c as u32) + 32) as char;
            assert(l as u32 == (c as u32) + 32);
            assert(!crate::text::is_upper(l));
        }
    }
    assert(lower_seq(lower_seq(s)) =~= lower_seq(s));
}

/// A text is found once in itself: the whole of it.
proof fn lemma_plain_self(h: Seq<char>)
    requires
        h.len() > 0,
    ensures
        plain_from(h, h, 0) == seq![(0usize, h.len() as usize)],
{
    assert(h.subrange(0, h.len() as int) =~= h);
    assert(occurs_at(h, h, 0));
    assert(plain_from(h, h, h.len() as int) == Seq::<(usize, usize)>::empty());
    assert(seq![(0usize, h.len() as usize)] + Seq::<(usize, usize)>::empty() =~= seq![(0usize, h.len() as usize)]);
}

/// A search that ignores case finds exactly what a case-sensitive search
/// finds once line and query are both in lower case (ASCII letters). So a
/// line is always found by a query that equals it but for the case of its
/// letters, e.g. `Error` in `Error: timeout`, or `ERROR` in `error`; and
/// a case-sensitive search finds a line in itself.
pub proof fn lemma_case_insensitive_search(query: Seq<char>, line: Seq<char>)
    ensures
        query_matches(query, false, false, line) == query_matches(lower_seq(query), true, false, lower_seq(line)),
        query.len() > 0 && lower_seq(query) == lower_seq(line) ==> query_matches(query, false, false, line)
            == seq![(0usize, line.len() as usize)],
        line.len() > 0 ==> query_matches(line, true, false, line) == seq![(0usize, line.len() as usize)],
{
    lemma_lower_twice(query);
    lemma_lower_twice(line);
    if query.len() > 0 && lower_seq(query) == lower_seq(line) {
        lemma_plain_self(lower_seq(line));
    }
    if line.len() > 0 {
        lemma_plain_self(line);
    }
}


/// Both decoders show a carriage return as the two characters `\` `r` and
/// a line feed as `\` `n`, after whatever came before: for every text `t`,
/// the UTF-8 bytes of `t` followed by CR are shown as `t` is, then `\r`
/// (likewise LF as `\n`); for every run of bytes, the ASCII decoder adds
/// `\r` for a CR byte and `\n` for an LF byte. So `OK` CR LF is shown as
/// `OK\r\n`.
pub proof fn lemma_line_ends_shown(t: Seq<char>, data: Seq<u8>)
    ensures
        decode_spec(ScreenDecoder::Utf8, encode_utf8(t.push('\r'))) == decode_spec(
            ScreenDecoder::Utf8,
            encode_utf8(t),
        ) + seq!['\\', 'r'],
        decode_spec(ScreenDecoder::Utf8, encode_utf8(t.push('\n'))) == decode_spec(
            ScreenDecoder::Utf8,
            encode_utf8(t),
        ) + seq!['\\', 'n'],
        decode_spec(ScreenDecoder::Ascii, data.push(0x0du8)) == decode_spec(ScreenDecoder::Ascii, data) + seq![
            '\\',
            'r',
        ],
        decode_spec(ScreenDecoder::Ascii, data.push(0x0au8)) == decode_spec(ScreenDecoder::Ascii, data) + seq![
            '\\',
            'n',
        ],
{
    broadcast use vstd::utf8::encode_utf8_valid_utf8, vstd::utf8::encode_utf8_decode_utf8;

    assert(t.push('\r').drop_last() =~= t);
    assert(t.push('\n').drop_last() =~= t);
    assert(data.push(0x0du8).drop_last() =~= data);
    assert(data.push(0x0au8).drop_last() =~= data);
    assert(utf8_text(encode_utf8(t)) == t);
    assert(utf8_text(encode_utf8(t.push('\r'))) == t.push('\r'));
    assert(utf8_text(encode_utf8(t.push('\n'))) == t.push('\n'));
}

} // verus!
