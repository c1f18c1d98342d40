//! What happens to a typed command line before it is sent: tags expand to
//! their values, `$` hex sequences become raw bytes, and addresses typed
//! for memory reads are parsed.
use vstd::prelude::*;
use crate::infra::tags::{TagList, TagEntries, tag_hit, tag_value, name_run, is_tag_delimiter};
use crate::text::{
    char_is_space, chars_of, parse_unsigned, parse_unsigned_chars, string_of, sub_chars,
};

verus! {

/// Where the `$` hex sequence scanner stands.
#[derive(Clone, Copy, Debug, PartialEq, Eq, Structural)]
pub enum HexState {
    /// Plain text: characters are sent as bytes.
    Text,
    /// Right after the `$`: a separator here sends a zero byte.
    Start,
    /// Inside a sequence, between bytes.
    Between,
    /// Inside a sequence, after the first digit of a byte.
    Half(u8),
}

/// The value of a hexadecimal digit.
pub open spec fn hex_digit_value(c: char) -> Option<nat> {
    if '0' <= c <= '9' {
        Some((c as u32 - '0' as u32) as nat)
    } else if 'a' <= c <= 'f' {
        Some((c as u32 - 'a' as u32 + 10) as nat)
    } else if 'A' <= c <= 'F' {
        Some((c as u32 - 'A' as u32 + 10) as nat)
    } else {
        None
    }
}

/// The characters that separate the bytes of a hex sequence.
pub open spec fn is_hex_separator(c: char) -> bool {
    c == ',' || c == '_' || c == '-' || c == '.' || c == ' '
}

/// A character sent as a byte: its code truncated to eight bits.
pub open spec fn char_byte(c: char) -> u8 {
    (c as u32 % 256) as u8
}

/// One character through the scanner: the next state and the bytes sent.
/// A `$` opens a sequence, also inside one (a half-typed byte is then
/// dropped); inside it two digits make a byte, a separator ends a byte
/// begun with one digit (or sends a zero right after the `$`), and any
/// other character closes the sequence and is sent itself, a half-typed
/// byte being dropped.
pub open spec fn hex_step(s: HexState, c: char) -> (HexState, Seq<u8>) {
    match s {
        HexState::Text => if c == '$' {
            (HexState::Start, Seq::empty())
        } else {
            (HexState::Text, seq![char_byte(c)])
        },
        _ => if c == '$' {
            (HexState::Start, Seq::empty())
        } else {
            match hex_digit_value(c) {
            Some(d) => match s {
                HexState::Half(v) => (HexState::Between, seq![(v * 16 + d) as u8]),
                _ => (HexState::Half(d as u8), Seq::empty()),
            },
            None => if is_hex_separator(c) {
                match s {
                    HexState::Start => (HexState::Between, seq![0u8]),
                    HexState::Half(v) => (HexState::Between, seq![v]),
                    _ => (HexState::Between, Seq::empty()),
                }
            } else {
                (HexState::Text, seq![char_byte(c)])
            },
            }
        },
    }
}

/// The scanner after the characters `cs`, with the bytes sent so far.
pub open spec fn hex_scan(cs: Seq<char>) -> (HexState, Seq<u8>)
    decreases cs.len(),
{
    if cs.len() == 0 {
        (HexState::Text, Seq::empty())
    } else {
        let (s, out) = hex_scan(cs.drop_last());
        let (s2, more) = hex_step(s, cs.last());
        (s2, out + more)
    }
}

/// A half-typed byte is a single digit.
pub open spec fn hex_state_ok(s: HexState) -> bool {
    s matches HexState::Half(v) ==> v < 16
}

proof fn lemma_hex_scan_ok(cs: Seq<char>)
    ensures
        hex_state_ok(hex_scan(cs).0),
    decreases cs.len(),
{
    if cs.len() > 0 {
        lemma_hex_scan_ok(cs.drop_last());
    }
}

/// Inside a `$` sequence each of `,` `_` `-` `.` and space separates bytes
/// and is never sent: `$` then two digits, a separator, two digits sends
/// exactly the two bytes the digit pairs name in hexadecimal; e.g. `$01-02`
/// sends 0x01 then 0x02.
pub proof fn lemma_hex_separators(sep: char, a1: char, a2: char, b1: char, b2: char)
    requires
        sep == ',' || sep == '_' || sep == '-' || sep == '.' || sep == ' ',
        '0' <= a1 <= '9',
        '0' <= a2 <= '9',
        '0' <= b1 <= '9',
        '0' <= b2 <= '9',
    ensures
        hex_scan(seq!['$', a1, a2, sep, b1, b2]).1 == seq![
            ((a1 as u32 - '0' as u32) * 16 + (a2 as u32 - '0' as u32)) as u8,
            ((b1 as u32 - '0' as u32) * 16 + (b2 as u32 - '0' as u32)) as u8,
        ],
{
    let s1 = seq!['$'];
    let s2 = seq!['$', a1];
    let s3 = seq!['$', a1, a2];
    let s4 = seq!['$', a1, a2, sep];
    let s5 = seq!['$', a1, a2, sep, b1];
    let s6 = seq!['$', a1, a2, sep, b1, b2];
    assert(s1.drop_last() =~= Seq::<char>::empty());
    assert(s2.drop_last() =~= s1);
    assert(s3.drop_last() =~= s2);
    assert(s4.drop_last() =~= s3);
    assert(s5.drop_last() =~= s4);
    assert(s6.drop_last() =~= s5);
    assert(hex_scan(Seq::<char>::empty()).1 =~= Seq::<u8>::empty());
    assert(s1.last() == '$');
    assert(hex_scan(s1).0 == HexState::Start);
    assert(hex_scan(s1).1 =~= Seq::<u8>::empty());
    assert(s2.last() == a1);
    assert(hex_digit_value(a1) == Some((a1 as u32 - '0' as u32) as nat));
    assert(hex_scan(s2).0 == HexState::Half((a1 as u32 - '0' as u32) as u8));
    assert(hex_scan(s2).1 =~= Seq::<u8>::empty());
    let va = ((a1 as u32 - '0' as u32) * 16 + (a2 as u32 - '0' as u32)) as u8;
    let vb = ((b1 as u32 - '0' as u32) * 16 + (b2 as u32 - '0' as u32)) as u8;
    assert(s3.last() == a2);
    assert(hex_digit_value(a2) == Some((a2 as u32 - '0' as u32) as nat));
    assert(hex_scan(s3).0 == HexState::Between);
    assert(hex_scan(s3).1 =~= seq![va]);
    assert(s4.last() == sep);
    assert(hex_digit_value(sep) is None);
    assert(hex_scan(s4).0 == HexState::Between);
    assert(hex_scan(s4).1 =~= seq![va]);
    assert(s5.last() == b1);
    assert(hex_digit_value(b1) == Some((b1 as u32 - '0' as u32) as nat));
    assert(hex_scan(s5).0 == HexState::Half((b1 as u32 - '0' as u32) as u8));
    assert(hex_scan(s5).1 =~= seq![va]);
    assert(s6.last() == b2);
    assert(hex_digit_value(b2) == Some((b2 as u32 - '0' as u32) as nat));
    assert(hex_scan(s6).1 =~= seq![va, vb]);
}

/// The value of `c` as a hex digit, if it is one.
fn hex_digit(c: char) -> (r: Option<u8>)
    ensures
        r matches Some(d) ==> hex_digit_value(c) == Some(d as nat) && d < 16,
        r is None ==> hex_digit_value(c) is None,
{
    if '0' <= c && c <= '9' {
        Some((c as u32 - '0' as u32) as u8)
    } else if 'a' <= c && c <= 'f' {
        Some((c as u32 - 'a' as u32 + 10) as u8)
    } else if 'A' <= c && c <= 'F' {
        Some((c as u32 - 'A' as u32 + 10) as u8)
    } else {
        None
    }
}

/// The bytes a command line is sent as: each character as a byte, except
/// that `$` starts a sequence of hexadecimal bytes (see `hex_step`), so
/// that `$0d0a` sends a carriage return and a line feed.
pub fn replace_hex_sequence(command_line: &str) -> (r: Vec<u8>)
    ensures
        r@ == hex_scan(command_line@).1,
{
    let cs = chars_of(command_line);
    let mut out: Vec<u8> = Vec::new();
    let mut state = HexState::Text;
    let mut i: usize = 0;
    while i < cs.len()
        invariant
            i <= cs@.len(),
            (state, out@) == hex_scan(cs@.take(i as int)),
            hex_state_ok(state),
        decreases cs.len() - i,
    {
        let c = cs[i];
        proof {
            assert(cs@.take(i + 1).drop_last() =~= cs@.take(i as int));
            assert(cs@.take(i + 1).last() == c);
            lemma_hex_scan_ok(cs@.take(i + 1));
        }
        match state {
            HexState::Text => {
                if c == '$' {
                    state = HexState::Start;
                } else {
                    out.push((c as u32 % 256) as u8);
                }
            },
            _ => if c == '$' {
                state = HexState::Start;
            } else {
                match hex_digit(c) {
                    Some(d) => {
                        match state {
                            HexState::Half(v) => {
                                out.push(v * 16 + d);
                                state = HexState::Between;
                            },
                            _ => {
                                state = HexState::Half(d);
                            },
                        }
                    },
                    None => {
                        if c == ',' || c == '_' || c == '-' || c == '.' || c == ' ' {
                            match state {
                                HexState::Start => {
                                    out.push(0);
                                },
                                HexState::Half(v) => {
                                    out.push(v);
                                },
                                _ => {},
                            }
                            state = HexState::Between;
                        } else {
                            out.push((c as u32 % 256) as u8);
                            state = HexState::Text;
                        }
                    },
                }
            },
        }
        i += 1;
    }
    assert(cs@.take(cs@.len() as int) =~= cs@);
    out
}

/// `text` with the characters from `start` up to `end` replaced by
/// `replacement` (both clamped to the text; with `end` before `start` the
/// characters between them appear twice).
pub open spec fn replaced_range(text: Seq<char>, start: int, end: int, replacement: Seq<char>) -> Seq<char> {
    let s = if start <= text.len() { start } else { text.len() as int };
    let e = if end <= text.len() { end } else { text.len() as int };
    text.take(s) + replacement + text.skip(e)
}

/// `text` with the characters from `start` up to `end` replaced by
/// `replacement` (see `replaced_range`).
pub fn replace_range_chars(text: &str, start: usize, end: usize, replacement: &str) -> (r: String)
    ensures
        r@ == replaced_range(text@, start as int, end as int, replacement@),
{
    let cs = chars_of(text);
    let rs = chars_of(replacement);
    let s = if start <= cs.len() { start } else { cs.len() };
    let e = if end <= cs.len() { end } else { cs.len() };
    let mut out = sub_chars(cs.as_slice(), 0, s);
    crate::text::extend_chars(&mut out, rs.as_slice());
    let tail = sub_chars(cs.as_slice(), e, cs.len());
    crate::text::extend_chars(&mut out, tail.as_slice());
    assert(out@ =~= replaced_range(text@, start as int, end as int, replacement@));
    string_of(out.as_slice())
}

/// A tag name never runs past the end of the text.
pub proof fn lemma_name_run_len(s: Seq<char>, from: int)
    requires
        0 <= from,
    ensures
        name_run(s, from).len() <= if from <= s.len() { s.len() - from } else { 0 },
    decreases s.len() - from,
{
    if 0 <= from < s.len() && !is_tag_delimiter(s[from]) {
        lemma_name_run_len(s, from + 1);
    }
}

/// `s` from position `p` on with every invoked tag (see `tag_hit`) replaced
/// by its value.
pub open spec fn expand_from(tags: TagEntries, s: Seq<char>, p: int) -> Seq<char>
    decreases s.len() - p,
{
    if p < 0 || p >= s.len() {
        Seq::empty()
    } else if tag_hit(tags, s, p) {
        let name = name_run(s, p + 1);
        proof {
            lemma_name_run_len(s, p + 1);
        }
        tag_value(tags, name).unwrap() + expand_from(tags, s, p + 1 + name.len())
    } else {
        seq![s[p]] + expand_from(tags, s, p + 1)
    }
}

/// The command line with every invoked tag, `@name`, replaced by its
/// value; text that invokes no known tag is kept as it is.
pub fn replace_tag_sequence(command_line: &str, tag_list: &TagList) -> (r: String)
    requires
        tag_list.wf(),
    ensures
        r@ == expand_from(tag_list.entries(), command_line@, 0),
{
    let cs = chars_of(command_line);
    let ghost tags = tag_list.entries();
    let mut out: Vec<char> = Vec::new();
    let mut p: usize = 0;
    while p < cs.len()
        invariant
            p <= cs@.len(),
            cs@ == command_line@,
            tags == tag_list.entries(),
            tag_list.wf(),
            out@ + expand_from(tags, cs@, p as int) == expand_from(tags, cs@, 0),
        decreases cs.len() - p,
    {
        let mut replaced = false;
        if cs[p] == '@' {
            let mut e = p + 1;
            assert(name_run(cs@, p + 1) == cs@.subrange(p + 1, e as int) + name_run(cs@, e as int));
            while e < cs.len() && !(char_is_space(cs[e]) || cs[e] == '@' || cs[e] == '"')
                invariant
                    p + 1 <= e <= cs@.len(),
                    name_run(cs@, p + 1) == cs@.subrange(p + 1, e as int) + name_run(cs@, e as int),
                decreases cs.len() - e,
            {
                assert(cs@.subrange(p + 1, e as int) + seq![cs@[e as int]] =~= cs@.subrange(p + 1, e + 1));
                e += 1;
            }
            assert(e < cs@.len() ==> is_tag_delimiter(cs@[e as int]));
            let name = sub_chars(cs.as_slice(), p + 1, e);
            assert(name@ == name_run(cs@, p + 1));
            if e > p + 1 && tag_list.has_name(name.as_slice()) {
                let key = string_of(name.as_slice());
                match tag_list.lookup(&key) {
                    Some(value) => {
                        let vs = chars_of(value.as_str());
                        let ghost before = out@;
                        crate::text::extend_chars(&mut out, vs.as_slice());
                        assert(tag_hit(tags, cs@, p as int));
                        assert(out@ + expand_from(tags, cs@, e as int) =~= before + expand_from(
                            tags,
                            cs@,
                            p as int,
                        ));
                        p = e;
                        replaced = true;
                    },
                    None => {},
                }
            }
        }
        if !replaced {
            assert(!tag_hit(tags, cs@, p as int)) by {
                if cs@[p as int] == '@' && name_run(cs@, p + 1).len() > 0 && crate::infra::tags::has_tag(tags, name_run(cs@, p + 1)) {
                }
            }
            let ghost before = out@;
            out.push(cs[p]);
            assert(out@ + expand_from(tags, cs@, p + 1) =~= before + expand_from(tags, cs@, p as int));
            p += 1;
        }
    }
    string_of(out.as_slice())
}

/// `s` without its underscores.
pub open spec fn without_underscores(s: Seq<char>) -> Seq<char>
    decreases s.len(),
{
    if s.len() == 0 {
        Seq::empty()
    } else if s.last() == '_' {
        without_underscores(s.drop_last())
    } else {
        without_underscores(s.drop_last()).push(s.last())
    }
}

/// The number a string of hexadecimal digits denotes.
pub open spec fn hex_value(s: Seq<char>) -> nat
    decreases s.len(),
{
    if s.len() == 0 {
        0
    } else {
        hex_value(s.drop_last()) * 16 + hex_digit_value(s.last()).unwrap_or(0)
    }
}

pub open spec fn all_hex_digits(s: Seq<char>) -> bool {
    forall|i: int| 0 <= i < s.len() ==> #[trigger] hex_digit_value(s[i]) is Some
}

/// What `u64::from_str_radix` with radix 16 accepts: an optional leading
/// `+`, then at least one hexadecimal digit, denoting a value that fits.
pub open spec fn parse_hex(s: Seq<char>) -> Option<nat> {
    let digits = if s.len() > 0 && s[0] == '+' { s.drop_first() } else { s };
    if digits.len() > 0 && all_hex_digits(digits) && hex_value(digits) <= u64::MAX {
        Some(hex_value(digits))
    } else {
        None
    }
}

/// The address a memory read names: underscores are ignored, `0x` or `0X`
/// introduces a hexadecimal number, anything else is decimal.
pub open spec fn address_spec(arg: Seq<char>) -> Option<nat> {
    let cleaned = without_underscores(arg);
    if cleaned.len() >= 2 && cleaned[0] == '0' && (cleaned[1] == 'x' || cleaned[1] == 'X') {
        parse_hex(cleaned.skip(2))
    } else {
        parse_unsigned(cleaned, u64::MAX as nat)
    }
}

/// A longer digit string is worth at least as much as any of its prefixes.
proof fn lemma_hex_prefix_bound(s: Seq<char>, n: nat)
    requires
        n <= s.len(),
    ensures
        hex_value(s.take(n as int)) <= hex_value(s),
    decreases s.len(),
{
    if n < s.len() {
        assert(s.drop_last().take(n as int) == s.take(n as int));
        lemma_hex_prefix_bound(s.drop_last(), n);
    } else {
        assert(s.take(n as int) == s);
    }
}

/// Parses a hexadecimal `u64` (see `parse_hex`).
fn parse_hex_chars(s: &[char]) -> (r: Option<u64>)
    ensures
        r matches Some(v) ==> parse_hex(s@) == Some(v as nat),
        r is None ==> parse_hex(s@) is None,
{
    let start: usize = if s.len() > 0 && s[0] == '+' { 1 } else { 0 };
    let ghost digits = if s@.len() > 0 && s@[0] == '+' { s@.drop_first() } else { s@ };
    assert(digits == s@.skip(start as int));
    if start >= s.len() {
        return None;
    }
    let mut value: u64 = 0;
    let mut i: usize = start;
    while i < s.len()
        invariant
            start <= i <= s.len(),
            digits == s@.skip(start as int),
            digits == (if s@.len() > 0 && s@[0] == '+' { s@.drop_first() } else { s@ }),
            all_hex_digits(s@.subrange(start as int, i as int)),
            value as nat == hex_value(s@.subrange(start as int, i as int)),
        decreases s.len() - i,
    {
        let c = s[i];
        let ghost pre = s@.subrange(start as int, i as int);
        let ghost post = s@.subrange(start as int, i as int + 1);
        assert(post.drop_last() == pre);
        match hex_digit(c) {
            None => {
                assert(digits[i - start] == c);
                assert(!all_hex_digits(digits));
                return None;
            },
            Some(d) => {
                let d64 = d as u64;
                if value > (u64::MAX - d64) / 16 {
                    proof {
                        assert(hex_value(post) == value * 16 + d) by (nonlinear_arith)
                            requires
                                hex_value(post) == hex_value(pre) * 16 + d,
                                hex_value(pre) == value,
                        ;
                        assert(value * 16 + d > u64::MAX) by (nonlinear_arith)
                            requires
                                value > (u64::MAX - d64) / 16,
                                d64 == d,
                                d < 16,
                        ;
                        lemma_hex_prefix_bound(digits, (i - start + 1) as nat);
                        assert(digits.take(i - start + 1) == post);
                    }
                    return None;
                }
                proof {
                    assert(value * 16 + d <= u64::MAX) by (nonlinear_arith)
                        requires
                            value <= (u64::MAX - d64) / 16,
                            d64 == d,
                    ;
                }
                value = value * 16 + d64;
                proof {
                    assert(all_hex_digits(post)) by {
                        assert forall|k: int| 0 <= k < post.len() implies #[trigger] hex_digit_value(post[k]) is Some by {
                            if k < pre.len() {
                                assert(post[k] == pre[k]);
                            }
                        }
                    }
                }
            },
        }
        i += 1;
    }
    assert(s@.subrange(start as int, s.len() as int) == digits);
    Some(value)
}

/// The address of a memory read (see `address_spec`); `None` when the
/// argument is not a number that fits in 64 bits.
pub fn parse_address_argument(arg: &str) -> (r: Option<u64>)
    ensures
        r matches Some(v) ==> address_spec(arg@) == Some(v as nat),
        r is None ==> address_spec(arg@) is None,
{
    let cs = chars_of(arg);
    let mut cleaned: Vec<char> = Vec::new();
    let mut i: usize = 0;
    while i < cs.len()
        invariant
            i <= cs@.len(),
            cs@ == arg@,
            cleaned@ == without_underscores(cs@.take(i as int)),
        decreases cs.len() - i,
    {
        assert(cs@.take(i + 1).drop_last() =~= cs@.take(i as int));
        if cs[i] != '_' {
            cleaned.push(cs[i]);
        }
        i += 1;
    }
    assert(cs@.take(cs@.len() as int) =~= cs@);
    if cleaned.len() >= 2 && cleaned[0] == '0' && (cleaned[1] == 'x' || cleaned[1] == 'X') {
        let rest = sub_chars(cleaned.as_slice(), 2, cleaned.len());
        assert(rest@ =~= cleaned@.skip(2));
        parse_hex_chars(rest.as_slice())
    } else {
        parse_unsigned_chars(cleaned.as_slice(), u64::MAX)
    }
}

} // verus!
