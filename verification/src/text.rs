//! Character-level helpers shared by the parsers: classification of
//! characters, decimal parsing and the conversions between `String`/`&str`
//! and sequences of characters.
use vstd::prelude::*;
use vstd::std_specs::iter::IteratorSpec;
use crate::graphics::bytes::{
    is_first_from, lemma_replace_step, lemma_replace_tail, occurs_at, occurs_from, replace_from,
    replace_spec,
};

verus! {

pub open spec fn is_digit(c: char) -> bool {
    '0' <= c <= '9'
}

pub open spec fn is_upper(c: char) -> bool {
    'A' <= c <= 'Z'
}

pub open spec fn is_lower(c: char) -> bool {
    'a' <= c <= 'z'
}

pub open spec fn is_alpha(c: char) -> bool {
    is_upper(c) || is_lower(c)
}

/// Rust's `char::is_whitespace`: the Unicode `White_Space` property.
pub open spec fn is_space(c: char) -> bool {
    ||| '\u{9}' <= c <= '\u{d}'
    ||| c == ' '
    ||| c == '\u{85}'
    ||| c == '\u{a0}'
    ||| c == '\u{1680}'
    ||| '\u{2000}' <= c <= '\u{200a}'
    ||| c == '\u{2028}'
    ||| c == '\u{2029}'
    ||| c == '\u{202f}'
    ||| c == '\u{205f}'
    ||| c == '\u{3000}'
}

/// Rust's `char::is_control`: the general category `Cc`.
pub open spec fn is_control(c: char) -> bool {
    c <= '\u{1f}' || ('\u{7f}' <= c <= '\u{9f}')
}

pub open spec fn lower(c: char) -> char {
    if is_upper(c) { ((c as u32) + 32) as char } else { c }
}

pub open spec fn upper(c: char) -> char {
    if is_lower(c) { ((c as u32) - 32) as char } else { c }
}

pub open spec fn lower_seq(s: Seq<char>) -> Seq<char> {
    s.map_values(|c: char| lower(c))
}

pub open spec fn upper_seq(s: Seq<char>) -> Seq<char> {
    s.map_values(|c: char| upper(c))
}

pub open spec fn digit_value(c: char) -> nat {
    ((c as u32) - ('0' as u32)) as nat
}

pub open spec fn all_digits(s: Seq<char>) -> bool {
    forall|i: int| 0 <= i < s.len() ==> is_digit(#[trigger] s[i])
}

/// The number a non-empty string of decimal digits denotes.
pub open spec fn decimal_value(s: Seq<char>) -> nat
    decreases s.len(),
{
    if s.len() == 0 {
        0
    } else {
        decimal_value(s.drop_last()) * 10 + digit_value(s.last())
    }
}

/// What `str::parse` into an unsigned integer no larger than `max` accepts:
/// an optional leading `+`, then at least one decimal digit, denoting a
/// value that fits.
pub open spec fn parse_unsigned(s: Seq<char>, max: nat) -> Option<nat> {
    let digits = if s.len() > 0 && s[0] == '+' { s.drop_first() } else { s };
    if digits.len() > 0 && all_digits(digits) && decimal_value(digits) <= max {
        Some(decimal_value(digits))
    } else {
        None
    }
}

pub fn char_is_digit(c: char) -> (r: bool)
    ensures
        r == is_digit(c),
{
    '0' <= c && c <= '9'
}

pub fn char_is_alpha(c: char) -> (r: bool)
    ensures
        r == is_alpha(c),
{
    ('A' <= c && c <= 'Z') || ('a' <= c && c <= 'z')
}

pub fn char_is_space(c: char) -> (r: bool)
    ensures
        r == is_space(c),
{
    ('\u{9}' <= c && c <= '\u{d}') || c == ' ' || c == '\u{85}' || c == '\u{a0}' || c == '\u{1680}'
        || ('\u{2000}' <= c && c <= '\u{200a}') || c == '\u{2028}' || c == '\u{2029}' || c
        == '\u{202f}' || c == '\u{205f}' || c == '\u{3000}'
}

pub fn char_is_control(c: char) -> (r: bool)
    ensures
        r == is_control(c),
{
    c <= '\u{1f}' || ('\u{7f}' <= c && c <= '\u{9f}')
}

pub fn char_lower(c: char) -> (r: char)
    ensures
        r == lower(c),
{
    if 'A' <= c && c <= 'Z' {
        let v = (c as u32) + 32;
        assert(v <= 0x7a);
        char_from_ascii(v as u8)
    } else {
        c
    }
}

pub fn char_upper(c: char) -> (r: char)
    ensures
        r == upper(c),
{
    if 'a' <= c && c <= 'z' {
        let v = (c as u32) - 32;
        char_from_ascii(v as u8)
    } else {
        c
    }
}

/// The character whose code is the byte `b` (Latin-1).
pub fn char_from_ascii(b: u8) -> (r: char)
    ensures
        r as u32 == b as u32,
{
    b as char
}

/// The characters of a string slice, in order.
pub fn chars_of(s: &str) -> (r: Vec<char>)
    ensures
        r@ == s@,
{
    broadcast use vstd::string::axiom_spec_iter, vstd::string::next_postcondition;

    let mut chars = s.chars();
    let mut out: Vec<char> = Vec::new();
    loop
        invariant
            out@ + chars.remaining() == s@,
            chars.decrease() is Some,
        decreases chars.decrease()->0,
    {
        let ghost before = chars.remaining();
        match chars.next() {
            Some(c) => {
                out.push(c);
                assert(out@ + chars.remaining() =~= s@) by {
                    assert(before =~= seq![c] + chars.remaining());
                }
            },
            None => {
                assert(out@ =~= s@);
                return out;
            },
        }
    }
}

/// The string made of the given characters.
pub fn string_of(cs: &[char]) -> (r: String)
    ensures
        r@ == cs@,
{
    let mut out = String::new();
    let mut i: usize = 0;
    while i < cs.len()
        invariant
            i <= cs.len(),
            out@ == cs@.take(i as int),
        decreases cs.len() - i,
    {
        push_char(&mut out, cs[i]);
        i += 1;
        assert(out@ =~= cs@.take(i as int));
    }
    assert(cs@.take(cs.len() as int) =~= cs@);
    out
}

/// Appends one character (`String::push`).
#[verifier::external_body]
pub fn push_char(s: &mut String, c: char)
    ensures
        final(s)@ == old(s)@.push(c),
{
    s.push(c)
}

/// Appends a string slice (vstd's `append` on `String`).
pub fn push_str(s: &mut String, t: &str)
    ensures
        final(s)@ == old(s)@ + t@,
{
    s.append(t)
}

/// Copies a string slice into an owned `String`.
pub fn to_owned_string(s: &str) -> (r: String)
    ensures
        r@ == s@,
{
    s.to_owned()
}

/// Whether two string slices hold the same characters (`==` on `str`).
#[verifier::external_body]
pub fn str_eq(a: &str, b: &str) -> (r: bool)
    ensures
        r == (a@ == b@),
{
    a == b
}

pub fn chars_to_lower(cs: &[char]) -> (r: Vec<char>)
    ensures
        r@ == lower_seq(cs@),
{
    let mut out: Vec<char> = Vec::new();
    let mut i: usize = 0;
    while i < cs.len()
        invariant
            i <= cs.len(),
            out@ == lower_seq(cs@.take(i as int)),
        decreases cs.len() - i,
    {
        out.push(char_lower(cs[i]));
        assert(cs@.take(i as int + 1) == cs@.take(i as int).push(cs@[i as int]));
        i += 1;
    }
    assert(cs@.take(cs.len() as int) == cs@);
    out
}

pub fn chars_to_upper(cs: &[char]) -> (r: Vec<char>)
    ensures
        r@ == upper_seq(cs@),
{
    let mut out: Vec<char> = Vec::new();
    let mut i: usize = 0;
    while i < cs.len()
        invariant
            i <= cs.len(),
            out@ == upper_seq(cs@.take(i as int)),
        decreases cs.len() - i,
    {
        out.push(char_upper(cs[i]));
        assert(cs@.take(i as int + 1) == cs@.take(i as int).push(cs@[i as int]));
        i += 1;
    }
    assert(cs@.take(cs.len() as int) == cs@);
    out
}

/// Whether two character slices are equal.
pub fn chars_eq(a: &[char], b: &[char]) -> (r: bool)
    ensures
        r == (a@ == b@),
{
    if a.len() != b.len() {
        return false;
    }
    let mut i: usize = 0;
    while i < a.len()
        invariant
            a.len() == b.len(),
            i <= a.len(),
            forall|j: int| 0 <= j < i ==> a@[j] == b@[j],
        decreases a.len() - i,
    {
        if a[i] != b[i] {
            return false;
        }
        i += 1;
    }
    assert(a@ =~= b@);
    true
}

/// Whether `a` equals the given string slice.
pub fn chars_eq_str(a: &[char], b: &str) -> (r: bool)
    ensures
        r == (a@ == b@),
{
    let bc = chars_of(b);
    chars_eq(a, bc.as_slice())
}

pub open spec fn starts_with(s: Seq<char>, p: Seq<char>) -> bool {
    p.len() <= s.len() && s.take(p.len() as int) == p
}

pub open spec fn ends_with(s: Seq<char>, p: Seq<char>) -> bool {
    p.len() <= s.len() && s.skip(s.len() - p.len()) == p
}

pub fn chars_starts_with(s: &[char], p: &[char]) -> (r: bool)
    ensures
        r == starts_with(s@, p@),
{
    if p.len() > s.len() {
        return false;
    }
    let mut i: usize = 0;
    while i < p.len()
        invariant
            p.len() <= s.len(),
            i <= p.len(),
            forall|j: int| 0 <= j < i ==> s@[j] == p@[j],
        decreases p.len() - i,
    {
        if s[i] != p[i] {
            assert(s@.take(p.len() as int)[i as int] != p@[i as int]);
            return false;
        }
        i += 1;
    }
    assert(s@.take(p.len() as int) =~= p@);
    true
}

pub fn chars_ends_with(s: &[char], p: &[char]) -> (r: bool)
    ensures
        r == ends_with(s@, p@),
{
    if p.len() > s.len() {
        return false;
    }
    let off = s.len() - p.len();
    let mut i: usize = 0;
    while i < p.len()
        invariant
            p.len() <= s.len(),
            off == s.len() - p.len(),
            i <= p.len(),
            forall|j: int| 0 <= j < i ==> s@[off + j] == p@[j],
        decreases p.len() - i,
    {
        if s[off + i] != p[i] {
            assert(s@.skip(off as int)[i as int] != p@[i as int]);
            return false;
        }
        i += 1;
    }
    assert(s@.skip(off as int) =~= p@);
    true
}

/// A copy of `s[from..to]`.
pub fn sub_chars(s: &[char], from: usize, to: usize) -> (r: Vec<char>)
    requires
        from <= to <= s.len(),
    ensures
        r@ == s@.subrange(from as int, to as int),
{
    let mut out: Vec<char> = Vec::new();
    let mut i: usize = from;
    while i < to
        invariant
            from <= i <= to <= s.len(),
            out@ == s@.subrange(from as int, i as int),
        decreases to - i,
    {
        out.push(s[i]);
        assert(s@.subrange(from as int, i as int + 1) == s@.subrange(from as int, i as int).push(
            s@[i as int],
        ));
        i += 1;
    }
    out
}

/// Appends every character of `t` to `out`.
pub fn extend_chars(out: &mut Vec<char>, t: &[char])
    ensures
        final(out)@ == old(out)@ + t@,
{
    let ghost start = out@;
    let mut i: usize = 0;
    while i < t.len()
        invariant
            i <= t.len(),
            out@ == start + t@.take(i as int),
        decreases t.len() - i,
    {
        out.push(t[i]);
        assert(t@.take(i as int + 1) == t@.take(i as int).push(t@[i as int]));
        i += 1;
    }
    assert(t@.take(t.len() as int) == t@);
}

/// Parses an unsigned decimal number no larger than `max`, the way
/// `str::parse` does for the unsigned integer types.
pub fn parse_unsigned_chars(s: &[char], max: u64) -> (r: Option<u64>)
    requires
        max >= 9,
    ensures
        r matches Some(v) ==> parse_unsigned(s@, max as nat) == Some(v as nat),
        r is None ==> parse_unsigned(s@, max as nat) is None,
{
    let start: usize = if s.len() > 0 && s[0] == '+' { 1 } else { 0 };
    let ghost digits = if s@.len() > 0 && s@[0] == '+' { s@.drop_first() } else { s@ };
    assert(digits == s@.skip(start as int));
    if start >= s.len() {
        return None;
    }
    let mut value: u64 = 0;
    let mut i: usize = start;
    while i < s.len()
        invariant
            start <= i <= s.len(),
            digits == s@.skip(start as int),
            digits == (if s@.len() > 0 && s@[0] == '+' { s@.drop_first() } else { s@ }),
            all_digits(s@.subrange(start as int, i as int)),
            value as nat == decimal_value(s@.subrange(start as int, i as int)),
            value <= max,
            max >= 9,
        decreases s.len() - i,
    {
        let c = s[i];
        let ghost pre = s@.subrange(start as int, i as int);
        let ghost post = s@.subrange(start as int, i as int + 1);
        assert(post.drop_last() == pre);
        if !char_is_digit(c) {
            assert(digits[i - start] == c);
            assert(!is_digit(digits[i - start]));
            assert(!all_digits(digits));
            assert(parse_unsigned(s@, max as nat) is None);
            return None;
        }
        let d = (c as u32 - '0' as u32) as u64;
        assert(d as nat == digit_value(c));
        assert(d <= 9);
        if value > (max - d) / 10 {
            proof {
                assert(decimal_value(post) == value * 10 + d) by (nonlinear_arith)
                    requires
                        decimal_value(post) == decimal_value(pre) * 10 + d,
                        decimal_value(pre) == value,
                ;
                assert(value * 10 + d > max) by (nonlinear_arith)
                    requires
                        value > (max - d) / 10,
                        d <= 9,
                        d <= max,
                ;
                if all_digits(digits) {
                    lemma_decimal_prefix_bound(digits, (i - start + 1) as nat);
                    assert(digits.take(i - start + 1) == post);
                    assert(decimal_value(digits) > max);
                }
                assert(parse_unsigned(s@, max as nat) is None);
            }
            return None;
        }
        proof {
            assert(value * 10 + d <= max) by (nonlinear_arith)
                requires
                    value <= (max - d) / 10,
                    d <= max,
            ;
        }
        value = value * 10 + d;
        i += 1;
    }
    assert(s@.subrange(start as int, s.len() as int) == digits);
    Some(value)
}

/// A longer digit string is worth at least as much as any of its prefixes.
proof fn lemma_decimal_prefix_bound(s: Seq<char>, n: nat)
    requires
        all_digits(s),
        n <= s.len(),
    ensures
        decimal_value(s.take(n as int)) <= decimal_value(s),
    decreases s.len(),
{
    if n < s.len() {
        assert(s.drop_last().take(n as int) == s.take(n as int));
        lemma_decimal_prefix_bound(s.drop_last(), n);
    } else {
        assert(s.take(n as int) == s);
    }
}

/// `a` sorts at or before `b` in the order of `str` (lexicographic by
/// character code).
pub open spec fn lex_le(a: Seq<char>, b: Seq<char>) -> bool
    decreases a.len(),
{
    if a.len() == 0 {
        true
    } else if b.len() == 0 {
        false
    } else if a[0] != b[0] {
        a[0] < b[0]
    } else {
        lex_le(a.drop_first(), b.drop_first())
    }
}

/// Any two strings are ordered one way or the other.
pub proof fn lemma_lex_total(a: Seq<char>, b: Seq<char>)
    ensures
        lex_le(a, b) || lex_le(b, a),
    decreases a.len(),
{
    if a.len() > 0 && b.len() > 0 && a[0] == b[0] {
        lemma_lex_total(a.drop_first(), b.drop_first());
    }
}

pub proof fn lemma_lex_transitive(a: Seq<char>, b: Seq<char>, c: Seq<char>)
    requires
        lex_le(a, b),
        lex_le(b, c),
    ensures
        lex_le(a, c),
    decreases a.len(),
{
    if a.len() > 0 && b.len() > 0 && c.len() > 0 && a[0] == b[0] && b[0] == c[0] {
        lemma_lex_transitive(a.drop_first(), b.drop_first(), c.drop_first());
    }
}

/// Whether `a` sorts at or before `b`.
pub fn chars_lex_le(a: &[char], b: &[char]) -> (r: bool)
    ensures
        r == lex_le(a@, b@),
{
    let mut i: usize = 0;
    assert(a@.skip(0) =~= a@);
    assert(b@.skip(0) =~= b@);
    while i < a.len() && i < b.len() && a[i] == b[i]
        invariant
            i <= a@.len(),
            i <= b@.len(),
            lex_le(a@, b@) == lex_le(a@.skip(i as int), b@.skip(i as int)),
        decreases a.len() - i,
    {
        assert(a@.skip(i as int).drop_first() =~= a@.skip(i + 1));
        assert(b@.skip(i as int).drop_first() =~= b@.skip(i + 1));
        i += 1;
    }
    if i == a.len() {
        true
    } else if i == b.len() {
        false
    } else {
        a[i] < b[i]
    }
}

/// The decimal digit character of `d`.
pub fn digit_char(d: u64) -> (r: char)
    requires
        d < 10,
    ensures
        r == digit_of(d as nat),
        is_digit(r),
        digit_value(r) == d,
{
    let c = char_from_ascii((0x30 + d) as u8);
    proof {
        vstd::utf8::char_u32_cast(c, (d + 0x30) as u32);
    }
    c
}

/// The decimal digit character of `d` (below 10).
pub open spec fn digit_of(d: nat) -> char {
    ((d + 0x30) as u32) as char
}

/// The decimal representation of `n`, without leading zeros.
pub open spec fn decimal_spec(n: nat) -> Seq<char>
    decreases n,
{
    if n < 10 {
        seq![digit_of(n)]
    } else {
        decimal_spec(n / 10).push(digit_of(n % 10))
    }
}

/// The decimal representation of `n`, without leading zeros.
pub fn decimal_chars(n: u64) -> (r: Vec<char>)
    ensures
        r@ == decimal_spec(n as nat),
        r@.len() >= 1,
        all_digits(r@),
        decimal_value(r@) == n,
        r@.len() > 1 ==> r@[0] != '0',
    decreases n,
{
    if n < 10 {
        let v = vec![digit_char(n)];
        assert(v@.drop_last() =~= Seq::<char>::empty());
        assert(decimal_value(Seq::<char>::empty()) == 0);
        v
    } else {
        let mut v = decimal_chars(n / 10);
        let ghost prefix = v@;
        v.push(digit_char(n % 10));
        assert(v@.drop_last() =~= prefix);
        assert(v@[0] == prefix[0]);
        assert((n / 10) * 10 + n % 10 == n) by (nonlinear_arith);
        proof {
            if prefix.len() == 1 {
                assert(prefix.drop_last() =~= Seq::<char>::empty());
                assert(decimal_value(Seq::<char>::empty()) == 0);
                assert(decimal_value(prefix) == digit_value(prefix[0]));
            }
        }
        v
    }
}

/// Whether `pat` occurs in `s` at index `i`.
pub(crate) fn chars_occur_at(s: &[char], pat: &[char], i: usize) -> (r: bool)
    requires
        i <= s@.len(),
    ensures
        r == occurs_at(s@, pat@, i as int),
{
    if pat.len() > s.len() - i {
        return false;
    }
    let mut k: usize = 0;
    while k < pat.len()
        invariant
            i + pat@.len() <= s@.len(),
            s@.len() == s.len(),
            k <= pat@.len(),
            forall|j: int| 0 <= j < k ==> s@[i + j] == pat@[j],
        decreases pat.len() - k,
    {
        if s[i + k] != pat[k] {
            assert(s@.subrange(i as int, i + pat@.len())[k as int] != pat@[k as int]);
            return false;
        }
        k += 1;
    }
    assert(s@.subrange(i as int, i + pat@.len()) =~= pat@);
    true
}

/// `s` with every occurrence of the non-empty `from`, left to right and
/// without overlap, replaced by `to`.
pub fn replace_chars(s: &[char], from: &[char], to: &[char]) -> (r: Vec<char>)
    requires
        from@.len() > 0,
    ensures
        r@ == replace_spec(s@, from@, to@),
{
    let mut out: Vec<char> = Vec::new();
    let mut last_end: usize = 0;
    loop
        invariant
            from@.len() > 0,
            last_end <= s@.len(),
            out@ + replace_from(s@, from@, to@, last_end as int) == replace_spec(s@, from@, to@),
        decreases s@.len() - last_end,
    {
        let mut start = last_end;
        let mut found = false;
        while start < s.len()
            invariant_except_break
                !found,
            invariant
                last_end <= start <= s@.len(),
                from@.len() > 0,
                forall|j: int| last_end <= j < start ==> !#[trigger] occurs_at(s@, from@, j),
            ensures
                found ==> occurs_at(s@, from@, start as int),
                !found ==> start >= s@.len(),
            decreases s.len() - start,
        {
            if chars_occur_at(s, from, start) {
                found = true;
                break;
            }
            start += 1;
        }
        if !found {
            proof {
                assert forall|j: int| last_end <= j implies !#[trigger] occurs_at(s@, from@, j) by {
                    if j >= start {
                        assert(!(j + from@.len() <= s@.len()));
                    }
                }
                lemma_replace_tail(s@, from@, to@, last_end as int);
            }
            let ghost before = out@;
            let tail = sub_chars(s, last_end, s.len());
            extend_chars(&mut out, tail.as_slice());
            return out;
        }
        assert(occurs_at(s@, from@, start as int));
        assert(start + from@.len() <= s.len());
        assert(is_first_from(s@, from@, last_end as int, start as int));
        proof {
            lemma_replace_step(s@, from@, to@, last_end as int, start as int);
        }
        let ghost before = out@;
        let gap = sub_chars(s, last_end, start);
        extend_chars(&mut out, gap.as_slice());
        extend_chars(&mut out, to);
        last_end = start + from.len();
        assert(out@ + replace_from(s@, from@, to@, last_end as int) =~= before + (s@.subrange(
            (start - gap@.len()) as int,
            start as int,
        ) + to@ + replace_from(s@, from@, to@, last_end as int)));
    }
}

/// `n` in decimal, padded with zeros on the left to at least `width`
/// digits.
pub open spec fn zero_padded(n: nat, width: nat) -> Seq<char> {
    let d = decimal_spec(n);
    if d.len() < width {
        Seq::new((width - d.len()) as nat, |i: int| '0') + d
    } else {
        d
    }
}

/// `n` in decimal, padded with zeros on the left to at least `width`
/// digits.
pub fn zero_padded_chars(n: u64, width: usize) -> (r: Vec<char>)
    ensures
        r@ == zero_padded(n as nat, width as nat),
{
    let digits = decimal_chars(n);
    let pad: usize = if digits.len() < width { width - digits.len() } else { 0 };
    let mut out: Vec<char> = Vec::new();
    let mut k: usize = 0;
    assert(out@ =~= Seq::new(0, |i: int| '0'));
    while k < pad
        invariant
            k <= pad,
            pad == if digits@.len() < width { width - digits@.len() } else { 0 },
            out@ == Seq::new(k as nat, |i: int| '0'),
        decreases pad - k,
    {
        out.push('0');
        assert(out@ =~= Seq::new((k + 1) as nat, |i: int| '0'));
        k += 1;
    }
    extend_chars(&mut out, digits.as_slice());
    assert(out@ =~= zero_padded(n as nat, width as nat));
    out
}

} // verus!
