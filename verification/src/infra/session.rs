//! Names of session record files.
use vstd::prelude::*;
use crate::text::{
    chars_ends_with, chars_of, to_owned_string, char_is_control, char_is_space, char_upper, ends_with, is_control,
    is_space, push_str, string_of, sub_chars, upper_seq,
};

verus! {

/// `s` without its trailing whitespace.
pub open spec fn trim_end(s: Seq<char>) -> Seq<char>
    decreases s.len(),
{
    if s.len() > 0 && is_space(s.last()) {
        trim_end(s.drop_last())
    } else {
        s
    }
}

/// `s` without its leading whitespace.
pub open spec fn trim_start(s: Seq<char>) -> Seq<char>
    decreases s.len(),
{
    if s.len() > 0 && is_space(s[0]) {
        trim_start(s.drop_first())
    } else {
        s
    }
}

/// `s` without leading and trailing whitespace (`str::trim`).
pub open spec fn trim(s: Seq<char>) -> Seq<char> {
    trim_start(trim_end(s))
}

pub open spec fn txt_suffix() -> Seq<char> {
    seq!['.', 't', 'x', 't']
}

/// `s` with trailing whitespace and `.txt` extensions stripped, repeatedly,
/// until neither is left at its end.
pub open spec fn strip_txt(s: Seq<char>) -> Seq<char>
    decreases s.len(),
{
    let t = trim_end(s);
    if ends_with(t, txt_suffix()) {
        proof {
            lemma_trim_end_len(s);
        }
        strip_txt(t.take(t.len() - 4))
    } else {
        t
    }
}

/// A character that cannot stand in a portable file name.
pub open spec fn is_forbidden_char(c: char) -> bool {
    c == '/' || c == '\\' || c == '<' || c == '>' || c == ':' || c == '"' || c == '|' || c == '?'
        || c == '*' || is_control(c)
}

/// The part of `s` before its first dot.
pub open spec fn first_segment(s: Seq<char>) -> Seq<char>
    decreases s.len(),
{
    if s.len() == 0 || s[0] == '.' {
        Seq::empty()
    } else {
        seq![s[0]] + first_segment(s.drop_first())
    }
}

/// The device names reserved on Windows, in upper case: `CON`, `PRN`, `AUX`,
/// `NUL`, `COM1`..`COM9` and `LPT1`..`LPT9`.
pub open spec fn is_reserved_name(u: Seq<char>) -> bool {
    ||| u == seq!['C', 'O', 'N']
    ||| u == seq!['P', 'R', 'N']
    ||| u == seq!['A', 'U', 'X']
    ||| u == seq!['N', 'U', 'L']
    ||| u.len() == 4 && (u.take(3) == seq!['C', 'O', 'M'] || u.take(3) == seq!['L', 'P', 'T'])
        && '1' <= u[3] <= '9'
}

/// What `sanitize_name` gives for `raw`: the base name, or the message that
/// rejects it.
pub open spec fn sanitize_spec(raw: Seq<char>) -> Result<Seq<char>, Seq<char>> {
    let name = strip_txt(trim(raw));
    if name.len() == 0 {
        Err("session name cannot be empty"@)
    } else if name == seq!['.'] || name == seq!['.', '.'] {
        Err("invalid session name \""@ + raw + "\""@)
    } else if exists|i: int| 0 <= i < name.len() && #[trigger] is_forbidden_char(name[i]) {
        Err("session name \""@ + raw + "\" has invalid characters"@)
    } else if name.last() == '.' {
        Err("session name \""@ + raw + "\" cannot end with a dot"@)
    } else if is_reserved_name(upper_seq(first_segment(name))) {
        Err("session name \""@ + raw + "\" is reserved"@)
    } else {
        Ok(name)
    }
}

pub proof fn lemma_trim_end_len(s: Seq<char>)
    ensures
        trim_end(s).len() <= s.len(),
    decreases s.len(),
{
    if s.len() > 0 && is_space(s.last()) {
        lemma_trim_end_len(s.drop_last());
    }
}

pub fn trim_end_chars(cs: &[char]) -> (r: Vec<char>)
    ensures
        r@ == trim_end(cs@),
{
    let mut hi: usize = cs.len();
    assert(cs@.take(cs@.len() as int) =~= cs@);
    while hi > 0 && char_is_space(cs[hi - 1])
        invariant
            hi <= cs@.len(),
            trim_end(cs@.take(hi as int)) == trim_end(cs@),
        decreases hi,
    {
        assert(cs@.take(hi as int).drop_last() =~= cs@.take(hi - 1));
        hi -= 1;
    }
    assert(cs@.take(cs@.len() as int) =~= cs@);
    sub_chars(cs, 0, hi)
}

pub fn trim_start_chars(cs: &[char]) -> (r: Vec<char>)
    ensures
        r@ == trim_start(cs@),
{
    let mut lo: usize = 0;
    assert(cs@.skip(0) =~= cs@);
    while lo < cs.len() && char_is_space(cs[lo])
        invariant
            lo <= cs@.len(),
            trim_start(cs@.skip(lo as int)) == trim_start(cs@),
        decreases cs.len() - lo,
    {
        assert(cs@.skip(lo as int).drop_first() =~= cs@.skip(lo + 1));
        lo += 1;
    }
    assert(cs@.skip(0) =~= cs@);
    sub_chars(cs, lo, cs.len())
}

/// The part of `cs` before its first dot.
fn first_segment_chars(cs: &[char]) -> (r: Vec<char>)
    ensures
        r@ == first_segment(cs@),
{
    let mut k: usize = 0;
    assert(cs@.skip(0) =~= cs@);
    assert(Seq::<char>::empty() + cs@ =~= cs@);
    while k < cs.len() && cs[k] != '.'
        invariant
            k <= cs@.len(),
            first_segment(cs@) == cs@.take(k as int) + first_segment(cs@.skip(k as int)),
        decreases cs.len() - k,
    {
        assert(cs@.skip(k as int).drop_first() =~= cs@.skip(k + 1));
        assert(cs@.take(k as int) + seq![cs@[k as int]] =~= cs@.take(k + 1));
        k += 1;
    }
    assert(cs@.take(k as int) + Seq::<char>::empty() =~= cs@.take(k as int));
    sub_chars(cs, 0, k)
}

fn is_reserved_chars(u: &[char]) -> (r: bool)
    ensures
        r == is_reserved_name(u@),
{
    proof {
        if u@.len() == 3 {
            assert(u@ == seq![u@[0], u@[1], u@[2]]);
        }
        if u@.len() == 4 {
            assert(u@.take(3) == seq![u@[0], u@[1], u@[2]]);
        }
    }
    if u.len() == 3 {
        (u[0] == 'C' && u[1] == 'O' && u[2] == 'N') || (u[0] == 'P' && u[1] == 'R' && u[2] == 'N')
            || (u[0] == 'A' && u[1] == 'U' && u[2] == 'X') || (u[0] == 'N' && u[1] == 'U' && u[2]
            == 'L')
    } else if u.len() == 4 {
        ((u[0] == 'C' && u[1] == 'O' && u[2] == 'M') || (u[0] == 'L' && u[1] == 'P' && u[2] == 'T'))
            && '1' <= u[3] && u[3] <= '9'
    } else {
        false
    }
}

/// `prefix`, then `raw`, then `suffix`.
fn message(prefix: &str, raw: &str, suffix: &str) -> (r: String)
    ensures
        r@ == prefix@ + raw@ + suffix@,
{
    let mut m = String::new();
    push_str(&mut m, prefix);
    push_str(&mut m, raw);
    push_str(&mut m, suffix);
    assert(m@ =~= prefix@ + raw@ + suffix@);
    m
}

/// Normalizes a session name into a bare base name: trailing whitespace and
/// `.txt` extensions are stripped repeatedly, and names that are empty,
/// `.`/`..`, hold a path separator or another character invalid on Windows,
/// end with a dot, or name a reserved device are refused.
pub fn sanitize_name(raw: &str) -> (r: Result<String, String>)
    ensures
        match r {
            Ok(name) => sanitize_spec(raw@) == Ok::<Seq<char>, Seq<char>>(name@),
            Err(e) => sanitize_spec(raw@) == Err::<Seq<char>, Seq<char>>(e@),
        },
{
    let cs = chars_of(raw);
    let trimmed_end = trim_end_chars(cs.as_slice());
    let mut name = trim_start_chars(trimmed_end.as_slice());
    let suffix = ['.', 't', 'x', 't'];
    assert(suffix@ =~= txt_suffix());
    loop
        invariant_except_break
            strip_txt(name@) == strip_txt(trim(raw@)),
        invariant
            suffix@ == txt_suffix(),
        ensures
            name@ == strip_txt(trim(raw@)),
        decreases name@.len(),
    {
        let t = trim_end_chars(name.as_slice());
        proof {
            lemma_trim_end_len(name@);
        }
        if chars_ends_with(t.as_slice(), &suffix) {
            name = sub_chars(t.as_slice(), 0, t.len() - 4);
        } else {
            name = t;
            break;
        }
    }
    let ghost base = strip_txt(trim(raw@));
    assert(name@ == base);
    if name.len() == 0 {
        return Err(to_owned_string("session name cannot be empty"));
    }
    if (name.len() == 1 && name[0] == '.') || (name.len() == 2 && name[0] == '.' && name[1] == '.') {
        assert(name@ == seq!['.'] || name@ == seq!['.', '.']);
        return Err(message("invalid session name \"", raw, "\""));
    }
    proof {
        assert(!(name@ =~= seq!['.']) && !(name@ =~= seq!['.', '.']));
    }
    let mut i: usize = 0;
    while i < name.len()
        invariant
            i <= name@.len(),
            name@ == strip_txt(trim(raw@)),
            name@.len() > 0,
            name@ != seq!['.'],
            name@ != seq!['.', '.'],
            forall|j: int| 0 <= j < i ==> !#[trigger] is_forbidden_char(name@[j]),
        decreases name.len() - i,
    {
        let c = name[i];
        if c == '/' || c == '\\' || c == '<' || c == '>' || c == ':' || c == '"' || c == '|' || c
            == '?' || c == '*' || char_is_control(c) {
            assert(is_forbidden_char(name@[i as int]));
            return Err(message("session name \"", raw, "\" has invalid characters"));
        }
        i += 1;
    }
    if name[name.len() - 1] == '.' {
        return Err(message("session name \"", raw, "\" cannot end with a dot"));
    }
    let stem = first_segment_chars(name.as_slice());
    let mut upper: Vec<char> = Vec::new();
    let mut k: usize = 0;
    while k < stem.len()
        invariant
            k <= stem@.len(),
            upper@ == upper_seq(stem@.take(k as int)),
        decreases stem.len() - k,
    {
        upper.push(char_upper(stem[k]));
        k += 1;
        assert(upper@ =~= upper_seq(stem@.take(k as int)));
    }
    assert(stem@.take(stem@.len() as int) =~= stem@);
    if is_reserved_chars(upper.as_slice()) {
        return Err(message("session name \"", raw, "\" is reserved"));
    }
    Ok(string_of(name.as_slice()))
}

proof fn lemma_trim_end_shape(s: Seq<char>)
    ensures
        trim_end(s) == s.take(trim_end(s).len() as int),
        trim_end(s).len() <= s.len(),
        trim_end(s).len() > 0 ==> !is_space(trim_end(s).last()),
    decreases s.len(),
{
    if s.len() > 0 && is_space(s.last()) {
        lemma_trim_end_shape(s.drop_last());
        assert(s.drop_last().take(trim_end(s).len() as int) =~= s.take(trim_end(s).len() as int));
    } else {
        assert(s.take(s.len() as int) =~= s);
    }
}

proof fn lemma_trim_start_shape(s: Seq<char>)
    ensures
        trim_start(s).len() > 0 ==> !is_space(trim_start(s)[0]),
    decreases s.len(),
{
    if s.len() > 0 && is_space(s[0]) {
        lemma_trim_start_shape(s.drop_first());
    }
}

proof fn lemma_strip_txt_shape(s: Seq<char>)
    ensures
        strip_txt(s) == s.take(strip_txt(s).len() as int),
        strip_txt(s).len() <= s.len(),
        trim_end(strip_txt(s)) == strip_txt(s),
        !ends_with(strip_txt(s), txt_suffix()),
    decreases s.len(),
{
    let t = trim_end(s);
    lemma_trim_end_shape(s);
    if ends_with(t, txt_suffix()) {
        let u = t.take(t.len() - 4);
        lemma_strip_txt_shape(u);
        assert(t =~= s.take(t.len() as int));
        assert(u.take(strip_txt(u).len() as int) =~= s.take(strip_txt(u).len() as int));
    } else {
        if t.len() > 0 {
            assert(!is_space(t.last()));
        }
    }
}

/// Sanitizing is idempotent: a name `sanitize_name` accepts is accepted
/// again, unchanged. Such a name is not empty, has no surrounding
/// whitespace and no `.txt` at its end, does not end with a dot, holds no
/// forbidden character, and its part before the first dot is no reserved
/// device name.
pub proof fn lemma_sanitize_idempotent(raw: Seq<char>)
    requires
        sanitize_spec(raw) is Ok,
    ensures
        match sanitize_spec(raw) {
            Ok(name) => {
                &&& sanitize_spec(name) == Ok::<Seq<char>, Seq<char>>(name)
                &&& name.len() > 0
                &&& trim(name) == name
                &&& !ends_with(name, txt_suffix())
                &&& name.last() != '.'
                &&& forall|i: int| 0 <= i < name.len() ==> !#[trigger] is_forbidden_char(name[i])
                &&& !is_reserved_name(upper_seq(first_segment(name)))
            },
            Err(_) => true,
        },
{
    let t = trim(raw);
    let n = strip_txt(t);
    lemma_strip_txt_shape(t);
    lemma_trim_start_shape(trim_end(raw));
    assert(n.len() > 0);
    assert(n[0] == t[0]);
    assert(trim(n) == n);
    assert(strip_txt(n) == n);
}

/// The current local time formatted with the `strftime`-style pattern `fmt`
/// (`chrono::Local::now` then `DateTime::format`). Only the pattern the
/// library uses, whose items are all valid, is admitted: chrono reports an
/// error for an invalid item, and `to_string` panics on it. Nothing is
/// stated of the text: it depends on the clock and the time zone.
#[verifier::external_body]
fn local_time_formatted(fmt: &str) -> (r: String)
    requires
        fmt@ == "%Y%m%d_%H%M%S"@,
{
    chrono::Local::now().format(fmt).to_string()
}

/// The record file name of a session: `<name>.txt` for a (sanitized) name,
/// or the local time as `%Y%m%d_%H%M%S` followed by `.txt` when none is
/// given.
pub fn record_filename(name: Option<&str>) -> (r: String)
    ensures
        name matches Some(n) ==> r@ == n@ + ".txt"@,
        name is None ==> exists|stamp: Seq<char>| r@ == stamp + ".txt"@,
{
    let mut file = match name {
        Some(n) => to_owned_string(n),
        None => local_time_formatted("%Y%m%d_%H%M%S"),
    };
    let ghost base = file@;
    push_str(&mut file, ".txt");
    file
}

} // verus!
