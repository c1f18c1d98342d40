use vstd::prelude::*;
use crate::graphics::special_char::{
    SpecialChar, SpecialCharItem, SpecialCharPosition, ToSpecialChar, filter_makes_progress,
    filter_total,
};
use crate::text::{
    all_digits, char_is_alpha, char_is_digit, chars_of, decimal_value, digit_value, is_alpha, is_digit, parse_unsigned,
    parse_unsigned_chars, push_str, sub_chars, to_owned_string,
};

verus! {

/// A terminal foreground colour.
#[derive(Clone, Copy, Debug, PartialEq, Eq, Structural)]
pub enum Color {
    Reset,
    Black,
    Red,
    Green,
    Yellow,
    Blue,
    Magenta,
    Cyan,
    Gray,
    DarkGray,
    LightRed,
    LightGreen,
    LightYellow,
    LightBlue,
    LightMagenta,
    LightCyan,
    White,
    Rgb(u8, u8, u8),
    Indexed(u8),
}

/// A run of text drawn in one foreground colour.
pub struct ColoredText {
    pub content: String,
    pub fg: Color,
}

/// Decoder of the ANSI escape sequences found in received text. The screen
/// renders the ESC byte as the four characters `\x1b`, so sequences are
/// recognised in that escaped form.
#[allow(non_camel_case_types)]
pub struct ANSI;

/// The escaped form of a CSI introducer: `\x1b[`.
pub open spec fn csi_prefix() -> Seq<char> {
    seq!['\\', 'x', '1', 'b', '[']
}

/// A CSI parameter character: a digit or one of `;:<=>?`.
pub open spec fn is_param(c: char) -> bool {
    is_digit(c) || c == ';' || c == ':' || c == '<' || c == '=' || c == '>' || c == '?'
}

/// The first index at or after `from` that does not hold a parameter
/// character (the length of `s` when there is none).
pub open spec fn params_end(s: Seq<char>, from: int) -> int
    decreases s.len() - from,
{
    if from < 0 || from >= s.len() {
        s.len() as int
    } else if is_param(s[from]) {
        params_end(s, from + 1)
    } else {
        from
    }
}

/// The length of the complete CSI sequence that starts at `p`, if one does:
/// the introducer, parameter characters, then an ASCII letter.
pub open spec fn csi_len_at(s: Seq<char>, p: int) -> Option<nat> {
    if 0 <= p && p + 5 <= s.len() && s.subrange(p, p + 5) == csi_prefix() {
        let e = params_end(s, p + 5);
        if e < s.len() && is_alpha(s[e]) {
            Some((e + 1 - p) as nat)
        } else {
            None
        }
    } else {
        None
    }
}

/// Whether `pos` names the first complete CSI sequence of `s`.
pub open spec fn is_first_csi_start(s: Seq<char>, start: int) -> bool {
    &&& csi_len_at(s, start) is Some
    &&& forall|q: int| 0 <= q < start ==> #[trigger] csi_len_at(s, q) is None
}

pub open spec fn is_first_csi(s: Seq<char>, start: int, length: nat) -> bool {
    &&& is_first_csi_start(s, start)
    &&& csi_len_at(s, start) == Some(length)
}

pub open spec fn has_no_csi(s: Seq<char>) -> bool {
    forall|q: int| #[trigger] csi_len_at(s, q) is None
}

/// `s` with every complete CSI sequence removed, scanning left to right.
pub open spec fn strip_csi(s: Seq<char>) -> Seq<char>
    decreases s.len(),
{
    if has_no_csi(s) {
        s
    } else {
        let start = choose|start: int| #[trigger] is_first_csi_start(s, start);
        let length = csi_len_at(s, start).unwrap();
        if 0 <= start && start + length <= s.len() && length > 0 {
            s.take(start) + strip_csi(s.skip(start + length))
        } else {
            s
        }
    }
}

/// The standard colour with the given index (0..=7).
pub open spec fn base_color_spec(index: int) -> Color {
    if index == 0 {
        Color::Black
    } else if index == 1 {
        Color::Red
    } else if index == 2 {
        Color::Green
    } else if index == 3 {
        Color::Yellow
    } else if index == 4 {
        Color::Blue
    } else if index == 5 {
        Color::Magenta
    } else if index == 6 {
        Color::Cyan
    } else {
        Color::White
    }
}

pub open spec fn parse_u32(s: Seq<char>) -> Option<nat> {
    parse_unsigned(s, u32::MAX as nat)
}

pub open spec fn parse_u8(s: Seq<char>) -> Option<nat> {
    parse_unsigned(s, u8::MAX as nat)
}

/// The pieces of `s` between the separators `sep`.
pub open spec fn split_on(s: Seq<char>, sep: char) -> Seq<Seq<char>>
    decreases s.len(),
{
    if s.len() == 0 {
        seq![Seq::empty()]
    } else {
        let pieces = split_on(s.drop_last(), sep);
        if s.last() == sep {
            pieces.push(Seq::empty())
        } else {
            pieces.update(pieces.len() - 1, pieces.last().push(s.last()))
        }
    }
}

/// The number of parameters after `38`/`48` that an extended colour
/// consumes, and the colour it names (for `38`), given the parameters
/// following the `38`/`48` itself.
pub open spec fn extended_color(rest: Seq<Seq<char>>) -> (nat, Option<Color>) {
    if rest.len() == 0 {
        (0, None)
    } else if parse_u32(rest[0]) == Some(5nat) {
        if rest.len() >= 2 {
            (
                2,
                match parse_u8(rest[1]) {
                    Some(n) => Some(Color::Indexed(n as u8)),
                    None => None,
                },
            )
        } else {
            (1, None)
        }
    } else if parse_u32(rest[0]) == Some(2nat) {
        let taken = if rest.len() - 1 >= 3 { 3 } else { (rest.len() - 1) as nat };
        if rest.len() >= 4 && parse_u8(rest[1]) is Some && parse_u8(rest[2]) is Some && parse_u8(
            rest[3],
        ) is Some {
            (
                4,
                Some(
                    Color::Rgb(
                        parse_u8(rest[1]).unwrap() as u8,
                        parse_u8(rest[2]).unwrap() as u8,
                        parse_u8(rest[3]).unwrap() as u8,
                    ),
                ),
            )
        } else {
            ((1 + taken) as nat, None)
        }
    } else {
        (1, None)
    }
}

/// The foreground colour after applying the SGR parameters `params`, left
/// to right, to `color`.
pub open spec fn sgr_apply(params: Seq<Seq<char>>, color: Color) -> Color
    decreases params.len(),
{
    if params.len() == 0 {
        color
    } else {
        let rest = params.drop_first();
        match parse_u32(params[0]) {
            None => sgr_apply(rest, color),
            Some(code) => if code == 0 || code == 39 {
                sgr_apply(rest, Color::Reset)
            } else if 30 <= code <= 37 {
                sgr_apply(rest, base_color_spec(code - 30))
            } else if 90 <= code <= 97 {
                sgr_apply(rest, base_color_spec(code - 90))
            } else if code == 38 || code == 48 {
                let (n, c) = extended_color(rest);
                let next = if code == 38 && c is Some { c.unwrap() } else { color };
                if n <= rest.len() {
                    sgr_apply(rest.skip(n as int), next)
                } else {
                    next
                }
            } else {
                sgr_apply(rest, color)
            },
        }
    }
}

/// The colour after the escape sequence `seq`, starting from `current`.
/// Only SGR sequences (ending in `m`) change it.
pub open spec fn apply_sgr_spec(seq: Seq<char>, current: Color) -> Color {
    if seq.len() >= 6 && seq.take(5) == csi_prefix() && seq.last() == 'm' {
        let body = seq.subrange(5, seq.len() - 1);
        if body.len() == 0 {
            Color::Reset
        } else {
            sgr_apply(split_on(body, ';'), current)
        }
    } else {
        current
    }
}

/// Splits `s` on `sep`.
pub fn split_chars(s: &[char], sep: char) -> (r: Vec<Vec<char>>)
    ensures
        r@.len() == split_on(s@, sep).len(),
        forall|i: int| 0 <= i < r@.len() ==> #[trigger] r@[i]@ == split_on(s@, sep)[i],
{
    let mut pieces: Vec<Vec<char>> = Vec::new();
    pieces.push(Vec::new());
    let mut i: usize = 0;
    proof {
        assert(s@.take(0) == Seq::<char>::empty());
    }
    while i < s.len()
        invariant
            i <= s.len(),
            pieces@.len() == split_on(s@.take(i as int), sep).len(),
            pieces@.len() > 0,
            forall|k: int|
                0 <= k < pieces@.len() ==> #[trigger] pieces@[k]@ == split_on(s@.take(i as int), sep)[k],
        decreases s.len() - i,
    {
        let ghost before = split_on(s@.take(i as int), sep);
        assert(s@.take(i as int + 1).drop_last() == s@.take(i as int));
        assert(s@.take(i as int + 1).last() == s@[i as int]);
        if s[i] == sep {
            pieces.push(Vec::new());
        } else {
            let last = pieces.len() - 1;
            let mut piece = pieces.remove(last);
            piece.push(s[i]);
            pieces.push(piece);
        }
        i += 1;
        assert forall|k: int| 0 <= k < pieces@.len() implies #[trigger] pieces@[k]@ == split_on(
            s@.take(i as int),
            sep,
        )[k] by {}
    }
    assert(s@.take(s.len() as int) == s@);
    pieces
}

/// The colour the extended-colour parameters `rest` (those after a `38` or
/// `48`) name, and how many of them they consume.
fn extended_color_exec(params: &[Vec<char>], from: usize) -> (r: (usize, Option<Color>))
    requires
        from <= params@.len(),
    ensures
        r.0 as nat == extended_color(params@.map_values(|v: Vec<char>| v@).skip(from as int)).0,
        r.1 == extended_color(params@.map_values(|v: Vec<char>| v@).skip(from as int)).1,
{
    let ghost rest = params@.map_values(|v: Vec<char>| v@).skip(from as int);
    let len = params.len() - from;
    if len == 0 {
        return (0, None);
    }
    assert(rest[0] == params@[from as int]@);
    let kind = parse_unsigned_chars(params[from].as_slice(), 0xffff_ffff);
    if kind == Some(5u64) {
        if len >= 2 {
            assert(rest[1] == params@[from + 1]@);
            let n = parse_unsigned_chars(params[from + 1].as_slice(), 0xff);
            match n {
                Some(n) => (2, Some(Color::Indexed(n as u8))),
                None => (2, None),
            }
        } else {
            (1, None)
        }
    } else if kind == Some(2u64) {
        let taken: usize = if len - 1 >= 3 { 3 } else { len - 1 };
        if len >= 4 {
            assert(rest[1] == params@[from + 1]@);
            assert(rest[2] == params@[from + 2]@);
            assert(rest[3] == params@[from + 3]@);
            let r = parse_unsigned_chars(params[from + 1].as_slice(), 0xff);
            let g = parse_unsigned_chars(params[from + 2].as_slice(), 0xff);
            let b = parse_unsigned_chars(params[from + 3].as_slice(), 0xff);
            match (r, g, b) {
                (Some(r), Some(g), Some(b)) => {
                    return (4, Some(Color::Rgb(r as u8, g as u8, b as u8)));
                },
                _ => {},
            }
        }
        (1 + taken, None)
    } else {
        (1, None)
    }
}

impl ANSI {
    /// Locates the first complete CSI sequence (`\x1b[`, parameter
    /// characters, then a final letter) in `string`, as a character offset
    /// and a length in characters.
    pub fn next_csi(string: &str) -> (r: Option<SpecialCharPosition>)
        ensures
            r matches Some(pos) ==> is_first_csi(string@, pos.start as int, pos.length as nat),
            r is None ==> has_no_csi(string@),
    {
        let s = chars_of(string);
        let n = s.len();
        let mut p: usize = 0;
        while p < n
            invariant
                s@ == string@,
                n == s@.len(),
                p <= n,
                forall|q: int| 0 <= q < p ==> #[trigger] csi_len_at(s@, q) is None,
            decreases n - p,
        {
            let is_prefix = n >= 5 && p <= n - 5 && s[p] == '\\' && s[p + 1] == 'x' && s[p + 2] == '1' && s[p
                + 3] == 'b' && s[p + 4] == '[';
            proof {
                if p + 5 <= n {
                    if is_prefix {
                        assert(s@.subrange(p as int, p + 5) =~= csi_prefix());
                    } else {
                        assert(s@.subrange(p as int, p + 5) != csi_prefix()) by {
                            if s@.subrange(p as int, p + 5) == csi_prefix() {
                                assert(s@.subrange(p as int, p + 5)[0] == s@[p as int]);
                                assert(s@.subrange(p as int, p + 5)[1] == s@[p + 1]);
                                assert(s@.subrange(p as int, p + 5)[2] == s@[p + 2]);
                                assert(s@.subrange(p as int, p + 5)[3] == s@[p + 3]);
                                assert(s@.subrange(p as int, p + 5)[4] == s@[p + 4]);
                            }
                        }
                    }
                }
            }
            if is_prefix {
                let mut e = p + 5;
                while e < n && (char_is_digit(s[e]) || s[e] == ';' || s[e] == ':' || s[e] == '<'
                    || s[e] == '=' || s[e] == '>' || s[e] == '?')
                    invariant
                        p + 5 <= e <= n,
                        n == s@.len(),
                        params_end(s@, p + 5) == params_end(s@, e as int),
                    decreases n - e,
                {
                    e += 1;
                }
                assert(params_end(s@, e as int) == e);
                if e < n && char_is_alpha(s[e]) {
                    return Some(SpecialCharPosition { start: p, length: e + 1 - p });
                }
            }
            p += 1;
        }
        proof {
            assert forall|q: int| #[trigger] csi_len_at(s@, q) is None by {
                if !(0 <= q < p) {
                    assert(!(0 <= q && q + 5 <= s@.len()));
                }
            }
        }
        None
    }

    /// The colour after the escape sequence `seq`, starting from `current`.
    /// Only SGR sequences (those ending in `m`) change it; their parameters
    /// apply left to right, so the last colour-setting code wins.
    fn apply_sgr(seq: &str, current: Color) -> (r: Color)
        ensures
            r == apply_sgr_spec(seq@, current),
    {
        let s = chars_of(seq);
        let n = s.len();
        if !(n >= 6 && s[0] == '\\' && s[1] == 'x' && s[2] == '1' && s[3] == 'b' && s[4] == '['
            && s[n - 1] == 'm') {
            proof {
                if s@.len() >= 6 && s@.take(5) == csi_prefix() && s@.last() == 'm' {
                    assert(s@.take(5)[0] == s@[0]);
                    assert(s@.take(5)[1] == s@[1]);
                    assert(s@.take(5)[2] == s@[2]);
                    assert(s@.take(5)[3] == s@[3]);
                    assert(s@.take(5)[4] == s@[4]);
                }
            }
            return current;
        }
        assert(s@.take(5) =~= csi_prefix());
        if n == 6 {
            return Color::Reset;
        }
        let body = sub_chars(s.as_slice(), 5, n - 1);
        let params = split_chars(body.as_slice(), ';');
        let ghost views = params@.map_values(|v: Vec<char>| v@);
        assert(views =~= split_on(body@, ';'));
        assert(views.skip(0) =~= views);
        assert(body@ == s@.subrange(5, s@.len() - 1));
        Self::apply_params(params.as_slice(), 0, current)
    }

    /// Applies the SGR parameters `params[from..]` to `color`.
    fn apply_params(params: &[Vec<char>], from: usize, color: Color) -> (r: Color)
        requires
            from <= params@.len(),
        ensures
            r == sgr_apply(params@.map_values(|v: Vec<char>| v@).skip(from as int), color),
        decreases params@.len() - from,
    {
        let ghost all = params@.map_values(|v: Vec<char>| v@);
        let ghost here = all.skip(from as int);
        if from == params.len() {
            assert(here.len() == 0);
            return color;
        }
        assert(here[0] == params@[from as int]@);
        assert(here.drop_first() =~= all.skip(from + 1));
        let code = parse_unsigned_chars(params[from].as_slice(), 0xffff_ffff);
        match code {
            None => Self::apply_params(params, from + 1, color),
            Some(code) => {
                if code == 0 || code == 39 {
                    Self::apply_params(params, from + 1, Color::Reset)
                } else if 30 <= code && code <= 37 {
                    Self::apply_params(params, from + 1, Self::base_color((code - 30) as u32))
                } else if 90 <= code && code <= 97 {
                    Self::apply_params(params, from + 1, Self::base_color((code - 90) as u32))
                } else if code == 38 || code == 48 {
                    let (taken, named) = extended_color_exec(params, from + 1);
                    let next = if code == 38 && named.is_some() {
                        named.unwrap()
                    } else {
                        color
                    };
                    if taken <= params.len() - (from + 1) {
                        assert(here.drop_first().skip(taken as int) =~= all.skip(from + 1 + taken));
                        Self::apply_params(params, from + 1 + taken, next)
                    } else {
                        next
                    }
                } else {
                    Self::apply_params(params, from + 1, color)
                }
            },
        }
    }

    fn base_color(index: u32) -> (r: Color)
        ensures
            r == base_color_spec(index as int),
    {
        match index {
            0 => Color::Black,
            1 => Color::Red,
            2 => Color::Green,
            3 => Color::Yellow,
            4 => Color::Blue,
            5 => Color::Magenta,
            6 => Color::Cyan,
            _ => Color::White,
        }
    }

    /// The text with every complete CSI escape sequence removed.
    pub fn remove_encoding(input: String) -> (r: String)
        ensures
            r@ == strip_csi(input@),
    {
        let filter = |string: &str| -> (r: Option<SpecialCharPosition>)
            ensures
                r matches Some(pos) ==> is_first_csi(string@, pos.start as int, pos.length as nat),
                r is None ==> has_no_csi(string@),
            { ANSI::next_csi(string) };
        proof {
            lemma_csi_filter_progress(filter);
        }
        let ghost original = input@;
        let mut result = String::new();
        let mut splitter = SpecialChar::new(input, filter);
        loop
            invariant
                splitter.filter() == filter,
                filter_total(filter),
                filter_makes_progress(filter),
                is_csi_filter(filter),
                result@ + strip_csi(splitter.content()) == strip_csi(original),
                original == input@,
            decreases splitter.remaining_steps(),
        {
            let ghost before = splitter;
            let item = splitter.next_item();
            proof {
                lemma_strip_step(before, item, splitter);
            }
            match item {
                None => {
                    assert(result@ + strip_csi(splitter.content()) =~= result@);
                    return result;
                },
                Some(SpecialCharItem::Plain(plain)) => {
                    let ghost prev = result@;
                    push_str(&mut result, plain.as_str());
                    assert(prev + plain@ + strip_csi(splitter.content()) =~= prev + (plain@ + strip_csi(
                        splitter.content(),
                    )));
                },
                Some(SpecialCharItem::Special(_, _)) => {},
            }
        }
    }
}

impl ANSI {
    /// Splits `content` into runs of one colour: the text between escape
    /// sequences keeps the colour in effect, starting from `fg` (the reset
    /// colour when there is none), and each sequence updates that colour.
    pub fn decode(content: &str, fg: Option<Color>) -> (r: Vec<ColoredText>)
        ensures
            colored_view(r@) == decode_spec(content@, initial_color(fg)),
    {
        let filter = |string: &str| -> (r: Option<SpecialCharPosition>)
            ensures
                r matches Some(pos) ==> is_first_csi(string@, pos.start as int, pos.length as nat),
                r is None ==> has_no_csi(string@),
            { ANSI::next_csi(string) };
        proof {
            lemma_csi_filter_progress(filter);
        }
        let mut color = match fg {
            Some(c) => c,
            None => Color::Reset,
        };
        let ghost original = content@;
        let mut spans: Vec<ColoredText> = Vec::new();
        let mut splitter = SpecialChar::new(to_owned_string(content), filter);
        assert(colored_view(spans@) =~= Seq::<(Seq<char>, Color)>::empty());
        loop
            invariant
                splitter.filter() == filter,
                filter_total(filter),
                filter_makes_progress(filter),
                is_csi_filter(filter),
                colored_view(spans@) + decode_state(splitter, color) == decode_spec(
                    original,
                    initial_color(fg),
                ),
                original == content@,
            decreases splitter.remaining_steps(),
        {
            let ghost before = splitter;
            let ghost old_view = colored_view(spans@);
            let item = splitter.next_item();
            proof {
                lemma_decode_step(before, item, splitter, color);
            }
            match item {
                None => {
                    assert(colored_view(spans@) + decode_state(splitter, color) =~= colored_view(
                        spans@,
                    ));
                    return spans;
                },
                Some(SpecialCharItem::Plain(plain)) => {
                    let ghost text = plain@;
                    spans.push(ColoredText { content: plain, fg: color });
                    assert(colored_view(spans@) =~= old_view.push((text, color)));
                    assert(old_view.push((text, color)) + decode_state(splitter, color) =~= old_view
                        + (seq![(text, color)] + decode_state(splitter, color)));
                },
                Some(SpecialCharItem::Special(special, _)) => {
                    color = Self::apply_sgr(special.as_str(), color);
                },
            }
        }
    }
}

/// The colour decoding starts from.
pub open spec fn initial_color(fg: Option<Color>) -> Color {
    match fg {
        Some(c) => c,
        None => Color::Reset,
    }
}

/// The runs as pairs of text and colour.
pub open spec fn colored_view(runs: Seq<ColoredText>) -> Seq<(Seq<char>, Color)> {
    runs.map_values(|t: ColoredText| (t.content@, t.fg))
}

/// The coloured runs of `s`, starting from `color`: the text before the
/// first escape sequence (when not empty) in `color`, then the runs of the
/// rest in the colour that sequence leaves.
pub open spec fn decode_spec(s: Seq<char>, color: Color) -> Seq<(Seq<char>, Color)>
    decreases s.len(),
{
    if has_no_csi(s) {
        if s.len() == 0 {
            Seq::empty()
        } else {
            seq![(s, color)]
        }
    } else {
        let start = choose|start: int| #[trigger] is_first_csi_start(s, start);
        let length = csi_len_at(s, start).unwrap();
        if 0 <= start && start + length <= s.len() && length > 0 {
            let head = if start > 0 {
                seq![(s.take(start), color)]
            } else {
                Seq::empty()
            };
            head + decode_spec(
                s.skip(start + length),
                apply_sgr_spec(s.subrange(start, start + length), color),
            )
        } else {
            Seq::empty()
        }
    }
}

/// The runs a splitter still yields, when decoding in `color`: a pending
/// sequence changes the colour before the remaining text.
pub open spec fn decode_state<F: Fn(&str) -> Option<SpecialCharPosition>>(
    sp: SpecialChar<F>,
    color: Color,
) -> Seq<(Seq<char>, Color)> {
    match sp.pending() {
        Some((sq, _)) => decode_spec(sp.content(), apply_sgr_spec(sq, color)),
        None => decode_spec(sp.content(), color),
    }
}

/// The text of the runs, in order.
pub open spec fn runs_text(runs: Seq<(Seq<char>, Color)>) -> Seq<char>
    decreases runs.len(),
{
    if runs.len() == 0 {
        Seq::empty()
    } else {
        runs[0].0 + runs_text(runs.drop_first())
    }
}

proof fn lemma_runs_text_append(a: Seq<(Seq<char>, Color)>, b: Seq<(Seq<char>, Color)>)
    ensures
        runs_text(a + b) == runs_text(a) + runs_text(b),
    decreases a.len(),
{
    if a.len() == 0 {
        assert(a + b =~= b);
    } else {
        assert((a + b).drop_first() =~= a.drop_first() + b);
        lemma_runs_text_append(a.drop_first(), b);
    }
}

/// Where some sequence starts, a first one starts.
proof fn lemma_first_csi_exists(s: Seq<char>, q: int)
    requires
        csi_len_at(s, q) is Some,
    ensures
        exists|start: int| #[trigger] is_first_csi_start(s, start),
    decreases q,
{
    if forall|p: int| 0 <= p < q ==> #[trigger] csi_len_at(s, p) is None {
        assert(is_first_csi_start(s, q));
    } else {
        let p = choose|p: int| 0 <= p < q && #[trigger] csi_len_at(s, p) is Some;
        lemma_first_csi_exists(s, p);
    }
}

/// Decoding and stripping agree on the text: the runs `decode` yields hold,
/// in order, exactly the text `remove_encoding` yields, and no run is empty.
pub proof fn lemma_decode_keeps_text(content: Seq<char>, color: Color)
    ensures
        runs_text(decode_spec(content, color)) == strip_csi(content),
        forall|i: int|
            0 <= i < decode_spec(content, color).len() ==> #[trigger] decode_spec(
                content,
                color,
            )[i].0.len() > 0,
    decreases content.len(),
{
    if has_no_csi(content) {
        if content.len() > 0 {
            let one = seq![(content, color)];
            assert(one.drop_first() =~= Seq::<(Seq<char>, Color)>::empty());
            assert(runs_text(one.drop_first()) == Seq::<char>::empty());
            assert(content + Seq::<char>::empty() =~= content);
        }
    } else {
        let q = choose|q: int| #[trigger] csi_len_at(content, q) is Some;
        lemma_first_csi_exists(content, q);
        let start = choose|start: int| #[trigger] is_first_csi_start(content, start);
        let length = csi_len_at(content, start).unwrap();
        lemma_csi_len_bounds(content, start);
        lemma_strip_first(content, start, length);
        let next = apply_sgr_spec(content.subrange(start, start + length), color);
        let rest = content.skip(start + length);
        lemma_decode_keeps_text(rest, next);
        let head: Seq<(Seq<char>, Color)> = if start > 0 {
            seq![(content.take(start), color)]
        } else {
            Seq::empty()
        };
        lemma_runs_text_append(head, decode_spec(rest, next));
        if start > 0 {
            assert(head.drop_first() =~= Seq::<(Seq<char>, Color)>::empty());
            assert(runs_text(head.drop_first()) == Seq::<char>::empty());
            assert(content.take(start) + Seq::<char>::empty() =~= content.take(start));
        } else {
            assert(content.take(start) =~= Seq::<char>::empty());
        }
        assert(runs_text(head) =~= content.take(start));
        assert(decode_spec(content, color) == head + decode_spec(rest, next));
    }
}

/// Decoding removes the first sequence, applies it to the colour and
/// continues after it.
proof fn lemma_decode_first(s: Seq<char>, start: int, length: nat, color: Color)
    requires
        is_first_csi(s, start, length),
    ensures
        0 <= start,
        start + length <= s.len(),
        decode_spec(s, color) == (if start > 0 {
            seq![(s.take(start), color)]
        } else {
            Seq::empty()
        }) + decode_spec(
            s.skip(start + length),
            apply_sgr_spec(s.subrange(start, start + length), color),
        ),
{
    lemma_csi_len_bounds(s, start);
    assert(!has_no_csi(s)) by {
        assert(csi_len_at(s, start) is Some);
    }
    let st = choose|st: int| #[trigger] is_first_csi_start(s, st);
    assert(st == start) by {
        if st < start {
            assert(csi_len_at(s, st) is None);
        } else if st > start {
            assert(csi_len_at(s, start) is None);
        }
    }
}

/// What one step of the splitter does to the runs still to come.
proof fn lemma_decode_step<F: Fn(&str) -> Option<SpecialCharPosition>>(
    before: SpecialChar<F>,
    item: Option<SpecialCharItem>,
    after: SpecialChar<F>,
    color: Color,
)
    requires
        is_csi_filter(before.filter()),
        item is None <==> before.pending() is None && before.content().len() == 0,
        item is None ==> after.content() == before.content() && after.pending() is None,
        before.pending() matches Some((s, c)) ==> {
            &&& item matches Some(SpecialCharItem::Special(t, d)) && t@ == s && d == c
            &&& after.pending() is None
            &&& after.content() == before.content()
        },
        before.pending() is None && before.content().len() > 0 ==> exists|
            arg: &str,
            found: Option<SpecialCharPosition>,
        |
            {
                &&& arg@ == before.content()
                &&& #[trigger] call_ensures(before.filter(), (arg,), found)
                &&& SpecialChar::<F>::step_outcome(before, found, item, after)
            },
    ensures
        item is None ==> decode_state(after, color) == Seq::<(Seq<char>, Color)>::empty(),
        item matches Some(SpecialCharItem::Plain(p)) ==> decode_state(before, color) == seq![
            (p@, color),
        ] + decode_state(after, color),
        item matches Some(SpecialCharItem::Special(sq, _)) ==> decode_state(before, color)
            == decode_state(after, apply_sgr_spec(sq@, color)),
{
    if item is None {
        assert(has_no_csi(after.content()));
    } else if before.pending() is None {
        let (arg, found) = choose|arg: &str, found: Option<SpecialCharPosition>|
            {
                &&& arg@ == before.content()
                &&& #[trigger] call_ensures(before.filter(), (arg,), found)
                &&& SpecialChar::<F>::step_outcome(before, found, item, after)
            };
        let c = before.content();
        match found {
            None => {
                assert(after.content() =~= Seq::<char>::empty());
                assert(has_no_csi(after.content()));
                assert(seq![(c, color)] + Seq::<(Seq<char>, Color)>::empty() =~= seq![(c, color)]);
            },
            Some(pos) => {
                lemma_decode_first(c, pos.start as int, pos.length as nat, color);
                if pos.start == 0 {
                    assert(Seq::<(Seq<char>, Color)>::empty() + decode_spec(
                        after.content(),
                        apply_sgr_spec(c.subrange(0, pos.length as int), color),
                    ) =~= decode_spec(
                        after.content(),
                        apply_sgr_spec(c.subrange(0, pos.length as int), color),
                    ));
                }
            },
        }
    }
}

/// `f` reports first CSI sequences, or their absence, correctly.
pub open spec fn is_csi_filter<F: Fn(&str) -> Option<SpecialCharPosition>>(f: F) -> bool {
    forall|arg: &str, found: Option<SpecialCharPosition>|
        #[trigger] call_ensures(f, (arg,), found) ==> (found matches Some(pos) ==> is_first_csi(
            arg@,
            pos.start as int,
            pos.length as nat,
        )) && (found is None ==> has_no_csi(arg@))
}

/// What one step of the splitter does to the stripped text.
proof fn lemma_strip_step<F: Fn(&str) -> Option<SpecialCharPosition>>(
    before: SpecialChar<F>,
    item: Option<SpecialCharItem>,
    after: SpecialChar<F>,
)
    requires
        is_csi_filter(before.filter()),
        item is None <==> before.pending() is None && before.content().len() == 0,
        item is None ==> after.content() == before.content(),
        before.pending() is Some ==> after.content() == before.content() && item matches Some(
            SpecialCharItem::Special(_, _),
        ),
        before.pending() is None && before.content().len() > 0 ==> exists|
            arg: &str,
            found: Option<SpecialCharPosition>,
        |
            {
                &&& arg@ == before.content()
                &&& #[trigger] call_ensures(before.filter(), (arg,), found)
                &&& SpecialChar::<F>::step_outcome(before, found, item, after)
            },
    ensures
        item is None ==> strip_csi(after.content()) == Seq::<char>::empty(),
        item matches Some(SpecialCharItem::Plain(p)) ==> strip_csi(before.content()) == p@
            + strip_csi(after.content()),
        item matches Some(SpecialCharItem::Special(_, _)) ==> strip_csi(before.content())
            == strip_csi(after.content()),
{
    if item is None {
        assert(after.content() =~= Seq::<char>::empty());
        assert(has_no_csi(after.content()));
    } else if before.pending() is None {
        let (arg, found) = choose|arg: &str, found: Option<SpecialCharPosition>|
            {
                &&& arg@ == before.content()
                &&& #[trigger] call_ensures(before.filter(), (arg,), found)
                &&& SpecialChar::<F>::step_outcome(before, found, item, after)
            };
        let c = before.content();
        match found {
            None => {
                lemma_strip_no_csi(c);
                assert(after.content() =~= Seq::<char>::empty());
                assert(has_no_csi(after.content()));
                lemma_strip_no_csi(after.content());
                assert(c + Seq::<char>::empty() =~= c);
            },
            Some(pos) => {
                lemma_strip_first(c, pos.start as int, pos.length as nat);
                if pos.start == 0 {
                    assert(c.take(0) =~= Seq::<char>::empty());
                    assert(Seq::<char>::empty() + strip_csi(after.content()) =~= strip_csi(after.content()));
                }
            },
        }
    }
}

proof fn lemma_params_end_bounds(s: Seq<char>, from: int)
    requires
        0 <= from <= s.len(),
    ensures
        from <= params_end(s, from) <= s.len(),
    decreases s.len() - from,
{
    if from < s.len() && is_param(s[from]) {
        lemma_params_end_bounds(s, from + 1);
    }
}

proof fn lemma_csi_len_bounds(s: Seq<char>, p: int)
    requires
        csi_len_at(s, p) is Some,
    ensures
        csi_len_at(s, p).unwrap() >= 6,
        p + csi_len_at(s, p).unwrap() <= s.len(),
{
    lemma_params_end_bounds(s, p + 5);
}

proof fn lemma_csi_filter_progress<F: Fn(&str) -> Option<SpecialCharPosition>>(f: F)
    requires
        forall|s: &str| #[trigger] call_requires(f, (s,)),
        forall|arg: &str, found: Option<SpecialCharPosition>|
            #[trigger] call_ensures(f, (arg,), found) ==> (found matches Some(pos) ==> is_first_csi(
                arg@,
                pos.start as int,
                pos.length as nat,
            )) && (found is None ==> has_no_csi(arg@)),
    ensures
        is_csi_filter(f),
        filter_total(f),
        filter_makes_progress(f),
{
    assert forall|s: &str, r: Option<SpecialCharPosition>|
        #[trigger] call_ensures(f, (s,), r) && r is Some implies r.unwrap().start > 0
            || r.unwrap().length > 0 by {
        lemma_csi_len_bounds(s@, r.unwrap().start as int);
    }
}

proof fn lemma_strip_no_csi(s: Seq<char>)
    requires
        has_no_csi(s),
    ensures
        strip_csi(s) == s,
{
}

/// Stripping removes the first sequence and continues after it.
proof fn lemma_strip_first(s: Seq<char>, start: int, length: nat)
    requires
        is_first_csi(s, start, length),
    ensures
        0 <= start,
        start + length <= s.len(),
        strip_csi(s) == s.take(start) + strip_csi(s.skip(start + length)),
{
    lemma_csi_len_bounds(s, start);
    assert(!has_no_csi(s)) by {
        assert(csi_len_at(s, start) is Some);
    }
    assert(is_first_csi_start(s, start));
    let st = choose|st: int| #[trigger] is_first_csi_start(s, st);
    assert(st == start) by {
        if st < start {
            assert(csi_len_at(s, st) is None);
        } else if st > start {
            assert(csi_len_at(s, start) is None);
        }
    }
}


/// The colour an SGR sequence of the two digits `tens`, `unit` sets.
proof fn lemma_two_digit_sgr(tens: char, unit: char, current: Color)
    requires
        '0' <= tens <= '9',
        '0' <= unit <= '9',
    ensures
        ({
            let code = ((tens as u32 - '0' as u32) * 10 + (unit as u32 - '0' as u32)) as nat;
            apply_sgr_spec(csi_prefix() + seq![tens, unit, 'm'], current) == sgr_apply(
                seq![seq![tens, unit]],
                current,
            ) && parse_u32(seq![tens, unit]) == Some(code)
        }),
{
    let sq = csi_prefix() + seq![tens, unit, 'm'];
    let body = seq![tens, unit];
    assert(sq.len() == 8);
    assert(sq.take(5) =~= csi_prefix());
    assert(sq.subrange(5, 7) =~= body);
    assert(body.drop_last() =~= seq![tens]);
    assert(seq![tens].drop_last() =~= Seq::<char>::empty());
    assert(split_on(Seq::<char>::empty(), ';') == seq![Seq::<char>::empty()]);
    assert(split_on(seq![tens], ';') =~= seq![seq![tens]]) by {
        assert(Seq::<char>::empty().push(tens) =~= seq![tens]);
        assert(seq![Seq::<char>::empty()].update(0, Seq::<char>::empty().push(tens)) =~= seq![seq![tens]]);
    }
    assert(split_on(body, ';') =~= seq![body]) by {
        assert(seq![tens].push(unit) =~= body);
        assert(seq![seq![tens]].update(0, seq![tens].push(unit)) =~= seq![body]);
    }
    reveal_with_fuel(decimal_value, 3);
    assert(all_digits(body));
    assert(decimal_value(body) == decimal_value(seq![tens]) * 10 + digit_value(unit));
    assert(decimal_value(seq![tens]) == digit_value(tens));
}

/// The SGR foreground codes 30..=37 and 90..=97 set the eight standard
/// colours in order: black, red, green, yellow, blue, magenta, cyan, white.
/// Received text `text` (holding no escape sequence) after `\x1b[3<i>m` or
/// `\x1b[9<i>m` is one run in colour `i` of that list, whatever colour was
/// in effect; e.g. `\x1b[34mblue` is `blue` in blue.
pub proof fn lemma_sgr_standard_colors(i: int, current: Color, text: Seq<char>)
    requires
        0 <= i < 8,
        text.len() > 0,
        has_no_csi(text),
    ensures
        ({
            let d = seq!['0', '1', '2', '3', '4', '5', '6', '7'][i];
            let want = seq![
                Color::Black,
                Color::Red,
                Color::Green,
                Color::Yellow,
                Color::Blue,
                Color::Magenta,
                Color::Cyan,
                Color::White,
            ][i];
            &&& decode_spec(csi_prefix() + seq!['3', d, 'm'] + text, current) == seq![(text, want)]
            &&& decode_spec(csi_prefix() + seq!['9', d, 'm'] + text, current) == seq![(text, want)]
        }),
{
    let d = seq!['0', '1', '2', '3', '4', '5', '6', '7'][i];
    let want = seq![
        Color::Black,
        Color::Red,
        Color::Green,
        Color::Yellow,
        Color::Blue,
        Color::Magenta,
        Color::Cyan,
        Color::White,
    ][i];
    assert(base_color_spec(i) == want);
    assert(d as u32 - '0' as u32 == i);
    lemma_sgr_one(i, '3', d, current, text);
    lemma_sgr_one(i, '9', d, current, text);
}

proof fn lemma_sgr_one(i: int, tens: char, d: char, current: Color, text: Seq<char>)
    requires
        0 <= i < 8,
        tens == '3' || tens == '9',
        '0' <= d <= '9',
        d as u32 - '0' as u32 == i,
        text.len() > 0,
        has_no_csi(text),
    ensures
        decode_spec(csi_prefix() + seq![tens, d, 'm'] + text, current) == seq![(text, base_color_spec(i))],
{
    let esc = csi_prefix() + seq![tens, d, 'm'];
    let s = esc + text;
    assert(s.subrange(0, 5) =~= csi_prefix());
    assert(s[5] == tens && s[6] == d && s[7] == 'm');
    reveal_with_fuel(params_end, 4);
    assert(params_end(s, 7) == 7);
    assert(params_end(s, 5) == 7);
    assert(csi_len_at(s, 0) == Some(8nat));
    assert(is_first_csi(s, 0, 8));
    lemma_decode_first(s, 0, 8, current);
    assert(s.subrange(0, 8) =~= esc);
    assert(s.skip(8) =~= text);
    lemma_two_digit_sgr(tens, d, current);
    let body = seq![tens, d];
    let code = ((tens as u32 - '0' as u32) * 10 + (d as u32 - '0' as u32)) as nat;
    assert(sgr_apply(seq![body], current) == base_color_spec(i)) by {
        reveal_with_fuel(sgr_apply, 2);
        assert(seq![body][0] == body);
        assert(seq![body].drop_first() =~= Seq::<Seq<char>>::empty());
        if tens == '3' {
            assert(code == 30 + i);
        } else {
            assert(code == 90 + i);
        }
    }
    assert(Seq::<(Seq<char>, Color)>::empty() + seq![(text, base_color_spec(i))] =~= seq![(text, base_color_spec(i))]);
}

} // verus!
