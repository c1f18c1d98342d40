//! How a line of the history is drawn: runs of styled text, with the
//! selection shown reversed, search hits highlighted, escaped control bytes
//! set off in an accent colour, and the part that fits the screen cut out.
use vstd::prelude::*;
use crate::graphics::ansi::Color;
use crate::graphics::bytes::occurs_at;
use crate::graphics::palette::{Palette, ascent_fg_spec};
use crate::graphics::ansi::{ANSI, ColoredText, colored_view, initial_color, strip_csi};
use crate::graphics::buffer::{BufferLine, position_lt, timestamp_fmt};
use crate::graphics::palette::fg_spec;
use crate::infra::logger::LogLevel;
use crate::graphics::screen::{matches_within, sat_sub, sorted_matches, ScreenMode};
use crate::graphics::selection::{Selection, SelectionPosition};
use crate::text::{chars_of, string_of, sub_chars};

verus! {

/// How a run of text is drawn: its colours, whether foreground and
/// background are swapped, and whether it is bold.
#[derive(Clone, Copy, Debug, PartialEq, Eq, Structural)]
pub struct Style {
    pub fg: Option<Color>,
    pub bg: Option<Color>,
    pub reversed: bool,
    pub bold: bool,
}

impl Style {
    /// No colour of its own, not reversed.
    pub fn plain() -> (r: Self)
        ensures
            r == (Style { fg: None, bg: None, reversed: false, bold: false }),
    {
        Style { fg: None, bg: None, reversed: false, bold: false }
    }

    /// The style with the given foreground and background.
    pub fn colored(fg: Color, bg: Color) -> (r: Self)
        ensures
            r == (Style { fg: Some(fg), bg: Some(bg), reversed: false, bold: false }),
    {
        Style { fg: Some(fg), bg: Some(bg), reversed: false, bold: false }
    }

    pub open spec fn plain_spec() -> Style {
        Style { fg: None, bg: None, reversed: false, bold: false }
    }

    /// The same style, reversed.
    pub fn reversed(self) -> (r: Self)
        ensures
            r == (Style { reversed: true, ..self }),
    {
        Style { reversed: true, ..self }
    }

    /// The same style with foreground `fg`.
    pub fn with_fg(self, fg: Color) -> (r: Self)
        ensures
            r == (Style { fg: Some(fg), ..self }),
    {
        Style { fg: Some(fg), ..self }
    }
}

/// A run of text in one style.
pub struct Span {
    pub content: String,
    pub style: Style,
}

/// The runs as text and style.
pub open spec fn spans_view(spans: Seq<Span>) -> Seq<(Seq<char>, Style)> {
    spans.map_values(|s: Span| (s.content@, s.style))
}

/// All the text of the runs, in order.
pub open spec fn runs_text(runs: Seq<(Seq<char>, Style)>) -> Seq<char>
    decreases runs.len(),
{
    if runs.len() == 0 {
        Seq::empty()
    } else {
        runs_text(runs.drop_last()) + runs.last().0
    }
}

/// A run: its text, with `style` reversed.
pub open spec fn rev(run: (Seq<char>, Style)) -> (Seq<char>, Style) {
    (run.0, Style { reversed: true, ..run.1 })
}

/// The run `run`, starting at column `column`, reversed from column `split`
/// on.
pub open spec fn reverse_forward_spec(run: (Seq<char>, Style), column: int, split: int) -> Seq<(Seq<char>, Style)> {
    let width = run.0.len() as int;
    if split <= column {
        seq![rev(run)]
    } else if split >= column + width {
        seq![run]
    } else {
        let p = split - column;
        seq![(run.0.take(p), run.1), rev((run.0.skip(p), run.1))]
    }
}

/// The run `run`, starting at column `column`, reversed up to column
/// `split`.
pub open spec fn reverse_backward_spec(run: (Seq<char>, Style), column: int, split: int) -> Seq<(Seq<char>, Style)> {
    let width = run.0.len() as int;
    if split <= column {
        seq![run]
    } else if split >= column + width {
        seq![rev(run)]
    } else {
        let p = split - column;
        seq![rev((run.0.take(p), run.1)), (run.0.skip(p), run.1)]
    }
}

/// `n` clamped to `0..=len`.
pub open spec fn clamp_len(n: int, len: int) -> int {
    if n < 0 {
        0
    } else if n > len {
        len
    } else {
        n
    }
}

/// The run `run`, starting at column `column`, reversed from column `start`
/// up to column `end`.
pub open spec fn reverse_middle_spec(run: (Seq<char>, Style), column: int, start: int, end: int) -> Seq<(Seq<char>, Style)> {
    let width = run.0.len() as int;
    if end <= column || start >= column + width {
        seq![run]
    } else {
        let a = clamp_len(start - column, width);
        let b = clamp_len(end - column, width);
        let b2 = if b < a { a } else { b };
        seq![(run.0.take(a), run.1), rev((run.0.subrange(a, b2), run.1)), (run.0.skip(b), run.1)]
    }
}

/// The runs with the part the selection covers on their line reversed.
pub open spec fn reverse_runs(runs: Seq<(Seq<char>, Style)>, pos: SelectionPosition) -> Seq<(Seq<char>, Style)>
    decreases runs.len(),
{
    if runs.len() == 0 {
        Seq::empty()
    } else {
        let rest = reverse_runs(runs.drop_last(), pos);
        let column = runs_text(runs.drop_last()).len() as int;
        let run = runs.last();
        rest + match pos {
            SelectionPosition::OneLine { start_column, end_column } => reverse_middle_spec(
                run,
                column,
                start_column as int,
                end_column as int,
            ),
            SelectionPosition::Top { column: c } => reverse_forward_spec(run, column, c as int),
            SelectionPosition::Bottom { column: c } => reverse_backward_spec(run, column, c as int),
            SelectionPosition::Middle => seq![rev(run)],
            SelectionPosition::Outside => seq![run],
        }
    }
}

fn span_of(content: &[char], style: Style) -> (r: Span)
    ensures
        r.content@ == content@,
        r.style == style,
{
    Span { content: string_of(content), style }
}

/// The span, starting at column `column`, reversed from column `split` on.
pub fn reverse_forward_span(span: Span, column: usize, split: usize) -> (r: Vec<Span>)
    ensures
        spans_view(r@) == reverse_forward_spec((span.content@, span.style), column as int, split as int),
{
    let chars = chars_of(span.content.as_str());
    let width = chars.len();
    let mut out: Vec<Span> = Vec::new();
    if split <= column {
        out.push(Span { content: span.content, style: span.style.reversed() });
    } else if split - column >= width {
        out.push(span);
    } else {
        let p = split - column;
        out.push(span_of(sub_chars(chars.as_slice(), 0, p).as_slice(), span.style));
        out.push(span_of(sub_chars(chars.as_slice(), p, width).as_slice(), span.style.reversed()));
    }
    assert(spans_view(out@) =~= reverse_forward_spec((span.content@, span.style), column as int, split as int));
    out
}

/// The span, starting at column `column`, reversed up to column `split`.
pub fn reverse_backward_span(span: Span, column: usize, split: usize) -> (r: Vec<Span>)
    ensures
        spans_view(r@) == reverse_backward_spec((span.content@, span.style), column as int, split as int),
{
    let chars = chars_of(span.content.as_str());
    let width = chars.len();
    let mut out: Vec<Span> = Vec::new();
    if split <= column {
        out.push(span);
    } else if split - column >= width {
        out.push(Span { content: span.content, style: span.style.reversed() });
    } else {
        let p = split - column;
        out.push(span_of(sub_chars(chars.as_slice(), 0, p).as_slice(), span.style.reversed()));
        out.push(span_of(sub_chars(chars.as_slice(), p, width).as_slice(), span.style));
    }
    assert(spans_view(out@) =~= reverse_backward_spec((span.content@, span.style), column as int, split as int));
    out
}

/// The span, starting at column `column`, reversed from column `start` up
/// to column `end`.
pub fn reversed_middle_span(span: Span, column: usize, start: usize, end: usize) -> (r: Vec<Span>)
    ensures
        spans_view(r@) == reverse_middle_spec((span.content@, span.style), column as int, start as int, end as int),
{
    let chars = chars_of(span.content.as_str());
    let width = chars.len();
    let mut out: Vec<Span> = Vec::new();
    if end <= column || (start >= column && start - column >= width) {
        out.push(span);
    } else {
        let a = if start <= column { 0 } else { start - column };
        let b = if end - column >= width { width } else { end - column };
        let b2 = if b < a { a } else { b };
        out.push(span_of(sub_chars(chars.as_slice(), 0, a).as_slice(), span.style));
        out.push(span_of(sub_chars(chars.as_slice(), a, b2).as_slice(), span.style.reversed()));
        out.push(span_of(sub_chars(chars.as_slice(), b, width).as_slice(), span.style));
    }
    assert(spans_view(out@) =~= reverse_middle_spec(
        (span.content@, span.style),
        column as int,
        start as int,
        end as int,
    ));
    out
}

/// The runs of a line with what `selection` covers of line `line` shown
/// reversed.
pub open spec fn reverse_content_spec(runs: Seq<(Seq<char>, Style)>, selection: Option<Selection>, line: int) -> Seq<
    (Seq<char>, Style),
> {
    match selection {
        None => runs,
        Some(sel) => match sel.position_of(line) {
            SelectionPosition::Outside => runs,
            pos => reverse_runs(runs, pos),
        },
    }
}

proof fn lemma_runs_text_take(runs: Seq<(Seq<char>, Style)>, i: int)
    requires
        0 <= i < runs.len(),
    ensures
        runs_text(runs.take(i + 1)) == runs_text(runs.take(i)) + runs[i].0,
{
    assert(runs.take(i + 1).drop_last() =~= runs.take(i));
}

proof fn lemma_runs_text_prefix(runs: Seq<(Seq<char>, Style)>, i: int)
    requires
        0 <= i <= runs.len(),
    ensures
        runs_text(runs.take(i)).len() <= runs_text(runs).len(),
    decreases runs.len() - i,
{
    if i < runs.len() {
        lemma_runs_text_take(runs, i);
        lemma_runs_text_prefix(runs, i + 1);
    } else {
        assert(runs.take(i) =~= runs);
    }
}

/// The spans of a line with what `selection` covers of line `line` shown
/// reversed.
pub fn reverse_content(content: Vec<Span>, selection: Option<Selection>, line: usize) -> (r: Vec<Span>)
    requires
        runs_text(spans_view(content@)).len() <= usize::MAX,
    ensures
        spans_view(r@) == reverse_content_spec(spans_view(content@), selection, line as int),
{
    let sel = match selection {
        None => {
            return content;
        },
        Some(sel) => sel,
    };
    let pos = sel.selection_position(line);
    if let SelectionPosition::Outside = pos {
        return content;
    }
    let ghost all = spans_view(content@);
    let count = content.len();
    assert(all.len() == count);
    let mut rest = content;
    let mut out: Vec<Span> = Vec::new();
    let mut column: usize = 0;
    let mut i: usize = 0;
    assert(all.skip(0) =~= all);
    assert(all.take(0) =~= Seq::<(Seq<char>, Style)>::empty());
    while rest.len() > 0
        invariant
            i <= all.len(),
            spans_view(rest@) == all.skip(i as int),
            column == runs_text(all.take(i as int)).len(),
            spans_view(out@) == reverse_runs(all.take(i as int), pos),
            runs_text(all).len() <= usize::MAX,
            all.len() <= usize::MAX,
            !(pos is Outside),
        decreases rest.len(),
    {
        let ghost before_rest = rest@;
        let span = rest.remove(0);
        assert(spans_view(before_rest).len() == before_rest.len());
        assert(i < all.len());
        assert(all[i as int] == (span.content@, span.style)) by {
            assert(spans_view(before_rest)[0] == all.skip(i as int)[0]);
        }
        assert(spans_view(rest@) =~= all.skip(i + 1)) by {
            assert forall|k: int| 0 <= k < rest@.len() implies #[trigger] spans_view(rest@)[k] == all.skip(i + 1)[k] by {
                assert(rest@[k] == before_rest[k + 1]);
                assert(spans_view(before_rest)[k + 1] == all.skip(i as int)[k + 1]);
            }
        }
        let width = chars_of(span.content.as_str()).len();
        proof {
            lemma_runs_text_take(all, i as int);
            lemma_runs_text_prefix(all, i + 1);
            assert(all.take(i + 1).drop_last() =~= all.take(i as int));
            assert(all.take(i + 1).last() == all[i as int]);
        }
        let mut pieces = match pos {
            SelectionPosition::OneLine { start_column, end_column } => reversed_middle_span(
                span,
                column,
                start_column,
                end_column,
            ),
            SelectionPosition::Top { column: c } => reverse_forward_span(span, column, c),
            SelectionPosition::Bottom { column: c } => reverse_backward_span(span, column, c),
            SelectionPosition::Middle => {
                let mut v: Vec<Span> = Vec::new();
                v.push(Span { content: span.content, style: span.style.reversed() });
                assert(spans_view(v@) =~= seq![rev(all[i as int])]);
                v
            },
            SelectionPosition::Outside => {
                let mut v: Vec<Span> = Vec::new();
                v.push(span);
                v
            },
        };
        let ghost before_out = out@;
        let ghost piece_view = spans_view(pieces@);
        out.append(&mut pieces);
        assert(spans_view(out@) =~= spans_view(before_out) + piece_view);
        column = column + width;
        i = i + 1;
    }
    assert(all.skip(i as int).len() == 0);
    assert(all.take(i as int) =~= all);
    out
}

/// A hexadecimal digit.
pub open spec fn is_hex_digit(c: char) -> bool {
    ('0' <= c && c <= '9') || ('a' <= c && c <= 'f') || ('A' <= c && c <= 'F')
}

/// Whether the two characters at `i` read as a byte in hexadecimal the way
/// `u8::from_str_radix` reads them: an optional `+` sign, then digits.
pub open spec fn hex_byte_at(s: Seq<char>, i: int) -> bool {
    0 <= i && i + 1 < s.len() && (is_hex_digit(s[i]) || s[i] == '+') && is_hex_digit(s[i + 1])
}

/// The first position from `i` on where `pat` occurs in `s`.
pub open spec fn first_from(s: Seq<char>, pat: Seq<char>, i: int) -> Option<int>
    decreases s.len() - i,
{
    if i < 0 || i >= s.len() || i + pat.len() > s.len() {
        None
    } else if occurs_at(s, pat, i) {
        Some(i)
    } else {
        first_from(s, pat, i + 1)
    }
}

/// The escaped control byte the screen sets off first in `s`, as position
/// and length: `\xHH` (only at the first `\x`, and only when a byte in
/// hexadecimal follows), `\n` or `\r`, whichever comes first.
pub open spec fn special_at(s: Seq<char>) -> Option<(int, int)> {
    let found_x: Option<(int, int)> = match first_from(s, seq!['\\', 'x'], 0) {
        Some(p) => if hex_byte_at(s, p + 2) {
            Some((p, 4))
        } else {
            None
        },
        None => None,
    };
    let found_n: Option<(int, int)> = match first_from(s, seq!['\\', 'n'], 0) {
        Some(q) => if found_x is None || q < (found_x->0).0 {
            Some((q, 2))
        } else {
            found_x
        },
        None => found_x,
    };
    match first_from(s, seq!['\\', 'r'], 0) {
        Some(t) => if found_n is None || t < (found_n->0).0 {
            Some((t, 2))
        } else {
            found_n
        },
        None => found_n,
    }
}

/// The style with its foreground swapped for the accent colour that stands
/// out against its colours.
pub open spec fn accent(style: Style) -> Style {
    let bg = match style.bg {
        Some(c) => c,
        None => Color::Reset,
    };
    let fg = match style.fg {
        Some(c) => c,
        None => Color::Reset,
    };
    Style { fg: Some(ascent_fg_spec(bg, fg)), ..style }
}

/// The runs of `s` in `style` with every escaped control byte set off in
/// the accent colour.
pub open spec fn highlight_runs(s: Seq<char>, style: Style) -> Seq<(Seq<char>, Style)>
    decreases s.len(),
{
    if s.len() == 0 {
        Seq::empty()
    } else {
        match special_at(s) {
            None => seq![(s, style)],
            Some((p, l)) => if l <= 0 || p < 0 || p + l > s.len() {
                seq![(s, style)]
            } else {
                (if p > 0 {
                    seq![(s.take(p), style)]
                } else {
                    Seq::empty()
                }) + seq![(s.subrange(p, p + l), accent(style))] + highlight_runs(s.skip(p + l), style)
            },
        }
    }
}

fn first_from_exec(s: &[char], pat: &[char]) -> (r: Option<usize>)
    requires
        pat@.len() > 0,
    ensures
        match r {
            Some(i) => first_from(s@, pat@, 0) == Some(i as int),
            None => first_from(s@, pat@, 0) is None,
        },
{
    let mut i: usize = 0;
    while i < s.len() && pat.len() <= s.len() - i
        invariant
            first_from(s@, pat@, 0) == first_from(s@, pat@, i as int),
        decreases s.len() - i,
    {
        if crate::text::chars_occur_at(s, pat, i) {
            return Some(i);
        }
        i += 1;
    }
    None
}

fn is_hex_digit_exec(c: char) -> (r: bool)
    ensures
        r == is_hex_digit(c),
{
    ('0' <= c && c <= '9') || ('a' <= c && c <= 'f') || ('A' <= c && c <= 'F')
}

fn special_exec(s: &[char]) -> (r: Option<(usize, usize)>)
    ensures
        match r {
            Some((p, l)) => special_at(s@) == Some((p as int, l as int)),
            None => special_at(s@) is None,
        },
{
    let bx: [char; 2] = ['\\', 'x'];
    let bn: [char; 2] = ['\\', 'n'];
    let br: [char; 2] = ['\\', 'r'];
    assert(bx@ =~= seq!['\\', 'x']);
    assert(bn@ =~= seq!['\\', 'n']);
    assert(br@ =~= seq!['\\', 'r']);
    let found_x: Option<(usize, usize)> = match first_from_exec(s, &bx) {
        Some(p) => if p < s.len() && s.len() - p > 3 && (is_hex_digit_exec(s[p + 2]) || s[p + 2] == '+')
            && is_hex_digit_exec(s[p + 3]) {
            Some((p, 4))
        } else {
            None
        },
        None => None,
    };
    let found_n: Option<(usize, usize)> = match first_from_exec(s, &bn) {
        Some(q) => match found_x {
            None => Some((q, 2)),
            Some((p, l)) => if q < p {
                Some((q, 2))
            } else {
                found_x
            },
        },
        None => found_x,
    };
    match first_from_exec(s, &br) {
        Some(t) => match found_n {
            None => Some((t, 2)),
            Some((p, l)) => if t < p {
                Some((t, 2))
            } else {
                found_n
            },
        },
        None => found_n,
    }
}

/// The span with every escaped control byte set off in the accent colour.
pub fn highlight_special_characters(span: Span) -> (r: Vec<Span>)
    ensures
        spans_view(r@) == highlight_runs(span.content@, span.style),
{
    let style = span.style;
    let accented = style.with_fg(Palette::ascent_fg(
        match style.bg {
            Some(c) => c,
            None => Color::Reset,
        },
        match style.fg {
            Some(c) => c,
            None => Color::Reset,
        },
    ));
    assert(accented == accent(style));
    let mut rest = chars_of(span.content.as_str());
    let mut out: Vec<Span> = Vec::new();
    loop
        invariant
            spans_view(out@) + highlight_runs(rest@, style) == highlight_runs(span.content@, style),
            accented == accent(style),
            style == span.style,
        decreases rest@.len(),
    {
        if rest.len() == 0 {
            assert(highlight_runs(rest@, style) == Seq::<(Seq<char>, Style)>::empty());
            assert(spans_view(out@) =~= spans_view(out@) + highlight_runs(rest@, style));
            assert(spans_view(out@) == highlight_runs(span.content@, style));
            return out;
        }
        let ghost before_out = spans_view(out@);
        let ghost r0 = rest@;
        match special_exec(rest.as_slice()) {
            None => {
                out.push(span_of(rest.as_slice(), style));
                assert(spans_view(out@) =~= before_out + seq![(r0, style)]);
                assert(highlight_runs(r0, style) == seq![(r0, style)]);
                assert(spans_view(out@) == highlight_runs(span.content@, style));
                return out;
            },
            Some((p, l)) => {
                if l == 0 || p > rest.len() || l > rest.len() - p {
                    out.push(span_of(rest.as_slice(), style));
                    assert(spans_view(out@) =~= before_out + seq![(r0, style)]);
                    assert(highlight_runs(r0, style) == seq![(r0, style)]);
                    assert(spans_view(out@) == highlight_runs(span.content@, style));
                    return out;
                }
                let n = rest.len();
                if p > 0 {
                    out.push(span_of(sub_chars(rest.as_slice(), 0, p).as_slice(), style));
                }
                out.push(span_of(sub_chars(rest.as_slice(), p, p + l).as_slice(), accented));
                let next = sub_chars(rest.as_slice(), p + l, n);
                assert(next@ =~= r0.skip(p + l));
                assert(spans_view(out@) =~= before_out + (if p > 0 {
                    seq![(r0.take(p as int), style)]
                } else {
                    Seq::empty()
                }) + seq![(r0.subrange(p as int, p + l), accent(style))]);
                assert(spans_view(out@) + highlight_runs(next@, style) =~= before_out + highlight_runs(r0, style));
                rest = next;
            },
        }
    }
}

/// Text that is not a hit, while searching.
pub open spec fn dim_style() -> Style {
    Style { fg: Some(Color::DarkGray), bg: Some(Color::Reset), reversed: false, bold: false }
}

/// A search hit.
pub open spec fn hit_style() -> Style {
    Style { fg: Some(Color::Yellow), bg: Some(Color::Reset), reversed: false, bold: false }
}

/// The hit the search navigation is on.
pub open spec fn chosen_style() -> Style {
    Style { fg: Some(Color::Black), bg: Some(Color::Yellow), reversed: false, bold: false }
}

/// The runs of a searched line from column `cursor` on: the text between
/// matches dim, each match highlighted, the one at column `chosen` (the hit
/// the navigation is on) in the chosen style with its escaped control bytes
/// set off.
pub open spec fn search_runs(chars: Seq<char>, matches: Seq<(usize, usize)>, cursor: int, chosen: Option<int>) -> Seq<
    (Seq<char>, Style),
>
    decreases matches.len(),
{
    if matches.len() == 0 {
        if cursor < chars.len() {
            seq![(chars.skip(cursor), dim_style())]
        } else {
            Seq::empty()
        }
    } else {
        let start = matches[0].0 as int;
        let end = matches[0].0 + matches[0].1;
        (if start > cursor {
            seq![(chars.subrange(cursor, start), dim_style())]
        } else {
            Seq::empty()
        }) + (if chosen == Some(start) {
            highlight_runs(chars.subrange(start, end), chosen_style())
        } else {
            seq![(chars.subrange(start, end), hit_style())]
        }) + search_runs(chars, matches.drop_first(), end, chosen)
    }
}

/// How a line with text `text` and identity `id` is drawn while
/// searching: all dim without a hit, otherwise as `search_runs` says.
pub open spec fn search_line_spec(mode: ScreenMode, text: Seq<char>, id: u64) -> Seq<(Seq<char>, Style)> {
    let message = strip_csi(text);
    match mode {
        ScreenMode::Search { current, entries, matcher } => {
            let found = matcher.matches_spec(message);
            if matcher is Empty || found.len() == 0 {
                seq![(message, dim_style())]
            } else {
                let chosen = if current < entries@.len() && entries@[current as int].line_id == id {
                    Some(entries@[current as int].position.column as int)
                } else {
                    None
                };
                search_runs(message, found, 0, chosen)
            }
        },
        ScreenMode::Normal => Seq::empty(),
    }
}

/// How a line with text `text` and identity `id` is drawn while searching
/// (see `search_line_spec`).
pub fn search_line(mode: &ScreenMode, text: String, id: u64) -> (r: Vec<Span>)
    requires
        *mode is Search,
    ensures
        spans_view(r@) == search_line_spec(*mode, text@, id),
        runs_text(spans_view(r@)) == strip_csi(text@),
{
    let message = ANSI::remove_encoding(text);
    let (current, entries, matcher) = match mode {
        ScreenMode::Search { current, entries, matcher } => (*current, entries, matcher),
        ScreenMode::Normal => {
            return Vec::new();
        },
    };
    let dim = Style::colored(Color::DarkGray, Color::Reset);
    let mut out: Vec<Span> = Vec::new();
    if matcher.is_empty() {
        out.push(Span { content: message, style: dim });
        assert(spans_view(out@) =~= seq![(message@, dim_style())]);
        proof {
            lemma_runs_text_one((message@, dim_style()));
        }
        return out;
    }
    let found = matcher.matches(message.as_str());
    if found.len() == 0 {
        out.push(Span { content: message, style: dim });
        assert(spans_view(out@) =~= seq![(message@, dim_style())]);
        proof {
            lemma_runs_text_one((message@, dim_style()));
        }
        return out;
    }
    let chosen: Option<usize> = if current < entries.len() && entries[current].line_id == id {
        Some(entries[current].position.column)
    } else {
        None
    };
    let ghost chosen_spec: Option<int> = match chosen {
        Some(c) => Some(c as int),
        None => None,
    };
    let chars = chars_of(message.as_str());
    let n_chars = chars.len();
    let mut cursor: usize = 0;
    let mut k: usize = 0;
    assert(found@.skip(0) =~= found@);
    while k < found.len()
        invariant
            k <= found@.len(),
            chars@ == message@,
            chars@.len() == n_chars,
            dim == dim_style(),
            chosen_spec == match chosen {
                Some(c) => Some(c as int),
                None => None::<int>,
            },
            matches_within(found@, chars@.len() as int),
            cursor <= chars@.len(),
            k > 0 ==> cursor == found@[k - 1].0 + found@[k - 1].1,
            spans_view(out@) + search_runs(chars@, found@.skip(k as int), cursor as int, chosen_spec) == search_runs(
                chars@,
                found@,
                0,
                chosen_spec,
            ),
        decreases found.len() - k,
    {
        let ghost before = spans_view(out@);
        let (start, len) = found[k];
        assert(found@.skip(k as int)[0] == found@[k as int]);
        assert(found@.skip(k as int).drop_first() =~= found@.skip(k + 1));
        assert(start + len <= chars@.len()) by {
            assert(found@[k as int].0 + found@[k as int].1 <= chars@.len());
        }
        let mut piece: Vec<Span> = Vec::new();
        let ghost lead: Seq<(Seq<char>, Style)> = if start > cursor {
            seq![(chars@.subrange(cursor as int, start as int), dim_style())]
        } else {
            Seq::empty()
        };
        if start > cursor {
            piece.push(span_of(sub_chars(chars.as_slice(), cursor, start).as_slice(), dim));
        }
        assert(spans_view(piece@) =~= lead);
        let matched = sub_chars(chars.as_slice(), start, start + len);
        let is_chosen = match chosen {
            Some(c) => c == start,
            None => false,
        };
        assert(is_chosen == (chosen_spec == Some(start as int)));
        if is_chosen {
            let mut lit = highlight_special_characters(span_of(matched.as_slice(), Style::colored(Color::Black, Color::Yellow)));
            let ghost lit_view = spans_view(lit@);
            assert(lit_view == highlight_runs(chars@.subrange(start as int, start + len), chosen_style()));
            piece.append(&mut lit);
            assert(spans_view(piece@) =~= lead + lit_view);
        } else {
            piece.push(span_of(matched.as_slice(), Style::colored(Color::Yellow, Color::Reset)));
            assert(spans_view(piece@) =~= lead + seq![(chars@.subrange(start as int, start + len), hit_style())]);
        }
        let ghost piece_view = spans_view(piece@);
        out.append(&mut piece);
        assert(spans_view(out@) =~= before + piece_view);
        cursor = start + len;
        k += 1;
    }
    if cursor < chars.len() {
        let n = chars.len();
        let ghost before = spans_view(out@);
        out.push(span_of(sub_chars(chars.as_slice(), cursor, n).as_slice(), dim));
        assert(chars@.subrange(cursor as int, n as int) =~= chars@.skip(cursor as int));
        assert(spans_view(out@) =~= before + seq![(chars@.skip(cursor as int), dim_style())]);
    }
    proof {
        lemma_search_runs_text(chars@, found@, 0, chosen_spec);
        assert(chars@.skip(0) =~= chars@);
    }
    out
}

/// Highlighting the hits of a search keeps the text of a line, when the
/// matches follow one another within it.
pub proof fn lemma_search_runs_text(chars: Seq<char>, matches: Seq<(usize, usize)>, cursor: int, chosen: Option<int>)
    requires
        sorted_matches(matches),
        matches_within(matches, chars.len() as int),
        0 <= cursor <= chars.len(),
        matches.len() > 0 ==> matches[0].0 >= cursor,
    ensures
        runs_text(search_runs(chars, matches, cursor, chosen)) == chars.skip(cursor),
    decreases matches.len(),
{
    if matches.len() == 0 {
        if cursor < chars.len() {
            lemma_runs_text_one((chars.skip(cursor), dim_style()));
        } else {
            assert(chars.skip(cursor) =~= Seq::<char>::empty());
        }
    } else {
        let start = matches[0].0 as int;
        let end = matches[0].0 + matches[0].1;
        assert(end <= chars.len());
        let rest = matches.drop_first();
        assert forall|i: int, j: int| 0 <= i < j < rest.len() implies #[trigger] rest[i].0 + rest[i].1 <= #[trigger] rest[j].0 by {
            assert(rest[i] == matches[i + 1] && rest[j] == matches[j + 1]);
        }
        assert forall|k: int| 0 <= k < rest.len() implies #[trigger] rest[k].0 + rest[k].1 <= chars.len() by {
            assert(rest[k] == matches[k + 1]);
        }
        if rest.len() > 0 {
            assert(rest[0] == matches[1]);
        }
        lemma_search_runs_text(chars, rest, end, chosen);
        let lead: Seq<(Seq<char>, Style)> = if start > cursor {
            seq![(chars.subrange(cursor, start), dim_style())]
        } else {
            Seq::empty()
        };
        let mid: Seq<(Seq<char>, Style)> = if chosen == Some(start) {
            highlight_runs(chars.subrange(start, end), chosen_style())
        } else {
            seq![(chars.subrange(start, end), hit_style())]
        };
        if start > cursor {
            lemma_runs_text_one((chars.subrange(cursor, start), dim_style()));
        }
        if chosen == Some(start) {
            lemma_highlight_keeps_text(chars.subrange(start, end), chosen_style());
        } else {
            lemma_runs_text_one((chars.subrange(start, end), hit_style()));
        }
        lemma_runs_text_concat(lead + mid, search_runs(chars, rest, end, chosen));
        lemma_runs_text_concat(lead, mid);
        assert(runs_text(lead) =~= chars.subrange(cursor, start));
        assert(chars.subrange(cursor, start) + chars.subrange(start, end) + chars.skip(end) =~= chars.skip(cursor));
    }
}

proof fn lemma_runs_text_concat(a: Seq<(Seq<char>, Style)>, b: Seq<(Seq<char>, Style)>)
    ensures
        runs_text(a + b) == runs_text(a) + runs_text(b),
    decreases b.len(),
{
    if b.len() == 0 {
        assert(a + b =~= a);
        assert(runs_text(a) + Seq::<char>::empty() =~= runs_text(a));
    } else {
        assert((a + b).drop_last() =~= a + b.drop_last());
        lemma_runs_text_concat(a, b.drop_last());
        assert(runs_text(a) + runs_text(b.drop_last()) + b.last().0 =~= runs_text(a) + (runs_text(b.drop_last())
            + b.last().0));
    }
}

proof fn lemma_runs_text_one(run: (Seq<char>, Style))
    ensures
        runs_text(seq![run]) == run.0,
{
    let one = seq![run];
    assert(one.drop_last() =~= Seq::<(Seq<char>, Style)>::empty());
    assert(runs_text(one.drop_last()) == Seq::<char>::empty());
    assert(one.last() == run);
    assert(runs_text(one) == runs_text(one.drop_last()) + one.last().0);
    assert(Seq::<char>::empty() + run.0 =~= run.0);
}

/// Setting off escaped control bytes keeps the text: only styles change.
pub proof fn lemma_highlight_keeps_text(s: Seq<char>, style: Style)
    ensures
        runs_text(highlight_runs(s, style)) == s,
    decreases s.len(),
{
    if s.len() == 0 {
    } else {
        match special_at(s) {
            None => lemma_runs_text_one((s, style)),
            Some((p, l)) => if l <= 0 || p < 0 || p + l > s.len() {
                lemma_runs_text_one((s, style));
            } else {
                let lead: Seq<(Seq<char>, Style)> = if p > 0 {
                    seq![(s.take(p), style)]
                } else {
                    Seq::empty()
                };
                let mid = seq![(s.subrange(p, p + l), accent(style))];
                let rest = highlight_runs(s.skip(p + l), style);
                lemma_highlight_keeps_text(s.skip(p + l), style);
                lemma_runs_text_concat(lead + mid, rest);
                lemma_runs_text_concat(lead, mid);
                lemma_runs_text_one((s.subrange(p, p + l), accent(style)));
                if p > 0 {
                    lemma_runs_text_one((s.take(p), style));
                } else {
                    assert(runs_text(lead) == Seq::<char>::empty());
                }
                assert(s.take(p) + s.subrange(p, p + l) + s.skip(p + l) =~= s);
                assert(runs_text(lead) =~= s.take(p));
            },
        }
    }
}

/// The selection positions that `Selection::position_of` gives: one line
/// selected from its start column to its end column, in that order.
pub open spec fn ordered_position(pos: SelectionPosition) -> bool {
    pos matches SelectionPosition::OneLine { start_column, end_column } ==> start_column <= end_column
}

/// Showing part of a run reversed keeps its text.
proof fn lemma_reverse_piece_keeps_text(run: (Seq<char>, Style), column: int, pos: SelectionPosition)
    requires
        ordered_position(pos),
    ensures
        runs_text(match pos {
            SelectionPosition::OneLine { start_column, end_column } => reverse_middle_spec(
                run,
                column,
                start_column as int,
                end_column as int,
            ),
            SelectionPosition::Top { column: c } => reverse_forward_spec(run, column, c as int),
            SelectionPosition::Bottom { column: c } => reverse_backward_spec(run, column, c as int),
            SelectionPosition::Middle => seq![rev(run)],
            SelectionPosition::Outside => seq![run],
        }) == run.0,
{
    let t = run.0;
    lemma_runs_text_one(run);
    lemma_runs_text_one(rev(run));
    match pos {
        SelectionPosition::OneLine { start_column, end_column } => {
            let width = t.len() as int;
            if !(end_column <= column || start_column >= column + width) {
                let a = clamp_len(start_column - column, width);
                let b = clamp_len(end_column - column, width);
                let x = (t.take(a), run.1);
                let y = rev((t.subrange(a, b), run.1));
                let z = (t.skip(b), run.1);
                lemma_runs_text_concat(seq![x, y], seq![z]);
                lemma_runs_text_concat(seq![x], seq![y]);
                assert(seq![x, y] =~= seq![x] + seq![y]);
                assert(seq![x, y, z] =~= seq![x, y] + seq![z]);
                lemma_runs_text_one(x);
                lemma_runs_text_one(y);
                lemma_runs_text_one(z);
                assert(t.take(a) + t.subrange(a, b) + t.skip(b) =~= t);
            }
        },
        SelectionPosition::Top { column: c } => {
            let width = t.len() as int;
            if c > column && c < column + width {
                let p = c - column;
                let x = (t.take(p), run.1);
                let y = rev((t.skip(p), run.1));
                lemma_runs_text_concat(seq![x], seq![y]);
                assert(seq![x, y] =~= seq![x] + seq![y]);
                lemma_runs_text_one(x);
                lemma_runs_text_one(y);
                assert(t.take(p) + t.skip(p) =~= t);
            }
        },
        SelectionPosition::Bottom { column: c } => {
            let width = t.len() as int;
            if c > column && c < column + width {
                let p = c - column;
                let x = rev((t.take(p), run.1));
                let y = (t.skip(p), run.1);
                lemma_runs_text_concat(seq![x], seq![y]);
                assert(seq![x, y] =~= seq![x] + seq![y]);
                lemma_runs_text_one(x);
                lemma_runs_text_one(y);
                assert(t.take(p) + t.skip(p) =~= t);
            }
        },
        _ => {},
    }
}

/// Showing the selection reversed keeps the text of a line: only styles
/// change.
pub proof fn lemma_reverse_keeps_text(runs: Seq<(Seq<char>, Style)>, pos: SelectionPosition)
    requires
        ordered_position(pos),
    ensures
        runs_text(reverse_runs(runs, pos)) == runs_text(runs),
    decreases runs.len(),
{
    if runs.len() > 0 {
        lemma_reverse_keeps_text(runs.drop_last(), pos);
        let column = runs_text(runs.drop_last()).len() as int;
        lemma_reverse_piece_keeps_text(runs.last(), column, pos);
        let piece = match pos {
            SelectionPosition::OneLine { start_column, end_column } => reverse_middle_spec(
                runs.last(),
                column,
                start_column as int,
                end_column as int,
            ),
            SelectionPosition::Top { column: c } => reverse_forward_spec(runs.last(), column, c as int),
            SelectionPosition::Bottom { column: c } => reverse_backward_spec(runs.last(), column, c as int),
            SelectionPosition::Middle => seq![rev(runs.last())],
            SelectionPosition::Outside => seq![runs.last()],
        };
        lemma_runs_text_concat(reverse_runs(runs.drop_last(), pos), piece);
    }
}

/// The selection positions `Selection::position_of` gives are ordered.
pub proof fn lemma_position_ordered(sel: Selection, line: int)
    ensures
        ordered_position(sel.position_of(line)),
{
    crate::graphics::selection::lemma_ordered_positions_sorted(sel);
}

/// The style of a line's time of day: the bookmark the navigation is on,
/// another bookmark, a selected line, any other line.
pub open spec fn timestamp_style(is_reversed: bool, is_bookmarked: bool, is_current: bool) -> Style {
    if is_current {
        Style { fg: Some(Color::Black), bg: Some(Color::Yellow), reversed: false, bold: false }
    } else if is_bookmarked {
        Style { fg: Some(Color::Yellow), bg: None, reversed: false, bold: false }
    } else if is_reversed {
        Style { fg: Some(Color::DarkGray), bg: Some(Color::White), reversed: false, bold: false }
    } else {
        Style { fg: Some(Color::DarkGray), bg: None, reversed: false, bold: false }
    }
}

/// The time of day of a line (twelve characters, see `timestamp_fmt`) in
/// its style, then a space.
pub fn timestamp_line(millis: i64, is_reversed: bool, is_bookmarked: bool, is_current: bool) -> (r: Vec<Span>)
    ensures
        r@.len() == 2,
        r@[0].content@.len() == 12,
        r@[0].style == timestamp_style(is_reversed, is_bookmarked, is_current),
        r@[1].content@ == seq![' '],
        r@[1].style == Style::plain_spec(),
{
    let style = if is_current {
        Style::colored(Color::Black, Color::Yellow)
    } else if is_bookmarked {
        Style { fg: Some(Color::Yellow), bg: None, reversed: false, bold: false }
    } else if is_reversed {
        Style::colored(Color::DarkGray, Color::White)
    } else {
        Style { fg: Some(Color::DarkGray), bg: None, reversed: false, bold: false }
    };
    let space: [char; 1] = [' '];
    let mut out: Vec<Span> = Vec::new();
    out.push(Span { content: timestamp_fmt(millis), style });
    out.push(span_of(&space, Style::plain()));
    assert(space@ =~= seq![' ']);
    out
}

/// The background of a log line of `level`.
pub open spec fn level_bg(level: LogLevel) -> Color {
    match level {
        LogLevel::Error => Color::Red,
        LogLevel::Warning => Color::Yellow,
        LogLevel::Success => Color::LightGreen,
        LogLevel::Info => Color::Cyan,
        LogLevel::Debug => Color::DarkGray,
    }
}

/// The style of a line's text: log lines on their level's background,
/// sent data black on white, received data in the terminal's colours.
pub open spec fn message_style(level: Option<LogLevel>, is_tx: bool) -> Style {
    match level {
        Some(l) => Style { fg: Some(fg_spec(level_bg(l))), bg: Some(level_bg(l)), reversed: false, bold: false },
        None => if is_tx {
            Style { fg: Some(Color::Black), bg: Some(Color::White), reversed: false, bold: false }
        } else {
            Style { fg: Some(Color::Reset), bg: Some(Color::Reset), reversed: false, bold: false }
        },
    }
}

pub fn message_style_exec(level: Option<LogLevel>, is_tx: bool) -> (r: Style)
    ensures
        r == message_style(level, is_tx),
{
    match level {
        Some(l) => {
            let bg = match l {
                LogLevel::Error => Color::Red,
                LogLevel::Warning => Color::Yellow,
                LogLevel::Success => Color::LightGreen,
                LogLevel::Info => Color::Cyan,
                LogLevel::Debug => Color::DarkGray,
            };
            Style::colored(Palette::fg(bg), bg)
        },
        None => if is_tx {
            Style::colored(Color::Black, Color::White)
        } else {
            Style::colored(Color::Reset, Color::Reset)
        },
    }
}

/// Coloured runs in `base` with each run's colour as foreground.
pub open spec fn colored_runs(runs: Seq<(Seq<char>, Color)>, base: Style) -> Seq<(Seq<char>, Style)> {
    runs.map_values(|r: (Seq<char>, Color)| (r.0, Style { fg: Some(r.1), ..base }))
}

/// Each run with its escaped control bytes set off, in order.
pub open spec fn highlight_all(runs: Seq<(Seq<char>, Style)>) -> Seq<(Seq<char>, Style)>
    decreases runs.len(),
{
    if runs.len() == 0 {
        Seq::empty()
    } else {
        highlight_all(runs.drop_last()) + highlight_runs(runs.last().0, runs.last().1)
    }
}

/// How the text of a line is drawn outside a search: in the line's style,
/// coloured by its escape sequences, with escaped control bytes set off.
pub open spec fn normal_content(text: Seq<char>, level: Option<LogLevel>, is_tx: bool) -> Seq<(Seq<char>, Style)> {
    let base = message_style(level, is_tx);
    highlight_all(colored_runs(crate::graphics::ansi::decode_spec(text, initial_color(base.fg)), base))
}

proof fn lemma_highlight_all_text(runs: Seq<(Seq<char>, Style)>)
    ensures
        runs_text(highlight_all(runs)) == runs_text(runs),
    decreases runs.len(),
{
    if runs.len() > 0 {
        lemma_highlight_all_text(runs.drop_last());
        lemma_highlight_keeps_text(runs.last().0, runs.last().1);
        lemma_runs_text_concat(highlight_all(runs.drop_last()), highlight_runs(runs.last().0, runs.last().1));
    }
}

proof fn lemma_colored_text(runs: Seq<(Seq<char>, Color)>, base: Style)
    ensures
        runs_text(colored_runs(runs, base)) == crate::graphics::ansi::runs_text(runs),
    decreases runs.len(),
{
    if runs.len() > 0 {
        lemma_colored_text(runs.drop_first(), base);
        let head = seq![(runs[0].0, Style { fg: Some(runs[0].1), ..base })];
        assert(colored_runs(runs, base) =~= head + colored_runs(runs.drop_first(), base));
        lemma_runs_text_concat(head, colored_runs(runs.drop_first(), base));
        lemma_runs_text_one(head[0]);
    }
}

proof fn lemma_strip_len(s: Seq<char>)
    ensures
        strip_csi(s).len() <= s.len(),
    decreases s.len(),
{
    if !crate::graphics::ansi::has_no_csi(s) {
        let start = choose|start: int| #[trigger] crate::graphics::ansi::is_first_csi_start(s, start);
        let length = crate::graphics::ansi::csi_len_at(s, start).unwrap();
        if 0 <= start && start + length <= s.len() && length > 0 {
            lemma_strip_len(s.skip(start + length));
        }
    }
}

/// The text of a line's runs outside a search is its text without escape
/// sequences.
pub proof fn lemma_normal_content_text(text: Seq<char>, level: Option<LogLevel>, is_tx: bool)
    ensures
        runs_text(normal_content(text, level, is_tx)) == strip_csi(text),
        strip_csi(text).len() <= text.len(),
{
    let base = message_style(level, is_tx);
    let decoded = crate::graphics::ansi::decode_spec(text, initial_color(base.fg));
    lemma_highlight_all_text(colored_runs(decoded, base));
    lemma_colored_text(decoded, base);
    crate::graphics::ansi::lemma_decode_keeps_text(text, initial_color(base.fg));
    lemma_strip_len(text);
}

fn normal_spans(text: &str, level: Option<LogLevel>, is_tx: bool) -> (r: Vec<Span>)
    ensures
        spans_view(r@) == normal_content(text@, level, is_tx),
{
    let base = message_style_exec(level, is_tx);
    let decoded = ANSI::decode(text, base.fg);
    let ghost runs = colored_runs(colored_view(decoded@), base);
    let mut out: Vec<Span> = Vec::new();
    let mut i: usize = 0;
    assert(runs.take(0) =~= Seq::<(Seq<char>, Style)>::empty());
    while i < decoded.len()
        invariant
            i <= decoded@.len(),
            runs == colored_runs(colored_view(decoded@), base),
            spans_view(out@) == highlight_all(runs.take(i as int)),
        decreases decoded.len() - i,
    {
        let piece = &decoded[i];
        let span = Span { content: crate::text::to_owned_string(piece.content.as_str()), style: base.with_fg(piece.fg) };
        assert(runs[i as int] == (span.content@, span.style));
        let mut lit = highlight_special_characters(span);
        let ghost before = spans_view(out@);
        let ghost lit_view = spans_view(lit@);
        out.append(&mut lit);
        assert(spans_view(out@) =~= before + lit_view);
        assert(runs.take(i + 1).drop_last() =~= runs.take(i as int));
        assert(runs.take(i + 1).last() == runs[i as int]);
        i += 1;
    }
    assert(runs.take(decoded@.len() as int) =~= runs);
    out
}

/// How a line is drawn outside a search: its time of day (see
/// `timestamp_line`), then its text (see `normal_content`) with the
/// selection reversed.
pub fn to_normal_line(line: &BufferLine<String>, selection: Option<Selection>, is_bookmarked: bool, is_current: bool) -> (r:
    Vec<Span>)
    ensures
        r@.len() >= 2,
        r@[0].content@.len() == 12,
        r@[0].style == timestamp_style(
            selection matches Some(sel) && sel.covers(line.line as int),
            is_bookmarked,
            is_current,
        ),
        r@[1].content@ == seq![' '],
        r@[1].style == Style::plain_spec(),
        spans_view(r@).skip(2) == reverse_content_spec(
            normal_content(line.message@, line.level, line.is_tx),
            selection,
            line.line as int,
        ),
        runs_text(spans_view(r@).skip(2)) == strip_csi(line.message@),
{
    let is_reversed = match selection {
        Some(sel) => sel.is_inside(line.line),
        None => false,
    };
    let mut out = timestamp_line(line.timestamp, is_reversed, is_bookmarked, is_current);
    let content = normal_spans(line.message.as_str(), line.level, line.is_tx);
    proof {
        lemma_normal_content_text(line.message@, line.level, line.is_tx);
    }
    let n = line.message.as_str().unicode_len();
    let ghost content_view = spans_view(content@);
    let mut shown = reverse_content(content, selection, line.line);
    proof {
        if let Some(sel) = selection {
            lemma_position_ordered(sel, line.line as int);
            lemma_reverse_keeps_text(content_view, sel.position_of(line.line as int));
        }
    }
    let ghost head = spans_view(out@);
    let ghost tail = spans_view(shown@);
    out.append(&mut shown);
    assert(spans_view(out@) =~= head + tail);
    assert(spans_view(out@).skip(2) =~= tail);
    out
}

/// How a line is drawn while searching: its time of day (see
/// `timestamp_line`), then its text with the hits highlighted (see
/// `search_line_spec`) and the selection reversed.
pub fn to_search_line(
    mode: &ScreenMode,
    line: &BufferLine<String>,
    selection: Option<Selection>,
    is_bookmarked: bool,
    is_current: bool,
) -> (r: Vec<Span>)
    requires
        *mode is Search,
    ensures
        r@.len() >= 2,
        r@[0].content@.len() == 12,
        r@[0].style == timestamp_style(
            selection matches Some(sel) && sel.covers(line.line as int),
            is_bookmarked,
            is_current,
        ),
        r@[1].content@ == seq![' '],
        r@[1].style == Style::plain_spec(),
        spans_view(r@).skip(2) == reverse_content_spec(
            search_line_spec(*mode, line.message@, line.id),
            selection,
            line.line as int,
        ),
        runs_text(spans_view(r@).skip(2)) == strip_csi(line.message@),
{
    let is_reversed = match selection {
        Some(sel) => sel.is_inside(line.line),
        None => false,
    };
    let mut out = timestamp_line(line.timestamp, is_reversed, is_bookmarked, is_current);
    let content = search_line(mode, crate::text::to_owned_string(line.message.as_str()), line.id);
    proof {
        lemma_strip_len(line.message@);
    }
    let text_len = line.message.as_str().unicode_len();
    let ghost content_view = spans_view(content@);
    let mut shown = reverse_content(content, selection, line.line);
    proof {
        if let Some(sel) = selection {
            lemma_position_ordered(sel, line.line as int);
            lemma_reverse_keeps_text(content_view, sel.position_of(line.line as int));
        }
    }
    let ghost head = spans_view(out@);
    let ghost tail = spans_view(shown@);
    out.append(&mut shown);
    assert(spans_view(out@) =~= head + tail);
    assert(spans_view(out@).skip(2) =~= tail);
    out
}

/// The runs from `index` on that fall in the columns `start_x` up to
/// `start_x + max_width`, each cut to those columns; the runs past the
/// last column are dropped.
pub open spec fn crop_runs(runs: Seq<(Seq<char>, Style)>, index: int, start_x: int, max_width: int) -> Seq<
    (Seq<char>, Style),
>
    decreases runs.len(),
{
    if runs.len() == 0 {
        Seq::empty()
    } else {
        let run = runs[0];
        let width = run.0.len() as int;
        let piece = if index + width > start_x {
            let cut_start = sat_sub(start_x, index);
            let cut_end = if cut_start + max_width < width { cut_start + max_width } else { width };
            seq![(run.0.subrange(cut_start, cut_end), run.1)]
        } else {
            Seq::empty()
        };
        let next = index + width;
        piece + if next >= start_x + max_width {
            Seq::empty()
        } else {
            crop_runs(runs.drop_first(), next, start_x, max_width)
        }
    }
}

/// The part of a drawn line that fits a screen `max_width` wide scrolled
/// `start_x` columns to the right: the time of day and the space after it
/// stay; the text is cut to the width left by them and the borders.
pub open spec fn crop_spec(runs: Seq<(Seq<char>, Style)>, start_x: int, max_width: int) -> Seq<(Seq<char>, Style)> {
    let room = sat_sub(max_width, runs[0].0.len() + 4int);
    seq![runs[0], runs[1]] + crop_runs(runs.skip(2), 0, start_x, room)
}

/// Cuts a drawn line to the screen (see `crop_spec`).
pub fn crop(line: Vec<Span>, start_x: usize, max_width: usize) -> (r: Vec<Span>)
    requires
        line@.len() >= 2,
        start_x + max_width <= usize::MAX,
        runs_text(spans_view(line@).skip(2)).len() <= usize::MAX,
    ensures
        spans_view(r@) == crop_spec(spans_view(line@), start_x as int, max_width as int),
{
    let ghost all = spans_view(line@);
    let count = line.len();
    let mut rest = line;
    let timestamp = rest.remove(0);
    let second = rest.remove(0);
    assert(all[0] == (timestamp.content@, timestamp.style));
    let stamp_width = chars_of(timestamp.content.as_str()).len();
    let room = if max_width >= stamp_width && max_width - stamp_width >= 4 { max_width - stamp_width - 4 } else { 0 };
    let mut out: Vec<Span> = Vec::new();
    out.push(timestamp);
    out.push(second);
    let ghost runs = all.skip(2);
    assert(all.len() == count);
    assert(spans_view(rest@) =~= runs);
    assert(room == sat_sub(max_width as int, all[0].0.len() + 4int));
    let mut index: usize = 0;
    let mut i: usize = 0;
    assert(runs.skip(0) =~= runs);
    assert(runs.take(0) =~= Seq::<(Seq<char>, Style)>::empty());
    while i < rest.len()
        invariant
            i <= runs.len(),
            all == spans_view(line@),
            all.len() >= 2,
            runs == all.skip(2),
            room == sat_sub(max_width as int, all[0].0.len() + 4int),
            runs.len() == rest@.len(),
            spans_view(rest@) == runs,
            index == runs_text(runs.take(i as int)).len(),
            runs_text(runs).len() <= usize::MAX,
            start_x + room <= usize::MAX,
            room <= max_width,
            spans_view(out@) + crop_runs(runs.skip(i as int), index as int, start_x as int, room as int) == seq![
                all[0],
                all[1],
            ] + crop_runs(runs, 0, start_x as int, room as int),
        decreases rest.len() - i,
    {
        let span = &rest[i];
        assert(runs[i as int] == (span.content@, span.style));
        let chars = chars_of(span.content.as_str());
        let width = chars.len();
        proof {
            lemma_runs_text_take(runs, i as int);
            lemma_runs_text_prefix(runs, i + 1);
        }
        let ghost before = spans_view(out@);
        assert(runs.skip(i as int)[0] == runs[i as int]);
        assert(runs.skip(i as int).drop_first() =~= runs.skip(i + 1));
        if index + width > start_x {
            let cut_start = if start_x >= index { start_x - index } else { 0 };
            let cut_end = if cut_start + room < width { cut_start + room } else { width };
            out.push(span_of(sub_chars(chars.as_slice(), cut_start, cut_end).as_slice(), span.style));
        }
        index = index + width;
        i += 1;
        if index >= start_x + room {
            assert(spans_view(out@) =~= before + crop_runs(runs.skip(i - 1), (index - width) as int, start_x as int, room as int));
            assert(spans_view(out@) == seq![all[0], all[1]] + crop_runs(runs, 0, start_x as int, room as int));
            assert(spans_view(out@) == crop_spec(all, start_x as int, max_width as int));
            return out;
        }
        assert(spans_view(out@) + crop_runs(runs.skip(i as int), index as int, start_x as int, room as int) =~= before
            + crop_runs(runs.skip(i - 1), (index - width) as int, start_x as int, room as int));
    }
    assert(runs.skip(i as int) =~= Seq::<(Seq<char>, Style)>::empty());
    assert(spans_view(out@) =~= spans_view(out@) + crop_runs(runs.skip(i as int), index as int, start_x as int, room as int));
    out
}

proof fn lemma_runs_text_prefix_skip(runs: Seq<(Seq<char>, Style)>, k: int)
    requires
        0 <= k <= runs.len(),
    ensures
        runs_text(runs.skip(k)).len() <= runs_text(runs).len(),
{
    assert(runs =~= runs.take(k) + runs.skip(k));
    lemma_runs_text_concat(runs.take(k), runs.skip(k));
}

/// Whether a line is shown at the log level `level`: data always, log
/// lines up to that level's severity.
pub open spec fn level_shown(line: BufferLine<Vec<u8>>, level: LogLevel) -> bool {
    match line.level {
        None => true,
        Some(l) => crate::infra::logger::level_rank(l) <= crate::infra::logger::level_rank(level),
    }
}

/// The lines of `lines` shown at the log level `level`, in order.
pub open spec fn lines_at_level(lines: Seq<BufferLine<Vec<u8>>>, level: LogLevel) -> Seq<BufferLine<Vec<u8>>>
    decreases lines.len(),
{
    if lines.len() == 0 {
        Seq::empty()
    } else {
        let rest = lines_at_level(lines.drop_last(), level);
        if level_shown(lines.last(), level) {
            rest.push(lines.last())
        } else {
            rest
        }
    }
}

/// How the screen draws the text of `line` (before cutting it to the
/// screen): per its mode, with its selection reversed.
pub open spec fn line_content(screen: crate::graphics::screen::Screen, line: BufferLine<Vec<u8>>) -> Seq<(Seq<char>, Style)> {
    let text = crate::graphics::screen::decode_spec(screen.decoder, line.message@);
    reverse_content_spec(
        match screen.mode {
            ScreenMode::Normal => normal_content(text, line.level, line.is_tx),
            ScreenMode::Search { .. } => search_line_spec(screen.mode, text, line.id),
        },
        screen.selection,
        line.line as int,
    )
}

/// `drawn` is how the screen draws `line`: the time of day in the style of
/// a selected, bookmarked or current-bookmark line, a space, then the text
/// (see `line_content`) cut to the screen.
pub open spec fn drawn_line(screen: crate::graphics::screen::Screen, line: BufferLine<Vec<u8>>, drawn: Seq<(Seq<char>, Style)>) -> bool {
    &&& drawn.len() >= 2
    &&& drawn[0].0.len() == 12
    &&& drawn[0].1 == timestamp_style(
        screen.selection matches Some(sel) && sel.covers(line.line as int),
        screen.marks().contains(line.id),
        screen.current_bookmark == Some(line.id),
    )
    &&& drawn[1] == (seq![' '], Style::plain_spec())
    &&& drawn.skip(2) == crop_runs(
        line_content(screen, line),
        0,
        screen.position.column as int,
        sat_sub(screen.size.width as int, 16),
    )
}

/// The lines the screen shows of `buffer`: those in view, at the log level
/// `level`, each drawn as `drawn_line` says.
pub fn render_screen_lines(screen: &crate::graphics::screen::Screen, buffer: &crate::graphics::buffer::Buffer, level: LogLevel) -> (r:
    Vec<Vec<Span>>)
    requires
        screen.position.line + crate::graphics::screen::visible_rows(screen.size) <= usize::MAX,
        screen.position.column + screen.size.width <= usize::MAX,
    ensures
        ({
            let in_view = crate::graphics::buffer::clamped_range(
                buffer.contents(),
                screen.position.line as int,
                screen.position.line + crate::graphics::screen::visible_rows(screen.size),
            );
            let shown = lines_at_level(in_view, level);
            &&& r@.len() == shown.len()
            &&& forall|i: int| 0 <= i < shown.len() ==> drawn_line(*screen, shown[i], #[trigger] spans_view(r@[i]@))
        }),
{
    let start = screen.position.line;
    let height = screen.size.height;
    let rows = (if height >= 2 { height - 2 } else { 0 }) as usize;
    let lines = buffer.get_range(start, start + rows);
    let ghost in_view = crate::graphics::buffer::clamped_range(buffer.contents(), start as int, start + rows);
    let column = screen.position.column;
    let width = screen.size.width as usize;
    let mut out: Vec<Vec<Span>> = Vec::new();
    let mut i: usize = 0;
    assert(in_view.take(0) =~= Seq::<BufferLine<Vec<u8>>>::empty());
    while i < lines.len()
        invariant
            i <= lines@.len(),
            lines@.len() == in_view.len(),
            forall|k: int| 0 <= k < lines@.len() ==> *#[trigger] lines@[k] == in_view[k],
            column == screen.position.column,
            width == screen.size.width,
            column + width <= usize::MAX,
            out@.len() == lines_at_level(in_view.take(i as int), level).len(),
            forall|q: int|
                0 <= q < out@.len() ==> drawn_line(
                    *screen,
                    lines_at_level(in_view.take(i as int), level)[q],
                    #[trigger] spans_view(out@[q]@),
                ),
        decreases lines.len() - i,
    {
        let line = lines[i];
        assert(in_view.take(i + 1).drop_last() =~= in_view.take(i as int));
        assert(in_view.take(i + 1).last() == *line);
        let shown = match line.level {
            None => true,
            Some(l) => crate::infra::logger::level_index(l) <= crate::infra::logger::level_index(level),
        };
        if shown {
            let decoded = line.decode(screen.decoder);
            let is_bookmarked = screen.has_bookmark(line.id);
            let is_current = match screen.current_bookmark {
                Some(c) => c == line.id,
                None => false,
            };
            let drawn = match &screen.mode {
                ScreenMode::Normal => to_normal_line(&decoded, screen.selection, is_bookmarked, is_current),
                ScreenMode::Search { .. } => to_search_line(&screen.mode, &decoded, screen.selection, is_bookmarked, is_current),
            };
            let ghost text = decoded.message@;
            proof {
                lemma_strip_len(text);
            }
            let text_len = decoded.message.as_str().unicode_len();
            let ghost drawn_view = spans_view(drawn@);
            assert(drawn_view.skip(2) == line_content(*screen, *line));
            let cropped = crop(drawn, column, width);
            proof {
                let cv = spans_view(cropped@);
                assert(cv == seq![drawn_view[0], drawn_view[1]] + crop_runs(
                    drawn_view.skip(2),
                    0,
                    column as int,
                    sat_sub(width as int, 16),
                ));
                assert(cv.skip(2) =~= crop_runs(drawn_view.skip(2), 0, column as int, sat_sub(width as int, 16)));
            }
            let ghost before = out@;
            out.push(cropped);
            assert(lines_at_level(in_view.take(i + 1), level) == lines_at_level(in_view.take(i as int), level).push(*line));
            assert forall|q: int| 0 <= q < out@.len() implies drawn_line(
                *screen,
                lines_at_level(in_view.take(i + 1), level)[q],
                #[trigger] spans_view(out@[q]@),
            ) by {
                if q < before.len() {
                    assert(out@[q] == before[q]);
                }
            }
        }
        i += 1;
    }
    assert(in_view.take(lines@.len() as int) =~= in_view);
    out
}

/// The screen's title: the number of shown lines, the decoder's name, a
/// dot while recording, and the name of the file being written.
pub open spec fn title_spec(len: nat, decoder: crate::graphics::screen::ScreenDecoder, recording: bool, filename: Seq<char>) -> Seq<char> {
    let name = match decoder {
        crate::graphics::screen::ScreenDecoder::Ascii => "ASCII"@,
        crate::graphics::screen::ScreenDecoder::Utf8 => "UTF-8"@,
    };
    seq!['['] + crate::text::zero_padded(len, 3) + seq![']', '['] + name + seq![']'] + (if recording {
        seq![' ', '\u{25c9}']
    } else {
        Seq::empty()
    }) + seq![' '] + filename
}

/// The screen's title (see `title_spec`).
pub fn block_title(
    buffer_len: usize,
    decoder: crate::graphics::screen::ScreenDecoder,
    save_stats: &crate::graphics::graphics_task::SaveStats,
) -> (r: String)
    ensures
        r@ == title_spec(buffer_len as nat, decoder, save_stats.recording(), save_stats.name()),
{
    let digits = crate::text::zero_padded_chars(buffer_len as u64, 3);
    let mut out: Vec<char> = Vec::new();
    out.push('[');
    crate::text::extend_chars(&mut out, digits.as_slice());
    out.push(']');
    out.push('[');
    let name = chars_of(decoder.name());
    crate::text::extend_chars(&mut out, name.as_slice());
    out.push(']');
    if save_stats.is_recording() {
        out.push(' ');
        out.push('\u{25c9}');
    }
    out.push(' ');
    let file = chars_of(save_stats.filename());
    crate::text::extend_chars(&mut out, file.as_slice());
    assert(out@ =~= title_spec(buffer_len as nat, decoder, save_stats.recording(), save_stats.name()));
    string_of(out.as_slice())
}

} // verus!
