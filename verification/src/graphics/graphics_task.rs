//! What the front end asks of the screen, and the save/record status it
//! shows.
use vstd::prelude::*;
use crate::graphics::ansi::{Color, split_chars, split_on};
use crate::graphics::screen::ScreenPosition;
use crate::infra::logger::LogLevel;
use crate::graphics::render::{Span, Style};
use crate::graphics::screen::{sat_sub, ScreenRect};
use crate::infra::tags::{TagList, first_tag_hit, last_at_before, name_run, tag_hit, TagEntries};
use crate::text::{chars_of, decimal_chars, decimal_spec, extend_chars, string_of, sub_chars, zero_padded, zero_padded_chars};

verus! {

/// A request for the screen.
pub enum GraphicsCommand {
    SetLogLevel(LogLevel),
    SaveData,
    RecordData,
    Rename(String),
    SetFilter { pattern: String, exclude: bool },
    ScrollLeft,
    ScrollRight,
    ScrollUp,
    ScrollDown,
    JumpToStart,
    JumpToEnd,
    PageUp,
    PageDown,
    Clear,
    NextSearch,
    PrevSearch,
    SearchChange,
    ChangeToNormalMode,
    ChangeToSearchMode,
    Exit,
    Redraw,
    Click(ScreenPosition),
    Move(ScreenPosition),
    CopyToClipboard,
    ToggleBookmark(ScreenPosition),
    NextBookmark,
    PrevBookmark,
}

/// Where the screen keeps what it saves.
pub struct GraphicsConfig {
    pub storage_base_filename: String,
    pub capacity: usize,
    pub latency: u64,
}

/// What the status bar shows of saving and recording.
pub struct SaveStats {
    file_size: u128,
    is_recording: bool,
    filename: String,
    is_saving: bool,
    save_color: Color,
}

impl SaveStats {
    pub closed spec fn size(&self) -> u128 {
        self.file_size
    }

    pub closed spec fn recording(&self) -> bool {
        self.is_recording
    }

    pub closed spec fn saving(&self) -> bool {
        self.is_saving
    }

    pub closed spec fn color(&self) -> Color {
        self.save_color
    }

    pub closed spec fn name(&self) -> Seq<char> {
        self.filename@
    }

    /// Nothing being saved or recorded yet.
    pub fn new(file_size: u128, filename: String, save_color: Color) -> (r: Self)
        ensures
            r.size() == file_size,
            r.name() == filename@,
            r.color() == save_color,
            !r.recording(),
            !r.saving(),
    {
        SaveStats { file_size, is_recording: false, filename, is_saving: false, save_color }
    }

    pub fn file_size(&self) -> (r: u128)
        ensures
            r == self.size(),
    {
        self.file_size
    }

    pub fn is_recording(&self) -> (r: bool)
        ensures
            r == self.recording(),
    {
        self.is_recording
    }

    pub fn is_saving(&self) -> (r: bool)
        ensures
            r == self.saving(),
    {
        self.is_saving
    }

    pub fn save_color(&self) -> (r: Color)
        ensures
            r == self.color(),
    {
        self.save_color
    }

    pub fn filename(&self) -> (r: &str)
        ensures
            r@ == self.name(),
    {
        self.filename.as_str()
    }

    /// The status for one frame: recording or not, and saving while one of
    /// the blinks runs, the save blink first, in that blink's current colour;
    /// otherwise not saving, in the reset colour.
    pub fn refresh(&mut self, is_recording: bool, save_blink: Option<Color>, copy_blink: Option<Color>)
        ensures
            final(self).recording() == is_recording,
            final(self).saving() == (save_blink is Some || copy_blink is Some),
            final(self).color() == match save_blink {
                Some(c) => c,
                None => match copy_blink {
                    Some(c) => c,
                    None => Color::Reset,
                },
            },
            final(self).size() == old(self).size(),
            final(self).name() == old(self).name(),
    {
        self.is_recording = is_recording;
        match save_blink {
            Some(c) => {
                self.is_saving = true;
                self.save_color = c;
            },
            None => match copy_blink {
                Some(c) => {
                    self.is_saving = true;
                    self.save_color = c;
                },
                None => {
                    self.is_saving = false;
                    self.save_color = Color::Reset;
                },
            },
        }
    }

    /// A new size of the file being written.
    pub fn set_file_size(&mut self, file_size: u128)
        ensures
            final(self).size() == file_size,
            final(self).recording() == old(self).recording(),
            final(self).saving() == old(self).saving(),
            final(self).color() == old(self).color(),
            final(self).name() == old(self).name(),
    {
        self.file_size = file_size;
    }

    /// A new name of the file being written.
    pub fn set_filename(&mut self, filename: String)
        ensures
            final(self).name() == filename@,
            final(self).size() == old(self).size(),
            final(self).recording() == old(self).recording(),
            final(self).saving() == old(self).saving(),
            final(self).color() == old(self).color(),
    {
        self.filename = filename;
    }

    /// The status of a save: the file's size and name, not recording.
    pub fn saved(self, file_size: u128, filename: String) -> (r: Self)
        ensures
            r.size() == file_size,
            r.name() == filename@,
            !r.recording(),
            r.saving() == self.saving(),
            r.color() == self.color(),
    {
        SaveStats { file_size, filename, is_recording: false, ..self }
    }

    /// The status of a recording: the record's size and name, recording.
    pub fn recorded(self, file_size: u128, filename: String) -> (r: Self)
        ensures
            r.size() == file_size,
            r.name() == filename@,
            r.recording(),
            r.saving() == self.saving(),
            r.color() == self.color(),
    {
        SaveStats { file_size, filename, is_recording: true, ..self }
    }
}

/// The non-empty pieces, in order.
pub open spec fn kept_pieces(pieces: Seq<Seq<char>>) -> Seq<Seq<char>>
    decreases pieces.len(),
{
    if pieces.len() == 0 {
        Seq::empty()
    } else {
        let rest = kept_pieces(pieces.drop_last());
        if pieces.last().len() > 0 {
            rest.push(pieces.last())
        } else {
            rest
        }
    }
}

/// `s` without carriage returns and with each tab as four spaces.
pub open spec fn clean_log_text(s: Seq<char>) -> Seq<char>
    decreases s.len(),
{
    if s.len() == 0 {
        Seq::empty()
    } else {
        let rest = clean_log_text(s.drop_last());
        if s.last() == '\r' {
            rest
        } else if s.last() == '\t' {
            rest + seq![' ', ' ', ' ', ' ']
        } else {
            rest.push(s.last())
        }
    }
}

/// The `i`-th shown line of a log message that had `pieces` lines (empty
/// ones included): cleaned (`clean_log_text`), the lines after the first
/// indented by two spaces, and ending with CR LF while `i` is below
/// `pieces - 1`.
pub open spec fn log_piece(i: int, piece: Seq<char>, pieces: int) -> Seq<char> {
    clean_log_text(if i == 0 { piece } else { seq![' ', ' '] + piece }) + if i < pieces - 1 {
        seq!['\r', '\n']
    } else {
        Seq::empty()
    }
}

fn clean_log_chars(s: &[char]) -> (r: Vec<char>)
    ensures
        r@ == clean_log_text(s@),
{
    let mut out: Vec<char> = Vec::new();
    let mut i: usize = 0;
    assert(s@.take(0) =~= Seq::<char>::empty());
    while i < s.len()
        invariant
            i <= s@.len(),
            out@ == clean_log_text(s@.take(i as int)),
        decreases s.len() - i,
    {
        assert(s@.take(i + 1).drop_last() =~= s@.take(i as int));
        assert(s@.take(i + 1).last() == s@[i as int]);
        let c = s[i];
        if c == '\r' {
        } else if c == '\t' {
            let ghost before = out@;
            out.push(' ');
            out.push(' ');
            out.push(' ');
            out.push(' ');
            assert(out@ =~= before + seq![' ', ' ', ' ', ' ']);
        } else {
            out.push(c);
        }
        i += 1;
    }
    assert(s@.take(s@.len() as int) =~= s@);
    out
}

/// The lines a log message takes in the history: the message split on line
/// feeds, empty pieces dropped, each shown as `log_piece` says.
pub fn log_message_lines(message: &str) -> (r: Vec<String>)
    ensures
        r@.len() == kept_pieces(split_on(message@, '\n')).len(),
        forall|i: int|
            0 <= i < r@.len() ==> #[trigger] r@[i]@ == log_piece(
                i,
                kept_pieces(split_on(message@, '\n'))[i],
                split_on(message@, '\n').len() as int,
            ),
{
    let chars = chars_of(message);
    let pieces = split_chars(chars.as_slice(), '\n');
    let ghost all = split_on(message@, '\n');
    let n = pieces.len();
    let mut out: Vec<String> = Vec::new();
    let mut k: usize = 0;
    assert(all.take(0) =~= Seq::<Seq<char>>::empty());
    while k < n
        invariant
            k <= n,
            n == pieces@.len(),
            n == all.len(),
            forall|j: int| 0 <= j < n ==> #[trigger] pieces@[j]@ == all[j],
            out@.len() == kept_pieces(all.take(k as int)).len(),
            forall|i: int|
                0 <= i < out@.len() ==> #[trigger] out@[i]@ == log_piece(
                    i,
                    kept_pieces(all.take(k as int))[i],
                    n as int,
                ),
        decreases n - k,
    {
        assert(all.take(k + 1).drop_last() =~= all.take(k as int));
        assert(all.take(k + 1).last() == all[k as int]);
        let piece = &pieces[k];
        if piece.len() > 0 {
            let i = out.len();
            let mut text: Vec<char> = Vec::new();
            if i > 0 {
                text.push(' ');
                text.push(' ');
            }
            let mut j: usize = 0;
            while j < piece.len()
                invariant
                    j <= piece@.len(),
                    text@ == (if i == 0 { Seq::<char>::empty() } else { seq![' ', ' '] }) + piece@.take(j as int),
                decreases piece.len() - j,
            {
                let ghost before = text@;
                text.push(piece[j]);
                assert(piece@.take(j + 1) =~= piece@.take(j as int).push(piece@[j as int]));
                assert(text@ =~= (if i == 0 { Seq::<char>::empty() } else { seq![' ', ' '] }) + piece@.take(j + 1));
                j += 1;
            }
            assert(piece@.take(piece@.len() as int) =~= piece@);
            if i == 0 {
                assert(text@ =~= piece@);
            } else {
                assert(text@ =~= seq![' ', ' '] + piece@);
            }
            let mut line = clean_log_chars(text.as_slice());
            if i < n - 1 {
                let ghost before = line@;
                line.push('\r');
                line.push('\n');
                assert(line@ =~= before + seq!['\r', '\n']);
            } else {
                assert(line@ =~= line@ + Seq::<char>::empty());
            }
            let ghost prev = out@;
            assert(piece@ == all[k as int]);
            assert(kept_pieces(all.take(k + 1)) == kept_pieces(all.take(k as int)).push(all[k as int]));
            assert(line@ == log_piece(i as int, all[k as int], n as int));
            out.push(string_of(line.as_slice()));
            assert forall|q: int| 0 <= q < out@.len() implies #[trigger] out@[q]@ == log_piece(
                q,
                kept_pieces(all.take(k + 1))[q],
                n as int,
            ) by {
                if q < prev.len() {
                    assert(out@[q] == prev[q]);
                }
            }
        }
        k += 1;
    }
    assert(all.take(n as int) =~= all);
    out
}

/// How the command bar shows the latency set between reads: in
/// milliseconds from one millisecond on, in microseconds below, `---` when
/// there is none.
pub open spec fn latency_spec(latency: u64) -> Seq<char> {
    if latency >= 1000 {
        decimal_spec((latency / 1000) as nat) + seq!['m', 's']
    } else if latency > 0 {
        decimal_spec(latency as nat) + seq!['u', 's']
    } else {
        seq!['-', '-', '-']
    }
}

pub fn latency_text(latency: u64) -> (r: String)
    ensures
        r@ == latency_spec(latency),
{
    let mut out: Vec<char> = Vec::new();
    if latency >= 1000 {
        let digits = decimal_chars(latency / 1000);
        extend_chars(&mut out, digits.as_slice());
        out.push('m');
        out.push('s');
    } else if latency > 0 {
        let digits = decimal_chars(latency);
        extend_chars(&mut out, digits.as_slice());
        out.push('u');
        out.push('s');
    } else {
        out.push('-');
        out.push('-');
        out.push('-');
    }
    assert(out@ =~= latency_spec(latency));
    string_of(out.as_slice())
}

/// The title of the command bar outside a search: the history's length on
/// at least three digits, the latency, and the interface.
pub open spec fn normal_bar_title_spec(history_len: nat, latency: u64, title: Seq<char>) -> Seq<char> {
    seq!['['] + zero_padded(history_len, 3) + seq![']', '['] + latency_spec(latency) + seq![']', ' '] + title
}

pub fn normal_bar_title(history_len: usize, latency: u64, title: &str) -> (r: String)
    ensures
        r@ == normal_bar_title_spec(history_len as nat, latency, title@),
{
    let mut out: Vec<char> = Vec::new();
    out.push('[');
    let digits = zero_padded_chars(history_len as u64, 3);
    extend_chars(&mut out, digits.as_slice());
    out.push(']');
    out.push('[');
    let lat = chars_of(latency_text(latency).as_str());
    extend_chars(&mut out, lat.as_slice());
    out.push(']');
    out.push(' ');
    let t = chars_of(title);
    extend_chars(&mut out, t.as_slice());
    assert(out@ =~= normal_bar_title_spec(history_len as nat, latency, title@));
    string_of(out.as_slice())
}

/// The title of the command bar while searching: the case and regular
/// expression switches, then the hit the navigation is on (counted from
/// one) out of all hits, or dashes without hits.
pub open spec fn search_bar_title_spec(is_case_sensitive: bool, is_regex: bool, current: nat, total: nat) -> Seq<char> {
    seq!['['] + (if is_case_sensitive { seq!['A', 'a'] } else { seq!['-', '-'] }) + seq![']', '['] + (if is_regex {
        seq!['.', '*']
    } else {
        seq![' ', ' ']
    }) + seq![']', '['] + (if total > 0 { decimal_spec(current + 1) } else { seq!['-', '-'] }) + seq!['/'] + (if total
        > 0 {
        decimal_spec(total)
    } else {
        seq!['-', '-']
    }) + seq![']'] + " Search Mode"@
}

pub fn search_bar_title(is_case_sensitive: bool, is_regex: bool, indexes: (usize, usize)) -> (r: String)
    requires
        indexes.0 < u64::MAX,
    ensures
        r@ == search_bar_title_spec(is_case_sensitive, is_regex, indexes.0 as nat, indexes.1 as nat),
{
    let (current, total) = indexes;
    let mut out: Vec<char> = Vec::new();
    out.push('[');
    if is_case_sensitive {
        out.push('A');
        out.push('a');
    } else {
        out.push('-');
        out.push('-');
    }
    out.push(']');
    out.push('[');
    if is_regex {
        out.push('.');
        out.push('*');
    } else {
        out.push(' ');
        out.push(' ');
    }
    out.push(']');
    out.push('[');
    if total > 0 {
        let digits = decimal_chars(current as u64 + 1);
        extend_chars(&mut out, digits.as_slice());
    } else {
        out.push('-');
        out.push('-');
    }
    out.push('/');
    if total > 0 {
        let digits = decimal_chars(total as u64);
        extend_chars(&mut out, digits.as_slice());
    } else {
        out.push('-');
        out.push('-');
    }
    out.push(']');
    let tail = chars_of(" Search Mode");
    extend_chars(&mut out, tail.as_slice());
    assert(out@ =~= search_bar_title_spec(is_case_sensitive, is_regex, current as nat, total as nat));
    string_of(out.as_slice())
}

/// The first tag invoked in `s`, as position and length.
#[verifier::opaque]
pub open spec fn first_tag(tags: TagEntries, s: Seq<char>) -> Option<(int, int)> {
    if exists|p: int| tag_hit(tags, s, p) {
        let p = choose|p: int| #[trigger] tag_hit(tags, s, p) && forall|q: int| 0 <= q < p ==> !#[trigger] tag_hit(tags, s, q);
        Some((p, name_run(s, p + 1).len() + 1int))
    } else {
        None
    }
}

/// The command line as the bar shows it: the invoked tags in cyan.
pub open spec fn tag_runs(tags: TagEntries, s: Seq<char>) -> Seq<(Seq<char>, Style)>
    decreases s.len(),
{
    if s.len() == 0 {
        Seq::empty()
    } else {
        match first_tag(tags, s) {
            Some((p, l)) => if l <= 0 || p < 0 || p + l > s.len() {
                seq![(s, Style::plain_spec())]
            } else {
                (if p > 0 {
                    seq![(s.take(p), Style::plain_spec())]
                } else {
                    Seq::empty()
                }) + seq![(s.subrange(p, p + l), cyan_style())] + tag_runs(tags, s.skip(p + l))
            },
            None => seq![(s, Style::plain_spec())],
        }
    }
}

/// Cyan text.
pub open spec fn cyan_style() -> Style {
    Style { fg: Some(Color::Cyan), bg: None, reversed: false, bold: false }
}

proof fn lemma_first_tag(tags: TagEntries, s: Seq<char>, p: int, length: int)
    requires
        first_tag_hit(tags, s, p, length),
    ensures
        first_tag(tags, s) == Some((p, length)),
{
    reveal(first_tag);
    let c = choose|c: int| #[trigger] tag_hit(tags, s, c) && forall|q: int| 0 <= q < c ==> !#[trigger] tag_hit(tags, s, q);
    assert(tag_hit(tags, s, c) && forall|q: int| 0 <= q < c ==> !#[trigger] tag_hit(tags, s, q));
    if c < p {
        assert(!tag_hit(tags, s, c));
    }
    if p < c {
        assert(!tag_hit(tags, s, p));
    }
}

proof fn lemma_no_tag(tags: TagEntries, s: Seq<char>)
    requires
        forall|q: int| !#[trigger] tag_hit(tags, s, q),
    ensures
        first_tag(tags, s) is None,
{
    reveal(first_tag);
}

proof fn lemma_tag_runs_step(tags: TagEntries, s: Seq<char>, p: int, l: int)
    requires
        first_tag(tags, s) == Some((p, l)),
        s.len() > 0,
        0 < l,
        0 <= p,
        p + l <= s.len(),
    ensures
        tag_runs(tags, s) == (if p > 0 {
            seq![(s.take(p), Style::plain_spec())]
        } else {
            Seq::empty()
        }) + seq![(s.subrange(p, p + l), cyan_style())] + tag_runs(tags, s.skip(p + l)),
{
}

/// The command line ` text` as the bar shows it (see `tag_runs`).
pub fn command_spans(text: &str, tags: &TagList) -> (r: Vec<Span>)
    requires
        tags.wf(),
    ensures
        crate::graphics::render::spans_view(r@) == tag_runs(tags.entries(), seq![' '] + text@),
{
    let mut rest: Vec<char> = Vec::new();
    rest.push(' ');
    let t = chars_of(text);
    extend_chars(&mut rest, t.as_slice());
    let ghost whole = rest@;
    let mut out: Vec<Span> = Vec::new();
    loop
        invariant
            tags.wf(),
            crate::graphics::render::spans_view(out@) + tag_runs(tags.entries(), rest@) == tag_runs(tags.entries(), whole),
            whole == seq![' '] + text@,
        decreases rest@.len(),
    {
        let ghost before = crate::graphics::render::spans_view(out@);
        let ghost r0 = rest@;
        if rest.len() == 0 {
            assert(tag_runs(tags.entries(), r0) == Seq::<(Seq<char>, Style)>::empty());
            assert(before + tag_runs(tags.entries(), r0) =~= before);
            return out;
        }
        let current = string_of(rest.as_slice());
        match tags.tag_filter(current.as_str()) {
            None => {
                proof {
                    lemma_no_tag(tags.entries(), r0);
                }
                out.push(Span { content: current, style: Style::plain() });
                assert(crate::graphics::render::spans_view(out@) =~= before + seq![(r0, Style::plain_spec())]);
                return out;
            },
            Some(pos) => {
                proof {
                    lemma_first_tag(tags.entries(), r0, pos.start as int, pos.length as int);
                }
                let p = pos.start;
                let l = pos.length;
                if l == 0 || p > rest.len() || l > rest.len() - p {
                    out.push(Span { content: current, style: Style::plain() });
                    assert(crate::graphics::render::spans_view(out@) =~= before + seq![(r0, Style::plain_spec())]);
                    return out;
                }
                let n = rest.len();
                if p > 0 {
                    out.push(Span { content: string_of(sub_chars(rest.as_slice(), 0, p).as_slice()), style: Style::plain() });
                }
                out.push(Span {
                    content: string_of(sub_chars(rest.as_slice(), p, p + l).as_slice()),
                    style: Style { fg: Some(Color::Cyan), bg: None, reversed: false, bold: false },
                });
                let next = sub_chars(rest.as_slice(), p + l, n);
                assert(next@ =~= r0.skip(p + l));
                proof {
                    lemma_tag_runs_step(tags.entries(), r0, p as int, l as int);
                }
                assert(crate::graphics::render::spans_view(out@) =~= before + (if p > 0 {
                    seq![(r0.take(p as int), Style::plain_spec())]
                } else {
                    Seq::empty()
                }) + seq![(r0.subrange(p as int, p + l), cyan_style())]);
                assert(crate::graphics::render::spans_view(out@) + tag_runs(tags.entries(), next@) =~= before
                    + tag_runs(tags.entries(), r0));
                rest = next;
            },
        }
    }
}

/// How many suggestions fit: half the screen's height, at most all of
/// them, at least one.
pub open spec fn window_cap(len: int, height: int) -> int {
    let c = if height / 2 < len { height / 2 } else { len };
    if c < 1 { 1 } else { c }
}

/// The first suggestion shown: the selected one stays in view, with as
/// many before it as fit.
pub open spec fn window_start(len: int, selected: int, cap: int) -> int {
    let s = sat_sub(selected, cap - 1);
    if s < len - cap { s } else { len - cap }
}

/// The suggestions shown of a list of `len` (see `window_cap` and
/// `window_start`): where they start, how many, and whether more follow.
pub fn autocomplete_window(len: usize, selected: usize, height: u16) -> (r: (usize, usize, bool))
    requires
        len > 0,
    ensures
        r.1 == window_cap(len as int, height as int),
        r.0 == window_start(len as int, selected as int, r.1 as int),
        r.2 == (r.0 + r.1 < len),
        r.0 + r.1 <= len,
{
    let half = (height / 2) as usize;
    let c = if half < len { half } else { len };
    let cap = if c < 1 { 1 } else { c };
    let s = if selected >= cap - 1 { selected - (cap - 1) } else { 0 };
    let start = if s < len - cap { s } else { len - cap };
    (start, cap, start + cap < len)
}

/// The widest suggestion, in characters counted in 16 bits.
pub open spec fn longest_entry(entries: Seq<String>) -> int
    decreases entries.len(),
{
    if entries.len() == 0 {
        0
    } else {
        let rest = longest_entry(entries.drop_last());
        let w = (entries.last()@.len() as u16) as int;
        if w > rest { w } else { rest }
    }
}

/// Where the suggestion box stands: wide enough for the widest suggestion
/// and two rows more than the shown ones (and `...` when more follow),
/// above the command bar, under the last `@` before the cursor but within
/// the screen.
pub open spec fn autocomplete_area_spec(
    frame: ScreenRect,
    entries: Seq<String>,
    has_more: bool,
    command: Seq<char>,
    cursor: int,
    command_bar_y: int,
) -> ScreenRect {
    let width = longest_entry(entries) + 5;
    let height = entries.len() + (if has_more { 1int } else { 0int }) + 2;
    let max_x = frame.x + sat_sub(sat_sub(frame.width as int, width), 2);
    let at = match last_at_before(command, cursor) {
        Some(i) => i,
        None => 0,
    };
    let x = if at < 2 { 2 } else if at > max_x { max_x } else { at };
    ScreenRect { x: x as u16, y: sat_sub(command_bar_y, height) as u16, width: width as u16, height: height as u16 }
}

pub fn autocomplete_area(
    frame: ScreenRect,
    entries: &[String],
    has_more: bool,
    command: &str,
    cursor: usize,
    command_bar_y: u16,
) -> (r: ScreenRect)
    requires
        longest_entry(entries@) + 5 <= u16::MAX,
        entries@.len() + 3 <= u16::MAX,
        frame.x + frame.width <= u16::MAX,
        frame.x + sat_sub(sat_sub(frame.width as int, longest_entry(entries@) + 5), 2) >= 2,
    ensures
        r == autocomplete_area_spec(frame, entries@, has_more, command@, cursor as int, command_bar_y as int),
{
    let mut longest: u16 = 0;
    let mut i: usize = 0;
    assert(entries@.take(0) =~= Seq::<String>::empty());
    while i < entries.len()
        invariant
            i <= entries@.len(),
            longest == longest_entry(entries@.take(i as int)),
        decreases entries.len() - i,
    {
        assert(entries@.take(i + 1).drop_last() =~= entries@.take(i as int));
        assert(entries@.take(i + 1).last() == entries@[i as int]);
        let w = entries[i].as_str().unicode_len() as u16;
        if w > longest {
            longest = w;
        }
        i += 1;
    }
    assert(entries@.take(entries@.len() as int) =~= entries@);
    let width = longest + 5;
    let height = entries.len() as u16 + (if has_more { 1 } else { 0 }) + 2;
    let room = if frame.width >= width { frame.width - width } else { 0 };
    let room = if room >= 2 { room - 2 } else { 0 };
    let max_x = frame.x + room;
    let cs = chars_of(command);
    let mut at: usize = 0;
    let mut k: usize = 0;
    let end = if cursor <= cs.len() { cursor } else { cs.len() };
    while k < end
        invariant
            k <= end <= cs@.len(),
            end == if cursor <= cs@.len() { cursor as int } else { cs@.len() as int },
            at == match last_at_before(cs@, k as int) {
                Some(j) => j,
                None => 0,
            },
        decreases end - k,
    {
        if cs[k] == '@' {
            at = k;
        }
        k += 1;
    }
    proof {
        lemma_last_at_before_clip(cs@, cursor as int);
    }
    let x = if at < 2 { 2 } else if at > max_x as usize { max_x as usize } else { at };
    let y = if command_bar_y >= height { command_bar_y - height } else { 0 };
    ScreenRect { x: x as u16, y, width, height }
}

proof fn lemma_last_at_before_clip(s: Seq<char>, n: int)
    requires
        n >= 0,
    ensures
        last_at_before(s, n) == last_at_before(s, if n <= s.len() { n } else { s.len() as int }),
    decreases n,
{
    if n > s.len() {
        lemma_last_at_before_clip(s, n - 1);
    }
}

/// The rows of the suggestion box: each suggestion shown after the typed
/// pattern (the part past the pattern's first character dimmed), the
/// selected one as a full-width bold cyan bar, then ` ...` when more
/// follow.
pub open spec fn autocomplete_row(entry: Seq<char>, pattern: Seq<char>, is_selected: bool, inner_width: int) -> Seq<
    (Seq<char>, Style),
> {
    let suffix = entry.skip(clamp_skip(sat_sub(pattern.len() as int, 1), entry.len() as int));
    if is_selected {
        let content = seq![' '] + pattern + suffix;
        seq![(content + Seq::new(sat_sub(inner_width, content.len() as int) as nat, |i: int| ' '), Style {
            fg: Some(Color::Black),
            bg: Some(Color::Cyan),
            reversed: false,
            bold: true,
        })]
    } else {
        seq![(seq![' '] + pattern, cyan_style()), (suffix, Style { fg: Some(Color::DarkGray), bg: None, reversed: false, bold: false })]
    }
}

/// `n` no larger than `len`.
pub open spec fn clamp_skip(n: int, len: int) -> int {
    if n > len { len } else { n }
}

pub fn autocomplete_lines(
    window: &[String],
    start: usize,
    selected: usize,
    pattern: &str,
    inner_width: usize,
    has_more: bool,
) -> (r: Vec<Vec<Span>>)
    requires
        start + window@.len() <= usize::MAX,
    ensures
        r@.len() == window@.len() + if has_more { 1int } else { 0int },
        forall|i: int|
            0 <= i < window@.len() ==> crate::graphics::render::spans_view(#[trigger] r@[i]@) == autocomplete_row(
                window@[i]@,
                pattern@,
                start + i == selected,
                inner_width as int,
            ),
        has_more ==> crate::graphics::render::spans_view(r@[window@.len() as int]@) == seq![
            (seq![' ', '.', '.', '.'], Style { fg: Some(Color::DarkGray), bg: None, reversed: false, bold: false }),
        ],
{
    let pat = chars_of(pattern);
    let skip = if pat.len() >= 1 { pat.len() - 1 } else { 0 };
    let mut out: Vec<Vec<Span>> = Vec::new();
    let mut i: usize = 0;
    while i < window.len()
        invariant
            i <= window@.len(),
            start + window@.len() <= usize::MAX,
            pat@ == pattern@,
            skip == sat_sub(pattern@.len() as int, 1),
            out@.len() == i,
            forall|q: int|
                0 <= q < i ==> crate::graphics::render::spans_view(#[trigger] out@[q]@) == autocomplete_row(
                    window@[q]@,
                    pattern@,
                    start + q == selected,
                    inner_width as int,
                ),
        decreases window.len() - i,
    {
        let entry = chars_of(window[i].as_str());
        let from = if skip <= entry.len() { skip } else { entry.len() };
        let suffix = sub_chars(entry.as_slice(), from, entry.len());
        assert(suffix@ =~= entry@.skip(clamp_skip(skip as int, entry@.len() as int)));
        let mut row: Vec<Span> = Vec::new();
        if start + i == selected {
            let mut content: Vec<char> = Vec::new();
            content.push(' ');
            extend_chars(&mut content, pat.as_slice());
            extend_chars(&mut content, suffix.as_slice());
            let ghost c0 = content@;
            let pad = if inner_width >= content.len() { inner_width - content.len() } else { 0 };
            let mut k: usize = 0;
            while k < pad
                invariant
                    k <= pad,
                    content@ == c0 + Seq::new(k as nat, |j: int| ' '),
                decreases pad - k,
            {
                content.push(' ');
                assert(content@ =~= c0 + Seq::new((k + 1) as nat, |j: int| ' '));
                k += 1;
            }
            row.push(Span {
                content: string_of(content.as_slice()),
                style: Style { fg: Some(Color::Black), bg: Some(Color::Cyan), reversed: false, bold: true },
            });
        } else {
            let mut lead: Vec<char> = Vec::new();
            lead.push(' ');
            extend_chars(&mut lead, pat.as_slice());
            row.push(Span { content: string_of(lead.as_slice()), style: Style { fg: Some(Color::Cyan), bg: None, reversed: false, bold: false } });
            row.push(Span {
                content: string_of(suffix.as_slice()),
                style: Style { fg: Some(Color::DarkGray), bg: None, reversed: false, bold: false },
            });
        }
        assert(crate::graphics::render::spans_view(row@) =~= autocomplete_row(
            window@[i as int]@,
            pattern@,
            start + i == selected,
            inner_width as int,
        ));
        out.push(row);
        i += 1;
    }
    if has_more {
        let dots = [' ', '.', '.', '.'];
        let mut row: Vec<Span> = Vec::new();
        row.push(Span {
            content: string_of(&dots),
            style: Style { fg: Some(Color::DarkGray), bg: None, reversed: false, bold: false },
        });
        assert(dots@ =~= seq![' ', '.', '.', '.']);
        assert(crate::graphics::render::spans_view(row@) =~= seq![
            (seq![' ', '.', '.', '.'], Style { fg: Some(Color::DarkGray), bg: None, reversed: false, bold: false }),
        ]);
        out.push(row);
    }
    out
}

} // verus!
