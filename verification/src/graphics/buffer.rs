use vstd::prelude::*;
use core::cmp::Ordering;
use std::collections::VecDeque;
use crate::graphics::Serialize;
use crate::graphics::ansi::strip_csi;
use crate::graphics::bytes::replace_spec;
use crate::graphics::screen::{ScreenDecoder, decode_spec};
use crate::graphics::selection::{Selection, SelectionPosition};
use crate::infra::logger::LogLevel;
use crate::text::{chars_of, extend_chars, push_char, push_str, replace_chars, string_of, sub_chars};

verus! {

/// A (line, column) cell of the history buffer.
#[derive(Clone, Copy, Default, Debug, PartialEq, Eq, Structural)]
pub struct BufferPosition {
    pub line: usize,
    pub column: usize,
}

/// Positions are ordered by line, then by column.
pub open spec fn position_lt(a: BufferPosition, b: BufferPosition) -> bool {
    a.line < b.line || (a.line == b.line && a.column < b.column)
}

pub open spec fn position_ordering(a: BufferPosition, b: BufferPosition) -> Option<Ordering> {
    if position_lt(a, b) {
        Some(Ordering::Less)
    } else if a == b {
        Some(Ordering::Equal)
    } else {
        Some(Ordering::Greater)
    }
}

impl PartialOrd for BufferPosition {
    fn partial_cmp(&self, other: &Self) -> (r: Option<Ordering>) {
        if self.line != other.line {
            if self.line < other.line {
                Some(Ordering::Less)
            } else {
                Some(Ordering::Greater)
            }
        } else if self.column < other.column {
            Some(Ordering::Less)
        } else if self.column == other.column {
            Some(Ordering::Equal)
        } else {
            Some(Ordering::Greater)
        }
    }
}

impl vstd::std_specs::cmp::PartialOrdSpecImpl for BufferPosition {
    open spec fn obeys_partial_cmp_spec() -> bool {
        true
    }

    open spec fn partial_cmp_spec(&self, other: &Self) -> Option<Ordering> {
        position_ordering(*self, *other)
    }
}

/// The current time, in milliseconds since the Unix epoch
/// (`chrono::Local::now`, then `DateTime::timestamp_millis`). Nothing is
/// stated of it: it depends on the clock.
#[verifier::external_body]
pub fn now_millis() -> i64 {
    chrono::Local::now().timestamp_millis()
}

/// The local time of day of the instant `millis` (milliseconds since the
/// Unix epoch) as `%H:%M:%S.%3f` (`DateTime::from_timestamp_millis`,
/// `DateTime::with_timezone` to `Local`, then `DateTime::format`): two
/// digits each for hours, minutes and seconds, then three for the
/// milliseconds, twelve characters in all. An instant out of chrono's range
/// gives `??:??:??.???`.
#[verifier::external_body]
pub fn timestamp_fmt(millis: i64) -> (r: String)
    ensures
        r@.len() == 12,
{
    match chrono::DateTime::from_timestamp_millis(millis) {
        Some(t) => t.with_timezone(&chrono::Local).format("%H:%M:%S.%3f").to_string(),
        None => "??:??:??.???".to_string(),
    }
}

/// The source of line identities: every line gets a new one, so that
/// whatever pins to a line (a bookmark) keeps pointing at it while the
/// buffer re-indexes its lines.
pub struct LineIds {
    next: u64,
}

impl LineIds {
    pub closed spec fn issued(&self) -> u64 {
        self.next
    }

    pub fn new() -> (r: Self)
        ensures
            r.issued() == 0,
    {
        LineIds { next: 0 }
    }

    /// A new identity: each one is larger than every one handed out before.
    pub fn next_line_id(&mut self) -> (r: u64)
        requires
            old(self).issued() < u64::MAX,
        ensures
            r == old(self).issued(),
            final(self).issued() == old(self).issued() + 1,
    {
        let id = self.next;
        self.next = self.next + 1;
        id
    }
}

/// A line of the history: received, sent, or a log message.
pub struct BufferLine<T> {
    /// The line's current index in the buffer.
    pub line: usize,
    /// The line's identity, kept for its whole life.
    pub id: u64,
    /// When the line arrived, in milliseconds since the Unix epoch.
    pub timestamp: i64,
    pub level: Option<LogLevel>,
    pub message: T,
    pub is_tx: bool,
}

impl<T: Clone> Clone for BufferLine<T> {
    fn clone(&self) -> (r: Self)
        ensures
            r.line == self.line,
            r.id == self.id,
            r.timestamp == self.timestamp,
            r.level == self.level,
            cloned::<T>(self.message, r.message),
            r.is_tx == self.is_tx,
    {
        BufferLine {
            line: self.line,
            id: self.id,
            timestamp: self.timestamp,
            level: self.level,
            message: self.message.clone(),
            is_tx: self.is_tx,
        }
    }
}

impl BufferLine<Vec<u8>> {
    /// A received line.
    pub fn new_rx(ids: &mut LineIds, timestamp: i64, message: Vec<u8>) -> (r: Self)
        requires
            old(ids).issued() < u64::MAX,
        ensures
            r.id == old(ids).issued(),
            final(ids).issued() == old(ids).issued() + 1,
            r.line == 0,
            r.timestamp == timestamp,
            r.level is None,
            r.message == message,
            !r.is_tx,
    {
        BufferLine { line: 0, id: ids.next_line_id(), timestamp, level: None, message, is_tx: false }
    }

    /// A sent line.
    pub fn new_tx(ids: &mut LineIds, timestamp: i64, message: Vec<u8>) -> (r: Self)
        requires
            old(ids).issued() < u64::MAX,
        ensures
            r.id == old(ids).issued(),
            final(ids).issued() == old(ids).issued() + 1,
            r.line == 0,
            r.timestamp == timestamp,
            r.level is None,
            r.message == message,
            r.is_tx,
    {
        BufferLine { line: 0, id: ids.next_line_id(), timestamp, level: None, message, is_tx: true }
    }

    /// A log line.
    pub fn new_log(ids: &mut LineIds, timestamp: i64, level: LogLevel, message: Vec<u8>) -> (r: Self)
        requires
            old(ids).issued() < u64::MAX,
        ensures
            r.id == old(ids).issued(),
            final(ids).issued() == old(ids).issued() + 1,
            r.line == 0,
            r.timestamp == timestamp,
            r.level == Some(level),
            r.message == message,
            !r.is_tx,
    {
        BufferLine { line: 0, id: ids.next_line_id(), timestamp, level: Some(level), message, is_tx: false }
    }

    /// The line with its bytes decoded into text.
    pub fn decode(&self, decoder: ScreenDecoder) -> (r: BufferLine<String>)
        ensures
            r.line == self.line,
            r.id == self.id,
            r.timestamp == self.timestamp,
            r.level == self.level,
            r.message@ == decode_spec(decoder, self.message@),
            r.is_tx == self.is_tx,
    {
        BufferLine {
            line: self.line,
            id: self.id,
            timestamp: self.timestamp,
            level: self.level,
            message: decoder.decode(self.message.as_slice()),
            is_tx: self.is_tx,
        }
    }

    /// When the line was received, sent or logged.
    pub fn timestamp(&self) -> (r: i64)
        ensures
            r == self.timestamp,
    {
        self.timestamp
    }
}

/// The tag that marks a saved line: the log level's three letters, or an
/// arrow for sent (`=>`) and received (`<=`) data.
pub open spec fn line_tag(level: Option<LogLevel>, is_tx: bool) -> Seq<char> {
    match level {
        Some(LogLevel::Error) => seq!['E', 'R', 'R'],
        Some(LogLevel::Warning) => seq!['W', 'R', 'N'],
        Some(LogLevel::Success) => seq![' ', 'O', 'K'],
        Some(LogLevel::Info) => seq!['I', 'N', 'F'],
        Some(LogLevel::Debug) => seq!['D', 'B', 'G'],
        None => if is_tx { seq![' ', '=', '>'] } else { seq![' ', '<', '='] },
    }
}

/// A saved line: `[stamp][tag] text`, the text decoded as ASCII.
pub open spec fn serialized(stamp: Seq<char>, line: BufferLine<Vec<u8>>) -> Seq<char> {
    seq!['['] + stamp + seq![']', '['] + line_tag(line.level, line.is_tx) + seq![']', ' ']
        + decode_spec(ScreenDecoder::Ascii, line.message@)
}

impl BufferLine<Vec<u8>> {
    /// The line as saved, with `stamp` as its time of day.
    pub fn serialize_with(&self, stamp: &str) -> (r: String)
        ensures
            r@ == serialized(stamp@, *self),
    {
        let tag: [char; 3] = match self.level {
            Some(LogLevel::Error) => ['E', 'R', 'R'],
            Some(LogLevel::Warning) => ['W', 'R', 'N'],
            Some(LogLevel::Success) => [' ', 'O', 'K'],
            Some(LogLevel::Info) => ['I', 'N', 'F'],
            Some(LogLevel::Debug) => ['D', 'B', 'G'],
            None => if self.is_tx { [' ', '=', '>'] } else { [' ', '<', '='] },
        };
        assert(tag@ =~= line_tag(self.level, self.is_tx));
        let mut out = String::new();
        push_char(&mut out, '[');
        push_str(&mut out, stamp);
        push_char(&mut out, ']');
        push_char(&mut out, '[');
        push_char(&mut out, tag[0]);
        push_char(&mut out, tag[1]);
        push_char(&mut out, tag[2]);
        push_char(&mut out, ']');
        push_char(&mut out, ' ');
        let text = ScreenDecoder::Ascii.decode(self.message.as_slice());
        push_str(&mut out, text.as_str());
        assert(out@ =~= serialized(stamp@, *self));
        out
    }
}

impl Serialize for BufferLine<Vec<u8>> {
    /// The line as saved, stamped with its local time of day (twelve
    /// characters, from `timestamp_fmt`).
    fn serialize(&self) -> (r: String)
        ensures
            exists|stamp: Seq<char>| stamp.len() == 12 && r@ == serialized(stamp, *self),
    {
        let stamp = timestamp_fmt(self.timestamp);
        let r = self.serialize_with(stamp.as_str());
        assert(stamp@.len() == 12 && r@ == serialized(stamp@, *self));
        r
    }
}

/// The part of a line's text a selection covers.
pub open spec fn covered_part(content: Seq<char>, pos: SelectionPosition) -> Seq<char> {
    let n = content.len() as int;
    match pos {
        SelectionPosition::OneLine { start_column, end_column } => {
            let s = if start_column <= n { start_column as int } else { n };
            let e = if s + (end_column - start_column) <= n { s + (end_column - start_column) } else { n };
            content.subrange(s, e)
        },
        SelectionPosition::Top { column } => content.subrange(if column <= n { column as int } else { n }, n),
        SelectionPosition::Bottom { column } => content.take(if column <= n { column as int } else { n }),
        SelectionPosition::Middle => content,
        SelectionPosition::Outside => Seq::empty(),
    }
}

/// The selected text of `lines`, one after the other.
pub open spec fn selected_text(
    lines: Seq<BufferLine<Vec<u8>>>,
    selection: Selection,
    decoder: ScreenDecoder,
) -> Seq<char>
    decreases lines.len(),
{
    if lines.len() == 0 {
        Seq::empty()
    } else {
        selected_text(lines.drop_last(), selection, decoder) + covered_part(
            strip_csi(decode_spec(decoder, lines.last().message@)),
            selection.position_of(lines.last().line as int),
        )
    }
}

/// The lines of `lines` from index `start` to `end`, clamped to the buffer.
pub open spec fn clamped_range<T>(lines: Seq<T>, start: int, end: int) -> Seq<T> {
    let e = if end <= lines.len() { end } else { lines.len() as int };
    let s = if start <= e { start } else { e };
    lines.subrange(s, e)
}

/// The lines of the history, oldest first, up to a capacity: once full,
/// each new line drops the oldest.
pub struct Buffer {
    lines: VecDeque<BufferLine<Vec<u8>>>,
    capacity: usize,
    evicted: u64,
}

/// The lines with their indices set to their positions.
pub open spec fn reindexed(lines: Seq<BufferLine<Vec<u8>>>) -> Seq<BufferLine<Vec<u8>>> {
    lines.map(|i: int, l: BufferLine<Vec<u8>>| BufferLine { line: i as usize, ..l })
}

/// The lines after `rhs` is pushed onto `lines` in a buffer of capacity
/// `cap`.
pub open spec fn pushed(
    lines: Seq<BufferLine<Vec<u8>>>,
    cap: nat,
    rhs: BufferLine<Vec<u8>>,
) -> Seq<BufferLine<Vec<u8>>> {
    if lines.len() < cap {
        lines.push(BufferLine { line: lines.len() as usize, ..rhs })
    } else {
        reindexed(lines.drop_first().push(rhs))
    }
}

/// The lines after each of `rhs` is pushed in turn.
pub open spec fn pushed_all(
    lines: Seq<BufferLine<Vec<u8>>>,
    cap: nat,
    rhs: Seq<BufferLine<Vec<u8>>>,
) -> Seq<BufferLine<Vec<u8>>>
    decreases rhs.len(),
{
    if rhs.len() == 0 {
        lines
    } else {
        pushed_all(pushed(lines, cap, rhs[0]), cap, rhs.drop_first())
    }
}

/// The eviction count after `pushes` more lines arrive at a buffer holding
/// `len` of at most `cap` lines, saturating at `u64::MAX`.
pub open spec fn evictions_after(evicted: u64, len: nat, cap: nat, pushes: nat) -> u64 {
    let dropped = if len + pushes > cap { (len + pushes - cap) as nat } else { 0nat };
    if evicted + dropped <= u64::MAX { (evicted + dropped) as u64 } else { u64::MAX }
}

impl Buffer {
    pub closed spec fn contents(&self) -> Seq<BufferLine<Vec<u8>>> {
        self.lines@
    }

    pub closed spec fn cap(&self) -> usize {
        self.capacity
    }

    pub closed spec fn evicted_count(&self) -> u64 {
        self.evicted
    }

    /// The capacity is at least one line and is respected, and every line
    /// knows its index.
    pub open spec fn wf(&self) -> bool {
        &&& self.cap() >= 1
        &&& self.contents().len() <= self.cap()
        &&& forall|i: int| 0 <= i < self.contents().len() ==> #[trigger] self.contents()[i].line == i
    }

    /// An empty buffer holding up to `capacity` lines (at least one).
    pub fn new(capacity: usize) -> (r: Self)
        ensures
            r.wf(),
            r.contents().len() == 0,
            r.cap() == if capacity == 0 { 1 } else { capacity },
            r.evicted_count() == 0,
    {
        Buffer { lines: VecDeque::new(), capacity: if capacity == 0 { 1 } else { capacity }, evicted: 0 }
    }

    /// Adds a line at the end, dropping the oldest first when the buffer is
    /// full (and counting it as evicted); the remaining lines are
    /// re-indexed.
    pub fn push_line(&mut self, rhs: BufferLine<Vec<u8>>)
        requires
            old(self).wf(),
        ensures
            final(self).wf(),
            final(self).cap() == old(self).cap(),
            final(self).contents() == pushed(old(self).contents(), old(self).cap() as nat, rhs),
            old(self).contents().len() < old(self).cap() ==> {
                &&& final(self).contents() == old(self).contents().push(
                    BufferLine { line: old(self).contents().len() as usize, ..rhs },
                )
                &&& final(self).evicted_count() == old(self).evicted_count()
            },
            old(self).contents().len() == old(self).cap() ==> {
                &&& final(self).contents() == reindexed(old(self).contents().drop_first().push(rhs))
                &&& final(self).evicted_count() == if old(self).evicted_count() < u64::MAX {
                    (old(self).evicted_count() + 1) as u64
                } else {
                    old(self).evicted_count()
                }
            },
    {
        let ghost before = self.lines@;
        if self.lines.len() == self.capacity {
            self.lines.pop_front();
            if self.evicted < u64::MAX {
                self.evicted = self.evicted + 1;
            }
            let n = self.lines.len();
            let mut k: usize = 0;
            while k < n
                invariant
                    k <= n,
                    n == self.lines@.len(),
                    n == before.len() - 1,
                    self.capacity == old(self).capacity,
                    self.evicted == if old(self).evicted < u64::MAX {
                        (old(self).evicted + 1) as u64
                    } else {
                        old(self).evicted
                    },
                    forall|j: int| 0 <= j < n - k ==> #[trigger] self.lines@[j] == before[j + 1 + k],
                    forall|j: int|
                        n - k <= j < n ==> #[trigger] self.lines@[j] == (BufferLine {
                            line: (j - (n - k)) as usize,
                            ..before[j - (n - k) + 1]
                        }),
                decreases n - k,
            {
                let mut l = self.lines.pop_front().unwrap();
                l.line = k;
                self.lines.push_back(l);
                k += 1;
            }
            let mut line = rhs;
            line.line = self.lines.len();
            self.lines.push_back(line);
            assert(self.lines@ =~= reindexed(before.drop_first().push(rhs)));
        } else {
            let mut line = rhs;
            line.line = self.lines.len();
            self.lines.push_back(line);
        }
    }

    /// Adds the lines in order.
    pub fn push_lines(&mut self, rhs: Vec<BufferLine<Vec<u8>>>)
        requires
            old(self).wf(),
        ensures
            final(self).wf(),
            final(self).cap() == old(self).cap(),
            final(self).contents() == pushed_all(old(self).contents(), old(self).cap() as nat, rhs@),
            final(self).evicted_count() == evictions_after(
                old(self).evicted_count(),
                old(self).contents().len(),
                old(self).cap() as nat,
                rhs@.len(),
            ),
    {
        let mut rest = rhs;
        let ghost start = self.contents();
        while rest.len() > 0
            invariant
                self.wf(),
                self.cap() == old(self).cap(),
                rest@.len() <= rhs@.len(),
                pushed_all(self.contents(), self.cap() as nat, rest@) == pushed_all(
                    start,
                    self.cap() as nat,
                    rhs@,
                ),
                start == old(self).contents(),
                self.contents().len() == if start.len() + (rhs@.len() - rest@.len()) <= self.cap() {
                    start.len() + (rhs@.len() - rest@.len())
                } else {
                    self.cap() as int
                },
                self.evicted_count() == evictions_after(
                    old(self).evicted_count(),
                    start.len(),
                    self.cap() as nat,
                    (rhs@.len() - rest@.len()) as nat,
                ),
            decreases rest.len(),
        {
            let ghost before = rest@;
            let line = rest.remove(0);
            assert(rest@ =~= before.drop_first());
            self.push_line(line);
        }
    }

    /// The lines from index `start` up to `end`, clamped to the buffer.
    pub fn get_range(&self, start: usize, end: usize) -> (r: Vec<&BufferLine<Vec<u8>>>)
        ensures
            r@.len() == clamped_range(self.contents(), start as int, end as int).len(),
            forall|i: int|
                0 <= i < r@.len() ==> *#[trigger] r@[i] == clamped_range(
                    self.contents(),
                    start as int,
                    end as int,
                )[i],
    {
        let e = if end <= self.lines.len() { end } else { self.lines.len() };
        let s = if start <= e { start } else { e };
        let mut out: Vec<&BufferLine<Vec<u8>>> = Vec::new();
        let mut i = s;
        while i < e
            invariant
                s <= i <= e <= self.lines@.len(),
                out@.len() == i - s,
                forall|k: int| 0 <= k < out@.len() ==> *#[trigger] out@[k] == self.lines@[s + k],
            decreases e - i,
        {
            out.push(&self.lines[i]);
            i += 1;
        }
        out
    }

    /// Every line, oldest first.
    pub fn iter(&self) -> (r: Vec<&BufferLine<Vec<u8>>>)
        ensures
            r@.len() == self.contents().len(),
            forall|i: int| 0 <= i < r@.len() ==> *#[trigger] r@[i] == self.contents()[i],
    {
        self.get_range(0, self.lines.len())
    }

    /// Empties the buffer and resets the eviction count.
    pub fn clear(&mut self)
        requires
            old(self).wf(),
        ensures
            final(self).wf(),
            final(self).contents().len() == 0,
            final(self).evicted_count() == 0,
            final(self).cap() == old(self).cap(),
    {
        self.lines = VecDeque::new();
        self.evicted = 0;
    }

    /// How many lines were dropped from the front over the buffer's life.
    pub fn evicted(&self) -> (r: u64)
        ensures
            r == self.evicted_count(),
    {
        self.evicted
    }

    /// The number of lines.
    pub fn len(&self) -> (r: usize)
        ensures
            r == self.contents().len(),
    {
        self.lines.len()
    }

    /// The text a selection covers, as the screen shows it (escape
    /// sequences removed, so that the columns line up with the screen),
    /// with the escaped line ends `\r` and `\n` turned back into the
    /// characters.
    pub fn get_selection_content(&self, selection: &Selection, decoder: ScreenDecoder) -> (r: String)
        ensures
            r@ == replace_spec(
                replace_spec(
                    selected_text(
                        clamped_range(
                            self.contents(),
                            selection.earlier().line as int,
                            selection.later().line + 1,
                        ),
                        *selection,
                        decoder,
                    ),
                    seq!['\\', 'r'],
                    seq!['\r'],
                ),
                seq!['\\', 'n'],
                seq!['\n'],
            ),
    {
        let (start, end) = selection.ordered_positions();
        let count = self.len();
        let last = if end.line < usize::MAX { end.line + 1 } else { usize::MAX };
        let lines = self.get_range(start.line, last);
        let ghost range = clamped_range(self.contents(), start.line as int, last as int);
        assert(clamped_range(self.contents(), start.line as int, end.line + 1) == range);
        let mut text: Vec<char> = Vec::new();
        let mut i: usize = 0;
        while i < lines.len()
            invariant
                i <= lines@.len(),
                lines@.len() == range.len(),
                forall|k: int| 0 <= k < lines@.len() ==> *#[trigger] lines@[k] == range[k],
                text@ == selected_text(range.take(i as int), *selection, decoder),
            decreases lines.len() - i,
        {
            assert(range.take(i + 1).drop_last() =~= range.take(i as int));
            let line = lines[i];
            let plain = decoder.plain_text(line.message.as_slice());
            let content = chars_of(plain.as_str());
            let n = content.len();
            let part = match selection.selection_position(line.line) {
                SelectionPosition::OneLine { start_column, end_column } => {
                    let s = if start_column <= n { start_column } else { n };
                    let width = end_column - start_column;
                    let e = if width <= n - s { s + width } else { n };
                    sub_chars(content.as_slice(), s, e)
                },
                SelectionPosition::Top { column } => {
                    let s = if column <= n { column } else { n };
                    sub_chars(content.as_slice(), s, n)
                },
                SelectionPosition::Bottom { column } => {
                    let e = if column <= n { column } else { n };
                    sub_chars(content.as_slice(), 0, e)
                },
                SelectionPosition::Middle => content,
                SelectionPosition::Outside => Vec::new(),
            };
            extend_chars(&mut text, part.as_slice());
            i += 1;
        }
        assert(range.take(lines@.len() as int) =~= range);
        let escaped_cr: [char; 2] = ['\\', 'r'];
        let cr: [char; 1] = ['\r'];
        let escaped_lf: [char; 2] = ['\\', 'n'];
        let lf: [char; 1] = ['\n'];
        assert(escaped_cr@ =~= seq!['\\', 'r']);
        assert(cr@ =~= seq!['\r']);
        assert(escaped_lf@ =~= seq!['\\', 'n']);
        assert(lf@ =~= seq!['\n']);
        let text = replace_chars(text.as_slice(), escaped_cr.as_slice(), cr.as_slice());
        let text = replace_chars(text.as_slice(), escaped_lf.as_slice(), lf.as_slice());
        string_of(text.as_slice())
    }
}

} // verus!
