use vstd::prelude::*;
use crate::graphics::buffer::{BufferPosition, position_lt};

verus! {

/// A text selection between two buffer positions, in the order the user
/// dragged them (`end` may come before `start`).
#[derive(Clone, Copy, Default)]
pub struct Selection {
    pub start: BufferPosition,
    pub end: BufferPosition,
}

/// How a selection covers one line of the buffer.
pub enum SelectionPosition {
    OneLine { start_column: usize, end_column: usize },
    Top { column: usize },
    Middle,
    Bottom { column: usize },
    Outside,
}

impl Selection {
    /// The endpoint that comes first in the buffer.
    pub open spec fn earlier(self) -> BufferPosition {
        if position_lt(self.start, self.end) { self.start } else { self.end }
    }

    /// The endpoint that comes last in the buffer.
    pub open spec fn later(self) -> BufferPosition {
        if position_lt(self.start, self.end) { self.end } else { self.start }
    }

    pub open spec fn covers(self, line: int) -> bool {
        self.earlier().line <= line <= self.later().line
    }

    pub open spec fn position_of(self, line: int) -> SelectionPosition {
        if !self.covers(line) {
            SelectionPosition::Outside
        } else if self.earlier().line == self.later().line {
            SelectionPosition::OneLine {
                start_column: self.earlier().column,
                end_column: self.later().column,
            }
        } else if line == self.earlier().line {
            SelectionPosition::Top { column: self.earlier().column }
        } else if line == self.later().line {
            SelectionPosition::Bottom { column: self.later().column }
        } else {
            SelectionPosition::Middle
        }
    }

    /// The selection after `lines` rows dropped off the front of the buffer,
    /// or `None` when every selected row is gone.
    pub open spec fn shifted_up(self, lines: nat) -> Option<Selection> {
        if lines == 0 {
            Some(self)
        } else if self.later().line < lines {
            None
        } else {
            let start_line = if self.start.line >= lines { (self.start.line - lines) as usize } else { 0usize };
            let end_line = if self.end.line >= lines { (self.end.line - lines) as usize } else { 0usize };
            let earlier_evicted = self.earlier().line < lines;
            let earlier_is_start = position_lt(self.start, self.end);
            let start_column = if earlier_evicted && earlier_is_start { 0usize } else { self.start.column };
            let end_column = if earlier_evicted && !earlier_is_start { 0usize } else { self.end.column };
            Some(
                Selection {
                    start: BufferPosition { line: start_line, column: start_column },
                    end: BufferPosition { line: end_line, column: end_column },
                },
            )
        }
    }

    pub fn new(start: BufferPosition, end: BufferPosition) -> (s: Self)
        ensures
            s.start == start,
            s.end == end,
    {
        Self { start, end }
    }

    pub fn update(&mut self, new_point: BufferPosition)
        ensures
            final(self).start == old(self).start,
            final(self).end == new_point,
    {
        self.end = new_point;
    }

    /// Slides the selection up by `lines` rows, following the content when the
    /// buffer drops that many lines off its front. Returns `false` when every
    /// selected line has been evicted; the selection is then left as it was.
    pub fn shift_up(&mut self, lines: usize) -> (kept: bool)
        ensures
            kept == old(self).shifted_up(lines as nat).is_some(),
            kept ==> Some(*final(self)) == old(self).shifted_up(lines as nat),
            !kept ==> *final(self) == *old(self),
    {
        if lines == 0 {
            return true;
        }
        let (earlier, later) = self.ordered_positions();
        if later.line < lines {
            return false;
        }
        let earlier_is_start = self.start < self.end;
        let earlier_evicted = earlier.line < lines;

        self.start.line = self.start.line.saturating_sub(lines);
        self.end.line = self.end.line.saturating_sub(lines);

        if earlier_evicted {
            if earlier_is_start {
                self.start.column = 0;
            } else {
                self.end.column = 0;
            }
        }
        true
    }

    pub fn ordered_positions(&self) -> (r: (BufferPosition, BufferPosition))
        ensures
            r.0 == self.earlier(),
            r.1 == self.later(),
    {
        if self.start < self.end {
            (self.start, self.end)
        } else {
            (self.end, self.start)
        }
    }

    pub fn selection_position(&self, line: usize) -> (r: SelectionPosition)
        ensures
            r == self.position_of(line as int),
    {
        if !self.is_inside(line) {
            return SelectionPosition::Outside;
        }
        let (start, end) = self.ordered_positions();
        if start.line == end.line {
            return SelectionPosition::OneLine { start_column: start.column, end_column: end.column };
        }
        if line == start.line {
            SelectionPosition::Top { column: start.column }
        } else if line == end.line {
            SelectionPosition::Bottom { column: end.column }
        } else {
            SelectionPosition::Middle
        }
    }

    pub fn is_inside(&self, line: usize) -> (r: bool)
        ensures
            r == self.covers(line as int),
    {
        let (start, end) = self.ordered_positions();
        start.line <= line && line <= end.line
    }
}

/// The two endpoints returned by `ordered_positions` are in buffer order and
/// are the selection's own endpoints.
pub proof fn lemma_ordered_positions_sorted(s: Selection)
    ensures
        !position_lt(s.later(), s.earlier()),
        (s.earlier() == s.start && s.later() == s.end) || (s.earlier() == s.end && s.later() == s.start),
{
}

/// Shifting by zero lines keeps the selection, and shifting by `a` then by
/// `b` lines lands the surviving endpoints on the same lines as shifting once
/// by `a + b`.
pub proof fn lemma_shift_up_composes(s: Selection, a: nat, b: nat)
    ensures
        s.shifted_up(0) == Some(s),
        s.shifted_up(a) is Some && s.shifted_up(a).unwrap().shifted_up(b) is Some ==> {
            &&& s.shifted_up(a + b) is Some
            &&& s.shifted_up(a).unwrap().shifted_up(b).unwrap().start.line == s.shifted_up(a + b).unwrap().start.line
            &&& s.shifted_up(a).unwrap().shifted_up(b).unwrap().end.line == s.shifted_up(a + b).unwrap().end.line
        },
{
}

/// A selection whose every line is evicted is reported gone; otherwise its
/// later endpoint keeps its column and moves up by exactly `lines`.
pub proof fn lemma_shift_up_keeps_later_column(s: Selection, lines: nat)
    requires
        lines > 0,
    ensures
        s.later().line < lines <==> s.shifted_up(lines) is None,
        s.shifted_up(lines) matches Some(t) ==> t.later().line == s.later().line - lines
            && t.later().column == s.later().column,
{
}

} // verus!
