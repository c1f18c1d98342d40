//! What the screen shows of the history: the whole history, the part of it
//! the filter lets through, and the view over that part, kept in step as
//! lines arrive and as the user scrolls, searches and filters.
use vstd::prelude::*;
use crate::graphics::buffer::{
    Buffer, BufferLine, BufferPosition, evictions_after, pushed, pushed_all, reindexed, serialized,
};
use crate::graphics::Serialize;
use crate::graphics::ansi::strip_csi;
use crate::graphics::graphics_task::GraphicsCommand;
use crate::graphics::message_filter::{MessageFilter, regex_error};
use crate::graphics::screen::{
    query_matches, restored, sat_sub, visible_rows, decode_spec, Screen, ScreenDecoder, ScreenMode, SearchHit,
};
use crate::infra::logger::LogLevel;

verus! {

/// What is compared of a line when it is copied: every field, the bytes by
/// value.
pub open spec fn line_view(l: BufferLine<Vec<u8>>) -> (usize, u64, i64, Option<LogLevel>, Seq<u8>, bool) {
    (l.line, l.id, l.timestamp, l.level, l.message@, l.is_tx)
}

pub open spec fn lines_view(s: Seq<BufferLine<Vec<u8>>>) -> Seq<(usize, u64, i64, Option<LogLevel>, Seq<u8>, bool)> {
    s.map_values(|l: BufferLine<Vec<u8>>| line_view(l))
}

/// The lines of `lines` that `filter` lets through with `decoder`, in order.
pub open spec fn allowed_lines(filter: MessageFilter, decoder: ScreenDecoder, lines: Seq<BufferLine<Vec<u8>>>) -> Seq<
    BufferLine<Vec<u8>>,
>
    decreases lines.len(),
{
    if lines.len() == 0 {
        Seq::empty()
    } else {
        let rest = allowed_lines(filter, decoder, lines.drop_last());
        let l = lines.last();
        if filter.allows_spec(l.level, l.is_tx, l.message@, decoder) {
            rest.push(l)
        } else {
            rest
        }
    }
}

/// The search hits of one line: each match as its column on that line.
pub open spec fn line_hits(line: BufferLine<Vec<u8>>, matches: Seq<(usize, usize)>) -> Seq<SearchHit> {
    matches.map_values(
        |m: (usize, usize)| SearchHit { position: BufferPosition { line: line.line, column: m.0 }, line_id: line.id },
    )
}

/// The hits of a search over `lines`, top to bottom, each line searched as
/// the screen shows it (decoded, without escape sequences).
pub open spec fn search_hits(
    lines: Seq<BufferLine<Vec<u8>>>,
    query: Seq<char>,
    is_case_sensitive: bool,
    is_regex: bool,
    decoder: ScreenDecoder,
) -> Seq<SearchHit>
    decreases lines.len(),
{
    if lines.len() == 0 {
        Seq::empty()
    } else {
        let l = lines.last();
        search_hits(lines.drop_last(), query, is_case_sensitive, is_regex, decoder) + line_hits(
            l,
            query_matches(query, is_case_sensitive, is_regex, strip_csi(decode_spec(decoder, l.message@))),
        )
    }
}

/// A copy of `l`.
pub fn copy_line(l: &BufferLine<Vec<u8>>) -> (r: BufferLine<Vec<u8>>)
    ensures
        line_view(r) == line_view(*l),
{
    let message = l.message.clone();
    assert(message@ =~= l.message@);
    BufferLine { line: l.line, id: l.id, timestamp: l.timestamp, level: l.level, message, is_tx: l.is_tx }
}

proof fn lemma_pushed_view(a: Seq<BufferLine<Vec<u8>>>, b: Seq<BufferLine<Vec<u8>>>, cap: nat, x: BufferLine<Vec<u8>>, y: BufferLine<Vec<u8>>)
    requires
        cap > 0,
        lines_view(a) == lines_view(b),
        line_view(x) == line_view(y),
    ensures
        lines_view(pushed(a, cap, x)) == lines_view(pushed(b, cap, y)),
{
    assert(a.len() == lines_view(a).len() && b.len() == lines_view(b).len());
    assert forall|i: int| 0 <= i < a.len() implies line_view(#[trigger] a[i]) == line_view(b[i]) by {
        assert(lines_view(a)[i] == lines_view(b)[i]);
    }
    if a.len() < cap {
        assert(lines_view(pushed(a, cap, x)) =~= lines_view(pushed(b, cap, y)));
    } else {
        let sa = a.drop_first().push(x);
        let sb = b.drop_first().push(y);
        assert forall|i: int| 0 <= i < sa.len() implies line_view(#[trigger] reindexed(sa)[i]) == line_view(
            reindexed(sb)[i],
        ) by {
            if i < sa.len() - 1 {
                assert(sa[i] == a[i + 1] && sb[i] == b[i + 1]);
                assert(line_view(a[i + 1]) == line_view(b[i + 1]));
            } else {
                assert(sa[i] == x && sb[i] == y);
            }
        }
        assert(lines_view(reindexed(sa)) =~= lines_view(reindexed(sb)));
    }
}

proof fn lemma_pushed_all_view(
    a: Seq<BufferLine<Vec<u8>>>,
    b: Seq<BufferLine<Vec<u8>>>,
    cap: nat,
    ra: Seq<BufferLine<Vec<u8>>>,
    rb: Seq<BufferLine<Vec<u8>>>,
)
    requires
        cap > 0,
        lines_view(a) == lines_view(b),
        lines_view(ra) == lines_view(rb),
    ensures
        lines_view(pushed_all(a, cap, ra)) == lines_view(pushed_all(b, cap, rb)),
    decreases ra.len(),
{
    assert(ra.len() == lines_view(ra).len() && rb.len() == lines_view(rb).len());
    if ra.len() > 0 {
        assert(lines_view(ra)[0] == lines_view(rb)[0]);
        lemma_pushed_view(a, b, cap, ra[0], rb[0]);
        assert forall|k: int| 0 <= k < ra.len() - 1 implies #[trigger] lines_view(ra.drop_first())[k] == lines_view(
            rb.drop_first(),
        )[k] by {
            assert(lines_view(ra)[k + 1] == lines_view(rb)[k + 1]);
        }
        assert(lines_view(ra.drop_first()) =~= lines_view(rb.drop_first()));
        lemma_pushed_all_view(pushed(a, cap, ra[0]), pushed(b, cap, rb[0]), cap, ra.drop_first(), rb.drop_first());
    }
}

/// The screen's state: the whole history, the filtered history it shows,
/// the filter, the view, and the lowest log level shown.
pub struct Display {
    pub screen: Screen,
    pub buffer: Buffer,
    pub full_buffer: Buffer,
    pub message_filter: MessageFilter,
    pub system_log_level: LogLevel,
}

impl Display {
    pub open spec fn wf(&self) -> bool {
        &&& self.screen.wf()
        &&& self.buffer.wf()
        &&& self.full_buffer.wf()
        &&& self.message_filter.wf()
    }

    /// Empty histories of `capacity` lines each, no filter, every log level
    /// shown.
    pub fn new(capacity: usize) -> (r: Self)
        ensures
            r.wf(),
            r.buffer.contents().len() == 0,
            r.full_buffer.contents().len() == 0,
            r.buffer.cap() == if capacity == 0 { 1 } else { capacity },
            r.full_buffer.cap() == if capacity == 0 { 1 } else { capacity },
            r.message_filter.pattern_text() == ".*"@,
            !r.message_filter.excluding(),
            r.system_log_level == LogLevel::Debug,
            r.screen.auto_scroll,
            r.screen.mode is Normal,
    {
        Display {
            screen: Screen::default(),
            buffer: Buffer::new(capacity),
            full_buffer: Buffer::new(capacity),
            message_filter: MessageFilter::default(),
            system_log_level: LogLevel::Debug,
        }
    }

    /// The last line the view can start at: the shown lines (counted in 16
    /// bits) less the rows of content.
    pub open spec fn max_main_axis_spec(&self) -> int {
        sat_sub((self.buffer.contents().len() as u16) as int, visible_rows(self.screen.size))
    }

    pub fn max_main_axis(&self) -> (r: u16)
        ensures
            r == self.max_main_axis_spec(),
    {
        let buffer_len = self.buffer.len() as u16;
        let height = self.screen.size().height;
        let rows = if height >= 2 { height - 2 } else { 0 };
        if buffer_len >= rows { buffer_len - rows } else { 0 }
    }

    /// The lines of the whole history that the filter lets through, copied.
    fn allowed_copies(&self) -> (r: Vec<BufferLine<Vec<u8>>>)
        requires
            self.message_filter.wf(),
        ensures
            lines_view(r@) == lines_view(
                allowed_lines(self.message_filter, self.screen.decoder, self.full_buffer.contents()),
            ),
    {
        let decoder = self.screen.decoder();
        let lines = self.full_buffer.iter();
        let ghost all = self.full_buffer.contents();
        let mut out: Vec<BufferLine<Vec<u8>>> = Vec::new();
        let mut i: usize = 0;
        assert(all.take(0) =~= Seq::<BufferLine<Vec<u8>>>::empty());
        while i < lines.len()
            invariant
                i <= lines@.len(),
                lines@.len() == all.len(),
                self.message_filter.wf(),
                decoder == self.screen.decoder,
                all == self.full_buffer.contents(),
                forall|k: int| 0 <= k < lines@.len() ==> *#[trigger] lines@[k] == all[k],
                lines_view(out@) == lines_view(allowed_lines(self.message_filter, decoder, all.take(i as int))),
            decreases lines.len() - i,
        {
            assert(all.take(i + 1).drop_last() =~= all.take(i as int));
            assert(all.take(i + 1).last() == *lines@[i as int]);
            let line = lines[i];
            if self.message_filter.allows(line, decoder) {
                let ghost before = out@;
                let c = copy_line(line);
                out.push(c);
                assert(lines_view(out@) =~= lines_view(before).push(line_view(*line)));
                assert(lines_view(allowed_lines(self.message_filter, decoder, all.take(i + 1))) =~= lines_view(
                    allowed_lines(self.message_filter, decoder, all.take(i as int)),
                ).push(line_view(*line)));
            }
            i += 1;
        }
        assert(all.take(lines@.len() as int) =~= all);
        out
    }

    /// What `rebuild_displayed_buffer` does.
    pub open spec fn rebuilt(before: Display, after: Display) -> bool {
        &&& after.full_buffer == before.full_buffer
        &&& after.message_filter == before.message_filter
        &&& after.system_log_level == before.system_log_level
        &&& after.buffer.cap() == before.buffer.cap()
        &&& lines_view(after.buffer.contents()) == lines_view(
            pushed_all(
                Seq::empty(),
                before.buffer.cap() as nat,
                allowed_lines(before.message_filter, before.screen.decoder, before.full_buffer.contents()),
            ),
        )
        &&& after.screen.auto_scroll
        &&& after.screen.position == (BufferPosition {
            line: sat_sub(after.buffer.contents().len() as int, visible_rows(before.screen.size)) as usize,
            column: 0,
        })
        &&& after.screen.selection is None
        &&& after.screen.bookmarks == before.screen.bookmarks
        &&& after.screen.current_bookmark == before.screen.current_bookmark
        &&& after.screen.mode == before.screen.mode
        &&& after.screen.size == before.screen.size
        &&& after.screen.decoder == before.screen.decoder
        &&& after.screen.evicted_seen == after.buffer.evicted_count()
    }

    /// Derives the shown history again from the whole one under the current
    /// filter: hidden lines come back and rejected ones go. Every line is
    /// re-indexed, so the view goes back to following the bottom, the
    /// selection is dropped; bookmarks, which follow line identities, stay.
    pub fn rebuild_displayed_buffer(&mut self)
        requires
            old(self).wf(),
        ensures
            final(self).wf(),
            Display::rebuilt(*old(self), *final(self)),
    {
        let displayed = self.allowed_copies();
        let ghost allowed = allowed_lines(self.message_filter, self.screen.decoder, self.full_buffer.contents());
        self.buffer.clear();
        let ghost empty = self.buffer.contents();
        self.buffer.push_lines(displayed);
        proof {
            assert(empty =~= Seq::<BufferLine<Vec<u8>>>::empty());
            lemma_pushed_all_view(empty, empty, self.buffer.cap() as nat, displayed@, allowed);
        }
        self.screen.rebase_on_rebuilt_buffer();
        self.screen.update_after_new_lines(&self.buffer);
    }

    /// The view fields other than the mode are those of `b`.
    pub open spec fn same_but_mode(a: Screen, b: Screen) -> bool {
        &&& a.position == b.position
        &&& a.auto_scroll == b.auto_scroll
        &&& a.decoder == b.decoder
        &&& a.size == b.size
        &&& a.selection == b.selection
        &&& a.bookmarks == b.bookmarks
        &&& a.current_bookmark == b.current_bookmark
        &&& a.evicted_seen == b.evicted_seen
    }

    /// What a search update leaves: while searching, the hits of `query`
    /// over the shown lines, the navigation back on the hit it was on (see
    /// `restored`), and that hit shown; outside a search, nothing changes.
    pub open spec fn searched(before: Display, after: Display, query: Seq<char>, is_case_sensitive: bool, is_regex: bool) -> bool {
        &&& after.buffer == before.buffer
        &&& after.full_buffer == before.full_buffer
        &&& after.message_filter == before.message_filter
        &&& after.system_log_level == before.system_log_level
        &&& before.screen.mode is Normal ==> after.screen == before.screen
        &&& before.screen.mode is Search ==> {
            let hits = if query.len() == 0 {
                Seq::<SearchHit>::empty()
            } else {
                search_hits(before.buffer.contents(), query, is_case_sensitive, is_regex, before.screen.decoder)
            };
            let current = if query.len() == 0 { 0 } else { restored(hits, before.screen.mode.current_hit_spec()) };
            &&& after.screen.mode matches ScreenMode::Search { current: c, entries, matcher } && c == current
                && entries@ == hits && forall|line: Seq<char>| #[trigger] matcher.matches_spec(line) == query_matches(
                query,
                is_case_sensitive,
                is_regex,
                line,
            )
            &&& after.screen.bookmarks == before.screen.bookmarks
            &&& after.screen.selection == before.screen.selection
            &&& after.screen.size == before.screen.size
            &&& after.screen.decoder == before.screen.decoder
            &&& if 0 <= current < hits.len() {
                let hit = hits[current];
                let line = sat_sub(hit.position.line as int, before.screen.center_y());
                let m = before.max_main_axis_spec();
                &&& after.screen.position.line == if line <= m { line } else { m }
                &&& after.screen.position.column == sat_sub(
                    hit.position.column as int,
                    (before.screen.size.width / 2) as int,
                )
                &&& !after.screen.auto_scroll
            } else {
                &&& after.screen.position == before.screen.position
                &&& after.screen.auto_scroll == before.screen.auto_scroll
            }
        }
    }

    /// Searches the shown lines again for `query` (see `searched`).
    pub fn update_search_state(&mut self, query: &str, is_case_sensitive: bool, is_regex: bool)
        requires
            old(self).wf(),
        ensures
            final(self).wf(),
            Display::searched(*old(self), *final(self), query@, is_case_sensitive, is_regex),
    {
        if let ScreenMode::Normal = self.screen.mode {
            return;
        }
        let decoder = self.screen.decoder();
        let previous = self.screen.mode.take_hits_for_rescan();
        self.screen.mode.set_query(crate::text::to_owned_string(query), is_case_sensitive, is_regex);
        if query.is_empty() {
            proof {
                assert(self.screen.mode->entries@ =~= Seq::<SearchHit>::empty());
            }
            return;
        }
        let ghost all = self.buffer.contents();
        let ghost s0 = self.screen;
        let lines = self.buffer.iter();
        let mut i: usize = 0;
        assert(all.take(0) =~= Seq::<BufferLine<Vec<u8>>>::empty());
        while i < lines.len()
            invariant
                i <= lines@.len(),
                lines@.len() == all.len(),
                all == self.buffer.contents(),
                self.buffer == old(self).buffer,
                self.full_buffer == old(self).full_buffer,
                self.message_filter == old(self).message_filter,
                self.system_log_level == old(self).system_log_level,
                forall|k: int| 0 <= k < lines@.len() ==> *#[trigger] lines@[k] == all[k],
                decoder == self.screen.decoder,
                Display::same_but_mode(self.screen, s0),
                self.screen.mode matches ScreenMode::Search { current, entries, matcher } && current == 0
                    && entries@ == search_hits(all.take(i as int), query@, is_case_sensitive, is_regex, decoder)
                    && forall|line: Seq<char>| #[trigger] matcher.matches_spec(line) == query_matches(
                    query@,
                    is_case_sensitive,
                    is_regex,
                    line,
                ),
            decreases lines.len() - i,
        {
            assert(all.take(i + 1).drop_last() =~= all.take(i as int));
            assert(all.take(i + 1).last() == *lines@[i as int]);
            let line = lines[i];
            let text = decoder.plain_text(line.message.as_slice());
            let matches = self.screen.mode.search_matches(text.as_str());
            let ghost base = search_hits(all.take(i as int), query@, is_case_sensitive, is_regex, decoder);
            let mut k: usize = 0;
            assert(matches@.take(0) =~= Seq::<(usize, usize)>::empty());
            assert(base + line_hits(*line, matches@.take(0)) =~= base);
            while k < matches.len()
                invariant
                    k <= matches@.len(),
                    decoder == self.screen.decoder,
                    self.buffer == old(self).buffer,
                    self.full_buffer == old(self).full_buffer,
                    self.message_filter == old(self).message_filter,
                    self.system_log_level == old(self).system_log_level,
                    Display::same_but_mode(self.screen, s0),
                    self.screen.mode matches ScreenMode::Search { current, entries, matcher } && current == 0
                        && entries@ == base + line_hits(*line, matches@.take(k as int)) && forall|l: Seq<char>|
                        #[trigger] matcher.matches_spec(l) == query_matches(query@, is_case_sensitive, is_regex, l),
                decreases matches.len() - k,
            {
                let (column, _len) = matches[k];
                self.screen.mode.add_entry(SearchHit { position: BufferPosition { line: line.line, column }, line_id: line.id });
                assert(line_hits(*line, matches@.take(k + 1)) =~= line_hits(*line, matches@.take(k as int)).push(
                    SearchHit { position: BufferPosition { line: line.line, column }, line_id: line.id },
                ));
                k += 1;
            }
            assert(matches@.take(matches@.len() as int) =~= matches@);
            i += 1;
        }
        assert(all.take(lines@.len() as int) =~= all);
        self.screen.mode.restore_current(previous);
        let m = self.max_main_axis();
        self.screen.jump_to_current_search(m as usize);
    }

    /// Whether `cmd` can be handled without an index overflowing: the
    /// cell a click lands on, the line a bookmark jump is anchored at, and
    /// the search navigation stay within `usize`.
    pub open spec fn ready_for(&self, cmd: GraphicsCommand) -> bool {
        let line = self.screen.position.line;
        let column = self.screen.position.column;
        match cmd {
            GraphicsCommand::Click(p) => p.y + line <= usize::MAX && p.x + column <= usize::MAX,
            GraphicsCommand::Move(p) => p.y + line <= usize::MAX && p.x + column <= usize::MAX,
            GraphicsCommand::ToggleBookmark(p) => p.y + line < usize::MAX,
            GraphicsCommand::NextBookmark => line + self.screen.center_y() <= usize::MAX,
            GraphicsCommand::PrevBookmark => line + self.screen.center_y() <= usize::MAX,
            GraphicsCommand::NextSearch => self.screen.mode matches ScreenMode::Search { current, .. } ==> current
                < usize::MAX,
            GraphicsCommand::PrevSearch => self.screen.mode matches ScreenMode::Search { current, entries, .. }
                ==> current <= entries@.len(),
            _ => true,
        }
    }

    pub fn can_handle(&self, cmd: &GraphicsCommand) -> (r: bool)
        ensures
            r == self.ready_for(*cmd),
    {
        let line = self.screen.position.line;
        let column = self.screen.position.column;
        match cmd {
            GraphicsCommand::Click(p) => p.y as usize <= usize::MAX - line && p.x as usize <= usize::MAX - column,
            GraphicsCommand::Move(p) => p.y as usize <= usize::MAX - line && p.x as usize <= usize::MAX - column,
            GraphicsCommand::ToggleBookmark(p) => (p.y as usize) < usize::MAX - line,
            GraphicsCommand::NextBookmark => self.screen_center() <= usize::MAX - line,
            GraphicsCommand::PrevBookmark => self.screen_center() <= usize::MAX - line,
            GraphicsCommand::NextSearch => match &self.screen.mode {
                ScreenMode::Search { current, .. } => *current < usize::MAX,
                ScreenMode::Normal => true,
            },
            GraphicsCommand::PrevSearch => match &self.screen.mode {
                ScreenMode::Search { current, entries, .. } => *current <= entries.len(),
                ScreenMode::Normal => true,
            },
            _ => true,
        }
    }

    fn screen_center(&self) -> (r: usize)
        ensures
            r == self.screen.center_y(),
    {
        let h = self.screen.size().height;
        let rows = if h >= 2 { h - 2 } else { 0 };
        (rows / 2) as usize
    }

    /// The commands `handle_view_command` carries out; the others need the
    /// files, the clipboard or the input line.
    pub open spec fn handles(cmd: GraphicsCommand) -> bool {
        !(cmd is SaveData || cmd is RecordData || cmd is Rename || cmd is SetFilter || cmd is SearchChange
            || cmd is ChangeToSearchMode || cmd is CopyToClipboard || cmd is Exit)
    }

    /// The histories, the filter and the log level are those of `before`.
    pub open spec fn same_history(before: Display, after: Display) -> bool {
        &&& after.buffer == before.buffer
        &&& after.full_buffer == before.full_buffer
        &&& after.message_filter == before.message_filter
        &&& after.system_log_level == before.system_log_level
    }

    /// The view before a scroll by the user: it stops following new lines
    /// when there is anything to scroll.
    pub open spec fn unpinned(before: Display) -> Screen {
        if before.max_main_axis_spec() > 0 {
            Screen { auto_scroll: false, ..before.screen }
        } else {
            before.screen
        }
    }

    /// What `handle_view_command` does with `cmd`; `m` is the last line the
    /// view can start at, a page is the screen's height less five rows.
    pub open spec fn view_effect(before: Display, after: Display, cmd: GraphicsCommand) -> bool {
        let m = before.max_main_axis_spec() as usize;
        let page = sat_sub(before.screen.size.height as int, 5) as isize;
        match cmd {
            GraphicsCommand::Clear => {
                &&& after.buffer.contents().len() == 0
                &&& after.full_buffer.contents().len() == 0
                &&& after.buffer.evicted_count() == 0
                &&& after.full_buffer.evicted_count() == 0
                &&& after.buffer.cap() == before.buffer.cap()
                &&& after.full_buffer.cap() == before.full_buffer.cap()
                &&& after.message_filter == before.message_filter
                &&& after.system_log_level == before.system_log_level
                &&& after.screen.auto_scroll
                &&& after.screen.position == (BufferPosition { line: 0, column: 0 })
                &&& after.screen.selection is None
                &&& after.screen.marks().len() == 0
                &&& after.screen.current_bookmark is None
                &&& after.screen.evicted_seen == 0
                &&& after.screen.mode == before.screen.mode
            },
            GraphicsCommand::SetLogLevel(level) => after == (Display { system_log_level: level, ..before }),
            _ => Display::same_history(before, after) && match cmd {
                GraphicsCommand::Click(p) => Screen::selection_start_effect(before.screen, after.screen, p),
                GraphicsCommand::Move(p) => Screen::selection_end_effect(before.screen, after.screen, p),
                GraphicsCommand::ToggleBookmark(p) => Screen::toggle_effect(
                    before.screen,
                    after.screen,
                    before.buffer.contents(),
                    p,
                ),
                GraphicsCommand::NextBookmark => Screen::bookmark_jump(
                    before.screen,
                    after.screen,
                    before.buffer.contents(),
                    m,
                    true,
                ),
                GraphicsCommand::PrevBookmark => Screen::bookmark_jump(
                    before.screen,
                    after.screen,
                    before.buffer.contents(),
                    m,
                    false,
                ),
                GraphicsCommand::ScrollLeft => Screen::scroll_horizontal_effect(before.screen, after.screen, -3isize, m),
                GraphicsCommand::ScrollRight => Screen::scroll_horizontal_effect(before.screen, after.screen, 3isize, m),
                GraphicsCommand::ScrollUp => Screen::scroll_vertical_effect(
                    Display::unpinned(before),
                    after.screen,
                    -3isize,
                    m,
                ),
                GraphicsCommand::ScrollDown => Screen::scroll_vertical_effect(before.screen, after.screen, 3isize, m),
                GraphicsCommand::PageUp => Screen::scroll_vertical_effect(
                    Display::unpinned(before),
                    after.screen,
                    (-page) as isize,
                    m,
                ),
                GraphicsCommand::PageDown => Screen::scroll_vertical_effect(
                    Display::unpinned(before),
                    after.screen,
                    page,
                    m,
                ),
                GraphicsCommand::JumpToStart => after.screen == (Screen {
                    position: BufferPosition { line: 0, ..before.screen.position },
                    ..Display::unpinned(before)
                }),
                GraphicsCommand::JumpToEnd => after.screen == (Screen {
                    position: BufferPosition { line: m, ..before.screen.position },
                    auto_scroll: true,
                    ..before.screen
                }),
                GraphicsCommand::NextSearch => Screen::next_search_effect(before.screen, after.screen, m),
                GraphicsCommand::PrevSearch => Screen::previous_search_effect(before.screen, after.screen, m),
                GraphicsCommand::ChangeToNormalMode => Screen::normal_mode_effect(before.screen, after.screen, m),
                _ => after.screen == before.screen,
            },
        }
    }

    /// Carries out a command that only concerns the view (scrolling,
    /// selecting, bookmarks, search navigation, clearing, the log level);
    /// says whether `cmd` was one (see `handles`).
    pub fn handle_view_command(&mut self, cmd: &GraphicsCommand) -> (handled: bool)
        requires
            old(self).wf(),
            old(self).ready_for(*cmd),
        ensures
            final(self).wf(),
            handled == Display::handles(*cmd),
            Display::view_effect(*old(self), *final(self), *cmd),
    {
        let m = self.max_main_axis() as usize;
        let height = self.screen.size().height;
        let page = (if height >= 5 { height - 5 } else { 0 }) as isize;
        match cmd {
            GraphicsCommand::Redraw => {},
            GraphicsCommand::Click(p) => self.screen.set_selection(*p),
            GraphicsCommand::Move(p) => self.screen.set_selection_end(*p),
            GraphicsCommand::ToggleBookmark(p) => self.screen.toggle_bookmark(&self.buffer, *p),
            GraphicsCommand::NextBookmark => self.screen.jump_to_next_bookmark(&self.buffer, m),
            GraphicsCommand::PrevBookmark => self.screen.jump_to_previous_bookmark(&self.buffer, m),
            GraphicsCommand::SetLogLevel(level) => {
                self.system_log_level = *level;
            },
            GraphicsCommand::Clear => {
                self.screen.clear();
                self.buffer.clear();
                self.full_buffer.clear();
            },
            GraphicsCommand::ScrollLeft => self.screen.scroll_horizontal(-3, m),
            GraphicsCommand::ScrollRight => self.screen.scroll_horizontal(3, m),
            GraphicsCommand::ScrollUp => {
                if m > 0 {
                    self.screen.disable_auto_scroll();
                }
                self.screen.scroll_vertical(-3, m);
            },
            GraphicsCommand::ScrollDown => self.screen.scroll_vertical(3, m),
            GraphicsCommand::JumpToStart => {
                if m > 0 {
                    self.screen.disable_auto_scroll();
                }
                self.screen.jump_to_start();
            },
            GraphicsCommand::JumpToEnd => self.screen.jump_to_end(m),
            GraphicsCommand::PageUp => {
                if m > 0 {
                    self.screen.disable_auto_scroll();
                }
                self.screen.scroll_vertical(-page, m);
            },
            GraphicsCommand::PageDown => {
                if m > 0 {
                    self.screen.disable_auto_scroll();
                }
                self.screen.scroll_vertical(page, m);
            },
            GraphicsCommand::NextSearch => self.screen.jump_to_next_search(m),
            GraphicsCommand::PrevSearch => self.screen.jump_to_previous_search(m),
            GraphicsCommand::ChangeToNormalMode => self.screen.change_mode_to_normal(m),
            _ => {
                return false;
            },
        }
        true
    }


    /// What taking in new `lines` does: the whole history gets all of them,
    /// the shown one those the filter lets through, and the view catches up.
    pub open spec fn lines_added(before: Display, after: Display, lines: Seq<BufferLine<Vec<u8>>>) -> bool {
        let allowed = allowed_lines(before.message_filter, before.screen.decoder, lines);
        &&& after.full_buffer.cap() == before.full_buffer.cap()
        &&& after.full_buffer.contents() == pushed_all(
            before.full_buffer.contents(),
            before.full_buffer.cap() as nat,
            lines,
        )
        &&& after.full_buffer.evicted_count() == evictions_after(
            before.full_buffer.evicted_count(),
            before.full_buffer.contents().len(),
            before.full_buffer.cap() as nat,
            lines.len(),
        )
        &&& after.buffer.cap() == before.buffer.cap()
        &&& lines_view(after.buffer.contents()) == lines_view(
            pushed_all(before.buffer.contents(), before.buffer.cap() as nat, allowed),
        )
        &&& after.buffer.evicted_count() == evictions_after(
            before.buffer.evicted_count(),
            before.buffer.contents().len(),
            before.buffer.cap() as nat,
            allowed.len(),
        )
        &&& after.message_filter == before.message_filter
        &&& after.system_log_level == before.system_log_level
        &&& Screen::caught_up_effect(
            before.screen,
            after.screen,
            after.buffer.evicted_count(),
            after.buffer.contents().len(),
        )
    }

    /// Takes in new lines: puts them in order of time, adds them to the
    /// histories (see `lines_added`) and searches the shown one again for
    /// `query`. Gives back the lines as saved, in that order.
    pub fn ingest(&mut self, lines: Vec<BufferLine<Vec<u8>>>, query: &str, is_case_sensitive: bool, is_regex: bool) -> (r:
        Vec<String>)
        requires
            old(self).wf(),
        ensures
            final(self).wf(),
            exists|sorted: Seq<BufferLine<Vec<u8>>>|
                {
                    &&& #[trigger] sorted_by_time(sorted)
                    &&& sorted.to_multiset() == lines@.to_multiset()
                    &&& exists|idx: Seq<int>| kept_time_order(lines@, sorted, idx)
                    &&& saved_as(r@, sorted)
                    &&& exists|mid: Display|
                        Display::lines_added(*old(self), mid, sorted) && #[trigger] Display::searched(
                            mid,
                            *final(self),
                            query@,
                            is_case_sensitive,
                            is_regex,
                        )
                },
    {
        let sorted = sort_by_timestamp(lines);
        let saved = serialize_lines(sorted.as_slice());
        let displayed = allowed_copies_of(&self.message_filter, self.screen.decoder(), sorted.as_slice());
        let ghost s = sorted@;
        let ghost before = *self;
        let ghost allowed = allowed_lines(self.message_filter, self.screen.decoder, s);
        self.full_buffer.push_lines(sorted);
        let ghost b0 = self.buffer.contents();
        self.buffer.push_lines(displayed);
        proof {
            lemma_pushed_all_view(b0, b0, self.buffer.cap() as nat, displayed@, allowed);
            assert(displayed@.len() == lines_view(displayed@).len() && allowed.len() == lines_view(allowed).len());
        }
        self.screen.update_after_new_lines(&self.buffer);
        let ghost mid = *self;
        assert(Display::lines_added(before, mid, s));
        self.update_search_state(query, is_case_sensitive, is_regex);
        assert(Display::searched(mid, *self, query@, is_case_sensitive, is_regex));
        assert(sorted_by_time(s));
        saved
    }

    /// Sets the filter of received lines (see `FilterChange`) and, when it
    /// changed, shows the history again under it and searches it again for
    /// `query`.
    pub fn set_filter(&mut self, pattern: &str, exclude: bool, query: &str, is_case_sensitive: bool, is_regex: bool) -> (r:
        FilterChange)
        requires
            old(self).wf(),
        ensures
            final(self).wf(),
            pattern@.len() == 0 ==> r == if exclude {
                FilterChange::MutedAll
            } else {
                FilterChange::Cleared
            } && final(self).message_filter.pattern_text() == ".*"@ && final(self).message_filter.excluding() == exclude,
            pattern@.len() > 0 && regex_error(pattern@) is None ==> r == if exclude {
                FilterChange::Muting
            } else {
                FilterChange::Showing
            } && final(self).message_filter.pattern_text() == pattern@ && final(self).message_filter.excluding()
                == exclude,
            pattern@.len() > 0 && regex_error(pattern@) is Some ==> (r matches FilterChange::Invalid(m) && Some(m@)
                == regex_error(pattern@) && *final(self) == *old(self)),
            !(r is Invalid) ==> exists|mid: Display|
                Display::rebuilt(Display { message_filter: final(self).message_filter, ..*old(self) }, mid)
                    && #[trigger] Display::searched(mid, *final(self), query@, is_case_sensitive, is_regex),
    {
        let change = if pattern.is_empty() {
            if exclude {
                self.message_filter = MessageFilter::mute_all();
                FilterChange::MutedAll
            } else {
                self.message_filter = MessageFilter::default();
                FilterChange::Cleared
            }
        } else {
            match MessageFilter::new(pattern, exclude) {
                Ok(filter) => {
                    self.message_filter = filter;
                    if exclude {
                        FilterChange::Muting
                    } else {
                        FilterChange::Showing
                    }
                },
                Err(err) => {
                    return FilterChange::Invalid(err);
                },
            }
        };
        let ghost filtered = *self;
        self.rebuild_displayed_buffer();
        let ghost mid = *self;
        self.update_search_state(query, is_case_sensitive, is_regex);
        assert(Display::rebuilt(filtered, mid) && Display::searched(mid, *self, query@, is_case_sensitive, is_regex));
        change
    }
}

/// How a filter request went.
#[derive(Debug, PartialEq, Eq)]
pub enum FilterChange {
    /// An empty pattern with `exclude`: every received line is hidden.
    MutedAll,
    /// An empty pattern without `exclude`: every received line is shown.
    Cleared,
    /// Received lines matching the pattern are hidden.
    Muting,
    /// Only received lines matching the pattern are shown.
    Showing,
    /// The pattern does not compile; the compiler's message. Nothing
    /// changed.
    Invalid(String),
}

/// `text` is `line` as saved, with some twelve-character time of day.
pub open spec fn saved_line(text: Seq<char>, line: BufferLine<Vec<u8>>) -> bool {
    exists|stamp: Seq<char>| stamp.len() == 12 && text == serialized(stamp, line)
}

/// `saved` holds each of `lines` as saved.
pub open spec fn saved_as(saved: Seq<String>, lines: Seq<BufferLine<Vec<u8>>>) -> bool {
    &&& saved.len() == lines.len()
    &&& forall|i: int| 0 <= i < lines.len() ==> saved_line(#[trigger] saved[i]@, lines[i])
}

/// Each line as saved.
pub fn serialize_lines(lines: &[BufferLine<Vec<u8>>]) -> (r: Vec<String>)
    ensures
        saved_as(r@, lines@),
{
    let mut out: Vec<String> = Vec::new();
    let mut i: usize = 0;
    while i < lines.len()
        invariant
            i <= lines@.len(),
            out@.len() == i,
            forall|q: int| 0 <= q < i ==> saved_line(#[trigger] out@[q]@, lines@[q]),
        decreases lines.len() - i,
    {
        let text = lines[i].serialize();
        assert(saved_line(text@, lines@[i as int]));
        out.push(text);
        i += 1;
    }
    out
}

/// Copies of the lines of `lines` that `filter` lets through with
/// `decoder`, in order.
pub fn allowed_copies_of(filter: &MessageFilter, decoder: ScreenDecoder, lines: &[BufferLine<Vec<u8>>]) -> (r: Vec<
    BufferLine<Vec<u8>>,
>)
    requires
        filter.wf(),
    ensures
        lines_view(r@) == lines_view(allowed_lines(*filter, decoder, lines@)),
{
    let mut out: Vec<BufferLine<Vec<u8>>> = Vec::new();
    let mut i: usize = 0;
    assert(lines@.take(0) =~= Seq::<BufferLine<Vec<u8>>>::empty());
    while i < lines.len()
        invariant
            i <= lines@.len(),
            filter.wf(),
            lines_view(out@) == lines_view(allowed_lines(*filter, decoder, lines@.take(i as int))),
        decreases lines.len() - i,
    {
        assert(lines@.take(i + 1).drop_last() =~= lines@.take(i as int));
        assert(lines@.take(i + 1).last() == lines@[i as int]);
        let line = &lines[i];
        if filter.allows(line, decoder) {
            let ghost before = out@;
            let c = copy_line(line);
            out.push(c);
            assert(lines_view(out@) =~= lines_view(before).push(line_view(*line)));
            assert(lines_view(allowed_lines(*filter, decoder, lines@.take(i + 1))) =~= lines_view(
                allowed_lines(*filter, decoder, lines@.take(i as int)),
            ).push(line_view(*line)));
        }
        i += 1;
    }
    assert(lines@.take(lines@.len() as int) =~= lines@);
    out
}

/// Whether the lines are in order of time.
pub open spec fn sorted_by_time(lines: Seq<BufferLine<Vec<u8>>>) -> bool {
    forall|i: int, j: int| 0 <= i < j < lines.len() ==> lines[i].timestamp <= lines[j].timestamp
}

/// Whether `output` is made of lines of `input`, the line at `i` being the
/// one at `idx[i]`, and lines of the same time come in their order in
/// `input`.
pub open spec fn kept_time_order(
    input: Seq<BufferLine<Vec<u8>>>,
    output: Seq<BufferLine<Vec<u8>>>,
    idx: Seq<int>,
) -> bool {
    &&& idx.len() == output.len()
    &&& forall|i: int| 0 <= i < output.len() ==> 0 <= #[trigger] idx[i] < input.len() && output[i] == input[idx[i]]
    &&& forall|i: int, j: int|
        0 <= i < j < output.len() && output[i].timestamp == output[j].timestamp ==> idx[i] < idx[j]
}

/// The lines in order of time; lines of the same time keep their order.
pub fn sort_by_timestamp(lines: Vec<BufferLine<Vec<u8>>>) -> (r: Vec<BufferLine<Vec<u8>>>)
    ensures
        sorted_by_time(r@),
        r@.to_multiset() == lines@.to_multiset(),
        exists|idx: Seq<int>| kept_time_order(lines@, r@, idx),
{
    broadcast use vstd::seq_lib::group_to_multiset_ensures, vstd::multiset::group_multiset_axioms;

    let ghost all = lines@;
    let mut rest = lines;
    let mut out: Vec<BufferLine<Vec<u8>>> = Vec::new();
    let ghost mut idx: Seq<int> = Seq::empty();
    assert(out@.to_multiset().add(rest@.to_multiset()) =~= all.to_multiset());
    assert(rest@ =~= all.skip(0));
    while rest.len() > 0
        invariant
            sorted_by_time(out@),
            out@.to_multiset().add(rest@.to_multiset()) == all.to_multiset(),
            rest@.len() <= all.len(),
            rest@ == all.skip(all.len() - rest@.len()),
            idx.len() == out@.len(),
            forall|i: int|
                0 <= i < out@.len() ==> 0 <= #[trigger] idx[i] < all.len() - rest@.len() && out@[i] == all[idx[i]],
            forall|i: int, j: int|
                0 <= i < j < out@.len() && out@[i].timestamp == out@[j].timestamp ==> idx[i] < idx[j],
        decreases rest.len(),
    {
        let ghost before_rest = rest@;
        let ghost before_out = out@;
        let ghost before_idx = idx;
        let ghost n: int = all.len() - rest@.len();
        let x = rest.remove(0);
        assert(x == all[n]);
        let mut k: usize = 0;
        while k < out.len() && out[k].timestamp <= x.timestamp
            invariant
                k <= out@.len(),
                out@ == before_out,
                forall|q: int| 0 <= q < k ==> #[trigger] out@[q].timestamp <= x.timestamp,
            decreases out.len() - k,
        {
            k += 1;
        }
        out.insert(k, x);
        assert(out@ == before_out.insert(k as int, x));
        proof {
            idx = before_idx.insert(k as int, n);
            assert(rest@ =~= all.skip(all.len() - rest@.len()));
            assert forall|i: int| 0 <= i < out@.len() implies 0 <= #[trigger] idx[i] < all.len() - rest@.len()
                && out@[i] == all[idx[i]] by {
                if i > k {
                    assert(idx[i] == before_idx[i - 1]);
                    assert(out@[i] == before_out[i - 1]);
                } else if i < k {
                    assert(idx[i] == before_idx[i]);
                }
            }
            assert forall|i: int, j: int|
                0 <= i < j < out@.len() && out@[i].timestamp == out@[j].timestamp implies idx[i] < idx[j] by {
                if j < k {
                    assert(idx[i] == before_idx[i] && idx[j] == before_idx[j]);
                } else if j == k {
                    assert(idx[i] == before_idx[i]);
                } else if i < k {
                    assert(idx[i] == before_idx[i] && idx[j] == before_idx[j - 1]);
                    assert(out@[j] == before_out[j - 1]);
                } else if i == k {
                    assert(out@[j] == before_out[j - 1]);
                    assert(before_out[k as int].timestamp > x.timestamp);
                    if j - 1 > k {
                        assert(before_out[k as int].timestamp <= before_out[j - 1].timestamp);
                    }
                } else {
                    assert(idx[i] == before_idx[i - 1] && idx[j] == before_idx[j - 1]);
                    assert(out@[i] == before_out[i - 1]);
                    assert(out@[j] == before_out[j - 1]);
                }
            }
        }
        assert(sorted_by_time(out@)) by {
            assert forall|i: int, j: int| 0 <= i < j < out@.len() implies out@[i].timestamp <= out@[j].timestamp by {
                if i < k && j < k {
                } else if i < k && j == k {
                } else if i < k {
                    assert(out@[j] == before_out[j - 1]);
                } else if i == k {
                    assert(out@[j] == before_out[j - 1]);
                    assert(before_out[k as int].timestamp > x.timestamp);
                    if j - 1 > k {
                        assert(before_out[k as int].timestamp <= before_out[j - 1].timestamp);
                    }
                } else {
                    assert(out@[i] == before_out[i - 1]);
                    assert(out@[j] == before_out[j - 1]);
                }
            }
        }
        assert(rest@ == before_rest.remove(0));
        assert(x == before_rest[0]);
        proof {
            vstd::seq_lib::to_multiset_remove(before_rest, 0);
            vstd::seq_lib::to_multiset_insert(before_out, k as int, x);
        }
        assert(rest@.to_multiset() == before_rest.to_multiset().remove(x));
        assert(out@.to_multiset() == before_out.to_multiset().insert(x));
        assert(before_rest.to_multiset().count(x) > 0) by {
            assert(before_rest.contains(x));
            vstd::seq_lib::to_multiset_contains(before_rest, x);
        }
        assert(out@.to_multiset().add(rest@.to_multiset()) =~= before_out.to_multiset().add(before_rest.to_multiset()));
    }
    assert(rest@.to_multiset() =~= vstd::multiset::Multiset::<BufferLine<Vec<u8>>>::empty());
    assert(out@.to_multiset() =~= all.to_multiset());
    assert(kept_time_order(all, out@, idx));
    out
}

} // verus!
