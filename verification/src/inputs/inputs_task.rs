//! The command line and the search box: what each key press does to the
//! text being typed, the cursor, the command history and the search, and
//! what it asks of the rest of the program.
use vstd::prelude::*;
use crate::graphics::graphics_task::GraphicsCommand;
use crate::graphics::screen::ScreenPosition;
use crate::infra::tags::TagList;
use crate::inputs::command_line::{expand_from, hex_scan, replace_hex_sequence, replace_tag_sequence};
use crate::inputs::keymap::Platform;
use crate::inputs::keys::{KeyCode, KeyEvent, KeyModifiers};
use crate::text::{char_is_space, chars_of, is_space, string_of, sub_chars};

verus! {

/// Whether keys edit the command line or the search box.
#[derive(Clone, Copy, Debug, PartialEq, Eq, Structural)]
pub enum InputMode {
    Normal,
    Search,
}

/// What the input side shares with the screen.
pub struct InputsShared {
    pub search_cursor: usize,
    pub search_buffer: String,
    pub command_line: String,
    pub cursor: usize,
    pub history_len: usize,
    /// The hint shown in an empty command line.
    pub current_hint: Option<String>,
    pub mode: InputMode,
    pub is_case_sensitive: bool,
    pub tag_list: TagList,
}

/// What the input side keeps to itself: the commands sent so far, where
/// the history is being browsed, the line typed before browsing began, and
/// whether the last reload of the tag file failed.
pub struct InputsLocal {
    pub history: Vec<String>,
    pub history_index: Option<usize>,
    pub backup_command_line: String,
    pub has_tag_failed: bool,
}

/// What a key press asks of the rest of the program, in order.
pub enum KeyAction {
    /// Leave the program.
    Exit,
    /// A request for the screen.
    Graphics(GraphicsCommand),
    /// Show a new hint, picked at random.
    SetHint,
    /// Reload the tag file and update the tag being typed (see
    /// `InputsShared::tags_reloaded`).
    RefreshTags,
    /// Send these bytes.
    Send(Vec<u8>),
    /// Run the `!` command written after the `!`.
    RunCommand(String),
}

/// An action as values of the specification.
pub enum ActionView {
    Exit,
    Graphics(GraphicsCommand),
    SetHint,
    RefreshTags,
    Send(Seq<u8>),
    RunCommand(Seq<char>),
}

pub open spec fn action_view(a: KeyAction) -> ActionView {
    match a {
        KeyAction::Exit => ActionView::Exit,
        KeyAction::Graphics(g) => ActionView::Graphics(g),
        KeyAction::SetHint => ActionView::SetHint,
        KeyAction::RefreshTags => ActionView::RefreshTags,
        KeyAction::Send(b) => ActionView::Send(b@),
        KeyAction::RunCommand(c) => ActionView::RunCommand(c@),
    }
}

pub open spec fn action_views(v: Seq<KeyAction>) -> Seq<ActionView> {
    v.map_values(|a: KeyAction| action_view(a))
}

/// The state of the input side as values of the specification.
pub struct InputsModel {
    pub mode: InputMode,
    pub command_line: Seq<char>,
    pub cursor: int,
    pub search_buffer: Seq<char>,
    pub search_cursor: int,
    pub is_case_sensitive: bool,
    pub hint_shown: bool,
    pub history: Seq<Seq<char>>,
    pub history_index: Option<int>,
    pub backup: Seq<char>,
}

pub open spec fn model_of(shared: &InputsShared, local: &InputsLocal) -> InputsModel {
    InputsModel {
        mode: shared.mode,
        command_line: shared.command_line@,
        cursor: shared.cursor as int,
        search_buffer: shared.search_buffer@,
        search_cursor: shared.search_cursor as int,
        is_case_sensitive: shared.is_case_sensitive,
        hint_shown: shared.current_hint is Some,
        history: local.history@.map_values(|h: String| h@),
        history_index: match local.history_index {
            Some(i) => Some(i as int),
            None => None,
        },
        backup: local.backup_command_line@,
    }
}

/// The cursors lie within their text and the history is browsed within
/// its bounds.
pub open spec fn model_ok(m: InputsModel) -> bool {
    &&& 0 <= m.cursor <= m.command_line.len()
    &&& 0 <= m.search_cursor <= m.search_buffer.len()
    &&& m.history_index matches Some(i) ==> 0 <= i < m.history.len()
}

pub open spec fn control_only() -> KeyModifiers {
    KeyModifiers { control: true, ..KeyModifiers::spec_none() }
}

pub open spec fn alt_only() -> KeyModifiers {
    KeyModifiers { alt: true, ..KeyModifiers::spec_none() }
}

/// The modifier of the jump and alternate-enter keys: `Ctrl` on Windows,
/// `Alt` elsewhere.
pub open spec fn action_modifier(p: Platform) -> KeyModifiers {
    if p == Platform::Windows { control_only() } else { alt_only() }
}

/// The modifier of the word-jump keys: `Alt` on macOS, `Ctrl` elsewhere.
pub open spec fn ctrl_modifier(p: Platform) -> KeyModifiers {
    if p == Platform::MacOs { alt_only() } else { control_only() }
}

/// `s` with `c` inserted before position `i` (at the end when `i` is past it).
pub open spec fn insert_at(s: Seq<char>, i: int, c: char) -> Seq<char> {
    if i >= s.len() { s.push(c) } else { s.take(i).push(c) + s.skip(i) }
}

/// `s` without the character at `i` (unchanged when there is none).
pub open spec fn remove_at(s: Seq<char>, i: int) -> Seq<char> {
    if 0 <= i < s.len() { s.take(i) + s.skip(i + 1) } else { s }
}

/// Non-empty and made of whitespace only.
pub open spec fn blank(s: Seq<char>) -> bool {
    s.len() > 0 && forall|k: int| 0 <= k < s.len() ==> #[trigger] is_space(s[k])
}

/// Where a jump one word right from `p` lands: just after the first
/// whitespace that is followed by something else, or at the end.
pub open spec fn word_right(s: Seq<char>, p: int) -> int
    decreases s.len() - p,
{
    if p < 0 || p + 1 >= s.len() {
        s.len() as int
    } else if is_space(s[p]) && !is_space(s[p + 1]) {
        p + 1
    } else {
        word_right(s, p + 1)
    }
}

/// Where a jump one word left lands, looking at position `j` and before:
/// the last start of a word (a non-whitespace after whitespace), or 0.
pub open spec fn word_left(s: Seq<char>, j: int) -> int
    decreases j,
{
    if j < 1 {
        0
    } else if is_space(s[j - 1]) && !is_space(s[j]) {
        j
    } else {
        word_left(s, j - 1)
    }
}

/// The text the keys edit in mode `m`, with its cursor.
pub open spec fn active(m: InputsModel) -> (Seq<char>, int) {
    if m.mode == InputMode::Normal {
        (m.command_line, m.cursor)
    } else {
        (m.search_buffer, m.search_cursor)
    }
}

/// `m` with the text the keys edit, and its cursor, replaced.
pub open spec fn with_active(m: InputsModel, text: Seq<char>, cursor: int) -> InputsModel {
    if m.mode == InputMode::Normal {
        InputsModel { command_line: text, cursor, ..m }
    } else {
        InputsModel { search_buffer: text, search_cursor: cursor, ..m }
    }
}

pub open spec fn gfx(g: GraphicsCommand) -> Seq<ActionView> {
    seq![ActionView::Graphics(g)]
}

/// A character typed.
pub open spec fn type_char(m: InputsModel, c: char) -> (InputsModel, Seq<ActionView>) {
    if m.mode == InputMode::Normal {
        (
            InputsModel {
                hint_shown: false,
                command_line: insert_at(m.command_line, m.cursor, c),
                cursor: m.cursor + 1,
                history_index: None,
                ..m
            },
            seq![ActionView::RefreshTags],
        )
    } else {
        (
            InputsModel {
                search_buffer: insert_at(m.search_buffer, m.search_cursor, c),
                search_cursor: m.search_cursor + 1,
                ..m
            },
            seq![ActionView::RefreshTags, ActionView::Graphics(GraphicsCommand::SearchChange)],
        )
    }
}

/// Backspace.
pub open spec fn backspace(m: InputsModel) -> (InputsModel, Seq<ActionView>) {
    if m.mode == InputMode::Normal {
        let hint1 = m.command_line.len() == 1;
        let (t1, c1, a1) = if m.cursor > 0 {
            (remove_at(m.command_line, m.cursor - 1), m.cursor - 1, seq![ActionView::RefreshTags])
        } else {
            (m.command_line, m.cursor, Seq::empty())
        };
        let a0 = if hint1 { seq![ActionView::SetHint] } else { Seq::empty() };
        if blank(t1) {
            (InputsModel { command_line: Seq::empty(), cursor: 0, ..m }, a0 + a1 + seq![ActionView::SetHint])
        } else {
            (InputsModel { command_line: t1, cursor: c1, ..m }, a0 + a1)
        }
    } else {
        let (t1, c1, a1) = if m.search_cursor > 0 {
            (
                remove_at(m.search_buffer, m.search_cursor - 1),
                m.search_cursor - 1,
                seq![ActionView::RefreshTags, ActionView::Graphics(GraphicsCommand::SearchChange)],
            )
        } else {
            (m.search_buffer, m.search_cursor, Seq::empty())
        };
        if blank(t1) {
            (
                InputsModel { search_buffer: Seq::empty(), search_cursor: 0, ..m },
                a1 + gfx(GraphicsCommand::SearchChange),
            )
        } else {
            (InputsModel { search_buffer: t1, search_cursor: c1, ..m }, a1)
        }
    }
}

/// Delete.
pub open spec fn delete(m: InputsModel) -> (InputsModel, Seq<ActionView>) {
    if m.mode == InputMode::Normal {
        let t1 = remove_at(m.command_line, m.cursor);
        if blank(t1) {
            (
                InputsModel { command_line: Seq::empty(), cursor: 0, ..m },
                seq![ActionView::RefreshTags, ActionView::SetHint],
            )
        } else {
            (InputsModel { command_line: t1, ..m }, seq![ActionView::RefreshTags])
        }
    } else {
        let t1 = remove_at(m.search_buffer, m.search_cursor);
        let actions = seq![ActionView::RefreshTags, ActionView::Graphics(GraphicsCommand::SearchChange)];
        if blank(t1) {
            (InputsModel { search_buffer: Seq::empty(), search_cursor: 0, ..m }, actions)
        } else {
            (InputsModel { search_buffer: t1, ..m }, actions)
        }
    }
}

/// Arrow up: an older command from the history, or the previous search
/// hit.
pub open spec fn history_up(m: InputsModel) -> (InputsModel, Seq<ActionView>) {
    if m.mode == InputMode::Search {
        (m, gfx(GraphicsCommand::PrevSearch))
    } else if m.history.len() == 0 {
        (m, Seq::empty())
    } else {
        let (index, backup) = match m.history_index {
            None => (m.history.len() - 1, m.command_line),
            Some(i) => (if i == 0 { 0 } else { i - 1 }, m.backup),
        };
        let line = m.history[index];
        (
            InputsModel {
                history_index: Some(index),
                backup,
                hint_shown: false,
                command_line: line,
                cursor: line.len() as int,
                ..m
            },
            seq![ActionView::RefreshTags],
        )
    }
}

/// Arrow down: a newer command from the history (past the newest, the line
/// typed before browsing), or the next search hit.
pub open spec fn history_down(m: InputsModel) -> (InputsModel, Seq<ActionView>) {
    if m.mode == InputMode::Search {
        (m, gfx(GraphicsCommand::NextSearch))
    } else if m.history.len() == 0 {
        (m, Seq::empty())
    } else {
        match m.history_index {
            None => (InputsModel { cursor: m.command_line.len() as int, ..m }, seq![ActionView::RefreshTags]),
            Some(i) => if i == m.history.len() - 1 {
                let hint = if m.backup.len() == 0 { seq![ActionView::SetHint] } else { Seq::empty() };
                (
                    InputsModel {
                        history_index: None,
                        command_line: m.backup,
                        cursor: m.backup.len() as int,
                        ..m
                    },
                    hint + seq![ActionView::RefreshTags],
                )
            } else {
                let line = m.history[i + 1];
                (
                    InputsModel {
                        history_index: Some(i + 1),
                        command_line: line,
                        cursor: line.len() as int,
                        ..m
                    },
                    seq![ActionView::RefreshTags],
                )
            },
        }
    }
}

/// The bytes a typed line (not a `!` command) is sent as: tags expanded,
/// hex sequences decoded, then a line end unless `Alt` was held.
pub open spec fn line_bytes(tags: Seq<(Seq<char>, Seq<char>)>, line: Seq<char>, alt: bool) -> Seq<u8> {
    hex_scan(expand_from(tags, line, 0)).1 + if alt { Seq::<u8>::empty() } else { seq![0x0du8, 0x0a] }
}

/// Enter: the command line is sent (or run, when it starts with `!`),
/// remembered in the history unless it repeats the last entry, and
/// emptied; in the search box, the next hit.
pub open spec fn enter(m: InputsModel, tags: Seq<(Seq<char>, Seq<char>)>, mods: KeyModifiers) -> (InputsModel, Seq<ActionView>) {
    if m.mode == InputMode::Search {
        (m, gfx(GraphicsCommand::NextSearch))
    } else if m.command_line.len() == 0 {
        (m, if mods == alt_only() { seq![ActionView::Send(seq![0x0du8, 0x0a])] } else { Seq::empty() })
    } else {
        let line = m.command_line;
        let history = if m.history.len() > 0 && m.history.last() == line {
            m.history
        } else {
            m.history.push(line)
        };
        let run = if line[0] == '!' {
            ActionView::RunCommand(line.drop_first())
        } else {
            ActionView::Send(line_bytes(tags, line, mods == alt_only()))
        };
        (
            InputsModel { command_line: Seq::empty(), history, history_index: None, cursor: 0, ..m },
            seq![ActionView::SetHint, run],
        )
    }
}

/// What the tag list offers for Tab: the highlighted suggestion and the
/// name typed so far.
pub struct TabView {
    pub selected: Option<Seq<char>>,
    pub typed: Seq<char>,
}

pub open spec fn tab_view(t: &TagList) -> TabView {
    TabView {
        selected: if t.highlighted() < t.suggestions().len() {
            Some(t.suggestions()[t.highlighted() as int])
        } else {
            None
        },
        typed: t.typed(),
    }
}

/// The first whitespace at or after `p`, or the end.
pub open spec fn space_from(s: Seq<char>, p: int) -> int
    decreases s.len() - p,
{
    if p < 0 || p >= s.len() {
        s.len() as int
    } else if is_space(s[p]) {
        p
    } else {
        space_from(s, p + 1)
    }
}

/// Tab: in the command line, the name being typed is completed with the
/// highlighted suggestion (the rest of the word after the cursor is
/// dropped).
pub open spec fn tab(m: InputsModel, t: TabView) -> (InputsModel, Seq<ActionView>) {
    match t.selected {
        None => (m, Seq::empty()),
        Some(name) => if m.mode != InputMode::Normal {
            (m, Seq::empty())
        } else {
            let entry = seq!['@'] + name;
            let start = if m.cursor >= t.typed.len() { m.cursor - t.typed.len() } else { 0 };
            let line1 = m.command_line.take(start) + entry + m.command_line.skip(m.cursor);
            let cursor1 = m.cursor + entry.len() - t.typed.len();
            let end = space_from(line1, cursor1);
            let line2 = line1.take(cursor1) + line1.skip(end);
            (InputsModel { command_line: line2, cursor: cursor1, ..m }, seq![ActionView::RefreshTags])
        },
    }
}

/// Whether Tab can complete without the cursor arithmetic running below
/// zero: the highlighted suggestion is at least as long as the name typed.
pub open spec fn tab_safe(m: InputsModel, t: TabView) -> bool {
    m.mode == InputMode::Normal && t.selected is Some ==> t.selected->0.len() + 1 >= t.typed.len()
}

pub open spec fn is_char_key(key: KeyEvent, lower: char, upper: char) -> bool {
    (key.code == KeyCode::Char(lower) || key.code == KeyCode::Char(upper)) && key.modifiers == control_only()
}

/// What a key press does, on `platform`, with the tags `tags` and what the
/// tag list offers for Tab.
pub open spec fn key_step(
    m: InputsModel,
    tags: Seq<(Seq<char>, Seq<char>)>,
    t: TabView,
    key: KeyEvent,
    platform: Platform,
) -> (InputsModel, Seq<ActionView>) {
    let (text, cursor) = active(m);
    if key.code == KeyCode::Esc {
        if m.mode == InputMode::Normal {
            (m, seq![ActionView::Exit])
        } else {
            (InputsModel { mode: InputMode::Normal, ..m }, gfx(GraphicsCommand::ChangeToNormalMode))
        }
    } else if is_char_key(key, 'c', 'C') {
        (m, gfx(GraphicsCommand::CopyToClipboard))
    } else if is_char_key(key, 'l', 'L') {
        (m, gfx(GraphicsCommand::Clear))
    } else if is_char_key(key, 's', 'S') {
        (m, gfx(GraphicsCommand::SaveData))
    } else if is_char_key(key, 'r', 'R') {
        (m, gfx(GraphicsCommand::RecordData))
    } else if is_char_key(key, 'f', 'F') {
        if m.mode == InputMode::Normal {
            (
                InputsModel { mode: InputMode::Search, ..m },
                seq![
                    ActionView::Graphics(GraphicsCommand::ChangeToSearchMode),
                    ActionView::Graphics(GraphicsCommand::SearchChange),
                ],
            )
        } else {
            (InputsModel { mode: InputMode::Normal, ..m }, gfx(GraphicsCommand::ChangeToNormalMode))
        }
    } else if key.code == KeyCode::Right && key.modifiers == ctrl_modifier(platform) {
        (with_active(m, text, word_right(text, cursor)), seq![ActionView::RefreshTags])
    } else if key.code == KeyCode::Left && key.modifiers == ctrl_modifier(platform) {
        (with_active(m, text, word_left(text, cursor - 1)), seq![ActionView::RefreshTags])
    } else if is_char_key(key, 'w', 'W') {
        if m.mode == InputMode::Search {
            (InputsModel { is_case_sensitive: !m.is_case_sensitive, ..m }, gfx(GraphicsCommand::SearchChange))
        } else {
            (m, Seq::empty())
        }
    } else if key.code is Char {
        type_char(m, key.code->Char_0)
    } else if key.code == KeyCode::PageUp && key.modifiers == action_modifier(platform) {
        (m, gfx(GraphicsCommand::JumpToStart))
    } else if key.code == KeyCode::PageDown && key.modifiers == action_modifier(platform) {
        (m, gfx(GraphicsCommand::JumpToEnd))
    } else if key.code == KeyCode::PageUp {
        (m, gfx(GraphicsCommand::PageUp))
    } else if key.code == KeyCode::PageDown {
        (m, gfx(GraphicsCommand::PageDown))
    } else if key.code == KeyCode::Backspace {
        backspace(m)
    } else if key.code == KeyCode::Delete {
        delete(m)
    } else if key.code == KeyCode::Right {
        if cursor < text.len() {
            (with_active(m, text, cursor + 1), seq![ActionView::RefreshTags])
        } else {
            (m, Seq::empty())
        }
    } else if key.code == KeyCode::Left {
        if cursor > 0 {
            (with_active(m, text, cursor - 1), seq![ActionView::RefreshTags])
        } else {
            (m, Seq::empty())
        }
    } else if key.code == KeyCode::End {
        (with_active(m, text, text.len() as int), seq![ActionView::RefreshTags])
    } else if key.code == KeyCode::Home {
        (with_active(m, text, 0), seq![ActionView::RefreshTags])
    } else if key.code == KeyCode::Up {
        history_up(m)
    } else if key.code == KeyCode::Down {
        history_down(m)
    } else if key.code == KeyCode::Tab {
        tab(m, t)
    } else if key.code == KeyCode::Enter && key.modifiers == action_modifier(platform) {
        if m.mode == InputMode::Search {
            (m, gfx(GraphicsCommand::PrevSearch))
        } else {
            (m, Seq::empty())
        }
    } else if key.code == KeyCode::Enter {
        enter(m, tags, key.modifiers)
    } else {
        (m, Seq::empty())
    }
}

/// Whether the key sends or runs the command line, which also forgets the
/// tag being typed.
pub open spec fn clears_tags(m: InputsModel, key: KeyEvent, platform: Platform) -> bool {
    &&& m.mode == InputMode::Normal
    &&& key.code == KeyCode::Enter
    &&& key.modifiers != action_modifier(platform)
    &&& m.command_line.len() > 0
    &&& !(key.code == KeyCode::Esc)
}

fn char_count(s: &str) -> (r: usize)
    ensures
        r == s@.len(),
{
    chars_of(s).len()
}

fn insert_char(s: &str, i: usize, c: char) -> (r: String)
    ensures
        r@ == insert_at(s@, i as int, c),
        r@.len() <= usize::MAX,
{
    let cs = chars_of(s);
    if i >= cs.len() {
        let mut out = cs;
        out.push(c);
        let _n = out.len();
        string_of(out.as_slice())
    } else {
        let mut out = sub_chars(cs.as_slice(), 0, i);
        out.push(c);
        let tail = sub_chars(cs.as_slice(), i, cs.len());
        crate::text::extend_chars(&mut out, tail.as_slice());
        assert(out@ =~= insert_at(s@, i as int, c));
        let _n = out.len();
        string_of(out.as_slice())
    }
}

fn remove_char(s: &str, i: usize) -> (r: String)
    ensures
        r@ == remove_at(s@, i as int),
{
    let cs = chars_of(s);
    if i < cs.len() {
        let mut out = sub_chars(cs.as_slice(), 0, i);
        let tail = sub_chars(cs.as_slice(), i + 1, cs.len());
        crate::text::extend_chars(&mut out, tail.as_slice());
        assert(out@ =~= remove_at(s@, i as int));
        string_of(out.as_slice())
    } else {
        string_of(cs.as_slice())
    }
}

fn is_blank(s: &str) -> (r: bool)
    ensures
        r == blank(s@),
{
    let cs = chars_of(s);
    if cs.len() == 0 {
        return false;
    }
    let mut i: usize = 0;
    while i < cs.len()
        invariant
            i <= cs@.len(),
            cs@ == s@,
            forall|k: int| 0 <= k < i ==> #[trigger] is_space(cs@[k]),
        decreases cs.len() - i,
    {
        if !char_is_space(cs[i]) {
            return false;
        }
        i += 1;
    }
    true
}

fn word_right_exec(s: &str, p: usize) -> (r: usize)
    ensures
        r == word_right(s@, p as int),
{
    let cs = chars_of(s);
    let mut q = p;
    while q < cs.len() && q + 1 < cs.len()
        invariant
            cs@ == s@,
            p <= q,
            word_right(s@, p as int) == word_right(s@, q as int),
        decreases cs.len() - q,
    {
        if char_is_space(cs[q]) && !char_is_space(cs[q + 1]) {
            return q + 1;
        }
        q += 1;
    }
    cs.len()
}

fn word_left_exec(s: &str, pos: usize) -> (r: usize)
    requires
        pos <= s@.len(),
    ensures
        r == word_left(s@, pos - 1),
{
    let cs = chars_of(s);
    if pos == 0 {
        return 0;
    }
    let mut j = pos - 1;
    while j >= 1
        invariant
            cs@ == s@,
            j < cs@.len(),
            word_left(s@, pos - 1) == word_left(s@, j as int),
        decreases j,
    {
        if char_is_space(cs[j - 1]) && !char_is_space(cs[j]) {
            return j;
        }
        j -= 1;
    }
    0
}

fn space_from_exec(cs: &[char], p: usize) -> (r: usize)
    ensures
        r == space_from(cs@, p as int),
{
    let mut q = p;
    while q < cs.len()
        invariant
            p <= q,
            space_from(cs@, p as int) == space_from(cs@, q as int),
        decreases cs.len() - q,
    {
        if char_is_space(cs[q]) {
            return q;
        }
        q += 1;
    }
    cs.len()
}

fn copy_str(s: &String) -> (r: String)
    ensures
        r@ == s@,
{
    crate::text::to_owned_string(s.as_str())
}

pub open spec fn history_views(v: Seq<String>) -> Seq<Seq<char>> {
    v.map_values(|h: String| h@)
}

impl InputsShared {
    /// Whether the input side is consistent (see `model_ok`) and its tag
    /// list is well formed.
    pub open spec fn wf(&self, local: &InputsLocal) -> bool {
        &&& model_ok(model_of(self, local))
        &&& self.tag_list.wf()
    }

    /// Whether Tab may be pressed now (see `tab_safe`).
    pub fn tab_is_safe(&self) -> (r: bool)
        ensures
            r == (self.mode == InputMode::Normal && tab_view(&self.tag_list).selected is Some
                ==> tab_view(&self.tag_list).selected->0.len() + 1 >= tab_view(&self.tag_list).typed.len()),
    {
        if self.mode != InputMode::Normal {
            return true;
        }
        match self.tag_list.get_selected_autocomplete() {
            None => true,
            Some(name) => {
                let typed = self.tag_list.pattern();
                let n = char_count(name.as_str());
                let t = char_count(typed.as_str());
                t == 0 || n >= t - 1
            },
        }
    }

    /// After the tag file was read again (`reload` is what `reload` on the
    /// tag list returned): on success the tag being typed is taken from
    /// the text the keys edit and its suggestions rebuilt; the first of
    /// consecutive failures forgets every tag and gives the message to
    /// report.
    pub fn tags_reloaded(&mut self, local: &mut InputsLocal, reload: Result<(), String>) -> (r: Option<String>)
        requires
            old(self).wf(old(local)),
        ensures
            final(self).wf(final(local)),
            model_of(final(self), final(local)) == model_of(old(self), old(local)),
            final(self).current_hint == old(self).current_hint,
            final(self).history_len == old(self).history_len,
            match reload {
                Ok(_) => {
                    &&& r is None
                    &&& !final(local).has_tag_failed
                    &&& final(self).tag_list.typed() == crate::infra::tags::pattern_for(
                        active(model_of(old(self), old(local))).0,
                        active(model_of(old(self), old(local))).1,
                    )
                    &&& final(self).tag_list.entries() == old(self).tag_list.entries()
                    &&& final(self).tag_list.highlighted() == 0
                    &&& forall|name: Seq<char>|
                        #[trigger] final(self).tag_list.suggestions().contains(name) <==> crate::infra::tags::has_tag(
                            old(self).tag_list.entries(),
                            name,
                        ) && crate::infra::tags::suggests(final(self).tag_list.typed(), name)
                },
                Err(e) => if old(local).has_tag_failed {
                    &&& r is None
                    &&& final(local).has_tag_failed
                    &&& final(self).tag_list == old(self).tag_list
                } else {
                    &&& r matches Some(m) && m@ == "Failed to reload tag list: "@ + e@
                    &&& final(local).has_tag_failed
                    &&& final(self).tag_list.entries().len() == 0
                    &&& final(self).tag_list.typed().len() == 0
                    &&& final(self).tag_list.suggestions().len() == 0
                },
            },
    {
        match reload {
            Err(e) => {
                if local.has_tag_failed {
                    None
                } else {
                    local.has_tag_failed = true;
                    self.tag_list.full_clear();
                    let mut m = crate::text::to_owned_string("Failed to reload tag list: ");
                    crate::text::push_str(&mut m, e.as_str());
                    Some(m)
                }
            },
            Ok(_) => {
                local.has_tag_failed = false;
                match self.mode {
                    InputMode::Normal => self.tag_list.update_pattern(self.command_line.as_str(), self.cursor),
                    InputMode::Search => self.tag_list.update_pattern(self.search_buffer.as_str(), self.search_cursor),
                }
                self.tag_list.update_autocomplete_list();
                None
            },
        }
    }
}

/// What a key press leaves alone.
pub open spec fn untouched(old: &InputsShared, new: &InputsShared) -> bool {
    &&& new.history_len == old.history_len
    &&& (new.current_hint is None || new.current_hint == old.current_hint)
}

fn one(a: KeyAction) -> (r: Vec<KeyAction>)
    ensures
        action_views(r@) == seq![action_view(a)],
{
    let mut v: Vec<KeyAction> = Vec::new();
    v.push(a);
    assert(action_views(v@) =~= seq![action_view(a)]);
    v
}

fn two(a: KeyAction, b: KeyAction) -> (r: Vec<KeyAction>)
    ensures
        action_views(r@) == seq![action_view(a), action_view(b)],
{
    let mut v: Vec<KeyAction> = Vec::new();
    v.push(a);
    v.push(b);
    assert(action_views(v@) =~= seq![action_view(a), action_view(b)]);
    v
}

fn none() -> (r: Vec<KeyAction>)
    ensures
        action_views(r@) == Seq::<ActionView>::empty(),
{
    let v: Vec<KeyAction> = Vec::new();
    assert(action_views(v@) =~= Seq::<ActionView>::empty());
    v
}

fn push_action(v: &mut Vec<KeyAction>, a: KeyAction)
    ensures
        action_views(final(v)@) == action_views(old(v)@).push(action_view(a)),
{
    let ghost before = v@;
    v.push(a);
    assert(action_views(v@) =~= action_views(before).push(action_view(a)));
}

impl InputsShared {
    /// Sets the text the keys edit and its cursor.
    fn set_active(&mut self, text: String, cursor: usize)
        ensures
            final(self).mode == old(self).mode,
            old(self).mode == InputMode::Normal ==> final(self).command_line == text && final(self).cursor == cursor
                && final(self).search_buffer == old(self).search_buffer && final(self).search_cursor
                == old(self).search_cursor,
            old(self).mode == InputMode::Search ==> final(self).search_buffer == text && final(self).search_cursor
                == cursor && final(self).command_line == old(self).command_line && final(self).cursor
                == old(self).cursor,
            final(self).is_case_sensitive == old(self).is_case_sensitive,
            final(self).current_hint == old(self).current_hint,
            final(self).history_len == old(self).history_len,
            final(self).tag_list == old(self).tag_list,
    {
        match self.mode {
            InputMode::Normal => {
                self.command_line = text;
                self.cursor = cursor;
            },
            InputMode::Search => {
                self.search_buffer = text;
                self.search_cursor = cursor;
            },
        }
    }

    /// The text the keys edit, and its cursor.
    fn get_active(&self) -> (r: (&String, usize))
        ensures
            self.mode == InputMode::Normal ==> r.0@ == self.command_line@ && r.1 == self.cursor,
            self.mode == InputMode::Search ==> r.0@ == self.search_buffer@ && r.1 == self.search_cursor,
    {
        match self.mode {
            InputMode::Normal => (&self.command_line, self.cursor),
            InputMode::Search => (&self.search_buffer, self.search_cursor),
        }
    }

    fn type_char_exec(&mut self, local: &mut InputsLocal, c: char) -> (r: Vec<KeyAction>)
        requires
            old(self).wf(old(local)),
        ensures
            (model_of(final(self), final(local)), action_views(r@)) == type_char(model_of(old(self), old(local)), c),
            final(self).tag_list == old(self).tag_list,
            untouched(old(self), final(self)),
            final(local).has_tag_failed == old(local).has_tag_failed,
    {
        match self.mode {
            InputMode::Normal => {
                self.current_hint = None;
                let line = insert_char(self.command_line.as_str(), self.cursor, c);
                self.command_line = line;
                self.cursor = self.cursor + 1;
                local.history_index = None;
                one(KeyAction::RefreshTags)
            },
            InputMode::Search => {
                let line = insert_char(self.search_buffer.as_str(), self.search_cursor, c);
                self.search_buffer = line;
                self.search_cursor = self.search_cursor + 1;
                two(KeyAction::RefreshTags, KeyAction::Graphics(GraphicsCommand::SearchChange))
            },
        }
    }

    fn backspace_exec(&mut self, local: &mut InputsLocal) -> (r: Vec<KeyAction>)
        requires
            old(self).wf(old(local)),
        ensures
            (model_of(final(self), final(local)), action_views(r@)) == backspace(model_of(old(self), old(local))),
            final(self).tag_list == old(self).tag_list,
            untouched(old(self), final(self)),
            final(local).has_tag_failed == old(local).has_tag_failed,
    {
        let mut out = none();
        match self.mode {
            InputMode::Normal => {
                if char_count(self.command_line.as_str()) == 1 {
                    push_action(&mut out, KeyAction::SetHint);
                }
                if self.cursor > 0 {
                    self.cursor = self.cursor - 1;
                    let line = remove_char(self.command_line.as_str(), self.cursor);
                    self.command_line = line;
                    push_action(&mut out, KeyAction::RefreshTags);
                }
                if is_blank(self.command_line.as_str()) {
                    self.command_line = String::new();
                    self.cursor = 0;
                    push_action(&mut out, KeyAction::SetHint);
                }
            },
            InputMode::Search => {
                if self.search_cursor > 0 {
                    self.search_cursor = self.search_cursor - 1;
                    let line = remove_char(self.search_buffer.as_str(), self.search_cursor);
                    self.search_buffer = line;
                    push_action(&mut out, KeyAction::RefreshTags);
                    push_action(&mut out, KeyAction::Graphics(GraphicsCommand::SearchChange));
                }
                if is_blank(self.search_buffer.as_str()) {
                    self.search_buffer = String::new();
                    self.search_cursor = 0;
                    push_action(&mut out, KeyAction::Graphics(GraphicsCommand::SearchChange));
                }
            },
        }
        assert(action_views(out@) == backspace(model_of(old(self), old(local))).1);
        out
    }

    fn delete_exec(&mut self, local: &mut InputsLocal) -> (r: Vec<KeyAction>)
        requires
            old(self).wf(old(local)),
        ensures
            (model_of(final(self), final(local)), action_views(r@)) == delete(model_of(old(self), old(local))),
            final(self).tag_list == old(self).tag_list,
            untouched(old(self), final(self)),
            final(local).has_tag_failed == old(local).has_tag_failed,
    {
        match self.mode {
            InputMode::Normal => {
                let line = remove_char(self.command_line.as_str(), self.cursor);
                self.command_line = line;
                if is_blank(self.command_line.as_str()) {
                    self.command_line = String::new();
                    self.cursor = 0;
                    two(KeyAction::RefreshTags, KeyAction::SetHint)
                } else {
                    one(KeyAction::RefreshTags)
                }
            },
            InputMode::Search => {
                let line = remove_char(self.search_buffer.as_str(), self.search_cursor);
                self.search_buffer = line;
                if is_blank(self.search_buffer.as_str()) {
                    self.search_buffer = String::new();
                    self.search_cursor = 0;
                }
                two(KeyAction::RefreshTags, KeyAction::Graphics(GraphicsCommand::SearchChange))
            },
        }
    }

    fn history_up_exec(&mut self, local: &mut InputsLocal) -> (r: Vec<KeyAction>)
        requires
            old(self).wf(old(local)),
        ensures
            (model_of(final(self), final(local)), action_views(r@)) == history_up(model_of(old(self), old(local))),
            final(self).tag_list == old(self).tag_list,
            untouched(old(self), final(self)),
            final(local).has_tag_failed == old(local).has_tag_failed,
    {
        if self.mode == InputMode::Search {
            return one(KeyAction::Graphics(GraphicsCommand::PrevSearch));
        }
        if local.history.len() == 0 {
            return none();
        }
        let index = match local.history_index {
            None => {
                local.backup_command_line = copy_str(&self.command_line);
                local.history.len() - 1
            },
            Some(i) => if i == 0 { 0 } else { i - 1 },
        };
        local.history_index = Some(index);
        self.current_hint = None;
        let line = copy_str(&local.history[index]);
        assert(line@ == history_views(local.history@)[index as int]);
        self.cursor = char_count(line.as_str());
        self.command_line = line;
        one(KeyAction::RefreshTags)
    }

    fn history_down_exec(&mut self, local: &mut InputsLocal) -> (r: Vec<KeyAction>)
        requires
            old(self).wf(old(local)),
        ensures
            (model_of(final(self), final(local)), action_views(r@)) == history_down(model_of(old(self), old(local))),
            final(self).tag_list == old(self).tag_list,
            untouched(old(self), final(self)),
            final(local).has_tag_failed == old(local).has_tag_failed,
    {
        if self.mode == InputMode::Search {
            return one(KeyAction::Graphics(GraphicsCommand::NextSearch));
        }
        if local.history.len() == 0 {
            return none();
        }
        let mut out = none();
        match local.history_index {
            None => {},
            Some(i) => {
                if i == local.history.len() - 1 {
                    local.history_index = None;
                    self.command_line = copy_str(&local.backup_command_line);
                    if char_count(self.command_line.as_str()) == 0 {
                        push_action(&mut out, KeyAction::SetHint);
                    }
                } else {
                    local.history_index = Some(i + 1);
                    let line = copy_str(&local.history[i + 1]);
                    assert(line@ == history_views(local.history@)[i + 1]);
                    self.command_line = line;
                }
            },
        }
        self.cursor = char_count(self.command_line.as_str());
        push_action(&mut out, KeyAction::RefreshTags);
        out
    }

    fn tab_exec(&mut self, local: &mut InputsLocal) -> (r: Vec<KeyAction>)
        requires
            old(self).wf(old(local)),
            tab_safe(model_of(old(self), old(local)), tab_view(&old(self).tag_list)),
        ensures
            (model_of(final(self), final(local)), action_views(r@)) == tab(
                model_of(old(self), old(local)),
                tab_view(&old(self).tag_list),
            ),
            final(self).tag_list == old(self).tag_list,
            untouched(old(self), final(self)),
            final(local).has_tag_failed == old(local).has_tag_failed,
    {
        let name = match self.tag_list.get_selected_autocomplete() {
            None => return none(),
            Some(n) => n,
        };
        if self.mode != InputMode::Normal {
            return none();
        }
        let name_chars = chars_of(name.as_str());
        let mut entry: Vec<char> = Vec::new();
        entry.push('@');
        crate::text::extend_chars(&mut entry, name_chars.as_slice());
        assert(entry@ =~= seq!['@'] + name@);
        let typed = self.tag_list.pattern();
        let typed_len = char_count(typed.as_str());
        let cursor = self.cursor;
        let start = if cursor >= typed_len { cursor - typed_len } else { 0 };
        let cs = chars_of(self.command_line.as_str());
        let mut line1 = sub_chars(cs.as_slice(), 0, start);
        crate::text::extend_chars(&mut line1, entry.as_slice());
        let tail = sub_chars(cs.as_slice(), cursor, cs.len());
        crate::text::extend_chars(&mut line1, tail.as_slice());
        let _total = line1.len();
        let cursor1 = if cursor >= typed_len {
            start + entry.len()
        } else {
            entry.len() - (typed_len - cursor)
        };
        assert(cursor1 == cursor + entry@.len() - typed_len);
        assert(cursor1 <= line1@.len());
        let end = space_from_exec(line1.as_slice(), cursor1);
        proof {
            lemma_space_from_bounds(line1@, cursor1 as int);
        }
        let mut line2 = sub_chars(line1.as_slice(), 0, cursor1);
        let rest = sub_chars(line1.as_slice(), end, line1.len());
        crate::text::extend_chars(&mut line2, rest.as_slice());
        self.command_line = string_of(line2.as_slice());
        self.cursor = cursor1;
        one(KeyAction::RefreshTags)
    }

    fn enter_exec(&mut self, local: &mut InputsLocal, mods: KeyModifiers) -> (r: Vec<KeyAction>)
        requires
            old(self).wf(old(local)),
        ensures
            (model_of(final(self), final(local)), action_views(r@)) == enter(
                model_of(old(self), old(local)),
                old(self).tag_list.entries(),
                mods,
            ),
            final(self).tag_list.wf(),
            final(self).tag_list.entries() == old(self).tag_list.entries(),
            final(self).tag_list.path() == old(self).tag_list.path(),
            old(self).mode == InputMode::Normal && old(self).command_line@.len() > 0 ==> {
                &&& final(self).tag_list.typed().len() == 0
                &&& final(self).tag_list.suggestions().len() == 0
                &&& final(self).tag_list.highlighted() == 0
            },
            !(old(self).mode == InputMode::Normal && old(self).command_line@.len() > 0) ==> final(self).tag_list
                == old(self).tag_list,
            untouched(old(self), final(self)),
            final(local).has_tag_failed == old(local).has_tag_failed,
    {
        if self.mode == InputMode::Search {
            return one(KeyAction::Graphics(GraphicsCommand::NextSearch));
        }
        let cs = chars_of(self.command_line.as_str());
        if cs.len() == 0 {
            if mods == KeyModifiers::alt() {
                return one(KeyAction::Send(vec![0x0d, 0x0a]));
            }
            return none();
        }
        let line = copy_str(&self.command_line);
        self.command_line = String::new();
        let repeats = local.history.len() > 0 && crate::text::str_eq(
            local.history[local.history.len() - 1].as_str(),
            line.as_str(),
        );
        if !repeats {
            let ghost before = local.history@;
            local.history.push(copy_str(&line));
            assert(history_views(local.history@) =~= history_views(before).push(line@));
        } else {
            assert(history_views(local.history@).last() == line@);
        }
        self.tag_list.clear();
        local.history_index = None;
        self.cursor = 0;
        let run = if cs[0] == '!' {
            let rest = sub_chars(cs.as_slice(), 1, cs.len());
            assert(rest@ =~= line@.drop_first());
            KeyAction::RunCommand(string_of(rest.as_slice()))
        } else {
            let expanded = replace_tag_sequence(line.as_str(), &self.tag_list);
            let mut bytes = replace_hex_sequence(expanded.as_str());
            if !(mods == KeyModifiers::alt()) {
                bytes.push(0x0d);
                bytes.push(0x0a);
            }
            assert(bytes@ =~= line_bytes(old(self).tag_list.entries(), line@, mods == alt_only()));
            KeyAction::Send(bytes)
        };
        two(KeyAction::SetHint, run)
    }
}

fn action_mods(platform: Platform) -> (r: KeyModifiers)
    ensures
        r == action_modifier(platform),
{
    match platform {
        Platform::Windows => KeyModifiers::control(),
        _ => KeyModifiers::alt(),
    }
}

fn ctrl_mods(platform: Platform) -> (r: KeyModifiers)
    ensures
        r == ctrl_modifier(platform),
{
    match platform {
        Platform::MacOs => KeyModifiers::alt(),
        _ => KeyModifiers::control(),
    }
}

fn is_ctrl_char(key: &KeyEvent, lower: char, upper: char) -> (r: bool)
    ensures
        r == is_char_key(*key, lower, upper),
{
    (key.code == KeyCode::Char(lower) || key.code == KeyCode::Char(upper)) && key.modifiers
        == KeyModifiers::control()
}

impl InputsShared {
    /// Moves the cursor of the text the keys edit to `cursor`.
    fn move_to(&mut self, local: &InputsLocal, cursor: usize) -> (r: Vec<KeyAction>)
        requires
            old(self).wf(local),
            cursor <= active(model_of(old(self), local)).0.len(),
        ensures
            model_of(final(self), local) == with_active(
                model_of(old(self), local),
                active(model_of(old(self), local)).0,
                cursor as int,
            ),
            action_views(r@) == seq![ActionView::RefreshTags],
            final(self).tag_list == old(self).tag_list,
            untouched(old(self), final(self)),
    {
        match self.mode {
            InputMode::Normal => self.cursor = cursor,
            InputMode::Search => self.search_cursor = cursor,
        }
        one(KeyAction::RefreshTags)
    }

    /// What the key press `key` does (see `key_step`), on `platform`: the
    /// text, cursors, mode, history and tag list are updated, and the
    /// actions for the rest of the program are returned in order.
    pub fn handle_key(&mut self, local: &mut InputsLocal, key: KeyEvent, platform: Platform) -> (r: Vec<
        KeyAction,
    >)
        requires
            old(self).wf(old(local)),
            key.code == KeyCode::Tab ==> tab_safe(model_of(old(self), old(local)), tab_view(&old(self).tag_list)),
        ensures
            (model_of(final(self), final(local)), action_views(r@)) == key_step(
                model_of(old(self), old(local)),
                old(self).tag_list.entries(),
                tab_view(&old(self).tag_list),
                key,
                platform,
            ),
            final(self).wf(final(local)),
            final(self).tag_list.entries() == old(self).tag_list.entries(),
            final(self).tag_list.path() == old(self).tag_list.path(),
            clears_tags(model_of(old(self), old(local)), key, platform) ==> {
                &&& final(self).tag_list.typed().len() == 0
                &&& final(self).tag_list.suggestions().len() == 0
                &&& final(self).tag_list.highlighted() == 0
            },
            !clears_tags(model_of(old(self), old(local)), key, platform) ==> final(self).tag_list
                == old(self).tag_list,
            untouched(old(self), final(self)),
            final(local).has_tag_failed == old(local).has_tag_failed,
    {
        let ghost m = model_of(old(self), old(local));
        let action_mod = action_mods(platform);
        let ctrl_mod = ctrl_mods(platform);
        if key.code == KeyCode::Esc {
            match self.mode {
                InputMode::Normal => return one(KeyAction::Exit),
                InputMode::Search => {
                    self.mode = InputMode::Normal;
                    return one(KeyAction::Graphics(GraphicsCommand::ChangeToNormalMode));
                },
            }
        }
        if is_ctrl_char(&key, 'c', 'C') {
            return one(KeyAction::Graphics(GraphicsCommand::CopyToClipboard));
        }
        if is_ctrl_char(&key, 'l', 'L') {
            return one(KeyAction::Graphics(GraphicsCommand::Clear));
        }
        if is_ctrl_char(&key, 's', 'S') {
            return one(KeyAction::Graphics(GraphicsCommand::SaveData));
        }
        if is_ctrl_char(&key, 'r', 'R') {
            return one(KeyAction::Graphics(GraphicsCommand::RecordData));
        }
        if is_ctrl_char(&key, 'f', 'F') {
            match self.mode {
                InputMode::Normal => {
                    self.mode = InputMode::Search;
                    return two(
                        KeyAction::Graphics(GraphicsCommand::ChangeToSearchMode),
                        KeyAction::Graphics(GraphicsCommand::SearchChange),
                    );
                },
                InputMode::Search => {
                    self.mode = InputMode::Normal;
                    return one(KeyAction::Graphics(GraphicsCommand::ChangeToNormalMode));
                },
            }
        }
        if key.code == KeyCode::Right && key.modifiers == ctrl_mod {
            let (text, cursor) = self.get_active();
            let target = word_right_exec(text.as_str(), cursor);
            proof {
                lemma_word_right_bounds(active(m).0, cursor as int);
            }
            return self.move_to(local, target);
        }
        if key.code == KeyCode::Left && key.modifiers == ctrl_mod {
            let (text, cursor) = self.get_active();
            let target = word_left_exec(text.as_str(), cursor);
            proof {
                lemma_word_left_bounds(active(m).0, cursor - 1);
            }
            return self.move_to(local, target);
        }
        if is_ctrl_char(&key, 'w', 'W') {
            if self.mode == InputMode::Search {
                self.is_case_sensitive = !self.is_case_sensitive;
                return one(KeyAction::Graphics(GraphicsCommand::SearchChange));
            }
            return none();
        }
        if let KeyCode::Char(c) = key.code {
            return self.type_char_exec(local, c);
        }
        if key.code == KeyCode::PageUp && key.modifiers == action_mod {
            return one(KeyAction::Graphics(GraphicsCommand::JumpToStart));
        }
        if key.code == KeyCode::PageDown && key.modifiers == action_mod {
            return one(KeyAction::Graphics(GraphicsCommand::JumpToEnd));
        }
        if key.code == KeyCode::PageUp {
            return one(KeyAction::Graphics(GraphicsCommand::PageUp));
        }
        if key.code == KeyCode::PageDown {
            return one(KeyAction::Graphics(GraphicsCommand::PageDown));
        }
        if key.code == KeyCode::Backspace {
            return self.backspace_exec(local);
        }
        if key.code == KeyCode::Delete {
            return self.delete_exec(local);
        }
        if key.code == KeyCode::Right {
            let (text, cursor) = self.get_active();
            if cursor < char_count(text.as_str()) {
                return self.move_to(local, cursor + 1);
            }
            return none();
        }
        if key.code == KeyCode::Left {
            let (_text, cursor) = self.get_active();
            if cursor > 0 {
                return self.move_to(local, cursor - 1);
            }
            return none();
        }
        if key.code == KeyCode::End {
            let (text, _cursor) = self.get_active();
            let n = char_count(text.as_str());
            return self.move_to(local, n);
        }
        if key.code == KeyCode::Home {
            return self.move_to(local, 0);
        }
        if key.code == KeyCode::Up {
            return self.history_up_exec(local);
        }
        if key.code == KeyCode::Down {
            return self.history_down_exec(local);
        }
        if key.code == KeyCode::Tab {
            return self.tab_exec(local);
        }
        if key.code == KeyCode::Enter && key.modifiers == action_mod {
            if self.mode == InputMode::Search {
                return one(KeyAction::Graphics(GraphicsCommand::PrevSearch));
            }
            return none();
        }
        if key.code == KeyCode::Enter {
            return self.enter_exec(local, key.modifiers);
        }
        none()
    }
}

proof fn lemma_word_right_bounds(s: Seq<char>, p: int)
    requires
        0 <= p,
    ensures
        word_right(s, p) <= s.len(),
        word_right(s, p) >= 0,
    decreases s.len() - p,
{
    if p + 1 < s.len() && !(is_space(s[p]) && !is_space(s[p + 1])) {
        lemma_word_right_bounds(s, p + 1);
    }
}

proof fn lemma_word_left_bounds(s: Seq<char>, j: int)
    requires
        j < s.len(),
    ensures
        0 <= word_left(s, j) <= if j < 0 { 0 } else { j },
    decreases j,
{
    if j >= 1 && !(is_space(s[j - 1]) && !is_space(s[j])) {
        lemma_word_left_bounds(s, j - 1);
    }
}

proof fn lemma_space_from_bounds(s: Seq<char>, p: int)
    requires
        0 <= p <= s.len(),
    ensures
        p <= space_from(s, p) <= s.len(),
    decreases s.len() - p,
{
    if p < s.len() && !is_space(s[p]) {
        lemma_space_from_bounds(s, p + 1);
    }
}


/// What the mouse did, as far as the screen cares.
#[derive(Clone, Copy, Debug, PartialEq, Eq, Structural)]
pub enum MouseKind {
    ScrollUp,
    ScrollDown,
    /// The left button pressed.
    LeftDown,
    /// The mouse moved with the left button held.
    LeftDrag,
    /// Anything else.
    Other,
}

/// The screen request for a mouse event at column `x`, row `y`; with only
/// Control held, the wheel scrolls sideways.
pub open spec fn mouse_spec(kind: MouseKind, control_only: bool, x: u16, y: u16) -> Option<GraphicsCommand> {
    match kind {
        MouseKind::ScrollUp => Some(if control_only { GraphicsCommand::ScrollLeft } else { GraphicsCommand::ScrollUp }),
        MouseKind::ScrollDown => Some(if control_only { GraphicsCommand::ScrollRight } else { GraphicsCommand::ScrollDown }),
        MouseKind::LeftDown => Some(GraphicsCommand::Click(ScreenPosition { x, y })),
        MouseKind::LeftDrag => Some(GraphicsCommand::Move(ScreenPosition { x, y })),
        MouseKind::Other => None,
    }
}

/// The screen request for a mouse event (see `mouse_spec`).
pub fn mouse_command(kind: MouseKind, control_only: bool, x: u16, y: u16) -> (r: Option<GraphicsCommand>)
    ensures
        r == mouse_spec(kind, control_only, x, y),
{
    match kind {
        MouseKind::ScrollUp => Some(if control_only { GraphicsCommand::ScrollLeft } else { GraphicsCommand::ScrollUp }),
        MouseKind::ScrollDown => Some(if control_only { GraphicsCommand::ScrollRight } else { GraphicsCommand::ScrollDown }),
        MouseKind::LeftDown => Some(GraphicsCommand::Click(ScreenPosition { x, y })),
        MouseKind::LeftDrag => Some(GraphicsCommand::Move(ScreenPosition { x, y })),
        MouseKind::Other => None,
    }
}

} // verus!
