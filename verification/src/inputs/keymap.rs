//! Configurable keyboard shortcuts: the remappable actions, the parsing of
//! key combinations written as `Ctrl+Alt+End`, and the effective table from
//! actions to keys with its validation.
use vstd::prelude::*;
use crate::graphics::ansi::{split_chars, split_on};
use crate::inputs::keys::{KeyCode, KeyEvent, KeyModifiers};
use crate::infra::session::{trim, trim_end_chars, trim_start_chars};
use crate::text::{
    char_lower, chars_eq, chars_of, chars_to_lower, lower, lower_seq, parse_unsigned,
    parse_unsigned_chars, push_str, string_of, to_owned_string,
};

verus! {

/// The platform the program was built for, where key delivery differs.
#[derive(Clone, Copy, Debug, PartialEq, Eq, Structural)]
pub enum Platform {
    Windows,
    MacOs,
    Other,
}

/// A remappable action.
#[derive(Clone, Copy, Debug, PartialEq, Eq, Structural)]
pub enum Action {
    Copy,
    Clear,
    Save,
    Record,
    SearchToggle,
    ToggleCase,
    ToggleRegex,
    PageUp,
    PageDown,
    JumpStart,
    JumpEnd,
    WordLeft,
    WordRight,
    NextBookmark,
    PrevBookmark,
}

/// Every action, in a stable order.
pub open spec fn all_actions() -> Seq<Action> {
    seq![
        Action::Copy,
        Action::Clear,
        Action::Save,
        Action::Record,
        Action::SearchToggle,
        Action::ToggleCase,
        Action::ToggleRegex,
        Action::PageUp,
        Action::PageDown,
        Action::JumpStart,
        Action::JumpEnd,
        Action::WordLeft,
        Action::WordRight,
        Action::NextBookmark,
        Action::PrevBookmark,
    ]
}

/// The configuration key of an action.
pub open spec fn action_name(a: Action) -> Seq<char> {
    match a {
        Action::Copy => "copy"@,
        Action::Clear => "clear"@,
        Action::Save => "save"@,
        Action::Record => "record"@,
        Action::SearchToggle => "search_toggle"@,
        Action::ToggleCase => "toggle_case"@,
        Action::ToggleRegex => "toggle_regex"@,
        Action::PageUp => "page_up"@,
        Action::PageDown => "page_down"@,
        Action::JumpStart => "jump_start"@,
        Action::JumpEnd => "jump_end"@,
        Action::WordLeft => "word_left"@,
        Action::WordRight => "word_right"@,
        Action::NextBookmark => "next_bookmark"@,
        Action::PrevBookmark => "prev_bookmark"@,
    }
}

/// The built-in key combination of an action. Only the jumps differ by
/// platform: on Windows they take `Ctrl`, elsewhere `Alt`.
pub open spec fn default_spec_of(a: Action, platform: Platform) -> Seq<char> {
    match a {
        Action::Copy => "Ctrl+C"@,
        Action::Clear => "Ctrl+L"@,
        Action::Save => "Ctrl+S"@,
        Action::Record => "Ctrl+R"@,
        Action::SearchToggle => "Ctrl+F"@,
        Action::ToggleCase => "Ctrl+W"@,
        Action::ToggleRegex => "Ctrl+E"@,
        Action::PageUp => "PageUp"@,
        Action::PageDown => "PageDown"@,
        Action::JumpStart => if platform == Platform::Windows {
            "Ctrl+PageUp"@
        } else {
            "Alt+PageUp"@
        },
        Action::JumpEnd => if platform == Platform::Windows {
            "Ctrl+PageDown"@
        } else {
            "Alt+PageDown"@
        },
        Action::WordLeft => "Ctrl+Left"@,
        Action::WordRight => "Ctrl+Right"@,
        Action::NextBookmark => "Tab"@,
        Action::PrevBookmark => "Shift+Tab"@,
    }
}

/// The first action of `actions` named `name`.
pub open spec fn action_named(actions: Seq<Action>, name: Seq<char>) -> Option<Action>
    decreases actions.len(),
{
    if actions.len() == 0 {
        None
    } else if action_name(actions[0]) == name {
        Some(actions[0])
    } else {
        action_named(actions.drop_first(), name)
    }
}

/// The names of `actions`, separated by `, `.
pub open spec fn names_joined(actions: Seq<Action>) -> Seq<char>
    decreases actions.len(),
{
    if actions.len() == 0 {
        Seq::empty()
    } else if actions.len() == 1 {
        action_name(actions[0])
    } else {
        names_joined(actions.drop_last()) + ", "@ + action_name(actions.last())
    }
}

impl Action {
    /// Every action, in a stable order.
    pub fn all() -> (r: Vec<Action>)
        ensures
            r@ == all_actions(),
    {
        let r = vec![
            Action::Copy,
            Action::Clear,
            Action::Save,
            Action::Record,
            Action::SearchToggle,
            Action::ToggleCase,
            Action::ToggleRegex,
            Action::PageUp,
            Action::PageDown,
            Action::JumpStart,
            Action::JumpEnd,
            Action::WordLeft,
            Action::WordRight,
            Action::NextBookmark,
            Action::PrevBookmark,
        ];
        assert(r@ =~= all_actions());
        r
    }

    /// The configuration key of the action.
    pub fn name(self) -> (r: &'static str)
        ensures
            r@ == action_name(self),
    {
        match self {
            Action::Copy => "copy",
            Action::Clear => "clear",
            Action::Save => "save",
            Action::Record => "record",
            Action::SearchToggle => "search_toggle",
            Action::ToggleCase => "toggle_case",
            Action::ToggleRegex => "toggle_regex",
            Action::PageUp => "page_up",
            Action::PageDown => "page_down",
            Action::JumpStart => "jump_start",
            Action::JumpEnd => "jump_end",
            Action::WordLeft => "word_left",
            Action::WordRight => "word_right",
            Action::NextBookmark => "next_bookmark",
            Action::PrevBookmark => "prev_bookmark",
        }
    }

    /// The built-in key combination of the action on `platform`.
    pub fn default_spec(self, platform: Platform) -> (r: &'static str)
        ensures
            r@ == default_spec_of(self, platform),
    {
        match self {
            Action::Copy => "Ctrl+C",
            Action::Clear => "Ctrl+L",
            Action::Save => "Ctrl+S",
            Action::Record => "Ctrl+R",
            Action::SearchToggle => "Ctrl+F",
            Action::ToggleCase => "Ctrl+W",
            Action::ToggleRegex => "Ctrl+E",
            Action::PageUp => "PageUp",
            Action::PageDown => "PageDown",
            Action::JumpStart => if platform == Platform::Windows {
                "Ctrl+PageUp"
            } else {
                "Alt+PageUp"
            },
            Action::JumpEnd => if platform == Platform::Windows {
                "Ctrl+PageDown"
            } else {
                "Alt+PageDown"
            },
            Action::WordLeft => "Ctrl+Left",
            Action::WordRight => "Ctrl+Right",
            Action::NextBookmark => "Tab",
            Action::PrevBookmark => "Shift+Tab",
        }
    }

    /// The action named `s`, if any.
    pub fn from_name(s: &str) -> (r: Option<Action>)
        ensures
            r == action_named(all_actions(), s@),
    {
        let all = Action::all();
        let mut i: usize = 0;
        assert(all@.skip(0) =~= all@);
        while i < all.len()
            invariant
                i <= all@.len(),
                all@ == all_actions(),
                action_named(all_actions(), s@) == action_named(all@.skip(i as int), s@),
            decreases all.len() - i,
        {
            assert(all@.skip(i as int).drop_first() =~= all@.skip(i + 1));
            assert(all@.skip(i as int)[0] == all@[i as int]);
            let name = all[i].name();
            if crate::text::str_eq(name, s) {
                return Some(all[i]);
            }
            i += 1;
        }
        None
    }

    /// Every action name, separated by `, `, for error messages.
    pub fn names_csv() -> (r: String)
        ensures
            r@ == names_joined(all_actions()),
    {
        let all = Action::all();
        let mut out = String::new();
        let mut i: usize = 0;
        while i < all.len()
            invariant
                i <= all@.len(),
                all@ == all_actions(),
                out@ == names_joined(all@.take(i as int)),
            decreases all.len() - i,
        {
            assert(all@.take(i + 1).drop_last() =~= all@.take(i as int));
            assert(all@.take(i + 1).last() == all@[i as int]);
            if i > 0 {
                push_str(&mut out, ", ");
            }
            push_str(&mut out, all[i].name());
            proof {
                if i == 0 {
                    assert(all@.take(1) =~= seq![all@[0]]);
                    assert(Seq::<char>::empty() + action_name(all@[0]) =~= action_name(all@[0]));
                }
            }
            i += 1;
        }
        assert(all@.take(all@.len() as int) =~= all@);
        out
    }
}

/// The modifiers written in a key combination, before they are resolved to
/// what the terminal delivers.
#[derive(Clone, Copy, Debug, PartialEq, Eq, Structural)]
pub struct LogicalMods {
    pub ctrl: bool,
    pub alt: bool,
    pub shift: bool,
}

/// A key combination as the terminal delivers it: the canonical key (a
/// character in lower case, `Shift+Tab` as `BackTab`) and the modifiers,
/// only ever `Ctrl`, `Alt` and `Shift`.
#[derive(Clone, Copy, Debug, PartialEq, Eq, Structural)]
pub struct KeyBinding {
    pub code: KeyCode,
    pub mods: KeyModifiers,
}

/// Whether a written `Ctrl` is delivered as `Alt`: on macOS, terminals send
/// `Ctrl` with an arrow as an `ESC`-prefixed sequence.
pub open spec fn ctrl_is_alt(code: KeyCode, platform: Platform) -> bool {
    platform == Platform::MacOs && (code == KeyCode::Left || code == KeyCode::Right || code
        == KeyCode::Up || code == KeyCode::Down)
}

/// The modifiers the terminal delivers for the written modifiers `m` on
/// `code` (a `Shift` with `BackTab` is already part of the key).
pub open spec fn resolve_spec(m: LogicalMods, code: KeyCode, platform: Platform) -> KeyModifiers {
    KeyModifiers {
        shift: m.shift && code != KeyCode::BackTab,
        control: m.ctrl && !ctrl_is_alt(code, platform),
        alt: m.alt || (m.ctrl && ctrl_is_alt(code, platform)),
        super_key: false,
        hyper: false,
        meta: false,
    }
}

/// The key a lower-case key name denotes.
pub open spec fn named_key(l: Seq<char>) -> Option<KeyCode> {
    if l == seq!['t', 'a', 'b'] {
        Some(KeyCode::Tab)
    } else if l == seq!['e', 'n', 't', 'e', 'r'] {
        Some(KeyCode::Enter)
    } else if l == seq!['e', 's', 'c'] {
        Some(KeyCode::Esc)
    } else if l == seq!['s', 'p', 'a', 'c', 'e'] {
        Some(KeyCode::Char(' '))
    } else if l == seq!['b', 'a', 'c', 'k', 's', 'p', 'a', 'c', 'e'] {
        Some(KeyCode::Backspace)
    } else if l == seq!['d', 'e', 'l', 'e', 't', 'e'] {
        Some(KeyCode::Delete)
    } else if l == seq!['i', 'n', 's', 'e', 'r', 't'] {
        Some(KeyCode::Insert)
    } else if l == seq!['h', 'o', 'm', 'e'] {
        Some(KeyCode::Home)
    } else if l == seq!['e', 'n', 'd'] {
        Some(KeyCode::End)
    } else if l == seq!['p', 'a', 'g', 'e', 'u', 'p'] {
        Some(KeyCode::PageUp)
    } else if l == seq!['p', 'a', 'g', 'e', 'd', 'o', 'w', 'n'] {
        Some(KeyCode::PageDown)
    } else if l == seq!['u', 'p'] {
        Some(KeyCode::Up)
    } else if l == seq!['d', 'o', 'w', 'n'] {
        Some(KeyCode::Down)
    } else if l == seq!['l', 'e', 'f', 't'] {
        Some(KeyCode::Left)
    } else if l == seq!['r', 'i', 'g', 'h', 't'] {
        Some(KeyCode::Right)
    } else {
        None
    }
}

/// The key a key token denotes: a key name (in any case), `F1` to `F12`, or
/// a single character as written.
pub open spec fn parse_key_spec(k: Seq<char>) -> Option<KeyCode> {
    let l = lower_seq(k);
    if named_key(l) is Some {
        named_key(l)
    } else if l.len() > 0 && l[0] == 'f' && parse_unsigned(l.drop_first(), 255) is Some && 1
        <= parse_unsigned(l.drop_first(), 255)->0 <= 12 {
        Some(KeyCode::F(parse_unsigned(l.drop_first(), 255)->0 as u8))
    } else if k.len() == 1 {
        Some(KeyCode::Char(k[0]))
    } else {
        None
    }
}

pub open spec fn no_mods() -> LogicalMods {
    LogicalMods { ctrl: false, alt: false, shift: false }
}

/// Adds the modifier tokens `toks`, left to right, to `m`: `Ctrl`, `Alt`
/// and `Shift` in any case, each at most once.
pub open spec fn mods_from(toks: Seq<Seq<char>>, m: LogicalMods) -> Result<LogicalMods, Seq<char>>
    decreases toks.len(),
{
    if toks.len() == 0 {
        Ok(m)
    } else {
        let t = toks[0];
        let l = lower_seq(t);
        let rest = toks.drop_first();
        if l == seq!['c', 't', 'r', 'l'] && !m.ctrl {
            mods_from(rest, LogicalMods { ctrl: true, ..m })
        } else if l == seq!['a', 'l', 't'] && !m.alt {
            mods_from(rest, LogicalMods { alt: true, ..m })
        } else if l == seq!['s', 'h', 'i', 'f', 't'] && !m.shift {
            mods_from(rest, LogicalMods { shift: true, ..m })
        } else if l == seq!['c', 't', 'r', 'l'] || l == seq!['a', 'l', 't'] || l == seq![
            's',
            'h',
            'i',
            'f',
            't',
        ] {
            Err("duplicate modifier \""@ + t + "\""@)
        } else {
            Err("unknown modifier \""@ + l + "\""@)
        }
    }
}

/// The canonical form of a key: characters in lower case.
pub open spec fn canonical_code(code: KeyCode) -> KeyCode {
    match code {
        KeyCode::Char(c) => KeyCode::Char(lower(c)),
        other => other,
    }
}

/// The tokens of a key combination: the text between the `+` signs,
/// trimmed.
pub open spec fn combo_tokens(s: Seq<char>) -> Seq<Seq<char>> {
    split_on(s, '+').map_values(|t: Seq<char>| trim(t))
}

/// What parsing the key combination `s` gives on `platform`.
pub open spec fn parse_spec(s: Seq<char>, platform: Platform) -> Result<KeyBinding, Seq<char>> {
    let toks = combo_tokens(s);
    if exists|i: int| 0 <= i < toks.len() && #[trigger] toks[i].len() == 0 {
        Err("empty token in \""@ + s + "\""@)
    } else {
        let key_tok = toks.last();
        match mods_from(toks.drop_last(), no_mods()) {
            Err(e) => Err(e),
            Ok(m) => match parse_key_spec(key_tok) {
                None => Err("unknown key \""@ + key_tok + "\""@),
                Some(c) => {
                    let code = canonical_code(c);
                    if m.shift && code is Char {
                        Err("Shift cannot be combined with a character key"@)
                    } else if m.shift && code == KeyCode::Tab {
                        Ok(
                            KeyBinding {
                                code: KeyCode::BackTab,
                                mods: resolve_spec(
                                    LogicalMods { shift: false, ..m },
                                    KeyCode::BackTab,
                                    platform,
                                ),
                            },
                        )
                    } else {
                        Ok(KeyBinding { code, mods: resolve_spec(m, code, platform) })
                    }
                },
            },
        }
    }
}

/// The form of an incoming key press that compares with bindings: the
/// character in lower case, the modifiers reduced to `Ctrl`, `Alt` and
/// `Shift`, and no `Shift` on `BackTab`.
pub open spec fn canonical_event(ev: KeyEvent) -> KeyBinding {
    KeyBinding {
        code: canonical_code(ev.code),
        mods: KeyModifiers {
            shift: ev.modifiers.shift && ev.code != KeyCode::BackTab,
            control: ev.modifiers.control,
            alt: ev.modifiers.alt,
            super_key: false,
            hyper: false,
            meta: false,
        },
    }
}

/// Why a binding cannot be used for a remappable action: it lands on a key
/// with a fixed behavior.
pub open spec fn reserved_spec(b: KeyBinding) -> Option<Seq<char>> {
    let none = KeyModifiers::spec_none();
    let bare = b.mods == none;
    let shift = b.mods == (KeyModifiers { shift: true, ..none });
    let ctrl = b.mods == (KeyModifiers { control: true, ..none });
    match b.code {
        KeyCode::Enter => Some("Enter is reserved (send / run / next match)"@),
        KeyCode::Esc => Some("Esc is reserved (quit / leave search)"@),
        KeyCode::Backspace | KeyCode::Delete => Some("editing keys are reserved"@),
        KeyCode::Up | KeyCode::Down => Some(
            "Up/Down are reserved (history / search navigation / tag pop-up)"@,
        ),
        KeyCode::Char(c) => if c == 'k' && ctrl {
            Some("Ctrl+K is reserved (headless command bar)"@)
        } else if c == 'q' && ctrl {
            Some("Ctrl+Q is reserved (headless quit)"@)
        } else if bare || shift {
            Some("plain character keys are reserved for typing"@)
        } else {
            None
        },
        KeyCode::Left | KeyCode::Right | KeyCode::Home | KeyCode::End => if bare {
            Some("cursor movement keys are reserved"@)
        } else {
            None
        },
        _ => None,
    }
}

/// The modifiers the terminal delivers (see `resolve_spec`).
pub fn resolve(m: LogicalMods, code: KeyCode, platform: Platform) -> (r: KeyModifiers)
    ensures
        r == resolve_spec(m, code, platform),
{
    let as_alt = platform == Platform::MacOs && (code == KeyCode::Left || code == KeyCode::Right
        || code == KeyCode::Up || code == KeyCode::Down);
    KeyModifiers {
        shift: m.shift && code != KeyCode::BackTab,
        control: m.ctrl && !as_alt,
        alt: m.alt || (m.ctrl && as_alt),
        super_key: false,
        hyper: false,
        meta: false,
    }
}

/// The physical modifier a written `Ctrl` becomes on `code`.
pub fn ctrl_physical(code: KeyCode, platform: Platform) -> (r: KeyModifiers)
    ensures
        r == resolve_spec(LogicalMods { ctrl: true, ..no_mods() }, code, platform),
{
    resolve(LogicalMods { ctrl: true, alt: false, shift: false }, code, platform)
}

/// The comparable form of an incoming key press (see `canonical_event`).
pub fn canonicalize_event(ev: &KeyEvent) -> (r: KeyBinding)
    ensures
        r == canonical_event(*ev),
{
    let code = match ev.code {
        KeyCode::Char(c) => KeyCode::Char(char_lower(c)),
        other => other,
    };
    KeyBinding {
        code,
        mods: KeyModifiers {
            shift: ev.modifiers.shift && ev.code != KeyCode::BackTab,
            control: ev.modifiers.control,
            alt: ev.modifiers.alt,
            super_key: false,
            hyper: false,
            meta: false,
        },
    }
}

/// The key a key token denotes (see `parse_key_spec`).
pub fn parse_key(k: &[char]) -> (r: Option<KeyCode>)
    ensures
        r == parse_key_spec(k@),
{
    let l = chars_to_lower(k);
    let ls = l.as_slice();
    if chars_eq(ls, &['t', 'a', 'b']) {
        return Some(KeyCode::Tab);
    }
    if chars_eq(ls, &['e', 'n', 't', 'e', 'r']) {
        return Some(KeyCode::Enter);
    }
    if chars_eq(ls, &['e', 's', 'c']) {
        return Some(KeyCode::Esc);
    }
    if chars_eq(ls, &['s', 'p', 'a', 'c', 'e']) {
        return Some(KeyCode::Char(' '));
    }
    if chars_eq(ls, &['b', 'a', 'c', 'k', 's', 'p', 'a', 'c', 'e']) {
        return Some(KeyCode::Backspace);
    }
    if chars_eq(ls, &['d', 'e', 'l', 'e', 't', 'e']) {
        return Some(KeyCode::Delete);
    }
    if chars_eq(ls, &['i', 'n', 's', 'e', 'r', 't']) {
        return Some(KeyCode::Insert);
    }
    if chars_eq(ls, &['h', 'o', 'm', 'e']) {
        return Some(KeyCode::Home);
    }
    if chars_eq(ls, &['e', 'n', 'd']) {
        return Some(KeyCode::End);
    }
    if chars_eq(ls, &['p', 'a', 'g', 'e', 'u', 'p']) {
        return Some(KeyCode::PageUp);
    }
    if chars_eq(ls, &['p', 'a', 'g', 'e', 'd', 'o', 'w', 'n']) {
        return Some(KeyCode::PageDown);
    }
    if chars_eq(ls, &['u', 'p']) {
        return Some(KeyCode::Up);
    }
    if chars_eq(ls, &['d', 'o', 'w', 'n']) {
        return Some(KeyCode::Down);
    }
    if chars_eq(ls, &['l', 'e', 'f', 't']) {
        return Some(KeyCode::Left);
    }
    if chars_eq(ls, &['r', 'i', 'g', 'h', 't']) {
        return Some(KeyCode::Right);
    }
    assert(named_key(l@) is None);
    if l.len() > 0 && l[0] == 'f' {
        let rest = &ls[1..l.len()];
        assert(rest@ =~= l@.drop_first());
        if let Some(n) = parse_unsigned_chars(rest, 255) {
            if 1 <= n && n <= 12 {
                return Some(KeyCode::F(n as u8));
            }
        }
    }
    if k.len() == 1 {
        return Some(KeyCode::Char(k[0]));
    }
    None
}

/// `prefix`, then `middle`, then `suffix`.
fn framed(prefix: &str, middle: &[char], suffix: &str) -> (r: String)
    ensures
        r@ == prefix@ + middle@ + suffix@,
{
    let mut m = to_owned_string(prefix);
    let text = string_of(middle);
    push_str(&mut m, text.as_str());
    push_str(&mut m, suffix);
    m
}

impl KeyBinding {
    /// Parses a key combination written as modifiers and a key joined by
    /// `+` (`Ctrl+Alt+End`, `Shift+Tab`, `F5`), case-insensitively for the
    /// names, and resolves it to what the terminal delivers on `platform`.
    pub fn parse(spec: &str, platform: Platform) -> (r: Result<KeyBinding, String>)
        ensures
            match r {
                Ok(b) => parse_spec(spec@, platform) == Ok::<KeyBinding, Seq<char>>(b),
                Err(e) => parse_spec(spec@, platform) == Err::<KeyBinding, Seq<char>>(e@),
            },
    {
        let cs = chars_of(spec);
        let pieces = split_chars(cs.as_slice(), '+');
        let ghost toks = combo_tokens(spec@);
        let mut tokens: Vec<Vec<char>> = Vec::new();
        let mut i: usize = 0;
        while i < pieces.len()
            invariant
                i <= pieces@.len(),
                cs@ == spec@,
                pieces@.len() == split_on(cs@, '+').len(),
                forall|k: int| 0 <= k < pieces@.len() ==> #[trigger] pieces@[k]@ == split_on(cs@, '+')[k],
                toks == combo_tokens(spec@),
                tokens@.len() == i,
                forall|k: int| 0 <= k < i ==> #[trigger] tokens@[k]@ == toks[k],
            decreases pieces.len() - i,
        {
            let t = trim_start_chars(trim_end_chars(pieces[i].as_slice()).as_slice());
            tokens.push(t);
            i += 1;
        }
        proof {
            lemma_split_nonempty(cs@, '+');
        }
        let mut j: usize = 0;
        while j < tokens.len()
            invariant
                j <= tokens@.len(),
                cs@ == spec@,
                toks == combo_tokens(spec@),
                tokens@.len() == toks.len(),
                forall|k: int| 0 <= k < tokens@.len() ==> #[trigger] tokens@[k]@ == toks[k],
                forall|k: int| 0 <= k < j ==> #[trigger] toks[k].len() > 0,
            decreases tokens.len() - j,
        {
            if tokens[j].len() == 0 {
                assert(toks[j as int].len() == 0);
                return Err(framed("empty token in \"", cs.as_slice(), "\""));
            }
            j += 1;
        }
        let last = tokens.len() - 1;
        let key_tok = &tokens[last];
        let mut m = LogicalMods { ctrl: false, alt: false, shift: false };
        let mut k: usize = 0;
        let ghost mod_toks = toks.drop_last();
        assert(mod_toks.skip(0) =~= mod_toks);
        while k < last
            invariant
                k <= last,
                cs@ == spec@,
                toks == combo_tokens(spec@),
                forall|q: int| 0 <= q < toks.len() ==> #[trigger] toks[q].len() > 0,
                last + 1 == tokens@.len(),
                tokens@.len() == toks.len(),
                mod_toks == toks.drop_last(),
                forall|q: int| 0 <= q < tokens@.len() ==> #[trigger] tokens@[q]@ == toks[q],
                mods_from(mod_toks, no_mods()) == mods_from(mod_toks.skip(k as int), m),
            decreases last - k,
        {
            assert(mod_toks.skip(k as int).drop_first() =~= mod_toks.skip(k + 1));
            assert(mod_toks.skip(k as int)[0] == toks[k as int]);
            let t = tokens[k].as_slice();
            let l = chars_to_lower(t);
            let ls = l.as_slice();
            let is_ctrl = chars_eq(ls, &['c', 't', 'r', 'l']);
            let is_alt = chars_eq(ls, &['a', 'l', 't']);
            let is_shift = chars_eq(ls, &['s', 'h', 'i', 'f', 't']);
            if is_ctrl && !m.ctrl {
                m = LogicalMods { ctrl: true, ..m };
            } else if is_alt && !m.alt {
                m = LogicalMods { alt: true, ..m };
            } else if is_shift && !m.shift {
                m = LogicalMods { shift: true, ..m };
            } else if is_ctrl || is_alt || is_shift {
                return Err(framed("duplicate modifier \"", t, "\""));
            } else {
                return Err(framed("unknown modifier \"", ls, "\""));
            }
            k += 1;
        }
        assert(mod_toks.skip(last as int) =~= Seq::<Seq<char>>::empty());
        assert(key_tok@ == toks.last());
        let code = match parse_key(key_tok.as_slice()) {
            None => {
                return Err(framed("unknown key \"", key_tok.as_slice(), "\""));
            },
            Some(c) => c,
        };
        let code = match code {
            KeyCode::Char(c) => KeyCode::Char(char_lower(c)),
            other => other,
        };
        if m.shift {
            if let KeyCode::Char(_) = code {
                return Err(to_owned_string("Shift cannot be combined with a character key"));
            }
            if code == KeyCode::Tab {
                let m2 = LogicalMods { shift: false, ..m };
                return Ok(KeyBinding { code: KeyCode::BackTab, mods: resolve(m2, KeyCode::BackTab, platform) });
            }
        }
        Ok(KeyBinding { mods: resolve(m, code, platform), code })
    }

    /// Whether the key press `ev` triggers this binding.
    pub fn matches(&self, ev: &KeyEvent) -> (r: bool)
        ensures
            r == (canonical_event(*ev) == *self),
    {
        let c = canonicalize_event(ev);
        c == *self
    }

    /// Why this binding lands on a reserved key, if it does.
    pub fn reserved_reason(&self) -> (r: Option<&'static str>)
        ensures
            match r {
                Some(reason) => reserved_spec(*self) == Some(reason@),
                None => reserved_spec(*self) is None,
            },
    {
        let none = KeyModifiers::none();
        let bare = self.mods == none;
        let shift = self.mods == KeyModifiers::shift();
        let ctrl = self.mods == KeyModifiers::control();
        match self.code {
            KeyCode::Enter => Some("Enter is reserved (send / run / next match)"),
            KeyCode::Esc => Some("Esc is reserved (quit / leave search)"),
            KeyCode::Backspace | KeyCode::Delete => Some("editing keys are reserved"),
            KeyCode::Up | KeyCode::Down => Some(
                "Up/Down are reserved (history / search navigation / tag pop-up)",
            ),
            KeyCode::Char(c) => if c == 'k' && ctrl {
                Some("Ctrl+K is reserved (headless command bar)")
            } else if c == 'q' && ctrl {
                Some("Ctrl+Q is reserved (headless quit)")
            } else if bare || shift {
                Some("plain character keys are reserved for typing")
            } else {
                None
            },
            KeyCode::Left | KeyCode::Right | KeyCode::Home | KeyCode::End => if bare {
                Some("cursor movement keys are reserved")
            } else {
                None
            },
            _ => None,
        }
    }
}

/// Splitting always gives at least one piece.
proof fn lemma_split_nonempty(s: Seq<char>, sep: char)
    ensures
        split_on(s, sep).len() > 0,
    decreases s.len(),
{
    if s.len() > 0 {
        lemma_split_nonempty(s.drop_last(), sep);
    }
}

/// The built-in binding of an action on `platform`: what its default
/// combination parses to.
pub open spec fn default_binding(a: Action, platform: Platform) -> KeyBinding {
    let ctrl = LogicalMods { ctrl: true, ..no_mods() };
    let alt = LogicalMods { alt: true, ..no_mods() };
    let jump = if platform == Platform::Windows { ctrl } else { alt };
    match a {
        Action::Copy => KeyBinding { code: KeyCode::Char('c'), mods: resolve_spec(ctrl, KeyCode::Char('c'), platform) },
        Action::Clear => KeyBinding { code: KeyCode::Char('l'), mods: resolve_spec(ctrl, KeyCode::Char('l'), platform) },
        Action::Save => KeyBinding { code: KeyCode::Char('s'), mods: resolve_spec(ctrl, KeyCode::Char('s'), platform) },
        Action::Record => KeyBinding { code: KeyCode::Char('r'), mods: resolve_spec(ctrl, KeyCode::Char('r'), platform) },
        Action::SearchToggle => KeyBinding { code: KeyCode::Char('f'), mods: resolve_spec(ctrl, KeyCode::Char('f'), platform) },
        Action::ToggleCase => KeyBinding { code: KeyCode::Char('w'), mods: resolve_spec(ctrl, KeyCode::Char('w'), platform) },
        Action::ToggleRegex => KeyBinding { code: KeyCode::Char('e'), mods: resolve_spec(ctrl, KeyCode::Char('e'), platform) },
        Action::PageUp => KeyBinding { code: KeyCode::PageUp, mods: KeyModifiers::spec_none() },
        Action::PageDown => KeyBinding { code: KeyCode::PageDown, mods: KeyModifiers::spec_none() },
        Action::JumpStart => KeyBinding { code: KeyCode::PageUp, mods: resolve_spec(jump, KeyCode::PageUp, platform) },
        Action::JumpEnd => KeyBinding { code: KeyCode::PageDown, mods: resolve_spec(jump, KeyCode::PageDown, platform) },
        Action::WordLeft => KeyBinding { code: KeyCode::Left, mods: resolve_spec(ctrl, KeyCode::Left, platform) },
        Action::WordRight => KeyBinding { code: KeyCode::Right, mods: resolve_spec(ctrl, KeyCode::Right, platform) },
        Action::NextBookmark => KeyBinding { code: KeyCode::Tab, mods: KeyModifiers::spec_none() },
        Action::PrevBookmark => KeyBinding { code: KeyCode::BackTab, mods: KeyModifiers::spec_none() },
    }
}

/// The built-in table: every action with its built-in binding.
pub open spec fn default_entries(platform: Platform) -> Seq<(Action, KeyBinding)> {
    all_actions().map_values(|a: Action| (a, default_binding(a, platform)))
}

/// The table with the binding of `a` replaced by `b`.
pub open spec fn set_binding(entries: Seq<(Action, KeyBinding)>, a: Action, b: KeyBinding) -> Seq<(Action, KeyBinding)> {
    entries.map_values(|e: (Action, KeyBinding)| if e.0 == a { (a, b) } else { e })
}

/// Applies the `[shortcuts]` overrides, in order, to `entries`; the first
/// unknown action, unparsable combination or reserved key is an error.
pub open spec fn apply_overrides(
    entries: Seq<(Action, KeyBinding)>,
    overrides: Seq<(Seq<char>, Seq<char>)>,
    platform: Platform,
) -> Result<Seq<(Action, KeyBinding)>, Seq<char>>
    decreases overrides.len(),
{
    if overrides.len() == 0 {
        Ok(entries)
    } else {
        let name = overrides[0].0;
        let spec = overrides[0].1;
        match action_named(all_actions(), name) {
            None => Err(
                "unknown shortcut action \""@ + name + "\" in [shortcuts]; valid actions are: "@
                    + names_joined(all_actions()),
            ),
            Some(a) => match parse_spec(spec, platform) {
                Err(e) => Err("invalid key binding \""@ + spec + "\" for shortcut \""@ + name
                    + "\": "@ + e),
                Ok(b) => match reserved_spec(b) {
                    Some(reason) => Err("shortcut \""@ + name + "\" cannot be bound to \""@
                        + spec + "\": "@ + reason),
                    None => apply_overrides(
                        set_binding(entries, a, b),
                        overrides.drop_first(),
                        platform,
                    ),
                },
            },
        }
    }
}

/// The first `j` at or after `from` whose binding equals that of `i`.
pub open spec fn first_same_from(entries: Seq<(Action, KeyBinding)>, i: int, from: int) -> Option<int>
    decreases entries.len() - from,
{
    if from < 0 || from >= entries.len() {
        None
    } else if entries[from].1 == entries[i].1 {
        Some(from)
    } else {
        first_same_from(entries, i, from + 1)
    }
}

/// The first pair `i < j` (by `i`, then `j`) of entries with the same
/// binding, looking from `i` on.
pub open spec fn first_duplicate_from(entries: Seq<(Action, KeyBinding)>, i: int) -> Option<(int, int)>
    decreases entries.len() - i,
{
    if i < 0 || i >= entries.len() {
        None
    } else {
        match first_same_from(entries, i, i + 1) {
            Some(j) => Some((i, j)),
            None => first_duplicate_from(entries, i + 1),
        }
    }
}

/// What `Keymap::from_config` gives: the built-in table with the overrides
/// applied, unless some override is refused or two actions end up on the
/// same key.
pub open spec fn from_config_spec(
    overrides: Option<Seq<(Seq<char>, Seq<char>)>>,
    platform: Platform,
) -> Result<Seq<(Action, KeyBinding)>, Seq<char>> {
    let applied = match overrides {
        None => Ok(default_entries(platform)),
        Some(o) => apply_overrides(default_entries(platform), o, platform),
    };
    match applied {
        Err(e) => Err(e),
        Ok(entries) => match first_duplicate_from(entries, 0) {
            Some((i, j)) => Err("shortcuts \""@ + action_name(entries[i].0) + "\" and \""@
                + action_name(entries[j].0) + "\" are both bound to the same key"@),
            None => Ok(entries),
        },
    }
}

/// The action of the first entry that `ev` triggers.
pub open spec fn action_of(entries: Seq<(Action, KeyBinding)>, ev: KeyEvent) -> Option<Action>
    decreases entries.len(),
{
    if entries.len() == 0 {
        None
    } else if canonical_event(ev) == entries[0].1 {
        Some(entries[0].0)
    } else {
        action_of(entries.drop_first(), ev)
    }
}

/// The effective table from actions to key bindings.
#[derive(Debug)]
pub struct Keymap {
    entries: Vec<(Action, KeyBinding)>,
}

pub open spec fn pair_views(v: Seq<(String, String)>) -> Seq<(Seq<char>, Seq<char>)> {
    v.map_values(|p: (String, String)| (p.0@, p.1@))
}

impl Keymap {
    pub closed spec fn table(&self) -> Seq<(Action, KeyBinding)> {
        self.entries@
    }

    /// Every action appears once, in the order of `all_actions`.
    pub open spec fn wf(&self) -> bool {
        &&& self.table().len() == all_actions().len()
        &&& forall|i: int| 0 <= i < self.table().len() ==> #[trigger] self.table()[i].0 == all_actions()[i]
    }

    /// The built-in keymap for `platform`.
    pub fn default_for(platform: Platform) -> (r: Keymap)
        ensures
            r.wf(),
            r.table() == default_entries(platform),
    {
        let all = Action::all();
        let mut entries: Vec<(Action, KeyBinding)> = Vec::new();
        let mut i: usize = 0;
        while i < all.len()
            invariant
                i <= all@.len(),
                all@ == all_actions(),
                entries@ == default_entries(platform).take(i as int),
            decreases all.len() - i,
        {
            let a = all[i];
            entries.push((a, Self::default_binding(a, platform)));
            i += 1;
            assert(entries@ =~= default_entries(platform).take(i as int));
        }
        assert(default_entries(platform).take(all@.len() as int) =~= default_entries(platform));
        Keymap { entries }
    }

    /// The built-in binding of `a` (see `default_binding`).
    pub fn default_binding(a: Action, platform: Platform) -> (r: KeyBinding)
        ensures
            r == default_binding(a, platform),
    {
        let ctrl = LogicalMods { ctrl: true, alt: false, shift: false };
        let alt = LogicalMods { ctrl: false, alt: true, shift: false };
        let jump = if platform == Platform::Windows { ctrl } else { alt };
        let (code, mods) = match a {
            Action::Copy => (KeyCode::Char('c'), ctrl),
            Action::Clear => (KeyCode::Char('l'), ctrl),
            Action::Save => (KeyCode::Char('s'), ctrl),
            Action::Record => (KeyCode::Char('r'), ctrl),
            Action::SearchToggle => (KeyCode::Char('f'), ctrl),
            Action::ToggleCase => (KeyCode::Char('w'), ctrl),
            Action::ToggleRegex => (KeyCode::Char('e'), ctrl),
            Action::PageUp => (KeyCode::PageUp, LogicalMods { ctrl: false, alt: false, shift: false }),
            Action::PageDown => (KeyCode::PageDown, LogicalMods { ctrl: false, alt: false, shift: false }),
            Action::JumpStart => (KeyCode::PageUp, jump),
            Action::JumpEnd => (KeyCode::PageDown, jump),
            Action::WordLeft => (KeyCode::Left, ctrl),
            Action::WordRight => (KeyCode::Right, ctrl),
            Action::NextBookmark => (KeyCode::Tab, LogicalMods { ctrl: false, alt: false, shift: false }),
            Action::PrevBookmark => (KeyCode::BackTab, LogicalMods { ctrl: false, alt: false, shift: false }),
        };
        KeyBinding { code, mods: resolve(mods, code, platform) }
    }

    /// The effective keymap: the built-in bindings, overridden by the
    /// `[shortcuts]` table (name and combination pairs, in key order).
    /// Unknown actions, unparsable combinations, reserved keys and two
    /// actions on one key are errors.
    pub fn from_config(overrides: Option<&[(String, String)]>, platform: Platform) -> (r: Result<Keymap, String>)
        ensures
            match r {
                Ok(km) => km.wf() && from_config_spec(
                    match overrides { Some(o) => Some(pair_views(o@)), None => None },
                    platform,
                ) == Ok::<Seq<(Action, KeyBinding)>, Seq<char>>(km.table()),
                Err(e) => from_config_spec(
                    match overrides { Some(o) => Some(pair_views(o@)), None => None },
                    platform,
                ) == Err::<Seq<(Action, KeyBinding)>, Seq<char>>(e@),
            },
    {
        let mut km = Keymap::default_for(platform);
        if let Some(map) = overrides {
            let ghost ov = pair_views(map@);
            let mut i: usize = 0;
            assert(ov.skip(0) =~= ov);
            while i < map.len()
                invariant
                    i <= map@.len(),
                    overrides == Some(map),
                    ov == pair_views(map@),
                    km.wf(),
                    apply_overrides(default_entries(platform), ov, platform) == apply_overrides(
                        km.table(),
                        ov.skip(i as int),
                        platform,
                    ),
                decreases map.len() - i,
            {
                assert(ov.skip(i as int).drop_first() =~= ov.skip(i + 1));
                assert(ov.skip(i as int)[0] == ov[i as int]);
                let name = map[i].0.as_str();
                let spec = map[i].1.as_str();
                let action = match Action::from_name(name) {
                    Some(a) => a,
                    None => {
                        let mut m = to_owned_string("unknown shortcut action \"");
                        push_str(&mut m, name);
                        push_str(&mut m, "\" in [shortcuts]; valid actions are: ");
                        let csv = Action::names_csv();
                        push_str(&mut m, csv.as_str());
                        return Err(m);
                    },
                };
                let binding = match KeyBinding::parse(spec, platform) {
                    Ok(b) => b,
                    Err(e) => {
                        let mut m = to_owned_string("invalid key binding \"");
                        push_str(&mut m, spec);
                        push_str(&mut m, "\" for shortcut \"");
                        push_str(&mut m, name);
                        push_str(&mut m, "\": ");
                        push_str(&mut m, e.as_str());
                        return Err(m);
                    },
                };
                if let Some(reason) = binding.reserved_reason() {
                    let mut m = to_owned_string("shortcut \"");
                    push_str(&mut m, name);
                    push_str(&mut m, "\" cannot be bound to \"");
                    push_str(&mut m, spec);
                    push_str(&mut m, "\": ");
                    push_str(&mut m, reason);
                    return Err(m);
                }
                km.set(action, binding);
                i += 1;
            }
            assert(ov.skip(map@.len() as int) =~= Seq::<(Seq<char>, Seq<char>)>::empty());
        }
        match km.check_duplicates() {
            Ok(()) => Ok(km),
            Err(e) => Err(e),
        }
    }

    /// Binds `action` to `binding`.
    pub fn set(&mut self, action: Action, binding: KeyBinding)
        requires
            old(self).wf(),
        ensures
            final(self).wf(),
            final(self).table() == set_binding(old(self).table(), action, binding),
    {
        let ghost before = self.entries@;
        let mut i: usize = 0;
        while i < self.entries.len()
            invariant
                i <= self.entries@.len(),
                self.entries@.len() == before.len(),
                before.len() == all_actions().len(),
                forall|k: int| 0 <= k < before.len() ==> #[trigger] before[k].0 == all_actions()[k],
                forall|k: int| 0 <= k < i ==> #[trigger] self.entries@[k] == set_binding(before, action, binding)[k],
                forall|k: int| i <= k < before.len() ==> #[trigger] self.entries@[k] == before[k],
            decreases self.entries.len() - i,
        {
            if self.entries[i].0 == action {
                self.entries.set(i, (action, binding));
            }
            i += 1;
        }
        assert(self.entries@ =~= set_binding(before, action, binding));
    }

    /// The action the key press `ev` triggers, if any.
    pub fn action_for(&self, ev: &KeyEvent) -> (r: Option<Action>)
        ensures
            r == action_of(self.table(), *ev),
    {
        let ghost t = self.entries@;
        let mut i: usize = 0;
        assert(t.skip(0) =~= t);
        while i < self.entries.len()
            invariant
                i <= t.len(),
                t == self.entries@,
                action_of(t, *ev) == action_of(t.skip(i as int), *ev),
            decreases self.entries.len() - i,
        {
            assert(t.skip(i as int).drop_first() =~= t.skip(i + 1));
            assert(t.skip(i as int)[0] == t[i as int]);
            if self.entries[i].1.matches(ev) {
                return Some(self.entries[i].0);
            }
            i += 1;
        }
        None
    }

    /// Refuses a table where two actions share a binding, naming the first
    /// such pair.
    pub fn check_duplicates(&self) -> (r: Result<(), String>)
        ensures
            match r {
                Ok(()) => first_duplicate_from(self.table(), 0) is None,
                Err(e) => exists|i: int, j: int|
                    first_duplicate_from(self.table(), 0) == Some((i, j)) && e@ == "shortcuts \""@
                        + action_name(self.table()[i].0) + "\" and \""@ + action_name(
                        self.table()[j].0,
                    ) + "\" are both bound to the same key"@,
            },
    {
        let ghost t = self.entries@;
        let n = self.entries.len();
        let mut i: usize = 0;
        while i < n
            invariant
                i <= n,
                n == t.len(),
                t == self.entries@,
                first_duplicate_from(t, 0) == first_duplicate_from(t, i as int),
            decreases n - i,
        {
            let mut j: usize = i + 1;
            while j < n
                invariant
                    i < n,
                    i + 1 <= j <= n,
                    n == t.len(),
                    t == self.entries@,
                    first_duplicate_from(t, 0) == first_duplicate_from(t, i as int),
                    first_same_from(t, i as int, i + 1) == first_same_from(t, i as int, j as int),
                decreases n - j,
            {
                if self.entries[i].1 == self.entries[j].1 {
                    let mut m = to_owned_string("shortcuts \"");
                    push_str(&mut m, self.entries[i].0.name());
                    push_str(&mut m, "\" and \"");
                    push_str(&mut m, self.entries[j].0.name());
                    push_str(&mut m, "\" are both bound to the same key");
                    assert(first_duplicate_from(t, 0) == Some((i as int, j as int)));
                    return Err(m);
                }
                j += 1;
            }
            i += 1;
        }
        Ok(())
    }
}

proof fn lemma_first_same_none(e: Seq<(Action, KeyBinding)>, i: int, from: int)
    requires
        first_same_from(e, i, from) is None,
        0 <= from,
    ensures
        forall|j: int| from <= j < e.len() ==> e[j].1 != e[i].1,
    decreases e.len() - from,
{
    if from < e.len() {
        lemma_first_same_none(e, i, from + 1);
    }
}

proof fn lemma_no_duplicate(e: Seq<(Action, KeyBinding)>, i: int)
    requires
        first_duplicate_from(e, i) is None,
        0 <= i,
    ensures
        forall|a: int, b: int| i <= a < b < e.len() ==> #[trigger] e[a].1 != #[trigger] e[b].1,
    decreases e.len() - i,
{
    if i < e.len() {
        lemma_first_same_none(e, i, i + 1);
        lemma_no_duplicate(e, i + 1);
    }
}

proof fn lemma_action_of_first(e: Seq<(Action, KeyBinding)>, ev: KeyEvent, i: int)
    requires
        0 <= i < e.len(),
        canonical_event(ev) == e[i].1,
        forall|k: int| 0 <= k < i ==> #[trigger] e[k].1 != e[i].1,
    ensures
        action_of(e, ev) == Some(e[i].0),
    decreases i,
{
    if i > 0 {
        assert(e[0].1 != e[i].1);
        let rest = e.drop_first();
        assert forall|k: int| 0 <= k < i - 1 implies #[trigger] rest[k].1 != rest[i - 1].1 by {
            assert(rest[k] == e[k + 1]);
        }
        lemma_action_of_first(rest, ev, i - 1);
    }
}

/// A validated keymap is unambiguous: every key press that triggers an
/// entry's binding resolves to that entry's action.
pub proof fn lemma_validated_keymap_unambiguous(
    overrides: Option<Seq<(Seq<char>, Seq<char>)>>,
    platform: Platform,
    ev: KeyEvent,
    i: int,
)
    requires
        from_config_spec(overrides, platform) is Ok,
        0 <= i < from_config_spec(overrides, platform)->Ok_0.len(),
        canonical_event(ev) == from_config_spec(overrides, platform)->Ok_0[i].1,
    ensures
        action_of(from_config_spec(overrides, platform)->Ok_0, ev) == Some(
            from_config_spec(overrides, platform)->Ok_0[i].0,
        ),
{
    let e = from_config_spec(overrides, platform)->Ok_0;
    lemma_no_duplicate(e, 0);
    lemma_action_of_first(e, ev, i);
}

/// Without a `[shortcuts]` table the keymap is the built-in one: the
/// built-in bindings are valid and collision-free on every platform.
pub proof fn lemma_defaults_are_valid(platform: Platform)
    ensures
        from_config_spec(None, platform) == Ok::<Seq<(Action, KeyBinding)>, Seq<char>>(
            default_entries(platform),
        ),
{
    let e = default_entries(platform);
    assert(e.len() == 15);
    assert forall|a: int, b: int| 0 <= a < b < 15 implies #[trigger] e[a].1 != #[trigger] e[b].1 by {
        assert(e[a] == (all_actions()[a], default_binding(all_actions()[a], platform)));
        assert(e[b] == (all_actions()[b], default_binding(all_actions()[b], platform)));
    }
    lemma_distinct_no_duplicate(e, 0);
}

proof fn lemma_distinct_no_duplicate(e: Seq<(Action, KeyBinding)>, i: int)
    requires
        forall|a: int, b: int| 0 <= a < b < e.len() ==> #[trigger] e[a].1 != #[trigger] e[b].1,
        0 <= i,
    ensures
        first_duplicate_from(e, i) is None,
    decreases e.len() - i,
{
    if i < e.len() {
        lemma_distinct_same_none(e, i, i + 1);
        lemma_distinct_no_duplicate(e, i + 1);
    }
}

proof fn lemma_distinct_same_none(e: Seq<(Action, KeyBinding)>, i: int, from: int)
    requires
        forall|a: int, b: int| 0 <= a < b < e.len() ==> #[trigger] e[a].1 != #[trigger] e[b].1,
        0 <= i < from,
    ensures
        first_same_from(e, i, from) is None,
    decreases e.len() - from,
{
    if from < e.len() {
        lemma_distinct_same_none(e, i, from + 1);
    }
}

} // verus!
