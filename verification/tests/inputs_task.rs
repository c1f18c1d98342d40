use scope_monitor::graphics::graphics_task::GraphicsCommand;
use scope_monitor::infra::tags::TagList;
use scope_monitor::inputs::inputs_task::{InputMode, InputsLocal, InputsShared, KeyAction};
use scope_monitor::inputs::keymap::Platform;
use scope_monitor::inputs::keys::{KeyCode, KeyEvent, KeyModifiers};

fn state(tags: &str) -> (InputsShared, InputsLocal) {
    let content = if tags.is_empty() { None } else { Some(tags.to_string()) };
    let tag_list = TagList::new("tags.yml".to_string(), content).unwrap();
    (
        InputsShared {
            search_cursor: 0,
            search_buffer: String::new(),
            command_line: String::new(),
            cursor: 0,
            history_len: 0,
            current_hint: Some("hint".to_string()),
            mode: InputMode::Normal,
            is_case_sensitive: false,
            tag_list,
        },
        InputsLocal {
            history: vec![],
            history_index: None,
            backup_command_line: String::new(),
            has_tag_failed: false,
        },
    )
}

fn key(code: KeyCode) -> KeyEvent {
    KeyEvent::new(code, KeyModifiers::none())
}

fn press(s: &mut InputsShared, l: &mut InputsLocal, k: KeyEvent) -> Vec<KeyAction> {
    s.handle_key(l, k, Platform::Other)
}

fn type_text(s: &mut InputsShared, l: &mut InputsLocal, text: &str) {
    for c in text.chars() {
        press(s, l, key(KeyCode::Char(c)));
    }
}

fn sent(actions: &[KeyAction]) -> Option<Vec<u8>> {
    actions.iter().find_map(|a| match a {
        KeyAction::Send(b) => Some(b.clone()),
        _ => None,
    })
}

#[test]
fn typing_inserts_at_the_cursor_and_hides_the_hint() {
    let (mut s, mut l) = state("");
    type_text(&mut s, &mut l, "hllo");
    assert!(s.current_hint.is_none());
    press(&mut s, &mut l, key(KeyCode::Home));
    press(&mut s, &mut l, key(KeyCode::Right));
    type_text(&mut s, &mut l, "e");
    assert_eq!(s.command_line, "hello");
    assert_eq!(s.cursor, 2);
}

#[test]
fn enter_sends_the_line_with_a_line_end_and_remembers_it() {
    let (mut s, mut l) = state("");
    type_text(&mut s, &mut l, "AT$0d");
    let actions = press(&mut s, &mut l, key(KeyCode::Enter));
    assert_eq!(sent(&actions), Some(b"AT\r\r\n".to_vec()));
    assert!(matches!(actions[0], KeyAction::SetHint));
    assert_eq!(s.command_line, "");
    assert_eq!(s.cursor, 0);
    assert_eq!(l.history, vec!["AT$0d".to_string()]);

    type_text(&mut s, &mut l, "AT$0d");
    press(&mut s, &mut l, key(KeyCode::Enter));
    assert_eq!(l.history.len(), 1, "a repeated command is remembered once");
}

#[test]
fn alt_enter_sends_without_a_line_end_on_windows() {
    let (mut s, mut l) = state("");
    type_text(&mut s, &mut l, "x");
    let alt = KeyEvent::new(KeyCode::Enter, KeyModifiers::alt());
    let actions = s.handle_key(&mut l, alt, Platform::Windows);
    assert_eq!(sent(&actions), Some(b"x".to_vec()));
    let actions = s.handle_key(&mut l, alt, Platform::Windows);
    assert_eq!(sent(&actions), Some(b"\r\n".to_vec()));
}

#[test]
fn bang_commands_are_run_not_sent() {
    let (mut s, mut l) = state("");
    type_text(&mut s, &mut l, "!log sys dbg");
    let actions = press(&mut s, &mut l, key(KeyCode::Enter));
    assert!(matches!(&actions[1], KeyAction::RunCommand(c) if c == "log sys dbg"));
}

#[test]
fn tags_expand_when_sent() {
    let (mut s, mut l) = state("hi: \"hello\"\n");
    type_text(&mut s, &mut l, "say @hi");
    let actions = press(&mut s, &mut l, key(KeyCode::Enter));
    assert_eq!(sent(&actions), Some(b"say hello\r\n".to_vec()));
}

#[test]
fn history_walks_back_and_forth_and_restores_the_typed_line() {
    let (mut s, mut l) = state("");
    for cmd in ["one", "two"] {
        type_text(&mut s, &mut l, cmd);
        press(&mut s, &mut l, key(KeyCode::Enter));
    }
    type_text(&mut s, &mut l, "draft");
    press(&mut s, &mut l, key(KeyCode::Up));
    assert_eq!(s.command_line, "two");
    press(&mut s, &mut l, key(KeyCode::Up));
    assert_eq!(s.command_line, "one");
    press(&mut s, &mut l, key(KeyCode::Up));
    assert_eq!(s.command_line, "one");
    press(&mut s, &mut l, key(KeyCode::Down));
    assert_eq!(s.command_line, "two");
    press(&mut s, &mut l, key(KeyCode::Down));
    assert_eq!(s.command_line, "draft");
    assert_eq!(s.cursor, 5);
    assert_eq!(l.history_index, None);
}

#[test]
fn backspace_and_delete_edit_around_the_cursor() {
    let (mut s, mut l) = state("");
    type_text(&mut s, &mut l, "abcd");
    press(&mut s, &mut l, key(KeyCode::Left));
    press(&mut s, &mut l, key(KeyCode::Backspace));
    assert_eq!(s.command_line, "abd");
    assert_eq!(s.cursor, 2);
    press(&mut s, &mut l, key(KeyCode::Delete));
    assert_eq!(s.command_line, "ab");
    press(&mut s, &mut l, key(KeyCode::Home));
    let actions = press(&mut s, &mut l, key(KeyCode::Delete));
    assert_eq!(s.command_line, "b");
    assert!(!actions.iter().any(|a| matches!(a, KeyAction::SetHint)));
}

#[test]
fn a_line_left_blank_is_emptied() {
    let (mut s, mut l) = state("");
    type_text(&mut s, &mut l, " x");
    let actions = press(&mut s, &mut l, key(KeyCode::Backspace));
    assert_eq!(s.command_line, "");
    assert_eq!(s.cursor, 0);
    assert!(matches!(actions.last(), Some(KeyAction::SetHint)));
}

#[test]
fn word_jumps_stop_at_word_starts() {
    let (mut s, mut l) = state("");
    type_text(&mut s, &mut l, "ab  cd ef");
    let ctrl_left = KeyEvent::new(KeyCode::Left, KeyModifiers::control());
    let ctrl_right = KeyEvent::new(KeyCode::Right, KeyModifiers::control());
    press(&mut s, &mut l, ctrl_left);
    assert_eq!(s.cursor, 7);
    press(&mut s, &mut l, ctrl_left);
    assert_eq!(s.cursor, 4);
    press(&mut s, &mut l, ctrl_left);
    assert_eq!(s.cursor, 0);
    press(&mut s, &mut l, ctrl_right);
    assert_eq!(s.cursor, 4);
    let mac_right = KeyEvent::new(KeyCode::Right, KeyModifiers::alt());
    s.handle_key(&mut l, mac_right, Platform::MacOs);
    assert_eq!(s.cursor, 7);
}

#[test]
fn search_mode_edits_the_search_box() {
    let (mut s, mut l) = state("");
    let ctrl_f = KeyEvent::new(KeyCode::Char('f'), KeyModifiers::control());
    let actions = press(&mut s, &mut l, ctrl_f);
    assert_eq!(s.mode, InputMode::Search);
    assert!(matches!(actions[0], KeyAction::Graphics(GraphicsCommand::ChangeToSearchMode)));
    type_text(&mut s, &mut l, "err");
    assert_eq!(s.search_buffer, "err");
    assert_eq!(s.command_line, "");
    let ctrl_w = KeyEvent::new(KeyCode::Char('w'), KeyModifiers::control());
    press(&mut s, &mut l, ctrl_w);
    assert!(s.is_case_sensitive);
    let actions = press(&mut s, &mut l, key(KeyCode::Enter));
    assert!(matches!(actions[0], KeyAction::Graphics(GraphicsCommand::NextSearch)));
    let actions = press(&mut s, &mut l, key(KeyCode::Esc));
    assert!(matches!(actions[0], KeyAction::Graphics(GraphicsCommand::ChangeToNormalMode)));
    let actions = press(&mut s, &mut l, key(KeyCode::Esc));
    assert!(matches!(actions[0], KeyAction::Exit));
}

#[test]
fn shortcuts_ask_the_screen() {
    let (mut s, mut l) = state("");
    let ctrl = |c| KeyEvent::new(KeyCode::Char(c), KeyModifiers::control());
    assert!(matches!(press(&mut s, &mut l, ctrl('C'))[0], KeyAction::Graphics(GraphicsCommand::CopyToClipboard)));
    assert!(matches!(press(&mut s, &mut l, ctrl('l'))[0], KeyAction::Graphics(GraphicsCommand::Clear)));
    assert!(matches!(press(&mut s, &mut l, ctrl('s'))[0], KeyAction::Graphics(GraphicsCommand::SaveData)));
    assert!(matches!(press(&mut s, &mut l, ctrl('r'))[0], KeyAction::Graphics(GraphicsCommand::RecordData)));
    let alt_pgup = KeyEvent::new(KeyCode::PageUp, KeyModifiers::alt());
    assert!(matches!(press(&mut s, &mut l, alt_pgup)[0], KeyAction::Graphics(GraphicsCommand::JumpToStart)));
    assert!(matches!(press(&mut s, &mut l, key(KeyCode::PageDown))[0], KeyAction::Graphics(GraphicsCommand::PageDown)));
    assert!(s.command_line.is_empty());
}

#[test]
fn tab_completes_the_highlighted_tag() {
    let (mut s, mut l) = state("reset: \"AT+RST\"\nread: \"AT+R\"\n");
    type_text(&mut s, &mut l, "x @res");
    s.tag_list.update_pattern(&s.command_line.clone(), s.cursor);
    s.tag_list.update_autocomplete_list();
    assert!(s.tab_is_safe());
    press(&mut s, &mut l, key(KeyCode::Tab));
    assert_eq!(s.command_line, "x @reset");
    assert_eq!(s.cursor, 8);
}

#[test]
fn a_reload_failure_is_reported_once() {
    let (mut s, mut l) = state("a: \"1\"\n");
    let first = s.tags_reloaded(&mut l, Err("bad".to_string()));
    assert_eq!(first.as_deref(), Some("Failed to reload tag list: bad"));
    assert!(s.tags_reloaded(&mut l, Err("bad".to_string())).is_none());
    assert!(s.tags_reloaded(&mut l, Ok(())).is_none());
    assert!(!l.has_tag_failed);
}
