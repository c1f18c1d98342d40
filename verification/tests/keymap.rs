use scope_monitor::inputs::keymap::{Action, KeyBinding, Keymap, Platform};
use scope_monitor::inputs::keys::{KeyCode, KeyEvent, KeyModifiers};

const HERE: Platform = Platform::Other;

fn ev(code: KeyCode, mods: KeyModifiers) -> KeyEvent {
    KeyEvent::new(code, mods)
}

fn map(pairs: &[(&str, &str)]) -> Vec<(String, String)> {
    let mut v: Vec<(String, String)> = pairs
        .iter()
        .map(|(k, v)| (k.to_string(), v.to_string()))
        .collect();
    v.sort();
    v
}

fn ctrl() -> KeyModifiers {
    KeyModifiers::control()
}

#[test]
fn defaults_all_parse_and_are_legal() {
    for platform in [Platform::Windows, Platform::MacOs, Platform::Other] {
        for a in Action::all() {
            let b = KeyBinding::parse(a.default_spec(platform), platform)
                .unwrap_or_else(|e| panic!("default for {} failed to parse: {e}", a.name()));
            assert!(b.reserved_reason().is_none(), "default for {} is reserved", a.name());
        }
        Keymap::default_for(platform)
            .check_duplicates()
            .expect("default bindings must be collision-free");
    }
}

#[test]
fn parser_letters_and_case() {
    let expected = KeyBinding { code: KeyCode::Char('c'), mods: ctrl() };
    for s in ["Ctrl+C", "ctrl+c", "CTRL+C", "Ctrl + c"] {
        assert_eq!(KeyBinding::parse(s, HERE).unwrap(), expected, "{s}");
    }
}

#[test]
fn parser_named_keys() {
    assert_eq!(
        KeyBinding::parse("PageUp", HERE).unwrap(),
        KeyBinding { code: KeyCode::PageUp, mods: KeyModifiers::none() }
    );
    assert_eq!(KeyBinding::parse("pageup", HERE).unwrap().code, KeyCode::PageUp);
    assert_eq!(
        KeyBinding::parse("F5", HERE).unwrap(),
        KeyBinding { code: KeyCode::F(5), mods: KeyModifiers::none() }
    );
    assert_eq!(KeyBinding::parse("f12", HERE).unwrap().code, KeyCode::F(12));
}

#[test]
fn parser_shift_tab_is_backtab() {
    let b = KeyBinding::parse("Shift+Tab", HERE).unwrap();
    assert_eq!(b.code, KeyCode::BackTab);
    assert_eq!(b.mods, KeyModifiers::none());
}

#[test]
fn parser_folds_multiple_modifiers() {
    let b = KeyBinding::parse("Ctrl+Alt+End", HERE).unwrap();
    assert_eq!(b.code, KeyCode::End);
    assert_eq!(b.mods, ctrl().union(KeyModifiers::alt()));
}

#[test]
fn parser_rejections() {
    for s in [
        "", "Ctrl+", "+A", "Ctrl++A", "Ctrl+Ctrl+A", "Shift+a", "F0", "F13", "Meta+A",
        "Control+A", "PgUp", "ab",
    ] {
        assert!(KeyBinding::parse(s, HERE).is_err(), "expected {s:?} to be rejected");
    }
}

#[test]
fn resolve_ctrl_arrow_is_control_off_macos() {
    assert_eq!(KeyBinding::parse("Ctrl+Left", Platform::Other).unwrap().mods, ctrl());
    assert_eq!(KeyBinding::parse("Ctrl+Left", Platform::Windows).unwrap().mods, ctrl());
}

#[test]
fn resolve_ctrl_arrow_is_alt_on_macos() {
    assert_eq!(
        KeyBinding::parse("Ctrl+Left", Platform::MacOs).unwrap().mods,
        KeyModifiers::alt()
    );
    assert_eq!(KeyBinding::parse("Ctrl+C", Platform::MacOs).unwrap().mods, ctrl());
}

#[test]
fn resolve_jump_default_is_ctrl_on_windows() {
    let p = Platform::Windows;
    assert_eq!(KeyBinding::parse(Action::JumpStart.default_spec(p), p).unwrap().mods, ctrl());
}

#[test]
fn resolve_jump_default_is_alt_off_windows() {
    for p in [Platform::Other, Platform::MacOs] {
        assert_eq!(
            KeyBinding::parse(Action::JumpStart.default_spec(p), p).unwrap().mods,
            KeyModifiers::alt()
        );
    }
}

#[test]
fn matcher_exact_modifiers_and_case_fold() {
    let ctrl_c = KeyBinding::parse("Ctrl+C", HERE).unwrap();
    assert!(ctrl_c.matches(&ev(KeyCode::Char('c'), ctrl())));
    assert!(ctrl_c.matches(&ev(KeyCode::Char('C'), ctrl())));
    assert!(!ctrl_c.matches(&ev(KeyCode::Char('c'), ctrl().union(KeyModifiers::shift()))));
}

#[test]
fn matcher_backtab_with_or_without_shift() {
    let b = KeyBinding::parse("Shift+Tab", HERE).unwrap();
    assert!(b.matches(&ev(KeyCode::BackTab, KeyModifiers::none())));
    assert!(b.matches(&ev(KeyCode::BackTab, KeyModifiers::shift())));
}

#[test]
fn default_matches_current_arms() {
    for platform in [Platform::Windows, Platform::MacOs, Platform::Other] {
        let ctrl_arrow = if platform == Platform::MacOs { KeyModifiers::alt() } else { ctrl() };
        let action_mod = if platform == Platform::Windows { ctrl() } else { KeyModifiers::alt() };
        let none = KeyModifiers::none();

        let km = Keymap::default_for(platform);
        let cases = [
            (ev(KeyCode::Char('c'), ctrl()), Action::Copy),
            (ev(KeyCode::Char('l'), ctrl()), Action::Clear),
            (ev(KeyCode::Char('s'), ctrl()), Action::Save),
            (ev(KeyCode::Char('r'), ctrl()), Action::Record),
            (ev(KeyCode::Char('f'), ctrl()), Action::SearchToggle),
            (ev(KeyCode::Char('w'), ctrl()), Action::ToggleCase),
            (ev(KeyCode::Char('e'), ctrl()), Action::ToggleRegex),
            (ev(KeyCode::PageUp, none), Action::PageUp),
            (ev(KeyCode::PageDown, none), Action::PageDown),
            (ev(KeyCode::PageUp, action_mod), Action::JumpStart),
            (ev(KeyCode::PageDown, action_mod), Action::JumpEnd),
            (ev(KeyCode::Left, ctrl_arrow), Action::WordLeft),
            (ev(KeyCode::Right, ctrl_arrow), Action::WordRight),
            (ev(KeyCode::Tab, none), Action::NextBookmark),
            (ev(KeyCode::BackTab, none), Action::PrevBookmark),
        ];
        for (event, action) in cases {
            assert_eq!(km.action_for(&event), Some(action), "event {event:?}");
        }

        assert_eq!(km.action_for(&ev(KeyCode::Left, none)), None);
        assert_eq!(km.action_for(&ev(KeyCode::Right, none)), None);
    }
}

#[test]
fn from_config_override_replaces_default() {
    let km = Keymap::from_config(Some(&map(&[("record", "Ctrl+G")])), HERE).unwrap();
    assert_eq!(km.action_for(&ev(KeyCode::Char('g'), ctrl())), Some(Action::Record));
    assert_eq!(km.action_for(&ev(KeyCode::Char('r'), ctrl())), None);
    assert_eq!(km.action_for(&ev(KeyCode::Char('c'), ctrl())), Some(Action::Copy));
}

#[test]
fn from_config_none_is_defaults() {
    let km = Keymap::from_config(None, HERE).unwrap();
    assert_eq!(km.action_for(&ev(KeyCode::Char('r'), ctrl())), Some(Action::Record));
}

#[test]
fn from_config_full_swap_is_allowed() {
    let km = Keymap::from_config(Some(&map(&[("record", "Ctrl+S"), ("save", "Ctrl+R")])), HERE)
        .unwrap();
    assert_eq!(km.action_for(&ev(KeyCode::Char('s'), ctrl())), Some(Action::Record));
    assert_eq!(km.action_for(&ev(KeyCode::Char('r'), ctrl())), Some(Action::Save));
}

#[test]
fn from_config_unknown_action_is_error() {
    let err = Keymap::from_config(Some(&map(&[("recrod", "Ctrl+J")])), HERE).unwrap_err();
    assert!(err.contains("unknown shortcut action"), "{err}");
    assert!(err.contains("record"), "should list valid actions: {err}");
}

#[test]
fn from_config_bad_binding_is_error() {
    let err = Keymap::from_config(Some(&map(&[("copy", "Cmd+C")])), HERE).unwrap_err();
    assert!(err.contains("invalid key binding"), "{err}");
}

#[test]
fn from_config_reserved_key_is_error() {
    for (action, spec) in [("copy", "Enter"), ("record", "a"), ("clear", "Ctrl+K")] {
        let err = Keymap::from_config(Some(&map(&[(action, spec)])), HERE).unwrap_err();
        assert!(err.contains("cannot be bound to"), "{action}={spec}: {err}");
    }
}

#[test]
fn from_config_duplicate_binding_is_error() {
    let err = Keymap::from_config(Some(&map(&[("save", "Ctrl+R")])), HERE).unwrap_err();
    assert!(err.contains("both bound to the same key"), "{err}");
}

#[test]
fn action_names_round_trip() {
    for a in Action::all() {
        assert_eq!(Action::from_name(a.name()), Some(a));
    }
    assert_eq!(Action::from_name("nope"), None);
    assert!(Action::names_csv().contains("copy"));
}
