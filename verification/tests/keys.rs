use scope_monitor::inputs::key_decode::KeyDecoder;
use scope_monitor::inputs::key_encode::{encode_function_key, encode_key, utf8_of};
use scope_monitor::inputs::keys::{KeyCode, KeyEvent, KeyModifiers};

fn key(code: KeyCode, modifiers: KeyModifiers) -> KeyEvent {
    KeyEvent::new(code, modifiers)
}

#[test]
fn plain_ascii_char_is_its_byte() {
    assert_eq!(encode_key(key(KeyCode::Char('a'), KeyModifiers::none())), b"a");
    assert_eq!(encode_key(key(KeyCode::Char('Z'), KeyModifiers::shift())), b"Z");
}

#[test]
fn multibyte_char_keeps_all_utf8_bytes() {
    assert_eq!(
        encode_key(key(KeyCode::Char('é'), KeyModifiers::none())),
        "é".as_bytes()
    );
}

#[test]
fn ctrl_letter_maps_to_control_byte() {
    assert_eq!(encode_key(key(KeyCode::Char('c'), KeyModifiers::control())), [0x03]);
    assert_eq!(encode_key(key(KeyCode::Char('a'), KeyModifiers::control())), [0x01]);
    assert_eq!(encode_key(key(KeyCode::Char('A'), KeyModifiers::control())), [0x01]);
}

#[test]
fn alt_char_is_escape_prefixed() {
    assert_eq!(encode_key(key(KeyCode::Char('a'), KeyModifiers::alt())), [0x1b, b'a']);
}

#[test]
fn named_keys_map_to_expected_sequences() {
    let none = KeyModifiers::none();
    assert_eq!(encode_key(key(KeyCode::Enter, none)), b"\r");
    assert_eq!(encode_key(key(KeyCode::Tab, none)), b"\t");
    assert_eq!(encode_key(key(KeyCode::Backspace, none)), [0x7f]);
    assert_eq!(encode_key(key(KeyCode::Esc, none)), [0x1b]);
    assert_eq!(encode_key(key(KeyCode::Up, none)), b"\x1b[A");
    assert_eq!(encode_key(key(KeyCode::Down, none)), b"\x1b[B");
    assert_eq!(encode_key(key(KeyCode::Right, none)), b"\x1b[C");
    assert_eq!(encode_key(key(KeyCode::Left, none)), b"\x1b[D");
    assert_eq!(encode_key(key(KeyCode::Delete, none)), b"\x1b[3~");
}

#[test]
fn function_keys_use_ss3_then_csi() {
    let none = KeyModifiers::none();
    assert_eq!(encode_key(key(KeyCode::F(1), none)), b"\x1bOP");
    assert_eq!(encode_key(key(KeyCode::F(5), none)), b"\x1b[15~");
    assert_eq!(encode_key(key(KeyCode::F(12), none)), b"\x1b[24~");
}

#[test]
fn unmapped_keys_emit_nothing() {
    assert!(encode_key(key(KeyCode::F(20), KeyModifiers::none())).is_empty());
    assert!(encode_key(key(KeyCode::CapsLock, KeyModifiers::none())).is_empty());
}

#[test]
fn utf8_of_matches_std() {
    for c in ['a', 'é', '€', '😀', '\u{7f}', '\u{80}', '\u{7ff}', '\u{800}', '\u{ffff}', '\u{10000}'] {
        let mut buf = [0u8; 4];
        assert_eq!(utf8_of(c), c.encode_utf8(&mut buf).as_bytes());
    }
}

#[test]
fn every_function_key_has_its_sequence() {
    let expected: [&[u8]; 12] = [
        b"\x1bOP", b"\x1bOQ", b"\x1bOR", b"\x1bOS", b"\x1b[15~", b"\x1b[17~", b"\x1b[18~",
        b"\x1b[19~", b"\x1b[20~", b"\x1b[21~", b"\x1b[23~", b"\x1b[24~",
    ];
    for (i, seq) in expected.iter().enumerate() {
        assert_eq!(encode_function_key(i as u8 + 1), *seq);
    }
    assert!(encode_function_key(0).is_empty());
    assert!(encode_function_key(13).is_empty());
}

fn one(bytes: &[u8]) -> KeyEvent {
    let mut d = KeyDecoder::new();
    let keys = d.feed(bytes);
    assert_eq!(keys.len(), 1, "expected exactly one key from {:?}", bytes);
    keys.into_iter().next().unwrap()
}

#[test]
fn plain_ascii() {
    assert_eq!(one(b"a").code, KeyCode::Char('a'));
    assert_eq!(one(b"a").modifiers, KeyModifiers::none());
}

#[test]
fn control_letters_map_back() {
    let k = one(&[0x0b]);
    assert_eq!(k.code, KeyCode::Char('k'));
    assert_eq!(k.modifiers, KeyModifiers::control());
    let c = one(&[0x03]);
    assert_eq!(c.code, KeyCode::Char('c'));
    assert_eq!(c.modifiers, KeyModifiers::control());
}

#[test]
fn named_keys() {
    assert_eq!(one(b"\r").code, KeyCode::Enter);
    assert_eq!(one(b"\n").code, KeyCode::Enter);
    assert_eq!(one(b"\t").code, KeyCode::Tab);
    assert_eq!(one(&[0x7f]).code, KeyCode::Backspace);
    assert_eq!(one(b"\x1b[A").code, KeyCode::Up);
    assert_eq!(one(b"\x1b[B").code, KeyCode::Down);
    assert_eq!(one(b"\x1b[C").code, KeyCode::Right);
    assert_eq!(one(b"\x1b[D").code, KeyCode::Left);
    assert_eq!(one(b"\x1b[3~").code, KeyCode::Delete);
    assert_eq!(one(b"\x1b[H").code, KeyCode::Home);
    assert_eq!(one(b"\x1bOP").code, KeyCode::F(1));
    assert_eq!(one(b"\x1b[15~").code, KeyCode::F(5));
    assert_eq!(one(b"\x1b[24~").code, KeyCode::F(12));
}

#[test]
fn alt_char() {
    let k = one(&[0x1b, b'a']);
    assert_eq!(k.code, KeyCode::Char('a'));
    assert_eq!(k.modifiers, KeyModifiers::alt());
}

#[test]
fn lone_esc_emitted_at_end_of_feed() {
    let mut d = KeyDecoder::new();
    let keys = d.feed(&[0x1b]);
    assert_eq!(keys.len(), 1);
    assert_eq!(keys[0].code, KeyCode::Esc);
}

#[test]
fn complete_escape_sequence_is_not_split() {
    let mut d = KeyDecoder::new();
    let keys = d.feed(b"\x1b[A");
    assert_eq!(keys.len(), 1);
    assert_eq!(keys[0].code, KeyCode::Up);
}

#[test]
fn multibyte_utf8_across_feeds() {
    let mut d = KeyDecoder::new();
    assert!(d.feed(&[0xc3]).is_empty());
    let keys = d.feed(&[0xa9]);
    assert_eq!(keys.len(), 1);
    assert_eq!(keys[0].code, KeyCode::Char('é'));
}

#[test]
fn multiple_keys_in_one_feed() {
    let mut d = KeyDecoder::new();
    let keys = d.feed(b"hi\r");
    let codes: Vec<KeyCode> = keys.iter().map(|k| k.code).collect();
    assert_eq!(codes, vec![KeyCode::Char('h'), KeyCode::Char('i'), KeyCode::Enter]);
}

#[test]
fn round_trips_encode_key() {
    let none = KeyModifiers::none();
    let cases = [
        KeyEvent::new(KeyCode::Char('x'), none),
        KeyEvent::new(KeyCode::Char('k'), KeyModifiers::control()),
        KeyEvent::new(KeyCode::Char('q'), KeyModifiers::control()),
        KeyEvent::new(KeyCode::Enter, none),
        KeyEvent::new(KeyCode::Tab, none),
        KeyEvent::new(KeyCode::Backspace, none),
        KeyEvent::new(KeyCode::Up, none),
        KeyEvent::new(KeyCode::Down, none),
        KeyEvent::new(KeyCode::Left, none),
        KeyEvent::new(KeyCode::Right, none),
        KeyEvent::new(KeyCode::Home, none),
        KeyEvent::new(KeyCode::End, none),
        KeyEvent::new(KeyCode::Delete, none),
        KeyEvent::new(KeyCode::Insert, none),
        KeyEvent::new(KeyCode::PageUp, none),
        KeyEvent::new(KeyCode::PageDown, none),
        KeyEvent::new(KeyCode::BackTab, none),
        KeyEvent::new(KeyCode::F(1), none),
        KeyEvent::new(KeyCode::F(5), none),
        KeyEvent::new(KeyCode::F(12), none),
        KeyEvent::new(KeyCode::Char('a'), KeyModifiers::alt()),
    ];
    for expected in cases {
        let bytes = encode_key(expected);
        let mut d = KeyDecoder::new();
        let mut got = d.feed(&bytes);
        got.extend(d.flush());
        assert_eq!(got.len(), 1, "round-trip of {:?} -> {:?}", expected, bytes);
        assert_eq!(got[0].code, expected.code, "code mismatch for {:?}", bytes);
        assert_eq!(got[0].modifiers, expected.modifiers, "modifier mismatch for {:?}", bytes);
    }
}

#[test]
fn an_incomplete_character_is_flushed_as_nothing_then_forgotten() {
    let mut d = KeyDecoder::new();
    assert!(d.feed(&[0xe2, 0x82]).is_empty());
    let _ = d.flush();
    let keys = d.feed(b"z");
    assert_eq!(keys.len(), 1);
    assert_eq!(keys[0].code, KeyCode::Char('z'));
}
