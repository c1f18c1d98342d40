//! The bytes a terminal sends for a key press, so that key presses can be
//! forwarded to the device as they are.
use vstd::prelude::*;
use vstd::utf8::{char_is_scalar, encode_scalar};
use crate::inputs::keys::{KeyCode, KeyEvent};
use crate::text::{char_is_alpha, char_upper, is_alpha, upper};

verus! {

/// The bytes of an ASCII text.
pub open spec fn ascii(s: Seq<char>) -> Seq<u8> {
    s.map_values(|c: char| c as u8)
}

/// `ESC` followed by the ASCII text `tail`.
pub open spec fn esc(tail: Seq<char>) -> Seq<u8> {
    seq![0x1bu8] + ascii(tail)
}

/// The xterm sequences of the function keys: `ESC O P`..`ESC O S` for F1 to
/// F4, `ESC [ <n> ~` for F5 to F12 (with the gaps at 16 and 22); nothing for
/// other numbers.
pub open spec fn function_key_spec(n: u8) -> Seq<u8> {
    if n == 1 {
        esc(seq!['O', 'P'])
    } else if n == 2 {
        esc(seq!['O', 'Q'])
    } else if n == 3 {
        esc(seq!['O', 'R'])
    } else if n == 4 {
        esc(seq!['O', 'S'])
    } else if n == 5 {
        esc(seq!['[', '1', '5', '~'])
    } else if n == 6 {
        esc(seq!['[', '1', '7', '~'])
    } else if n == 7 {
        esc(seq!['[', '1', '8', '~'])
    } else if n == 8 {
        esc(seq!['[', '1', '9', '~'])
    } else if n == 9 {
        esc(seq!['[', '2', '0', '~'])
    } else if n == 10 {
        esc(seq!['[', '2', '1', '~'])
    } else if n == 11 {
        esc(seq!['[', '2', '3', '~'])
    } else if n == 12 {
        esc(seq!['[', '2', '4', '~'])
    } else {
        Seq::empty()
    }
}

/// The bytes a terminal sends for `key`: `Ctrl` with a letter gives the
/// control byte 1..=26; other characters their UTF-8 encoding, after `ESC`
/// when `Alt` is held; the named keys their VT sequences; keys with no byte
/// form nothing.
pub open spec fn encode_spec(key: KeyEvent) -> Seq<u8> {
    match key.code {
        KeyCode::Char(c) => if key.modifiers.control && is_alpha(c) {
            seq![((upper(c) as u32) - 64) as u8]
        } else if key.modifiers.alt {
            seq![0x1bu8] + encode_scalar(c as u32)
        } else {
            encode_scalar(c as u32)
        },
        KeyCode::Enter => seq![0x0du8],
        KeyCode::Tab => seq![0x09u8],
        KeyCode::BackTab => esc(seq!['[', 'Z']),
        KeyCode::Backspace => seq![0x7fu8],
        KeyCode::Delete => esc(seq!['[', '3', '~']),
        KeyCode::Insert => esc(seq!['[', '2', '~']),
        KeyCode::Esc => seq![0x1bu8],
        KeyCode::Up => esc(seq!['[', 'A']),
        KeyCode::Down => esc(seq!['[', 'B']),
        KeyCode::Right => esc(seq!['[', 'C']),
        KeyCode::Left => esc(seq!['[', 'D']),
        KeyCode::Home => esc(seq!['[', 'H']),
        KeyCode::End => esc(seq!['[', 'F']),
        KeyCode::PageUp => esc(seq!['[', '5', '~']),
        KeyCode::PageDown => esc(seq!['[', '6', '~']),
        KeyCode::F(n) => function_key_spec(n),
        KeyCode::Null => seq![0x00u8],
        _ => Seq::empty(),
    }
}

/// The UTF-8 encoding of `c`.
pub fn utf8_of(c: char) -> (r: Vec<u8>)
    ensures
        r@ == encode_scalar(c as u32),
{
    let v = c as u32;
    proof {
        char_is_scalar(c);
    }
    if v <= 0x7f {
        vec![(v & 0x7f) as u8]
    } else if v <= 0x7ff {
        vec![0xc0 | ((v >> 6) & 0x1f) as u8, 0x80 | (v & 0x3f) as u8]
    } else if v <= 0xffff {
        vec![
            0xe0 | ((v >> 12) & 0x0f) as u8,
            0x80 | ((v >> 6) & 0x3f) as u8,
            0x80 | (v & 0x3f) as u8,
        ]
    } else {
        vec![
            0xf0 | ((v >> 18) & 0x7) as u8,
            0x80 | ((v >> 12) & 0x3f) as u8,
            0x80 | ((v >> 6) & 0x3f) as u8,
            0x80 | (v & 0x3f) as u8,
        ]
    }
}

/// The bytes a terminal would send for `key` (see `encode_spec`); empty
/// for keys that have no byte form.
pub fn encode_key(key: KeyEvent) -> (r: Vec<u8>)
    ensures
        r@ == encode_spec(key),
{
    let ctrl = key.modifiers.control;
    let alt = key.modifiers.alt;
    let r = match key.code {
        KeyCode::Char(c) => {
            if ctrl && char_is_alpha(c) {
                let u = char_upper(c) as u32;
                vec![(u - 64) as u8]
            } else {
                let encoded = utf8_of(c);
                if alt {
                    let mut out: Vec<u8> = Vec::new();
                    out.push(0x1b);
                    let mut i: usize = 0;
                    while i < encoded.len()
                        invariant
                            i <= encoded@.len(),
                            out@ == seq![0x1bu8] + encoded@.take(i as int),
                        decreases encoded.len() - i,
                    {
                        out.push(encoded[i]);
                        i += 1;
                        assert(out@ =~= seq![0x1bu8] + encoded@.take(i as int));
                    }
                    assert(encoded@.take(encoded@.len() as int) =~= encoded@);
                    out
                } else {
                    encoded
                }
            }
        },
        KeyCode::Enter => vec![0x0d],
        KeyCode::Tab => vec![0x09],
        KeyCode::BackTab => vec![0x1b, 0x5b, 0x5a],
        KeyCode::Backspace => vec![0x7f],
        KeyCode::Delete => vec![0x1b, 0x5b, 0x33, 0x7e],
        KeyCode::Insert => vec![0x1b, 0x5b, 0x32, 0x7e],
        KeyCode::Esc => vec![0x1b],
        KeyCode::Up => vec![0x1b, 0x5b, 0x41],
        KeyCode::Down => vec![0x1b, 0x5b, 0x42],
        KeyCode::Right => vec![0x1b, 0x5b, 0x43],
        KeyCode::Left => vec![0x1b, 0x5b, 0x44],
        KeyCode::Home => vec![0x1b, 0x5b, 0x48],
        KeyCode::End => vec![0x1b, 0x5b, 0x46],
        KeyCode::PageUp => vec![0x1b, 0x5b, 0x35, 0x7e],
        KeyCode::PageDown => vec![0x1b, 0x5b, 0x36, 0x7e],
        KeyCode::F(n) => encode_function_key(n),
        KeyCode::Null => vec![0x00],
        _ => Vec::new(),
    };
    proof {
        assert(r@ =~= encode_spec(key));
    }
    r
}

/// The xterm sequence of the function key `F<n>` (see `function_key_spec`).
pub fn encode_function_key(n: u8) -> (r: Vec<u8>)
    ensures
        r@ == function_key_spec(n),
{
    let r = match n {
        1 => vec![0x1b, 0x4f, 0x50],
        2 => vec![0x1b, 0x4f, 0x51],
        3 => vec![0x1b, 0x4f, 0x52],
        4 => vec![0x1b, 0x4f, 0x53],
        5 => vec![0x1b, 0x5b, 0x31, 0x35, 0x7e],
        6 => vec![0x1b, 0x5b, 0x31, 0x37, 0x7e],
        7 => vec![0x1b, 0x5b, 0x31, 0x38, 0x7e],
        8 => vec![0x1b, 0x5b, 0x31, 0x39, 0x7e],
        9 => vec![0x1b, 0x5b, 0x32, 0x30, 0x7e],
        10 => vec![0x1b, 0x5b, 0x32, 0x31, 0x7e],
        11 => vec![0x1b, 0x5b, 0x32, 0x33, 0x7e],
        12 => vec![0x1b, 0x5b, 0x32, 0x34, 0x7e],
        _ => Vec::new(),
    };
    proof {
        assert(r@ =~= function_key_spec(n));
    }
    r
}

} // verus!
