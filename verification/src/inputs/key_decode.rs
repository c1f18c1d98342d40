//! Turning the raw bytes read from a terminal back into key presses: the
//! inverse of `encode_key`, so that bytes arriving on standard input reach
//! the same key handling as the keyboard.
use vstd::prelude::*;
use vstd::utf8::{
    char_u32_cast, decode_first_scalar, encode_scalar, encode_utf8, encode_utf8_first_scalar,
    is_scalar, length_of_first_scalar, valid_first_scalar,
};
use crate::graphics::bytes::extend_bytes;
use crate::inputs::key_encode::{ascii, encode_spec, esc, function_key_spec};
use crate::inputs::keys::{KeyCode, KeyEvent, KeyModifiers};
use crate::text::{char_from_ascii, is_lower};

verus! {

/// What decoding the front of a buffer gives.
pub enum Step {
    /// A key, having consumed this many bytes.
    Emit(KeyEvent, usize),
    /// Nothing, having consumed this many bytes of an unknown sequence.
    Skip(usize),
    /// A valid but incomplete prefix: more bytes are needed.
    NeedMore,
}

/// What reading one character off the front of a buffer gives.
pub enum CharStep {
    Char(char, usize),
    NeedMore,
}

pub open spec fn plain(code: KeyCode) -> KeyEvent {
    KeyEvent { code, modifiers: KeyModifiers::spec_none() }
}

pub open spec fn with_control(code: KeyCode) -> KeyEvent {
    KeyEvent { code, modifiers: KeyModifiers { control: true, ..KeyModifiers::spec_none() } }
}

pub open spec fn with_alt(code: KeyCode) -> KeyEvent {
    KeyEvent { code, modifiers: KeyModifiers { alt: true, ..KeyModifiers::spec_none() } }
}

/// The character with the code of the byte `b` (Latin-1).
pub open spec fn latin1(b: u8) -> char {
    (b as u32) as char
}

/// The width a UTF-8 lead byte announces, or 0 for a byte that cannot
/// start a character of more than one byte.
pub open spec fn lead_width(b: u8) -> int {
    if 0xc0 <= b <= 0xdf {
        2
    } else if 0xe0 <= b <= 0xef {
        3
    } else if 0xf0 <= b <= 0xf7 {
        4
    } else {
        0
    }
}

/// Reads one character off the front of `buf`: an ASCII byte as itself, a
/// complete UTF-8 sequence as its character, an incomplete one as
/// `NeedMore`, and any other byte as its Latin-1 character.
pub open spec fn decode_char_spec(buf: Seq<u8>) -> CharStep {
    let b0 = buf[0];
    let len = lead_width(b0);
    if b0 <= 0x7f || len == 0 {
        CharStep::Char(latin1(b0), 1)
    } else if buf.len() < len {
        CharStep::NeedMore
    } else if valid_first_scalar(buf.take(len)) {
        CharStep::Char(decode_first_scalar(buf.take(len)) as char, len as usize)
    } else {
        CharStep::Char(latin1(b0), 1)
    }
}

/// The key of `ESC [ <n> ~`.
pub open spec fn tilde_key(n: nat) -> Option<KeyCode> {
    if n == 2 {
        Some(KeyCode::Insert)
    } else if n == 3 {
        Some(KeyCode::Delete)
    } else if n == 5 {
        Some(KeyCode::PageUp)
    } else if n == 6 {
        Some(KeyCode::PageDown)
    } else if n == 15 {
        Some(KeyCode::F(5))
    } else if n == 17 {
        Some(KeyCode::F(6))
    } else if n == 18 {
        Some(KeyCode::F(7))
    } else if n == 19 {
        Some(KeyCode::F(8))
    } else if n == 20 {
        Some(KeyCode::F(9))
    } else if n == 21 {
        Some(KeyCode::F(10))
    } else if n == 23 {
        Some(KeyCode::F(11))
    } else if n == 24 {
        Some(KeyCode::F(12))
    } else {
        None
    }
}

/// The key of `ESC [ <letter>`.
pub open spec fn csi_letter_key(b: u8) -> Option<KeyCode> {
    if b == 0x41 {
        Some(KeyCode::Up)
    } else if b == 0x42 {
        Some(KeyCode::Down)
    } else if b == 0x43 {
        Some(KeyCode::Right)
    } else if b == 0x44 {
        Some(KeyCode::Left)
    } else if b == 0x48 {
        Some(KeyCode::Home)
    } else if b == 0x46 {
        Some(KeyCode::End)
    } else if b == 0x5a {
        Some(KeyCode::BackTab)
    } else {
        None
    }
}

pub open spec fn is_digit_byte(b: u8) -> bool {
    0x30 <= b <= 0x39
}

/// The first index at or after `from` that does not hold a digit.
pub open spec fn digits_end(buf: Seq<u8>, from: int) -> int
    decreases buf.len() - from,
{
    if 0 <= from < buf.len() && is_digit_byte(buf[from]) {
        digits_end(buf, from + 1)
    } else {
        from
    }
}

/// The number decimal digits denote.
pub open spec fn digits_value(digits: Seq<u8>) -> nat
    decreases digits.len(),
{
    if digits.len() == 0 {
        0
    } else {
        digits_value(digits.drop_last()) * 10 + (digits.last() - 0x30) as nat
    }
}

/// `ESC [ ...`: arrows, Home/End and BackTab by their final letter, the
/// editing and function keys as `<n>~`; anything else is skipped.
pub open spec fn decode_csi_spec(buf: Seq<u8>) -> Step {
    if buf.len() < 3 {
        Step::NeedMore
    } else if csi_letter_key(buf[2]) is Some {
        Step::Emit(plain(csi_letter_key(buf[2])->0), 3)
    } else if is_digit_byte(buf[2]) {
        let i = digits_end(buf, 2);
        if i >= buf.len() {
            Step::NeedMore
        } else if buf[i] != 0x7e {
            Step::Skip((i + 1) as usize)
        } else {
            match tilde_key(digits_value(buf.subrange(2, i))) {
                Some(code) => Step::Emit(plain(code), (i + 1) as usize),
                None => Step::Skip((i + 1) as usize),
            }
        }
    } else {
        Step::Skip(3)
    }
}

/// `ESC O <P|Q|R|S>`: F1 to F4.
pub open spec fn decode_ss3_spec(buf: Seq<u8>) -> Step {
    if buf.len() < 3 {
        Step::NeedMore
    } else if buf[2] == 0x50 {
        Step::Emit(plain(KeyCode::F(1)), 3)
    } else if buf[2] == 0x51 {
        Step::Emit(plain(KeyCode::F(2)), 3)
    } else if buf[2] == 0x52 {
        Step::Emit(plain(KeyCode::F(3)), 3)
    } else if buf[2] == 0x53 {
        Step::Emit(plain(KeyCode::F(4)), 3)
    } else {
        Step::Skip(3)
    }
}

/// A sequence starting with `ESC`: CSI, SS3, or `ESC` with a character,
/// which is that character with `Alt`.
pub open spec fn decode_escape_spec(buf: Seq<u8>) -> Step {
    if buf.len() < 2 {
        Step::NeedMore
    } else if buf[1] == 0x5b {
        decode_csi_spec(buf)
    } else if buf[1] == 0x4f {
        decode_ss3_spec(buf)
    } else {
        match decode_char_spec(buf.drop_first()) {
            CharStep::Char(c, len) => Step::Emit(with_alt(KeyCode::Char(c)), (1 + len) as usize),
            CharStep::NeedMore => Step::NeedMore,
        }
    }
}

/// Decodes the key at the front of the non-empty `buf`.
pub open spec fn decode_one_spec(buf: Seq<u8>) -> Step {
    let b0 = buf[0];
    if b0 == 0x1b {
        decode_escape_spec(buf)
    } else if b0 == 0x0d || b0 == 0x0a {
        Step::Emit(plain(KeyCode::Enter), 1)
    } else if b0 == 0x09 {
        Step::Emit(plain(KeyCode::Tab), 1)
    } else if b0 == 0x7f {
        Step::Emit(plain(KeyCode::Backspace), 1)
    } else if b0 == 0x00 {
        Step::Emit(plain(KeyCode::Null), 1)
    } else if 0x01 <= b0 <= 0x1a {
        Step::Emit(with_control(KeyCode::Char(((b0 as u32) + 96) as char)), 1)
    } else if 0x1c <= b0 <= 0x1f {
        Step::Emit(plain(KeyCode::Char(latin1(b0))), 1)
    } else {
        match decode_char_spec(buf) {
            CharStep::Char(c, len) => Step::Emit(plain(KeyCode::Char(c)), len),
            CharStep::NeedMore => Step::NeedMore,
        }
    }
}

/// Decodes keys off the front of `buf` for as long as they are complete:
/// the keys, and the bytes left waiting for more input.
pub open spec fn drain_keys(buf: Seq<u8>) -> (Seq<KeyEvent>, Seq<u8>)
    decreases buf.len(),
{
    if buf.len() == 0 {
        (Seq::empty(), Seq::empty())
    } else {
        match decode_one_spec(buf) {
            Step::Emit(k, n) => if 0 < n <= buf.len() {
                let (keys, rest) = drain_keys(buf.skip(n as int));
                (seq![k] + keys, rest)
            } else {
                (Seq::empty(), buf)
            },
            Step::Skip(n) => if 0 < n <= buf.len() {
                drain_keys(buf.skip(n as int))
            } else {
                (Seq::empty(), buf)
            },
            Step::NeedMore => (Seq::empty(), buf),
        }
    }
}

/// What feeding `bytes` to a decoder holding `buf` gives: the keys, and
/// the bytes it holds afterwards. A lone `ESC` left at the end is a real
/// `Esc` press.
pub open spec fn feed_spec(buf: Seq<u8>, bytes: Seq<u8>) -> (Seq<KeyEvent>, Seq<u8>) {
    let (keys, rest) = drain_keys(buf + bytes);
    if rest == seq![0x1bu8] {
        (keys.push(plain(KeyCode::Esc)), Seq::empty())
    } else {
        (keys, rest)
    }
}

/// Decoder of the bytes read from a terminal into key presses. Bytes of an
/// incomplete character or escape sequence are kept until more arrive.
#[derive(Default)]
pub struct KeyDecoder {
    buf: Vec<u8>,
}

/// The character whose code is `v` (`char::from_u32`): there is one exactly
/// when `v` is a Unicode scalar value.
#[verifier::external_body]
fn char_from_u32(v: u32) -> (r: Option<char>)
    ensures
        r is Some <==> is_scalar(v),
        r matches Some(c) ==> c as u32 == v,
{
    char::from_u32(v)
}

impl KeyDecoder {
    pub closed spec fn pending(&self) -> Seq<u8> {
        self.buf@
    }

    pub fn new() -> (r: Self)
        ensures
            r.pending() == Seq::<u8>::empty(),
    {
        KeyDecoder { buf: Vec::new() }
    }

    /// Feeds a chunk of bytes and returns every complete key they finish.
    pub fn feed(&mut self, bytes: &[u8]) -> (r: Vec<KeyEvent>)
        ensures
            (r@, final(self).pending()) == feed_spec(old(self).pending(), bytes@),
    {
        let ghost total = self.buf@ + bytes@;
        let mut buf: Vec<u8> = Vec::new();
        extend_bytes(&mut buf, self.buf.as_slice(), 0, self.buf.len());
        extend_bytes(&mut buf, bytes, 0, bytes.len());
        assert(buf@ =~= total);
        let mut out: Vec<KeyEvent> = Vec::new();
        loop
            invariant
                drain_keys(total).0 == out@ + drain_keys(buf@).0,
                drain_keys(total).1 == drain_keys(buf@).1,
            ensures
                drain_keys(total).0 == out@,
                drain_keys(total).1 == buf@,
            decreases buf@.len(),
        {
            if buf.len() == 0 {
                assert(out@ + Seq::<KeyEvent>::empty() =~= out@);
                break;
            }
            proof {
                lemma_step_bounds(buf@);
            }
            match decode_one(buf.as_slice()) {
                Step::Emit(key, consumed) => {
                    let ghost before = buf@;
                    let mut rest: Vec<u8> = Vec::new();
                    extend_bytes(&mut rest, buf.as_slice(), consumed, buf.len());
                    assert(rest@ =~= before.skip(consumed as int));
                    buf = rest;
                    let ghost old_out = out@;
                    out.push(key);
                    assert(old_out + (seq![key] + drain_keys(buf@).0) =~= out@ + drain_keys(
                        buf@,
                    ).0);
                },
                Step::Skip(consumed) => {
                    let ghost before = buf@;
                    let mut rest: Vec<u8> = Vec::new();
                    extend_bytes(&mut rest, buf.as_slice(), consumed, buf.len());
                    assert(rest@ =~= before.skip(consumed as int));
                    buf = rest;
                },
                Step::NeedMore => {
                    assert(out@ + Seq::<KeyEvent>::empty() =~= out@);
                    break;
                },
            }
        }
        if buf.len() == 1 && buf[0] == 0x1b {
            assert(buf@ =~= seq![0x1bu8]);
            self.buf = Vec::new();
            out.push(KeyEvent::new(KeyCode::Esc, KeyModifiers::none()));
        } else {
            assert(buf@ != seq![0x1bu8]) by {
                if buf@ =~= seq![0x1bu8] {
                }
            }
            self.buf = buf;
        }
        out
    }

    /// Releases what is held at the end of the input: a lone `ESC` becomes
    /// an `Esc` press; an incomplete sequence is dropped.
    pub fn flush(&mut self) -> (r: Vec<KeyEvent>)
        ensures
            r@ == if old(self).pending() == seq![0x1bu8] {
                seq![plain(KeyCode::Esc)]
            } else {
                Seq::<KeyEvent>::empty()
            },
            final(self).pending() == Seq::<u8>::empty(),
    {
        let mut out: Vec<KeyEvent> = Vec::new();
        if self.buf.len() == 1 && self.buf[0] == 0x1b {
            assert(self.buf@ =~= seq![0x1bu8]);
            out.push(KeyEvent::new(KeyCode::Esc, KeyModifiers::none()));
        } else {
            assert(self.buf@ != seq![0x1bu8]) by {
                if self.buf@ =~= seq![0x1bu8] {
                }
            }
        }
        self.buf = Vec::new();
        assert(out@ =~= if old(self).pending() == seq![0x1bu8] {
            seq![plain(KeyCode::Esc)]
        } else {
            Seq::<KeyEvent>::empty()
        });
        out
    }
}

/// The Latin-1 character of the byte `b`.
fn latin1_of(b: u8) -> (r: char)
    ensures
        r == latin1(b),
{
    let c = char_from_ascii(b);
    proof {
        char_u32_cast(c, b as u32);
    }
    c
}

fn plain_key(code: KeyCode) -> (r: KeyEvent)
    ensures
        r == plain(code),
{
    KeyEvent::new(code, KeyModifiers::none())
}

/// Reads one character off the front of `buf` (see `decode_char_spec`).
fn decode_char(buf: &[u8]) -> (r: CharStep)
    requires
        buf@.len() > 0,
    ensures
        r == decode_char_spec(buf@),
{
    let b0 = buf[0];
    let len: usize = if 0xc0 <= b0 && b0 <= 0xdf {
        2
    } else if 0xe0 <= b0 && b0 <= 0xef {
        3
    } else if 0xf0 <= b0 && b0 <= 0xf7 {
        4
    } else {
        0
    };
    if b0 <= 0x7f || len == 0 {
        return CharStep::Char(latin1_of(b0), 1);
    }
    if buf.len() < len {
        return CharStep::NeedMore;
    }
    let ghost t = buf@.take(len as int);
    let mut continuation = true;
    let mut k: usize = 1;
    while k < len
        invariant
            1 <= k <= len <= 4,
            len <= buf@.len(),
            continuation == forall|j: int| 1 <= j < k ==> 0x80 <= #[trigger] buf@[j] <= 0xbf,
        decreases len - k,
    {
        if !(0x80 <= buf[k] && buf[k] <= 0xbf) {
            continuation = false;
        }
        k += 1;
    }
    if !continuation {
        proof {
            let j = choose|j: int| 1 <= j < len && !(0x80 <= #[trigger] buf@[j] <= 0xbf);
            assert(t[j] == buf@[j]);
        }
        return CharStep::Char(latin1_of(b0), 1);
    }
    let b1 = buf[1];
    assert(t[0] == b0 && t[1] == b1);
    let cp: u32 = if len == 2 {
        let v = (((b0 & 0x1f) as u32) << 6) | ((b1 & 0x3f) as u32);
        assert(v <= 0x7ff) by (bit_vector)
            requires
                v == (((b0 & 0x1f) as u32) << 6) | ((b1 & 0x3f) as u32),
        ;
        v
    } else if len == 3 {
        let b2 = buf[2];
        assert(t[2] == b2);
        let v = (((b0 & 0x0f) as u32) << 12) | (((b1 & 0x3f) as u32) << 6) | ((b2 & 0x3f) as u32);
        assert(v <= 0xffff) by (bit_vector)
            requires
                v == (((b0 & 0x0f) as u32) << 12) | (((b1 & 0x3f) as u32) << 6) | ((b2 & 0x3f) as u32),
        ;
        v
    } else {
        let b2 = buf[2];
        let b3 = buf[3];
        assert(t[2] == b2 && t[3] == b3);
        (((b0 & 0x07) as u32) << 18) | (((b1 & 0x3f) as u32) << 12) | (((b2 & 0x3f) as u32) << 6)
            | ((b3 & 0x3f) as u32)
    };
    let wide_enough = if len == 2 {
        0x80 <= cp
    } else if len == 3 {
        0x800 <= cp
    } else {
        0x10000 <= cp && cp <= 0x10ffff
    };
    let surrogate = 0xd800 <= cp && cp <= 0xdfff;
    if !wide_enough || surrogate {
        return CharStep::Char(latin1_of(b0), 1);
    }
    match char_from_u32(cp) {
        Some(c) => {
            proof {
                char_u32_cast(c, cp);
            }
            CharStep::Char(c, len)
        },
        None => CharStep::Char(latin1_of(b0), 1),
    }
}

/// The key of `ESC [ <n> ~`, for `n` given as its digits.
fn tilde_key_of(digits: &[u8]) -> (r: Option<KeyCode>)
    requires
        forall|k: int| 0 <= k < digits@.len() ==> is_digit_byte(#[trigger] digits@[k]),
    ensures
        r == tilde_key(digits_value(digits@)),
{
    let mut value: u32 = 0;
    let mut big = false;
    let mut k: usize = 0;
    while k < digits.len()
        invariant
            k <= digits@.len(),
            forall|j: int| 0 <= j < digits@.len() ==> is_digit_byte(#[trigger] digits@[j]),
            !big ==> value == digits_value(digits@.take(k as int)),
            !big ==> value <= 1000,
            big ==> digits_value(digits@.take(k as int)) > 1000,
        decreases digits.len() - k,
    {
        assert(digits@.take(k + 1).drop_last() =~= digits@.take(k as int));
        assert(digits@.take(k + 1).last() == digits@[k as int]);
        if !big {
            let next = value * 10 + (digits[k] - 0x30) as u32;
            if next > 1000 {
                big = true;
            } else {
                value = next;
            }
        }
        k += 1;
    }
    assert(digits@.take(digits@.len() as int) =~= digits@);
    if big {
        return None;
    }
    match value {
        2 => Some(KeyCode::Insert),
        3 => Some(KeyCode::Delete),
        5 => Some(KeyCode::PageUp),
        6 => Some(KeyCode::PageDown),
        15 => Some(KeyCode::F(5)),
        17 => Some(KeyCode::F(6)),
        18 => Some(KeyCode::F(7)),
        19 => Some(KeyCode::F(8)),
        20 => Some(KeyCode::F(9)),
        21 => Some(KeyCode::F(10)),
        23 => Some(KeyCode::F(11)),
        24 => Some(KeyCode::F(12)),
        _ => None,
    }
}

/// `ESC [ ...` (see `decode_csi_spec`).
fn decode_csi(buf: &[u8]) -> (r: Step)
    ensures
        r == decode_csi_spec(buf@),
{
    if buf.len() < 3 {
        return Step::NeedMore;
    }
    let letter = match buf[2] {
        0x41 => Some(KeyCode::Up),
        0x42 => Some(KeyCode::Down),
        0x43 => Some(KeyCode::Right),
        0x44 => Some(KeyCode::Left),
        0x48 => Some(KeyCode::Home),
        0x46 => Some(KeyCode::End),
        0x5a => Some(KeyCode::BackTab),
        _ => None,
    };
    if let Some(code) = letter {
        return Step::Emit(plain_key(code), 3);
    }
    if 0x30 <= buf[2] && buf[2] <= 0x39 {
        let mut i: usize = 2;
        while i < buf.len() && 0x30 <= buf[i] && buf[i] <= 0x39
            invariant
                2 <= i <= buf@.len(),
                digits_end(buf@, 2) == digits_end(buf@, i as int),
                forall|k: int| 2 <= k < i ==> is_digit_byte(#[trigger] buf@[k]),
            decreases buf.len() - i,
        {
            i += 1;
        }
        if i >= buf.len() {
            return Step::NeedMore;
        }
        if buf[i] != 0x7e {
            return Step::Skip(i + 1);
        }
        let digits = &buf[2..i];
        assert(forall|k: int| 0 <= k < digits@.len() ==> is_digit_byte(#[trigger] digits@[k])) by {
            assert forall|k: int| 0 <= k < digits@.len() implies is_digit_byte(#[trigger] digits@[k]) by {
                assert(digits@[k] == buf@[k + 2]);
            }
        }
        return match tilde_key_of(digits) {
            Some(code) => Step::Emit(plain_key(code), i + 1),
            None => Step::Skip(i + 1),
        };
    }
    Step::Skip(3)
}

/// `ESC O ...` (see `decode_ss3_spec`).
fn decode_ss3(buf: &[u8]) -> (r: Step)
    ensures
        r == decode_ss3_spec(buf@),
{
    if buf.len() < 3 {
        return Step::NeedMore;
    }
    match buf[2] {
        0x50 => Step::Emit(plain_key(KeyCode::F(1)), 3),
        0x51 => Step::Emit(plain_key(KeyCode::F(2)), 3),
        0x52 => Step::Emit(plain_key(KeyCode::F(3)), 3),
        0x53 => Step::Emit(plain_key(KeyCode::F(4)), 3),
        _ => Step::Skip(3),
    }
}

/// A sequence starting with `ESC` (see `decode_escape_spec`).
fn decode_escape(buf: &[u8]) -> (r: Step)
    ensures
        r == decode_escape_spec(buf@),
{
    if buf.len() < 2 {
        return Step::NeedMore;
    }
    if buf[1] == 0x5b {
        decode_csi(buf)
    } else if buf[1] == 0x4f {
        decode_ss3(buf)
    } else {
        let tail = &buf[1..buf.len()];
        assert(tail@ =~= buf@.drop_first());
        match decode_char(tail) {
            CharStep::Char(c, len) => Step::Emit(
                KeyEvent::new(KeyCode::Char(c), KeyModifiers::alt()),
                1 + len,
            ),
            CharStep::NeedMore => Step::NeedMore,
        }
    }
}

/// Decodes the key at the front of `buf` (see `decode_one_spec`).
fn decode_one(buf: &[u8]) -> (r: Step)
    requires
        buf@.len() > 0,
    ensures
        r == decode_one_spec(buf@),
{
    let b0 = buf[0];
    if b0 == 0x1b {
        decode_escape(buf)
    } else if b0 == 0x0d || b0 == 0x0a {
        Step::Emit(plain_key(KeyCode::Enter), 1)
    } else if b0 == 0x09 {
        Step::Emit(plain_key(KeyCode::Tab), 1)
    } else if b0 == 0x7f {
        Step::Emit(plain_key(KeyCode::Backspace), 1)
    } else if b0 == 0x00 {
        Step::Emit(plain_key(KeyCode::Null), 1)
    } else if 0x01 <= b0 && b0 <= 0x1a {
        let letter = char_from_ascii(b0 + 96);
        proof {
            char_u32_cast(letter, ((b0 as u32) + 96) as u32);
        }
        Step::Emit(KeyEvent::new(KeyCode::Char(letter), KeyModifiers::control()), 1)
    } else if 0x1c <= b0 && b0 <= 0x1f {
        Step::Emit(plain_key(KeyCode::Char(latin1_of(b0))), 1)
    } else {
        match decode_char(buf) {
            CharStep::Char(c, len) => Step::Emit(plain_key(KeyCode::Char(c)), len),
            CharStep::NeedMore => Step::NeedMore,
        }
    }
}

/// Emit and Skip consume at least one byte and no more than there are.
proof fn lemma_step_bounds(buf: Seq<u8>)
    requires
        buf.len() > 0,
        buf.len() <= usize::MAX,
    ensures
        decode_one_spec(buf) matches Step::Emit(_, n) ==> 0 < n <= buf.len(),
        decode_one_spec(buf) matches Step::Skip(n) ==> 0 < n <= buf.len(),
{
    if buf[0] == 0x1b && buf.len() >= 3 && buf[1] == 0x5b && is_digit_byte(buf[2]) {
        lemma_digits_end_bounds(buf, 2);
    }
    lemma_char_bounds(buf);
    if buf.len() >= 2 {
        lemma_char_bounds(buf.drop_first());
    }
}

proof fn lemma_char_bounds(buf: Seq<u8>)
    requires
        buf.len() > 0,
    ensures
        decode_char_spec(buf) matches CharStep::Char(_, n) ==> 0 < n <= buf.len() && n <= 4,
{
}

proof fn lemma_digits_end_bounds(buf: Seq<u8>, from: int)
    requires
        0 <= from <= buf.len(),
    ensures
        from <= digits_end(buf, from) <= buf.len(),
        forall|k: int| from <= k < digits_end(buf, from) ==> is_digit_byte(#[trigger] buf[k]),
    decreases buf.len() - from,
{
    if from < buf.len() && is_digit_byte(buf[from]) {
        lemma_digits_end_bounds(buf, from + 1);
    }
}

/// The keys whose bytes decode back to them: keys with a byte form that
/// no other key shares. Excluded are `Ctrl` with an upper-case letter or
/// with `i`, `j` or `m` (the bytes of Tab and Enter), `Alt` with `[` or `O`
/// (the start of an escape sequence), plain control characters, and keys
/// with other modifiers or no byte form.
pub open spec fn round_trips(key: KeyEvent) -> bool {
    let none = KeyModifiers::spec_none();
    match key.code {
        KeyCode::Char(c) => {
            ||| key.modifiers == (KeyModifiers { control: true, ..none }) && is_lower(c) && c != 'i'
                && c != 'j' && c != 'm'
            ||| key.modifiers == (KeyModifiers { alt: true, ..none }) && c != '[' && c != 'O'
            ||| key.modifiers == none && c as u32 >= 0x20 && c as u32 != 0x7f
        },
        KeyCode::F(n) => 1 <= n <= 12 && key.modifiers == none,
        KeyCode::Enter | KeyCode::Tab | KeyCode::BackTab | KeyCode::Backspace | KeyCode::Delete
        | KeyCode::Insert | KeyCode::Esc | KeyCode::Up | KeyCode::Down | KeyCode::Right
        | KeyCode::Left | KeyCode::Home | KeyCode::End | KeyCode::PageUp | KeyCode::PageDown
        | KeyCode::Null => key.modifiers == none,
        _ => false,
    }
}

/// Decoding a character's UTF-8 encoding gives the character back.
proof fn lemma_decode_char_of_encoding(c: char)
    ensures
        1 <= encode_scalar(c as u32).len() <= 4,
        decode_char_spec(encode_scalar(c as u32)) == CharStep::Char(
            c,
            encode_scalar(c as u32).len() as usize,
        ),
        (c as u32) < 0x80 ==> encode_scalar(c as u32) == seq![(c as u32) as u8],
        (c as u32) >= 0x80 ==> encode_scalar(c as u32)[0] >= 0xc0,
{
    let v = c as u32;
    let e = encode_scalar(v);
    vstd::utf8::char_is_scalar(c);
    assert(encode_utf8(seq![c]) =~= e) by {
        assert(seq![c].drop_first() =~= Seq::<char>::empty());
        assert(encode_utf8(Seq::<char>::empty()) == Seq::<u8>::empty());
        assert(seq![c][0] == c);
    }
    encode_utf8_first_scalar(seq![c]);
    if v < 0x80 {
        assert((v & 0x7f) as u8 == v as u8) by (bit_vector)
            requires
                v < 0x80,
        ;
        char_u32_cast(c, v);
    } else {
        let b0 = e[0];
        assert(b0 >= 0xc0) by {
            if v <= 0x7ff {
                assert((0xc0u8 | ((v >> 6) & 0x1f) as u8) >= 0xc0) by (bit_vector);
            } else if v <= 0xffff {
                assert((0xe0u8 | ((v >> 12) & 0x0f) as u8) >= 0xc0) by (bit_vector);
            } else {
                assert((0xf0u8 | ((v >> 18) & 0x7) as u8) >= 0xc0) by (bit_vector);
            }
        }
        assert(e.take(e.len() as int) =~= e);
        char_u32_cast(c, decode_first_scalar(e));
    }
}

/// One key's bytes decode to that key alone.
proof fn lemma_single_key(bytes: Seq<u8>, key: KeyEvent)
    requires
        bytes.len() > 0,
        bytes.len() <= usize::MAX,
        decode_one_spec(bytes) == Step::Emit(key, bytes.len() as usize),
    ensures
        feed_spec(Seq::empty(), bytes) == (seq![key], Seq::<u8>::empty()),
{
    assert(Seq::<u8>::empty() + bytes =~= bytes);
    assert(bytes.skip(bytes.len() as int) =~= Seq::<u8>::empty());
    assert(drain_keys(Seq::<u8>::empty()) == (Seq::<KeyEvent>::empty(), Seq::<u8>::empty()));
    assert(seq![key] + Seq::<KeyEvent>::empty() =~= seq![key]);
    assert(drain_keys(bytes) == (seq![key], Seq::<u8>::empty()));
    assert(Seq::<u8>::empty() != seq![0x1bu8]) by {
        assert(seq![0x1bu8].len() == 1);
    }
}

/// `digits_end` stops at the first byte that is not a digit.
proof fn lemma_digits_end_at(buf: Seq<u8>, from: int, end: int)
    requires
        0 <= from <= end < buf.len(),
        forall|k: int| from <= k < end ==> is_digit_byte(#[trigger] buf[k]),
        !is_digit_byte(buf[end]),
    ensures
        digits_end(buf, from) == end,
    decreases end - from,
{
    if from < end {
        lemma_digits_end_at(buf, from + 1, end);
    }
}

/// The `ESC [ <digits> ~` form decodes by the number the digits denote.
proof fn lemma_tilde_bytes(bytes: Seq<u8>)
    requires
        4 <= bytes.len() <= 5,
        bytes[0] == 0x1b,
        bytes[1] == 0x5b,
        forall|k: int| 2 <= k < bytes.len() - 1 ==> is_digit_byte(#[trigger] bytes[k]),
        bytes[bytes.len() - 1] == 0x7e,
    ensures
        decode_one_spec(bytes) == match tilde_key(digits_value(bytes.subrange(2, bytes.len() - 1))) {
            Some(code) => Step::Emit(plain(code), bytes.len() as usize),
            None => Step::Skip(bytes.len() as usize),
        },
        bytes.len() == 4 ==> digits_value(bytes.subrange(2, 3)) == bytes[2] - 0x30,
        bytes.len() == 5 ==> digits_value(bytes.subrange(2, 4)) == (bytes[2] - 0x30) * 10 + (
        bytes[3] - 0x30),
{
    lemma_digits_end_at(bytes, 2, bytes.len() - 1);
    let d = bytes.subrange(2, bytes.len() - 1);
    assert(is_digit_byte(bytes[2]));
    assert(digits_value(Seq::<u8>::empty()) == 0);
    let one = seq![bytes[2]];
    assert(one.drop_last() =~= Seq::<u8>::empty());
    assert(digits_value(one) == bytes[2] - 0x30);
    if bytes.len() == 4 {
        assert(d =~= one);
    } else {
        assert(is_digit_byte(bytes[3]));
        assert(d.drop_last() =~= one);
        assert(d.last() == bytes[3]);
    }
}

/// Decoding inverts encoding: the bytes `encode_key` gives for a key that
/// round-trips decode, in one feed, to exactly that key, with nothing left
/// held (so a final `flush` adds nothing).
pub proof fn lemma_decode_inverts_encode(key: KeyEvent)
    requires
        round_trips(key),
    ensures
        feed_spec(Seq::empty(), encode_spec(key)) == (seq![key], Seq::<u8>::empty()),
{
    let bytes = encode_spec(key);
    let none = KeyModifiers::spec_none();
    match key.code {
        KeyCode::Char(c) => {
            lemma_decode_char_of_encoding(c);
            let e = encode_scalar(c as u32);
            if key.modifiers == (KeyModifiers { control: true, ..none }) && is_lower(c) {
                let b = ((crate::text::upper(c) as u32) - 64) as u8;
                assert(bytes == seq![b]);
                assert(((b as u32) + 96) as char == c) by {
                    char_u32_cast(c, c as u32);
                }
                lemma_single_key(bytes, key);
            } else if key.modifiers == (KeyModifiers { alt: true, ..none }) {
                assert(bytes == seq![0x1bu8] + e);
                assert(bytes.drop_first() =~= e);
                lemma_single_key(bytes, key);
            } else {
                assert(bytes == e);
                lemma_single_key(bytes, key);
            }
        },
        KeyCode::F(n) => {
            assert(bytes == function_key_spec(n));
            if n > 4 {
                lemma_tilde_bytes(bytes);
            }
            lemma_single_key(bytes, key);
        },
        KeyCode::Esc => {
            assert(bytes == seq![0x1bu8]);
            assert(Seq::<u8>::empty() + bytes =~= bytes);
            assert(drain_keys(bytes) == (Seq::<KeyEvent>::empty(), bytes));
            assert(Seq::<KeyEvent>::empty().push(plain(KeyCode::Esc)) =~= seq![key]);
        },
        KeyCode::Delete | KeyCode::Insert | KeyCode::PageUp | KeyCode::PageDown => {
            lemma_tilde_bytes(bytes);
            lemma_single_key(bytes, key);
        },
        _ => {
            lemma_single_key(bytes, key);
        },
    }
}

} // verus!
