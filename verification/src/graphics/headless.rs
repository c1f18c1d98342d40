//! The headless display: received bytes go straight to standard output,
//! log messages are printed inline in their level's colours, and while the
//! command bar is open incoming output is held back behind a blinking `> `
//! prompt, to be released when it closes.
use vstd::prelude::*;
use vstd::utf8::encode_utf8;
use crate::graphics::bytes::extend_bytes;
use crate::infra::logger::{LogLevel, level_index, level_rank};
use crate::infra::timer::Timer;
use crate::text::{decimal_chars, decimal_spec, string_of};

verus! {

/// Whether a log at `level` passes the `threshold` level.
pub fn level_visible(level: LogLevel, threshold: LogLevel) -> (r: bool)
    ensures
        r == (level_rank(level) <= level_rank(threshold)),
{
    level_index(level) <= level_index(threshold)
}

/// The SGR sequence that sets a level's colours: white on red for errors,
/// black on yellow for warnings, black on bright green for successes, black
/// on cyan for information and black on bright black for debugging.
pub open spec fn sgr_of(level: LogLevel) -> Seq<char> {
    match level {
        LogLevel::Error => seq!['\u{1b}', '[', '9', '7', ';', '4', '1', 'm'],
        LogLevel::Warning => seq!['\u{1b}', '[', '3', '0', ';', '4', '3', 'm'],
        LogLevel::Success => seq!['\u{1b}', '[', '3', '0', ';', '1', '0', '2', 'm'],
        LogLevel::Info => seq!['\u{1b}', '[', '3', '0', ';', '4', '6', 'm'],
        LogLevel::Debug => seq!['\u{1b}', '[', '3', '0', ';', '1', '0', '0', 'm'],
    }
}

/// The SGR sequence that sets the colours of `level` (see `sgr_of`).
pub fn log_sgr(level: LogLevel) -> (r: &'static str)
    ensures
        r@ == sgr_of(level),
{
    match level {
        LogLevel::Error => {
            proof {
                reveal_strlit("\x1b[97;41m");
            }
            "\x1b[97;41m"
        },
        LogLevel::Warning => {
            proof {
                reveal_strlit("\x1b[30;43m");
            }
            "\x1b[30;43m"
        },
        LogLevel::Success => {
            proof {
                reveal_strlit("\x1b[30;102m");
            }
            "\x1b[30;102m"
        },
        LogLevel::Info => {
            proof {
                reveal_strlit("\x1b[30;46m");
            }
            "\x1b[30;46m"
        },
        LogLevel::Debug => {
            proof {
                reveal_strlit("\x1b[30;100m");
            }
            "\x1b[30;100m"
        },
    }
}

/// `\r ESC[2K`: back to the start of the line and erase it.
pub open spec fn clear_line_bytes() -> Seq<u8> {
    seq![0x0du8, 0x1b, 0x5b, 0x32, 0x4b]
}

/// `ESC[0m \r\n`: reset the colours and end the line.
pub open spec fn reset_line_bytes() -> Seq<u8> {
    seq![0x1bu8, 0x5b, 0x30, 0x6d, 0x0d, 0x0a]
}

/// The bytes of a log line: its level's colours, the message, a reset and
/// a line end.
pub open spec fn log_bytes(level: LogLevel, message: Seq<char>) -> Seq<u8> {
    encode_utf8(sgr_of(level)) + encode_utf8(message) + reset_line_bytes()
}

/// The log lines of the messages that pass `threshold`, in order.
pub open spec fn visible_log_bytes(logs: Seq<(LogLevel, Seq<char>)>, threshold: LogLevel) -> Seq<u8>
    decreases logs.len(),
{
    if logs.len() == 0 {
        Seq::empty()
    } else {
        let rest = visible_log_bytes(logs.drop_last(), threshold);
        if level_rank(logs.last().0) <= level_rank(threshold) {
            rest + log_bytes(logs.last().0, logs.last().1)
        } else {
            rest
        }
    }
}

/// The chunks, one after the other.
pub open spec fn joined(chunks: Seq<Seq<u8>>) -> Seq<u8>
    decreases chunks.len(),
{
    if chunks.len() == 0 {
        Seq::empty()
    } else {
        joined(chunks.drop_last()) + chunks.last()
    }
}

/// The SGR of the prompt: black on yellow when inverted, yellow otherwise.
pub open spec fn prompt_sgr(inverted: bool) -> Seq<char> {
    if inverted {
        seq!['\u{1b}', '[', '3', '0', ';', '4', '3', 'm']
    } else {
        seq!['\u{1b}', '[', '3', '3', 'm']
    }
}

/// The prompt line: erased, then `> ` and the command in the prompt's
/// colours, then the cursor placed at column `3 + cursor`.
pub open spec fn prompt_bytes(inverted: bool, command: Seq<char>, cursor: nat) -> Seq<u8> {
    clear_line_bytes() + encode_utf8(prompt_sgr(inverted)) + seq![0x3eu8, 0x20] + encode_utf8(
        command,
    ) + seq![0x1bu8, 0x5b, 0x30, 0x6d, 0x0d, 0x1b, 0x5b] + encode_utf8(decimal_spec(cursor + 3))
        + seq![0x47u8]
}

/// What the headless display remembers between two passes of its loop.
pub struct HeadlessModel {
    /// Whether the previous pass was in raw mode (the command bar closed).
    pub prev_raw: bool,
    /// The output held back while the command bar is open.
    pub held: Seq<u8>,
    /// Whether the prompt is drawn inverted.
    pub inverted: bool,
    /// The command line last drawn in the prompt.
    pub last_cmd: Seq<char>,
    /// The least severe log level shown.
    pub level: LogLevel,
}

/// One pass of the display loop from `s`, with the command bar closed
/// (`raw`) or open showing `command` with the cursor at `cursor`, the bytes
/// `received` and the log messages `logs` that arrived, and whether the
/// prompt's blink period ended (`blinked`): the next state and the bytes to
/// write.
pub open spec fn step_spec(
    s: HeadlessModel,
    raw: bool,
    command: Seq<char>,
    cursor: nat,
    received: Seq<Seq<u8>>,
    logs: Seq<(LogLevel, Seq<char>)>,
    blinked: bool,
) -> (HeadlessModel, Seq<u8>) {
    let incoming = joined(received) + visible_log_bytes(logs, s.level);
    if raw {
        let released = if !s.prev_raw {
            clear_line_bytes() + s.held
        } else {
            Seq::empty()
        };
        (
            HeadlessModel {
                prev_raw: true,
                held: if !s.prev_raw {
                    Seq::empty()
                } else {
                    s.held
                },
                ..s
            },
            released + incoming,
        )
    } else {
        let entering = s.prev_raw;
        let inverted0 = if entering {
            true
        } else {
            s.inverted
        };
        let inverted = if blinked {
            !inverted0
        } else {
            inverted0
        };
        let dirty = entering || blinked || command != s.last_cmd;
        (
            HeadlessModel {
                prev_raw: false,
                held: s.held + incoming,
                inverted,
                last_cmd: if dirty {
                    command
                } else {
                    s.last_cmd
                },
                level: s.level,
            },
            if dirty {
                prompt_bytes(inverted, command, cursor)
            } else {
                Seq::empty()
            },
        )
    }
}

pub open spec fn byte_chunks(v: Seq<Vec<u8>>) -> Seq<Seq<u8>> {
    v.map_values(|b: Vec<u8>| b@)
}

pub open spec fn log_views(v: Seq<(LogLevel, String)>) -> Seq<(LogLevel, Seq<char>)> {
    v.map_values(|l: (LogLevel, String)| (l.0, l.1@))
}

/// The state of the headless display between passes of its loop.
pub struct HeadlessState {
    prev_raw: bool,
    held: Vec<u8>,
    inverted: bool,
    last_cmd: String,
    level: LogLevel,
    blink: Timer,
}

/// Appends all of `bytes` to `out`.
fn append(out: &mut Vec<u8>, bytes: &[u8])
    ensures
        final(out)@ == old(out)@ + bytes@,
{
    extend_bytes(out, bytes, 0, bytes.len());
    assert(bytes@.subrange(0, bytes@.len() as int) =~= bytes@);
}

impl HeadlessState {
    pub closed spec fn model(&self) -> HeadlessModel {
        HeadlessModel {
            prev_raw: self.prev_raw,
            held: self.held@,
            inverted: self.inverted,
            last_cmd: self.last_cmd@,
            level: self.level,
        }
    }

    /// Whether the prompt's blink period is running.
    pub closed spec fn blinking(&self) -> bool {
        self.blink.active()
    }

    /// The display at start: raw mode, nothing held, every level shown; the
    /// prompt blinks with the half-period `blink_period_ms` milliseconds.
    pub fn new(blink_period_ms: u64) -> (r: Self)
        ensures
            r.model() == (HeadlessModel {
                prev_raw: true,
                held: Seq::empty(),
                inverted: true,
                last_cmd: Seq::empty(),
                level: LogLevel::Debug,
            }),
    {
        HeadlessState {
            prev_raw: true,
            held: Vec::new(),
            inverted: true,
            last_cmd: String::new(),
            level: LogLevel::Debug,
            blink: Timer::new(blink_period_ms),
        }
    }

    /// Shows log messages down to `level` from now on.
    pub fn set_log_level(&mut self, level: LogLevel)
        ensures
            final(self).model() == (HeadlessModel { level, ..old(self).model() }),
            final(self).blinking() == old(self).blinking(),
    {
        self.level = level;
    }

    /// One pass of the display loop (see `step_spec`); returns the bytes
    /// to write. The prompt's blink period is started when the command bar
    /// opens and restarted each time it ends.
    pub fn step(
        &mut self,
        raw: bool,
        command_line: &str,
        cursor: usize,
        received: &[Vec<u8>],
        logs: &[(LogLevel, String)],
    ) -> (r: Vec<u8>)
        requires
            cursor + 3 <= u64::MAX,
        ensures
            exists|blinked: bool|
                (final(self).model(), r@) == #[trigger] step_spec(
                    old(self).model(),
                    raw,
                    command_line@,
                    cursor as nat,
                    byte_chunks(received@),
                    log_views(logs@),
                    blinked,
                ) && (blinked ==> !raw),
    {
        let ghost chunks = byte_chunks(received@);
        let ghost messages = log_views(logs@);
        let mut incoming: Vec<u8> = Vec::new();
        let mut i: usize = 0;
        while i < received.len()
            invariant
                i <= received@.len(),
                chunks == byte_chunks(received@),
                incoming@ == joined(chunks.take(i as int)),
            decreases received.len() - i,
        {
            assert(chunks.take(i + 1).drop_last() =~= chunks.take(i as int));
            append(&mut incoming, received[i].as_slice());
            i += 1;
        }
        assert(chunks.take(chunks.len() as int) =~= chunks);
        let ghost joined_rx = incoming@;
        let mut k: usize = 0;
        while k < logs.len()
            invariant
                k <= logs@.len(),
                messages == log_views(logs@),
                incoming@ == joined_rx + visible_log_bytes(messages.take(k as int), self.level),
            decreases logs.len() - k,
        {
            assert(messages.take(k + 1).drop_last() =~= messages.take(k as int));
            let (level, message) = (logs[k].0, &logs[k].1);
            if level_visible(level, self.level) {
                let ghost before = incoming@;
                append(&mut incoming, log_sgr(level).as_bytes());
                append(&mut incoming, message.as_str().as_bytes());
                append(&mut incoming, &[0x1b, 0x5b, 0x30, 0x6d, 0x0d, 0x0a]);
                assert(incoming@ =~= before + log_bytes(level, message@));
            }
            k += 1;
        }
        assert(messages.take(messages.len() as int) =~= messages);
        let mut out: Vec<u8> = Vec::new();
        if raw {
            if !self.prev_raw {
                append(&mut out, &[0x0d, 0x1b, 0x5b, 0x32, 0x4b]);
                append(&mut out, self.held.as_slice());
                self.held = Vec::new();
            }
            append(&mut out, incoming.as_slice());
            self.prev_raw = true;
            proof {
                assert(step_spec(
                    old(self).model(),
                    raw,
                    command_line@,
                    cursor as nat,
                    chunks,
                    messages,
                    false,
                ) == (self.model(), out@));
            }
            return out;
        }
        let entering = self.prev_raw;
        if entering {
            self.inverted = true;
            self.blink.start();
        }
        append(&mut self.held, incoming.as_slice());
        let blinked = self.blink.tick();
        if blinked {
            self.inverted = !self.inverted;
            self.blink.start();
        }
        let changed = !crate::text::str_eq(command_line, self.last_cmd.as_str());
        let dirty = entering || blinked || changed;
        if dirty {
            append(&mut out, &[0x0d, 0x1b, 0x5b, 0x32, 0x4b]);
            if self.inverted {
                proof {
                    reveal_strlit("\x1b[30;43m");
                }
                assert("\x1b[30;43m"@ =~= prompt_sgr(true));
                append(&mut out, "\x1b[30;43m".as_bytes());
            } else {
                proof {
                    reveal_strlit("\x1b[33m");
                }
                assert("\x1b[33m"@ =~= prompt_sgr(false));
                append(&mut out, "\x1b[33m".as_bytes());
            }
            assert(out@ =~= clear_line_bytes() + encode_utf8(prompt_sgr(self.inverted)));
            append(&mut out, &[0x3e, 0x20]);
            append(&mut out, command_line.as_bytes());
            append(&mut out, &[0x1b, 0x5b, 0x30, 0x6d, 0x0d, 0x1b, 0x5b]);
            let column = string_of(decimal_chars((cursor as u64) + 3).as_slice());
            append(&mut out, column.as_str().as_bytes());
            append(&mut out, &[0x47]);
            self.last_cmd = crate::text::to_owned_string(command_line);
        }
        self.prev_raw = false;
        proof {
            assert(out@ =~= if dirty {
                prompt_bytes(self.inverted, command_line@, cursor as nat)
            } else {
                Seq::<u8>::empty()
            });
            assert(step_spec(
                old(self).model(),
                raw,
                command_line@,
                cursor as nat,
                chunks,
                messages,
                blinked,
            ) == (self.model(), out@));
        }
        out
    }

    /// What is written when the display stops: the prompt erased and the
    /// held output released if the command bar was open, then a line end.
    pub fn finish(&self) -> (r: Vec<u8>)
        ensures
            r@ == (if !self.model().prev_raw {
                clear_line_bytes() + self.model().held
            } else {
                Seq::<u8>::empty()
            }) + seq![0x0du8, 0x0a],
    {
        let mut out: Vec<u8> = Vec::new();
        if !self.prev_raw {
            append(&mut out, &[0x0d, 0x1b, 0x5b, 0x32, 0x4b]);
            append(&mut out, self.held.as_slice());
        }
        append(&mut out, &[0x0d, 0x0a]);
        out
    }
}

} // verus!
