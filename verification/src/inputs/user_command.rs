//! The `!` commands typed in the command line: `!serial connect 115200`,
//! `!rtt read 0x2000_0000 16`, `!log sys dbg`, `!plugin load x.lua`... A
//! command line is cut into words and the words are turned into what is
//! to be done; doing it (sending to the interface, the screen or the
//! plugins) is the front end's part.
use vstd::prelude::*;
use crate::command_list::string_views;
use crate::infra::logger::LogLevel;
use crate::inputs::command_line::{address_spec, parse_address_argument};
use crate::interfaces::InterfaceType;
use crate::interfaces::serial_if::FlowControl;
use crate::text::{
    all_digits, char_is_digit, char_is_space, chars_of, decimal_value, is_digit, is_space,
    parse_unsigned, parse_unsigned_chars, push_str, str_eq, string_of, to_owned_string,
};

verus! {

/// A request for the plugin engine.
pub enum PluginRequest {
    SetLogLevel { plugin_name: String, log_level: LogLevel },
    LoadPlugin { filepath: String },
    UnloadPlugin { plugin_name: String },
    UserCommand { plugin_name: String, command: String, options: Vec<String> },
}

/// What a `!` command asks for.
pub enum UserCommand {
    /// A lone `!`: the character itself is sent.
    SendBang,
    SerialConnect,
    /// New serial settings: a port, a baud rate, or both.
    SerialSetup { port: Option<String>, baudrate: Option<u32> },
    SerialDisconnect,
    /// New flow control, with the word that named it (for the report).
    SetFlow { flow: FlowControl, name: String },
    RttConnect,
    /// New RTT settings: a target, a channel, or both.
    RttSetup { target: Option<String>, channel: Option<usize> },
    RttDisconnect,
    RttRead { address: u64, size: usize },
    /// Generated text to show; its words are the command's.
    Ipsum(Vec<String>),
    /// The level of the program's own log messages.
    SystemLogLevel(LogLevel),
    /// A new message filter: show only the received lines matching
    /// `pattern`, or hide them when `exclude`; an empty pattern resets it.
    SetFilter { pattern: String, exclude: bool },
    /// A new name for the session's record file.
    Rename(String),
    /// Send the file at this path over the interface.
    SendFile(String),
    /// Leave the program (`!exit` or `!quit`).
    Exit,
    Plugin(PluginRequest),
    /// The command is refused; the message says why.
    Error(String),
}

/// A `!` command as values of the specification.
pub enum Parsed {
    SendBang,
    SerialConnect,
    SerialSetup { port: Option<Seq<char>>, baudrate: Option<u32> },
    SerialDisconnect,
    SetFlow { flow: FlowControl, name: Seq<char> },
    RttConnect,
    RttSetup { target: Option<Seq<char>>, channel: Option<usize> },
    RttDisconnect,
    RttRead { address: u64, size: usize },
    Ipsum(Seq<Seq<char>>),
    SystemLogLevel(LogLevel),
    SetFilter { pattern: Seq<char>, exclude: bool },
    Rename(Seq<char>),
    SendFile(Seq<char>),
    Exit,
    PluginLogLevel { plugin_name: Seq<char>, log_level: LogLevel },
    LoadPlugin(Seq<char>),
    UnloadPlugin(Seq<char>),
    PluginCommand { plugin_name: Seq<char>, command: Seq<char>, options: Seq<Seq<char>> },
    Error(Seq<char>),
}

pub open spec fn opt_view(s: Option<String>) -> Option<Seq<char>> {
    match s {
        Some(t) => Some(t@),
        None => None,
    }
}

/// The command as values of the specification.
pub open spec fn parsed_view(c: UserCommand) -> Parsed {
    match c {
        UserCommand::SendBang => Parsed::SendBang,
        UserCommand::SerialConnect => Parsed::SerialConnect,
        UserCommand::SerialSetup { port, baudrate } => Parsed::SerialSetup { port: opt_view(port), baudrate },
        UserCommand::SerialDisconnect => Parsed::SerialDisconnect,
        UserCommand::SetFlow { flow, name } => Parsed::SetFlow { flow, name: name@ },
        UserCommand::RttConnect => Parsed::RttConnect,
        UserCommand::RttSetup { target, channel } => Parsed::RttSetup { target: opt_view(target), channel },
        UserCommand::RttDisconnect => Parsed::RttDisconnect,
        UserCommand::RttRead { address, size } => Parsed::RttRead { address, size },
        UserCommand::Ipsum(words) => Parsed::Ipsum(string_views(words@)),
        UserCommand::SystemLogLevel(l) => Parsed::SystemLogLevel(l),
        UserCommand::SetFilter { pattern, exclude } => Parsed::SetFilter { pattern: pattern@, exclude },
        UserCommand::Rename(name) => Parsed::Rename(name@),
        UserCommand::SendFile(path) => Parsed::SendFile(path@),
        UserCommand::Exit => Parsed::Exit,
        UserCommand::Plugin(PluginRequest::SetLogLevel { plugin_name, log_level }) => Parsed::PluginLogLevel {
            plugin_name: plugin_name@,
            log_level,
        },
        UserCommand::Plugin(PluginRequest::LoadPlugin { filepath }) => Parsed::LoadPlugin(filepath@),
        UserCommand::Plugin(PluginRequest::UnloadPlugin { plugin_name }) => Parsed::UnloadPlugin(plugin_name@),
        UserCommand::Plugin(PluginRequest::UserCommand { plugin_name, command, options }) => Parsed::PluginCommand {
            plugin_name: plugin_name@,
            command: command@,
            options: string_views(options@),
        },
        UserCommand::Error(m) => Parsed::Error(m@),
    }
}

/// The words of `s` so far, and the word being read at its end.
pub open spec fn word_scan(s: Seq<char>) -> (Seq<Seq<char>>, Seq<char>)
    decreases s.len(),
{
    if s.len() == 0 {
        (Seq::empty(), Seq::empty())
    } else {
        let (words, current) = word_scan(s.drop_last());
        if is_space(s.last()) {
            if current.len() > 0 {
                (words.push(current), Seq::empty())
            } else {
                (words, Seq::empty())
            }
        } else {
            (words, current.push(s.last()))
        }
    }
}

/// The words of `s`: its longest runs of non-whitespace characters, in
/// order (what `str::split_whitespace` gives).
pub open spec fn words(s: Seq<char>) -> Seq<Seq<char>> {
    let (ws, current) = word_scan(s);
    if current.len() > 0 {
        ws.push(current)
    } else {
        ws
    }
}

/// The words of `s` (see `words`).
pub fn split_words(s: &str) -> (r: Vec<String>)
    ensures
        string_views(r@) == words(s@),
{
    let cs = chars_of(s);
    let mut out: Vec<String> = Vec::new();
    let mut current: Vec<char> = Vec::new();
    let mut i: usize = 0;
    while i < cs.len()
        invariant
            i <= cs@.len(),
            cs@ == s@,
            (string_views(out@), current@) == word_scan(cs@.take(i as int)),
        decreases cs.len() - i,
    {
        assert(cs@.take(i + 1).drop_last() =~= cs@.take(i as int));
        let c = cs[i];
        if char_is_space(c) {
            if current.len() > 0 {
                let word = string_of(current.as_slice());
                let ghost before = out@;
                out.push(word);
                assert(string_views(out@) =~= string_views(before).push(current@));
                current = Vec::new();
            }
        } else {
            current.push(c);
        }
        i += 1;
    }
    assert(cs@.take(cs@.len() as int) =~= cs@);
    if current.len() > 0 {
        let word = string_of(current.as_slice());
        let ghost before = out@;
        out.push(word);
        assert(string_views(out@) =~= string_views(before).push(current@));
    }
    out
}

/// A word of digits only.
pub open spec fn digits_only(w: Seq<char>) -> bool {
    all_digits(w)
}

/// One word of `!serial connect`: digits set the baud rate, anything else
/// the port.
pub open spec fn serial_option(w: Seq<char>, port: Option<Seq<char>>, baudrate: Option<u32>) -> (Option<Seq<char>>, Option<u32>) {
    if digits_only(w) {
        (port, Some(decimal_value(w) as u32))
    } else {
        (Some(w), baudrate)
    }
}

/// One word of `!rtt connect`: digits set the channel (zero when the number
/// does not fit), anything else the target.
pub open spec fn rtt_option(w: Seq<char>, target: Option<Seq<char>>, channel: Option<usize>) -> (Option<Seq<char>>, Option<usize>) {
    if digits_only(w) {
        (target, Some(match parse_unsigned(w, usize::MAX as nat) {
            Some(v) => v as usize,
            None => 0usize,
        }))
    } else {
        (Some(w), channel)
    }
}

/// `connect` with its words (the first being `connect` itself), for the
/// serial interface.
pub open spec fn serial_connect_spec(args: Seq<Seq<char>>) -> Parsed {
    if args.len() < 2 {
        Parsed::SerialConnect
    } else {
        let (p1, b1) = serial_option(args[1], None, None);
        if args.len() == 2 {
            Parsed::SerialSetup { port: p1, baudrate: b1 }
        } else {
            let (p2, b2) = serial_option(args[2], p1, b1);
            Parsed::SerialSetup { port: p2, baudrate: b2 }
        }
    }
}

/// `connect` with its words, for the RTT interface.
pub open spec fn rtt_connect_spec(args: Seq<Seq<char>>) -> Parsed {
    if args.len() < 2 {
        Parsed::RttConnect
    } else {
        let (t1, c1) = rtt_option(args[1], None, None);
        if args.len() == 2 {
            Parsed::RttSetup { target: t1, channel: c1 }
        } else {
            let (t2, c2) = rtt_option(args[2], t1, c1);
            Parsed::RttSetup { target: t2, channel: c2 }
        }
    }
}

/// Whether one of the first two options of a serial `connect` would be
/// taken for a baud rate that cannot be read (see `bad_baud`).
pub open spec fn baud_overflows(args: Seq<Seq<char>>) -> bool {
    exists|i: int| 1 <= i < args.len() && i <= 2 && #[trigger] bad_baud(args[i])
}

/// Whether the command would set a baud rate that does not fit.
pub open spec fn command_overflows(args: Seq<Seq<char>>, if_type: InterfaceType) -> bool {
    ||| (args.len() >= 2 && args[0] == "serial"@ && args[1] == "connect"@ && baud_overflows(args.skip(1)))
    ||| (args.len() >= 1 && args[0] == "connect"@ && if_type == InterfaceType::Serial && baud_overflows(args))
}

/// `flow` with its words (the first being `flow`).
pub open spec fn flow_spec(args: Seq<Seq<char>>) -> Parsed {
    if args.len() < 2 {
        Parsed::Error("Insufficient arguments for \"!flow\" command"@)
    } else if args[1] == "none"@ {
        Parsed::SetFlow { flow: FlowControl::Off, name: args[1] }
    } else if args[1] == "sw"@ {
        Parsed::SetFlow { flow: FlowControl::Software, name: args[1] }
    } else if args[1] == "hw"@ {
        Parsed::SetFlow { flow: FlowControl::Hardware, name: args[1] }
    } else {
        Parsed::Error("Invalid flow control. Please, chose one of these options: none, sw, hw"@)
    }
}

pub open spec fn invalid_address_message(arg: Seq<char>) -> Seq<char> {
    "Invalid address argument. Please, specify a valid hexadecimal or decimal number: "@ + arg
}

/// `read` with its words (the first being `read`): an address, then an
/// optional size (four bytes by default).
pub open spec fn rtt_read_spec(args: Seq<Seq<char>>) -> Parsed {
    let rest = args.drop_first();
    if rest.len() == 0 {
        Parsed::Error("Please, specify the address to read from"@)
    } else if rest.len() > 2 {
        Parsed::Error("Too many arguments for RTT read command"@)
    } else {
        match address_spec(rest[0]) {
            None => Parsed::Error(invalid_address_message(rest[0])),
            Some(address) => if rest.len() == 1 {
                Parsed::RttRead { address: address as u64, size: 4 }
            } else {
                match parse_unsigned(rest[1], usize::MAX as nat) {
                    None => Parsed::Error(
                        "Invalid size argument. Please, specify a valid decimal number: "@ + rest[1],
                    ),
                    Some(size) => if size == 0 {
                        Parsed::Error("Size argument must be greater than 0: 0"@)
                    } else {
                        Parsed::RttRead { address: address as u64, size: size as usize }
                    },
                }
            },
        }
    }
}

/// The level a `!log` word names.
pub open spec fn level_named(w: Seq<char>) -> Option<LogLevel> {
    if w == "debug"@ || w == "dbg"@ || w == "all"@ {
        Some(LogLevel::Debug)
    } else if w == "info"@ || w == "inf"@ {
        Some(LogLevel::Info)
    } else if w == "success"@ || w == "ok"@ {
        Some(LogLevel::Success)
    } else if w == "warning"@ || w == "wrn"@ {
        Some(LogLevel::Warning)
    } else if w == "error"@ || w == "err"@ {
        Some(LogLevel::Error)
    } else {
        None
    }
}

pub open spec fn flow_only_serial() -> Seq<char> {
    "Flow control is only available for serial interfaces"@
}

/// What the words of a `!` command ask for, on an interface of type
/// `if_type`.
pub open spec fn parse_spec(args: Seq<Seq<char>>, if_type: InterfaceType) -> Parsed {
    if args.len() == 0 {
        Parsed::SendBang
    } else {
        let name = args[0];
        if name == "serial"@ {
            if args.len() < 2 {
                Parsed::Error("Please, use \"connect\" or \"disconnect\" subcommands"@)
            } else if args[1] == "connect"@ {
                serial_connect_spec(args.drop_first())
            } else if args[1] == "disconnect"@ {
                Parsed::SerialDisconnect
            } else if args[1] == "flow"@ {
                if if_type == InterfaceType::Serial {
                    flow_spec(args.drop_first())
                } else {
                    Parsed::Error(flow_only_serial())
                }
            } else {
                Parsed::Error("Invalid subcommand for serial"@)
            }
        } else if name == "rtt"@ {
            if args.len() < 2 {
                Parsed::Error("Please, use \"connect\", \"disconnect\" or \"read\" subcommands"@)
            } else if args[1] == "connect"@ {
                rtt_connect_spec(args.drop_first())
            } else if args[1] == "disconnect"@ {
                Parsed::RttDisconnect
            } else if args[1] == "read"@ {
                rtt_read_spec(args.drop_first())
            } else {
                Parsed::Error("Invalid subcommand for rtt"@)
            }
        } else if name == "ipsum"@ {
            Parsed::Ipsum(args)
        } else if name == "connect"@ {
            if if_type == InterfaceType::Rtt {
                rtt_connect_spec(args)
            } else {
                serial_connect_spec(args)
            }
        } else if name == "disconnect"@ {
            if if_type == InterfaceType::Serial {
                Parsed::SerialDisconnect
            } else {
                Parsed::RttDisconnect
            }
        } else if name == "flow"@ {
            if if_type == InterfaceType::Serial {
                flow_spec(args)
            } else {
                Parsed::Error(flow_only_serial())
            }
        } else if name == "log"@ {
            if args.len() < 3 {
                Parsed::Error("Insufficient arguments for \"!log\" command"@)
            } else {
                match level_named(args[2]) {
                    None => Parsed::Error(
                        "Invalid log level. Please, choose one of these options: debug, info, success, warning, error"@,
                    ),
                    Some(level) => if args[1] == "system"@ || args[1] == "sys"@ {
                        Parsed::SystemLogLevel(level)
                    } else {
                        Parsed::PluginLogLevel { plugin_name: args[1], log_level: level }
                    },
                }
            }
        } else if name == "plugin"@ {
            if args.len() < 3 {
                Parsed::Error("Insufficient arguments for \"!plugin\" command"@)
            } else if args[1] == "load"@ || args[1] == "reload"@ {
                Parsed::LoadPlugin(args[2])
            } else if args[1] == "unload"@ {
                Parsed::UnloadPlugin(args[2])
            } else {
                Parsed::Error("Invalid command. Please, choose one of these options: load, reload, unload"@)
            }
        } else if name == "filter"@ || name == "mute"@ {
            Parsed::SetFilter {
                pattern: if args.len() < 2 {
                    Seq::empty()
                } else {
                    args[1]
                },
                exclude: name == "mute"@,
            }
        } else if name == "rename"@ {
            if args.len() < 2 {
                Parsed::Error("Insufficient arguments for \"!rename\" command"@)
            } else {
                Parsed::Rename(args[1])
            }
        } else if name == "send_file"@ {
            if args.len() < 2 {
                Parsed::Error("Insufficient arguments for \"!send_file\" command"@)
            } else {
                Parsed::SendFile(args[1])
            }
        } else if name == "exit"@ || name == "quit"@ {
            Parsed::Exit
        } else if args.len() < 2 {
            Parsed::Error("Insufficient arguments"@)
        } else {
            Parsed::PluginCommand { plugin_name: args[0], command: args[1], options: args.skip(2) }
        }
    }
}

/// The flow word names the flow control: after `serial flow` (or `flow`),
/// on a serial interface and whatever words follow, `none` gives no flow
/// control, `sw` software and `hw` hardware flow control, each reported
/// with its word.
pub proof fn lemma_flow_words(args: Seq<Seq<char>>)
    requires
        args.len() >= 2,
    ensures
        args.len() >= 3 && args[0] == "serial"@ && args[1] == "flow"@ ==> {
            &&& args[2] == "none"@ ==> parse_spec(args, InterfaceType::Serial) == Parsed::SetFlow {
                flow: FlowControl::Off,
                name: "none"@,
            }
            &&& args[2] == "sw"@ ==> parse_spec(args, InterfaceType::Serial) == Parsed::SetFlow {
                flow: FlowControl::Software,
                name: "sw"@,
            }
            &&& args[2] == "hw"@ ==> parse_spec(args, InterfaceType::Serial) == Parsed::SetFlow {
                flow: FlowControl::Hardware,
                name: "hw"@,
            }
        },
        args[0] == "flow"@ ==> {
            &&& args[1] == "none"@ ==> parse_spec(args, InterfaceType::Serial) == Parsed::SetFlow {
                flow: FlowControl::Off,
                name: "none"@,
            }
            &&& args[1] == "sw"@ ==> parse_spec(args, InterfaceType::Serial) == Parsed::SetFlow {
                flow: FlowControl::Software,
                name: "sw"@,
            }
            &&& args[1] == "hw"@ ==> parse_spec(args, InterfaceType::Serial) == Parsed::SetFlow {
                flow: FlowControl::Hardware,
                name: "hw"@,
            }
        },
{
    reveal_strlit("serial");
    reveal_strlit("flow");
    reveal_strlit("connect");
    reveal_strlit("disconnect");
    reveal_strlit("rtt");
    reveal_strlit("ipsum");
    reveal_strlit("none");
    reveal_strlit("sw");
    reveal_strlit("hw");
    if args.len() >= 3 && args[0] == "serial"@ && args[1] == "flow"@ {
        let rest = args.drop_first();
        assert(rest[1] == args[2]);
    }
    if args[0] == "flow"@ {
        assert("flow"@.len() == 4 && "serial"@.len() == 6 && "rtt"@.len() == 3 && "ipsum"@.len() == 5);
        assert("connect"@.len() == 7 && "disconnect"@.len() == 10);
        assert(args[0] != "serial"@ && args[0] != "rtt"@ && args[0] != "ipsum"@);
        assert(args[0] != "connect"@ && args[0] != "disconnect"@);
        assert(parse_spec(args, InterfaceType::Serial) == flow_spec(args));
    }
}

fn error(message: &str) -> (r: UserCommand)
    ensures
        parsed_view(r) == Parsed::Error(message@),
{
    UserCommand::Error(to_owned_string(message))
}

fn is_all_digits(w: &str) -> (r: bool)
    ensures
        r == digits_only(w@),
{
    let cs = chars_of(w);
    let mut i: usize = 0;
    while i < cs.len()
        invariant
            i <= cs@.len(),
            cs@ == w@,
            forall|k: int| 0 <= k < i ==> is_digit(#[trigger] cs@[k]),
        decreases cs.len() - i,
    {
        if !char_is_digit(cs[i]) {
            return false;
        }
        i += 1;
    }
    true
}

fn copy_string(s: &String) -> (r: String)
    ensures
        r@ == s@,
{
    to_owned_string(s.as_str())
}

fn copy_words(v: &[String], from: usize) -> (r: Vec<String>)
    requires
        from <= v@.len(),
    ensures
        string_views(r@) == string_views(v@).skip(from as int),
{
    let mut out: Vec<String> = Vec::new();
    let mut i: usize = from;
    while i < v.len()
        invariant
            from <= i <= v@.len(),
            string_views(out@) == string_views(v@).subrange(from as int, i as int),
        decreases v.len() - i,
    {
        let ghost before = out@;
        let w = copy_string(&v[i]);
        out.push(w);
        assert(string_views(out@) =~= string_views(before).push(v@[i as int]@));
        assert(string_views(out@) =~= string_views(v@).subrange(from as int, i + 1));
        i += 1;
    }
    assert(string_views(v@).subrange(from as int, v@.len() as int) =~= string_views(v@).skip(from as int));
    out
}

/// Whether a word would be taken for a baud rate that cannot be read
/// (parsing it as a `u32` would fail): digits only, but none, or too many.
pub open spec fn bad_baud(w: Seq<char>) -> bool {
    digits_only(w) && (w.len() == 0 || decimal_value(w) > u32::MAX)
}

fn serial_option_exec(w: &String, port: Option<String>, baudrate: Option<u32>) -> (r: (Option<String>, Option<u32>))
    requires
        !bad_baud(w@),
    ensures
        (opt_view(r.0), r.1) == serial_option(w@, opt_view(port), baudrate),
{
    if is_all_digits(w.as_str()) {
        let cs = chars_of(w.as_str());
        match parse_unsigned_chars(cs.as_slice(), u32::MAX as u64) {
            Some(b) => (port, Some(b as u32)),
            None => {
                assert(parse_unsigned(w@, u32::MAX as nat) == Some(decimal_value(w@)));
                (port, Some(0))
            },
        }
    } else {
        (Some(copy_string(w)), baudrate)
    }
}

fn rtt_option_exec(w: &String, target: Option<String>, channel: Option<usize>) -> (r: (Option<String>, Option<usize>))
    ensures
        (opt_view(r.0), r.1) == rtt_option(w@, opt_view(target), channel),
{
    if is_all_digits(w.as_str()) {
        let cs = chars_of(w.as_str());
        match parse_unsigned_chars(cs.as_slice(), usize::MAX as u64) {
            Some(c) => (target, Some(c as usize)),
            None => (target, Some(0)),
        }
    } else {
        (Some(copy_string(w)), channel)
    }
}

/// `connect` for the serial interface, `args[from]` being `connect`.
fn serial_connect(args: &[String], from: usize) -> (r: UserCommand)
    requires
        from < args@.len(),
        from + 1 < args@.len() ==> !bad_baud(args@[from + 1]@),
        from + 2 < args@.len() ==> !bad_baud(args@[from + 2]@),
    ensures
        parsed_view(r) == serial_connect_spec(string_views(args@).skip(from as int)),
{
    let ghost a = string_views(args@).skip(from as int);
    let total = args.len();
    let n = total - from;
    if n < 2 {
        return UserCommand::SerialConnect;
    }
    assert(a[1] == args@[from + 1]@);
    let (port, baudrate) = serial_option_exec(&args[from + 1], None, None);
    if n == 2 {
        return UserCommand::SerialSetup { port, baudrate };
    }
    assert(a[2] == args@[from + 2]@);
    let (port, baudrate) = serial_option_exec(&args[from + 2], port, baudrate);
    UserCommand::SerialSetup { port, baudrate }
}

/// `connect` for the RTT interface, `args[from]` being `connect`.
fn rtt_connect(args: &[String], from: usize) -> (r: UserCommand)
    requires
        from < args@.len(),
    ensures
        parsed_view(r) == rtt_connect_spec(string_views(args@).skip(from as int)),
{
    let ghost a = string_views(args@).skip(from as int);
    let total = args.len();
    let n = total - from;
    if n < 2 {
        return UserCommand::RttConnect;
    }
    assert(a[1] == args@[from + 1]@);
    let (target, channel) = rtt_option_exec(&args[from + 1], None, None);
    if n == 2 {
        return UserCommand::RttSetup { target, channel };
    }
    assert(a[2] == args@[from + 2]@);
    let (target, channel) = rtt_option_exec(&args[from + 2], target, channel);
    UserCommand::RttSetup { target, channel }
}

/// `flow`, `args[from]` being `flow`.
fn flow(args: &[String], from: usize) -> (r: UserCommand)
    requires
        from < args@.len(),
    ensures
        parsed_view(r) == flow_spec(string_views(args@).skip(from as int)),
{
    let ghost a = string_views(args@).skip(from as int);
    if args.len() - from < 2 {
        return error("Insufficient arguments for \"!flow\" command");
    }
    let w = &args[from + 1];
    assert(a[1] == w@);
    let flow = if str_eq(w.as_str(), "none") {
        FlowControl::Off
    } else if str_eq(w.as_str(), "sw") {
        FlowControl::Software
    } else if str_eq(w.as_str(), "hw") {
        FlowControl::Hardware
    } else {
        return error("Invalid flow control. Please, chose one of these options: none, sw, hw");
    };
    UserCommand::SetFlow { flow, name: copy_string(w) }
}

/// `read`, `args[from]` being `read`.
fn rtt_read(args: &[String], from: usize) -> (r: UserCommand)
    requires
        from < args@.len(),
    ensures
        parsed_view(r) == rtt_read_spec(string_views(args@).skip(from as int)),
{
    let ghost a = string_views(args@).skip(from as int);
    let ghost rest = a.drop_first();
    let n = args.len() - from - 1;
    assert(rest.len() == n);
    if n == 0 {
        return error("Please, specify the address to read from");
    }
    if n > 2 {
        return error("Too many arguments for RTT read command");
    }
    let w = &args[from + 1];
    assert(rest[0] == w@);
    let address = match parse_address_argument(w.as_str()) {
        Some(v) => v,
        None => {
            let mut m = to_owned_string(
                "Invalid address argument. Please, specify a valid hexadecimal or decimal number: ",
            );
            push_str(&mut m, w.as_str());
            return UserCommand::Error(m);
        },
    };
    if n == 1 {
        return UserCommand::RttRead { address, size: 4 };
    }
    let s = &args[from + 2];
    assert(rest[1] == s@);
    let cs = chars_of(s.as_str());
    match parse_unsigned_chars(cs.as_slice(), usize::MAX as u64) {
        None => {
            let mut m = to_owned_string("Invalid size argument. Please, specify a valid decimal number: ");
            push_str(&mut m, s.as_str());
            UserCommand::Error(m)
        },
        Some(size) => if size == 0 {
            error("Size argument must be greater than 0: 0")
        } else {
            UserCommand::RttRead { address, size: size as usize }
        },
    }
}

fn level_of(w: &str) -> (r: Option<LogLevel>)
    ensures
        r == level_named(w@),
{
    if str_eq(w, "debug") || str_eq(w, "dbg") || str_eq(w, "all") {
        Some(LogLevel::Debug)
    } else if str_eq(w, "info") || str_eq(w, "inf") {
        Some(LogLevel::Info)
    } else if str_eq(w, "success") || str_eq(w, "ok") {
        Some(LogLevel::Success)
    } else if str_eq(w, "warning") || str_eq(w, "wrn") {
        Some(LogLevel::Warning)
    } else if str_eq(w, "error") || str_eq(w, "err") {
        Some(LogLevel::Error)
    } else {
        None
    }
}

/// What the words of a `!` command ask for (see `parse_spec`), on an
/// interface of type `if_type`.
pub fn parse_user_command(args: &[String], if_type: InterfaceType) -> (r: UserCommand)
    requires
        !command_overflows(string_views(args@), if_type),
    ensures
        parsed_view(r) == parse_spec(string_views(args@), if_type),
{
    let ghost a = string_views(args@);
    if args.len() == 0 {
        return UserCommand::SendBang;
    }
    assert(a.drop_first() == a.skip(1));
    let name = args[0].as_str();
    assert(a[0] == name@);
    if str_eq(name, "serial") {
        if args.len() < 2 {
            return error("Please, use \"connect\" or \"disconnect\" subcommands");
        }
        let sub = args[1].as_str();
        assert(a[1] == sub@);
        if str_eq(sub, "connect") {
            proof {
                let b = a.skip(1);
                if args@.len() > 2 && bad_baud(args@[2]@) {
                    assert(b[1] == args@[2]@);
                    assert(baud_overflows(b));
                }
                if args@.len() > 3 && bad_baud(args@[3]@) {
                    assert(b[2] == args@[3]@);
                    assert(baud_overflows(b));
                }
            }
            serial_connect(args, 1)
        } else if str_eq(sub, "disconnect") {
            UserCommand::SerialDisconnect
        } else if str_eq(sub, "flow") {
            match if_type {
                InterfaceType::Serial => flow(args, 1),
                InterfaceType::Rtt => error("Flow control is only available for serial interfaces"),
            }
        } else {
            error("Invalid subcommand for serial")
        }
    } else if str_eq(name, "rtt") {
        if args.len() < 2 {
            return error("Please, use \"connect\", \"disconnect\" or \"read\" subcommands");
        }
        let sub = args[1].as_str();
        assert(a[1] == sub@);
        if str_eq(sub, "connect") {
            rtt_connect(args, 1)
        } else if str_eq(sub, "disconnect") {
            UserCommand::RttDisconnect
        } else if str_eq(sub, "read") {
            rtt_read(args, 1)
        } else {
            error("Invalid subcommand for rtt")
        }
    } else if str_eq(name, "ipsum") {
        let words = copy_words(args, 0);
        assert(a.skip(0) =~= a);
        UserCommand::Ipsum(words)
    } else if str_eq(name, "connect") {
        assert(a.skip(0) =~= a);
        match if_type {
            InterfaceType::Rtt => rtt_connect(args, 0),
            InterfaceType::Serial => {
                proof {
                    if args@.len() > 1 && bad_baud(args@[1]@) {
                        assert(a[1] == args@[1]@);
                        assert(baud_overflows(a));
                    }
                    if args@.len() > 2 && bad_baud(args@[2]@) {
                        assert(a[2] == args@[2]@);
                        assert(baud_overflows(a));
                    }
                }
                serial_connect(args, 0)
            },
        }
    } else if str_eq(name, "disconnect") {
        match if_type {
            InterfaceType::Serial => UserCommand::SerialDisconnect,
            InterfaceType::Rtt => UserCommand::RttDisconnect,
        }
    } else if str_eq(name, "flow") {
        assert(a.skip(0) =~= a);
        match if_type {
            InterfaceType::Serial => flow(args, 0),
            InterfaceType::Rtt => error("Flow control is only available for serial interfaces"),
        }
    } else if str_eq(name, "log") {
        if args.len() < 3 {
            return error("Insufficient arguments for \"!log\" command");
        }
        assert(a[1] == args@[1]@ && a[2] == args@[2]@);
        match level_of(args[2].as_str()) {
            None => error(
                "Invalid log level. Please, choose one of these options: debug, info, success, warning, error",
            ),
            Some(level) => {
                let module = args[1].as_str();
                if str_eq(module, "system") || str_eq(module, "sys") {
                    UserCommand::SystemLogLevel(level)
                } else {
                    UserCommand::Plugin(
                        PluginRequest::SetLogLevel { plugin_name: copy_string(&args[1]), log_level: level },
                    )
                }
            },
        }
    } else if str_eq(name, "plugin") {
        if args.len() < 3 {
            return error("Insufficient arguments for \"!plugin\" command");
        }
        assert(a[1] == args@[1]@ && a[2] == args@[2]@);
        let command = args[1].as_str();
        if str_eq(command, "load") || str_eq(command, "reload") {
            UserCommand::Plugin(PluginRequest::LoadPlugin { filepath: copy_string(&args[2]) })
        } else if str_eq(command, "unload") {
            UserCommand::Plugin(PluginRequest::UnloadPlugin { plugin_name: copy_string(&args[2]) })
        } else {
            error("Invalid command. Please, choose one of these options: load, reload, unload")
        }
    } else if str_eq(name, "filter") || str_eq(name, "mute") {
        let exclude = str_eq(name, "mute");
        let pattern = if args.len() < 2 {
            String::new()
        } else {
            assert(a[1] == args@[1]@);
            copy_string(&args[1])
        };
        UserCommand::SetFilter { pattern, exclude }
    } else if str_eq(name, "rename") {
        if args.len() < 2 {
            return error("Insufficient arguments for \"!rename\" command");
        }
        assert(a[1] == args@[1]@);
        UserCommand::Rename(copy_string(&args[1]))
    } else if str_eq(name, "send_file") {
        if args.len() < 2 {
            return error("Insufficient arguments for \"!send_file\" command");
        }
        assert(a[1] == args@[1]@);
        UserCommand::SendFile(copy_string(&args[1]))
    } else if str_eq(name, "exit") || str_eq(name, "quit") {
        UserCommand::Exit
    } else if args.len() < 2 {
        error("Insufficient arguments")
    } else {
        assert(a[1] == args@[1]@);
        UserCommand::Plugin(
            PluginRequest::UserCommand {
                plugin_name: copy_string(&args[0]),
                command: copy_string(&args[1]),
                options: copy_words(args, 2),
            },
        )
    }
}

fn is_bad_baud(w: &String) -> (r: bool)
    ensures
        r == bad_baud(w@),
{
    if !is_all_digits(w.as_str()) {
        return false;
    }
    let cs = chars_of(w.as_str());
    if cs.len() == 0 {
        return true;
    }
    match parse_unsigned_chars(cs.as_slice(), u32::MAX as u64) {
        Some(_) => {
            assert(w@.len() > 0 && w@[0] != '+');
            false
        },
        None => {
            assert(w@.len() > 0 && w@[0] != '+');
            true
        },
    }
}

fn baud_overflows_exec(args: &[String], from: usize) -> (r: bool)
    requires
        from <= args@.len(),
    ensures
        r == baud_overflows(string_views(args@).skip(from as int)),
{
    let ghost a = string_views(args@).skip(from as int);
    let total = args.len();
    let n = total - from;
    let mut i: usize = 1;
    while i < n && i <= 2
        invariant
            1 <= i,
            from <= args@.len(),
            total == args@.len(),
            n == args@.len() - from,
            a == string_views(args@).skip(from as int),
            n == a.len(),
            forall|k: int| 1 <= k < i && k < a.len() && k <= 2 ==> !bad_baud(#[trigger] a[k]),
        decreases n - i,
    {
        assert(a[i as int] == string_views(args@)[from + i]);
        if is_bad_baud(&args[from + i]) {
            return true;
        }
        i += 1;
    }
    false
}

/// Whether the command `line` would set a baud rate that does not fit
/// (see `command_overflows`); such a command is refused by
/// `parse_command_line`'s precondition.
pub fn command_line_overflows(line: &str, if_type: InterfaceType) -> (r: bool)
    ensures
        r == command_overflows(words(line@), if_type),
{
    let args = split_words(line);
    let ghost a = string_views(args@);
    if args.len() >= 2 && crate::text::str_eq(args[0].as_str(), "serial") && crate::text::str_eq(args[1].as_str(), "connect") {
        assert(a.skip(1) =~= string_views(args@).skip(1));
        if baud_overflows_exec(args.as_slice(), 1) {
            return true;
        }
    }
    if args.len() >= 1 && crate::text::str_eq(args[0].as_str(), "connect") && if_type == InterfaceType::Serial {
        assert(a.skip(0) =~= a);
        if baud_overflows_exec(args.as_slice(), 0) {
            return true;
        }
    }
    false
}


/// The `!` command typed as `line`, the text after the `!`: its words,
/// then what they ask for.
pub fn parse_command_line(line: &str, if_type: InterfaceType) -> (r: UserCommand)
    requires
        !command_overflows(words(line@), if_type),
    ensures
        parsed_view(r) == parse_spec(words(line@), if_type),
{
    let args = split_words(line);
    parse_user_command(args.as_slice(), if_type)
}

} // verus!
