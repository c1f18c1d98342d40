//! The serial interface's settings, how a USB serial device is followed
//! when the system renames it on re-plug, and how received bytes are cut
//! into lines.
use vstd::prelude::*;
use crate::text::str_eq;

verus! {

/// Bits per character.
#[derive(Clone, Copy, Debug, PartialEq, Eq, Structural)]
pub enum DataBits {
    Five,
    Six,
    Seven,
    Eight,
}

/// Flow control on the line.
#[derive(Clone, Copy, Debug, PartialEq, Eq, Structural)]
pub enum FlowControl {
    /// No flow control.
    Off,
    Software,
    Hardware,
}

/// Parity checking.
#[derive(Clone, Copy, Debug, PartialEq, Eq, Structural)]
pub enum Parity {
    /// No parity bit.
    Off,
    Odd,
    Even,
}

/// Stop bits per character.
#[derive(Clone, Copy, Debug, PartialEq, Eq, Structural)]
pub enum StopBits {
    One,
    Two,
}

/// The connection state of the serial interface.
#[derive(Clone, Copy, Debug, PartialEq, Eq, Structural)]
pub enum SerialMode {
    DoNotConnect,
    Reconnecting,
    Connected,
}

/// The identity a USB serial adapter reports.
#[derive(Debug, PartialEq)]
pub struct UsbId {
    pub vid: u16,
    pub pid: u16,
    pub serial_number: Option<String>,
    pub manufacturer: Option<String>,
    pub product: Option<String>,
}

fn clone_opt_string(s: &Option<String>) -> (r: Option<String>)
    ensures
        r == *s,
{
    match s {
        Some(t) => Some(t.clone()),
        None => None,
    }
}

impl Clone for UsbId {
    fn clone(&self) -> (r: Self)
        ensures
            r == *self,
    {
        UsbId {
            vid: self.vid,
            pid: self.pid,
            serial_number: clone_opt_string(&self.serial_number),
            manufacturer: clone_opt_string(&self.manufacturer),
            product: clone_opt_string(&self.product),
        }
    }
}

/// A serial port the system lists, with its USB identity when it is a USB
/// device.
#[derive(Clone, Debug, PartialEq)]
pub struct PortInfo {
    pub port_name: String,
    pub usb: Option<UsbId>,
}

/// Settings given on the command line or by a command; what is `None` keeps
/// its current (or default) value.
#[derive(Clone, Debug, Default, PartialEq)]
pub struct SerialSetup {
    pub port: Option<String>,
    pub baudrate: Option<u32>,
    pub data_bits: Option<DataBits>,
    pub flow_control: Option<FlowControl>,
    pub parity: Option<Parity>,
    pub stop_bits: Option<StopBits>,
}

/// Commands the serial interface task accepts.
pub enum SerialCommand {
    Connect,
    Disconnect,
    Exit,
    Setup(SerialSetup),
}

/// The serial settings the interface task and the front end share.
pub struct SerialShared {
    pub port: String,
    pub baudrate: u32,
    pub mode: SerialMode,
    pub data_bits: DataBits,
    pub flow_control: FlowControl,
    pub parity: Parity,
    pub stop_bits: StopBits,
    /// The USB identity of the connected device, learned on the first
    /// connection, to follow the device when the system renames its port.
    pub usb_id: Option<UsbId>,
}

pub struct SerialInterface;

pub open spec fn opt_str_view(s: Option<String>) -> Option<Seq<char>> {
    match s {
        Some(t) => Some(t@),
        None => None,
    }
}

impl SerialShared {
    /// The settings `setup` gives, with defaults for what it leaves out: no
    /// port, 0 bps, 8 data bits, no flow control, no parity, one stop bit.
    /// The interface tries to connect only when both a port and a baud rate
    /// are given.
    pub fn new(setup: SerialSetup) -> (r: Self)
        ensures
            r.port@ == match opt_str_view(setup.port) {
                Some(p) => p,
                None => Seq::<char>::empty(),
            },
            r.baudrate == match setup.baudrate {
                Some(b) => b,
                None => 0,
            },
            r.data_bits == match setup.data_bits {
                Some(d) => d,
                None => DataBits::Eight,
            },
            r.flow_control == match setup.flow_control {
                Some(f) => f,
                None => FlowControl::Off,
            },
            r.parity == match setup.parity {
                Some(p) => p,
                None => Parity::Off,
            },
            r.stop_bits == match setup.stop_bits {
                Some(s) => s,
                None => StopBits::One,
            },
            r.usb_id is None,
            r.mode == if r.port@.len() > 0 && r.baudrate != 0 {
                SerialMode::Reconnecting
            } else {
                SerialMode::DoNotConnect
            },
    {
        let port = match setup.port {
            Some(p) => p,
            None => String::new(),
        };
        let baudrate = match setup.baudrate {
            Some(b) => b,
            None => 0,
        };
        let mode = if !port.as_str().is_empty() && baudrate != 0 {
            SerialMode::Reconnecting
        } else {
            SerialMode::DoNotConnect
        };
        SerialShared {
            port,
            baudrate,
            mode,
            data_bits: match setup.data_bits {
                Some(d) => d,
                None => DataBits::Eight,
            },
            flow_control: match setup.flow_control {
                Some(f) => f,
                None => FlowControl::Off,
            },
            parity: match setup.parity {
                Some(p) => p,
                None => Parity::Off,
            },
            stop_bits: match setup.stop_bits {
                Some(s) => s,
                None => StopBits::One,
            },
            usb_id: None,
        }
    }

    /// Applies the settings `setup` gives; a port other than the current
    /// one forgets the learned USB identity, which may be another device's.
    /// Returns whether anything was given (the port is then closed) and the
    /// mode to switch to: reconnecting, unless already so or nothing changed.
    pub fn apply_setup(&mut self, setup: SerialSetup) -> (r: (bool, Option<SerialMode>))
        ensures
            r.0 == (setup.port is Some || setup.baudrate is Some || setup.data_bits is Some
                || setup.flow_control is Some || setup.parity is Some || setup.stop_bits is Some),
            final(self).port@ == match opt_str_view(setup.port) {
                Some(p) => p,
                None => old(self).port@,
            },
            final(self).usb_id == match opt_str_view(setup.port) {
                Some(p) => if p != old(self).port@ {
                    None
                } else {
                    old(self).usb_id
                },
                None => old(self).usb_id,
            },
            final(self).baudrate == match setup.baudrate {
                Some(b) => b,
                None => old(self).baudrate,
            },
            final(self).data_bits == match setup.data_bits {
                Some(d) => d,
                None => old(self).data_bits,
            },
            final(self).flow_control == match setup.flow_control {
                Some(f) => f,
                None => old(self).flow_control,
            },
            final(self).parity == match setup.parity {
                Some(p) => p,
                None => old(self).parity,
            },
            final(self).stop_bits == match setup.stop_bits {
                Some(s) => s,
                None => old(self).stop_bits,
            },
            final(self).mode == old(self).mode,
            r.1 == if r.0 && old(self).mode != SerialMode::Reconnecting {
                Some(SerialMode::Reconnecting)
            } else {
                None
            },
    {
        let mut changed = false;
        if let Some(port) = setup.port {
            if !str_eq(self.port.as_str(), port.as_str()) {
                self.usb_id = None;
            }
            self.port = port;
            changed = true;
        }
        if let Some(baudrate) = setup.baudrate {
            self.baudrate = baudrate;
            changed = true;
        }
        if let Some(data_bits) = setup.data_bits {
            self.data_bits = data_bits;
            changed = true;
        }
        if let Some(flow_control) = setup.flow_control {
            self.flow_control = flow_control;
            changed = true;
        }
        if let Some(parity) = setup.parity {
            self.parity = parity;
            changed = true;
        }
        if let Some(stop_bits) = setup.stop_bits {
            self.stop_bits = stop_bits;
            changed = true;
        }
        let next = if changed && self.mode != SerialMode::Reconnecting {
            Some(SerialMode::Reconnecting)
        } else {
            None
        };
        (changed, next)
    }
}

/// Whether `candidate` is the same physical device as `stored`: vendor and
/// product ids match and, when a serial number was learned, the candidate
/// reports the same one.
pub open spec fn usb_matches_spec(stored: UsbId, candidate: UsbId) -> bool {
    &&& stored.vid == candidate.vid
    &&& stored.pid == candidate.pid
    &&& match opt_str_view(stored.serial_number) {
        Some(s) => opt_str_view(candidate.serial_number) == Some(s),
        None => true,
    }
}

/// The first port of `ports` named `name`.
pub open spec fn port_named(ports: Seq<PortInfo>, name: Seq<char>) -> Option<PortInfo>
    decreases ports.len(),
{
    if ports.len() == 0 {
        None
    } else if ports[0].port_name@ == name {
        Some(ports[0])
    } else {
        port_named(ports.drop_first(), name)
    }
}

/// The name of the first USB port of `ports` whose device matches `usb_id`.
pub open spec fn first_matching_port(ports: Seq<PortInfo>, usb_id: UsbId) -> Option<Seq<char>>
    decreases ports.len(),
{
    if ports.len() == 0 {
        None
    } else if ports[0].usb matches Some(info) && usb_matches_spec(usb_id, info) {
        Some(ports[0].port_name@)
    } else {
        first_matching_port(ports.drop_first(), usb_id)
    }
}

impl SerialInterface {
    /// How long a partial line waits for its end before it is shown, in ms.
    pub const NEW_LINE_TIMEOUT_MS: u64 = 1_000;
    /// How long one read waits, in ms.
    pub const SERIAL_TIMEOUT_MS: u64 = 100;
    /// The least time between two reconnection attempts, in ms.
    pub const RECONNECT_INTERVAL_MS: u64 = 500;

    /// Whether `candidate` is the same physical device as `stored` (see
    /// `usb_matches_spec`).
    pub fn usb_matches(stored: &UsbId, candidate: &UsbId) -> (r: bool)
        ensures
            r == usb_matches_spec(*stored, *candidate),
    {
        if stored.vid != candidate.vid || stored.pid != candidate.pid {
            return false;
        }
        match &stored.serial_number {
            Some(stored_serial) => match &candidate.serial_number {
                Some(candidate_serial) => str_eq(candidate_serial.as_str(), stored_serial.as_str()),
                None => false,
            },
            None => true,
        }
    }

    /// The USB identity of the port named `port` among `ports` (the first
    /// one so named); `None` when it is not there or not a USB device.
    pub fn usb_info_for(port: &str, ports: &[PortInfo]) -> (r: Option<UsbId>)
        ensures
            r == match port_named(ports@, port@) {
                Some(info) => info.usb,
                None => None,
            },
    {
        let mut i: usize = 0;
        assert(ports@.skip(0) =~= ports@);
        while i < ports.len()
            invariant
                i <= ports@.len(),
                port_named(ports@, port@) == port_named(ports@.skip(i as int), port@),
            decreases ports.len() - i,
        {
            assert(ports@.skip(i as int).drop_first() =~= ports@.skip(i + 1));
            assert(ports@.skip(i as int)[0] == ports@[i as int]);
            if str_eq(ports[i].port_name.as_str(), port) {
                return match &ports[i].usb {
                    Some(info) => Some(info.clone()),
                    None => None,
                };
            }
            i += 1;
        }
        None
    }

    /// Where the device `usb_id` went after its port `current_port`
    /// disappeared, among the ports the system lists now: `None` when
    /// `current_port` is still listed (the failure to open it was not a
    /// rename) or no listed USB port holds a matching device; otherwise the
    /// first port that does.
    pub fn find_renamed_port(current_port: &str, usb_id: &UsbId, ports: &[PortInfo]) -> (r: Option<String>)
        ensures
            opt_str_view(r) == if port_named(ports@, current_port@) is Some {
                None
            } else {
                first_matching_port(ports@, *usb_id)
            },
    {
        let mut i: usize = 0;
        assert(ports@.skip(0) =~= ports@);
        while i < ports.len()
            invariant
                i <= ports@.len(),
                port_named(ports@, current_port@) == port_named(ports@.skip(i as int), current_port@),
            decreases ports.len() - i,
        {
            assert(ports@.skip(i as int).drop_first() =~= ports@.skip(i + 1));
            assert(ports@.skip(i as int)[0] == ports@[i as int]);
            if str_eq(ports[i].port_name.as_str(), current_port) {
                return None;
            }
            i += 1;
        }
        assert(ports@.skip(ports@.len() as int) =~= Seq::<PortInfo>::empty());
        assert(ports@.skip(0) =~= ports@);
        let mut j: usize = 0;
        while j < ports.len()
            invariant
                j <= ports@.len(),
                port_named(ports@, current_port@) is None,
                first_matching_port(ports@, *usb_id) == first_matching_port(ports@.skip(j as int), *usb_id),
            decreases ports.len() - j,
        {
            assert(ports@.skip(j as int).drop_first() =~= ports@.skip(j + 1));
            assert(ports@.skip(j as int)[0] == ports@[j as int]);
            if let Some(info) = &ports[j].usb {
                if Self::usb_matches(usb_id, info) {
                    let name = ports[j].port_name.clone();
                    assert(name@ == ports@[j as int].port_name@);
                    return Some(name);
                }
            }
            j += 1;
        }
        None
    }

    /// The mode after a failed attempt to open the port: keep reconnecting.
    pub fn mode_after_failed_connect(mode: SerialMode) -> (r: Option<SerialMode>)
        ensures
            r == if mode == SerialMode::Reconnecting {
                None
            } else {
                Some(SerialMode::Reconnecting)
            },
    {
        match mode {
            SerialMode::Reconnecting => None,
            _ => Some(SerialMode::Reconnecting),
        }
    }

    /// The mode after the port is closed: do not connect again; whether the
    /// disconnection is announced (only when it was connected) is `r.1`.
    pub fn mode_after_disconnect(mode: SerialMode) -> (r: (Option<SerialMode>, bool))
        ensures
            r.0 == if mode == SerialMode::DoNotConnect {
                None
            } else {
                Some(SerialMode::DoNotConnect)
            },
            r.1 == (mode == SerialMode::Connected),
    {
        let announce = mode == SerialMode::Connected;
        match mode {
            SerialMode::DoNotConnect => (None, announce),
            _ => (Some(SerialMode::DoNotConnect), announce),
        }
    }
}

/// The bytes received since the last complete line.
pub struct LineAssembler {
    line: Vec<u8>,
}

impl LineAssembler {
    pub closed spec fn pending(&self) -> Seq<u8> {
        self.line@
    }

    pub fn new() -> (r: Self)
        ensures
            r.pending().len() == 0,
    {
        LineAssembler { line: Vec::new() }
    }

    /// Adds a received byte; a line feed completes the line, which is
    /// returned with it.
    pub fn push_byte(&mut self, byte: u8) -> (r: Option<Vec<u8>>)
        ensures
            byte == 0x0a ==> (r matches Some(l) && l@ == old(self).pending().push(byte))
                && final(self).pending().len() == 0,
            byte != 0x0a ==> r is None && final(self).pending() == old(self).pending().push(byte),
    {
        self.line.push(byte);
        if byte == 0x0a {
            let mut done: Vec<u8> = Vec::new();
            std::mem::swap(&mut done, &mut self.line);
            Some(done)
        } else {
            None
        }
    }

    /// When no line end came in time: the partial line, if there is one.
    pub fn flush(&mut self) -> (r: Option<Vec<u8>>)
        ensures
            old(self).pending().len() > 0 ==> (r matches Some(l) && l@ == old(self).pending()),
            old(self).pending().len() == 0 ==> r is None,
            final(self).pending().len() == 0,
    {
        if self.line.len() == 0 {
            None
        } else {
            let mut done: Vec<u8> = Vec::new();
            std::mem::swap(&mut done, &mut self.line);
            Some(done)
        }
    }
}


/// The serial settings as values of the specification.
pub struct SerialView {
    pub port: Seq<char>,
    pub baudrate: u32,
    pub mode: SerialMode,
    pub data_bits: DataBits,
    pub flow_control: FlowControl,
    pub parity: Parity,
    pub stop_bits: StopBits,
    pub usb_id: Option<UsbId>,
}

pub open spec fn serial_view(s: SerialShared) -> SerialView {
    SerialView {
        port: s.port@,
        baudrate: s.baudrate,
        mode: s.mode,
        data_bits: s.data_bits,
        flow_control: s.flow_control,
        parity: s.parity,
        stop_bits: s.stop_bits,
        usb_id: s.usb_id,
    }
}

/// Whether `setup` gives any setting.
pub open spec fn setup_changes(setup: SerialSetup) -> bool {
    setup.port is Some || setup.baudrate is Some || setup.data_bits is Some || setup.flow_control is Some
        || setup.parity is Some || setup.stop_bits is Some
}

/// The settings `v` with those `setup` gives; a new port forgets the learned
/// USB identity. The mode is left as it is.
pub open spec fn with_setup(v: SerialView, setup: SerialSetup) -> SerialView {
    SerialView {
        port: match opt_str_view(setup.port) {
            Some(p) => p,
            None => v.port,
        },
        usb_id: match opt_str_view(setup.port) {
            Some(p) => if p != v.port {
                None
            } else {
                v.usb_id
            },
            None => v.usb_id,
        },
        baudrate: match setup.baudrate {
            Some(b) => b,
            None => v.baudrate,
        },
        data_bits: match setup.data_bits {
            Some(d) => d,
            None => v.data_bits,
        },
        flow_control: match setup.flow_control {
            Some(f) => f,
            None => v.flow_control,
        },
        parity: match setup.parity {
            Some(p) => p,
            None => v.parity,
        },
        stop_bits: match setup.stop_bits {
            Some(st) => st,
            None => v.stop_bits,
        },
        mode: v.mode,
    }
}

/// The lines completed by `bytes` after the partial line `pending`, each
/// with its line feed, and the new partial line.
pub open spec fn assembled(pending: Seq<u8>, bytes: Seq<u8>) -> (Seq<Seq<u8>>, Seq<u8>)
    decreases bytes.len(),
{
    if bytes.len() == 0 {
        (Seq::empty(), pending)
    } else {
        let (lines, p) = assembled(pending, bytes.drop_last());
        let p2 = p.push(bytes.last());
        if bytes.last() == 0x0a {
            (lines.push(p2), Seq::empty())
        } else {
            (lines, p2)
        }
    }
}

pub open spec fn line_views(v: Seq<Vec<u8>>) -> Seq<Seq<u8>> {
    v.map_values(|l: Vec<u8>| l@)
}

/// What happened since the last step of the serial task.
pub enum SerialEvent {
    /// Nothing new: the task decides what to do next.
    Tick,
    /// A command from the rest of the program.
    Command(SerialCommand),
    /// The port `port` was opened; `ports` are the ports the system lists.
    Opened { port: String, ports: Vec<PortInfo> },
    /// The port `port` could not be opened; `ports` are the ports the
    /// system lists.
    OpenFailed { port: String, ports: Vec<PortInfo> },
    /// Bytes were read.
    ReadOk(Vec<u8>),
    /// A read waited its time and got nothing.
    ReadTimedOut,
    /// The port went away (permission denied or broken pipe).
    ReadLost,
    /// No line end came in time.
    LineTimeout,
}

/// What the serial task is to do next.
pub enum SerialAction {
    /// Sleep for one latency period.
    Wait,
    /// Try to open this port with the current settings and report the result.
    TryConnect(String),
    /// Read from the open port.
    Read,
    /// Show these received lines (maybe none).
    Emit(Vec<Vec<u8>>),
    /// The port was opened: announce it, and that the device moved from the
    /// given port when it did.
    Connected { moved_from: Option<String> },
    /// Close the port, announcing the disconnection when asked.
    Close { announce: bool },
    /// End the task.
    Exit,
}

/// The USB identity the system lists for the port named `port`.
pub open spec fn usb_of(ports: Seq<PortInfo>, port: Seq<char>) -> Option<UsbId> {
    match port_named(ports, port) {
        Some(info) => info.usb,
        None => None,
    }
}

/// Where the device went when its port `port` could not be opened: a
/// renamed port holding the same USB device, when one is known.
pub open spec fn renamed_to(v: SerialView, port: Seq<char>, ports: Seq<PortInfo>) -> Option<Seq<char>> {
    if port == v.port && v.usb_id is Some && port_named(ports, v.port) is None {
        match first_matching_port(ports, v.usb_id->0) {
            Some(n) => if n != v.port {
                Some(n)
            } else {
                None
            },
            None => None,
        }
    } else {
        None
    }
}

impl SerialInterface {
    /// One step of the serial task: the settings `s`, the partial line
    /// `line`, whether the port is open (`port_open`) and whether the
    /// reconnection interval has passed (`reconnect_due`), and what happened
    /// (`ev`), give the new settings and what to do. A lost port is retried
    /// until it comes back, at most once per interval, and a USB device that
    /// reappears under another name is followed.
    pub fn serial_step(
        s: &mut SerialShared,
        line: &mut LineAssembler,
        port_open: bool,
        reconnect_due: bool,
        ev: SerialEvent,
    ) -> (act: SerialAction)
        ensures
            match ev {
                SerialEvent::Tick => {
                    &&& serial_view(*final(s)) == serial_view(*old(s))
                    &&& final(line).pending() == old(line).pending()
                    &&& match old(s).mode {
                        SerialMode::DoNotConnect => act is Wait,
                        SerialMode::Reconnecting => if reconnect_due {
                            act matches SerialAction::TryConnect(p) && p@ == old(s).port@
                        } else {
                            act is Wait
                        },
                        SerialMode::Connected => if port_open {
                            act is Read
                        } else {
                            act is Wait
                        },
                    }
                },
                SerialEvent::Command(SerialCommand::Connect) => {
                    &&& serial_view(*final(s)) == serial_view(*old(s))
                    &&& final(line).pending() == old(line).pending()
                    &&& if old(s).mode == SerialMode::Connected {
                        act is Wait
                    } else {
                        act matches SerialAction::TryConnect(p) && p@ == old(s).port@
                    }
                },
                SerialEvent::Command(SerialCommand::Disconnect) => {
                    &&& serial_view(*final(s)) == SerialView { mode: SerialMode::DoNotConnect, ..serial_view(*old(s)) }
                    &&& final(line).pending() == old(line).pending()
                    &&& act == SerialAction::Close { announce: old(s).mode == SerialMode::Connected }
                },
                SerialEvent::Command(SerialCommand::Exit) => {
                    &&& serial_view(*final(s)) == serial_view(*old(s))
                    &&& final(line).pending() == old(line).pending()
                    &&& act is Exit
                },
                SerialEvent::Command(SerialCommand::Setup(setup)) => {
                    &&& final(line).pending() == old(line).pending()
                    &&& if setup_changes(setup) {
                        &&& serial_view(*final(s)) == SerialView {
                            mode: SerialMode::Reconnecting,
                            ..with_setup(serial_view(*old(s)), setup)
                        }
                        &&& act == SerialAction::Close { announce: old(s).mode == SerialMode::Connected }
                    } else {
                        &&& serial_view(*final(s)) == serial_view(*old(s))
                        &&& act is Wait
                    }
                },
                SerialEvent::Opened { port, ports } => {
                    &&& serial_view(*final(s)) == SerialView {
                        port: port@,
                        usb_id: usb_of(ports@, port@),
                        mode: SerialMode::Connected,
                        ..serial_view(*old(s))
                    }
                    &&& final(line).pending() == old(line).pending()
                    &&& act matches SerialAction::Connected { moved_from } && if port@ != old(s).port@ {
                        moved_from matches Some(m) && m@ == old(s).port@
                    } else {
                        moved_from is None
                    }
                },
                SerialEvent::OpenFailed { port, ports } => {
                    &&& final(line).pending() == old(line).pending()
                    &&& match renamed_to(serial_view(*old(s)), port@, ports@) {
                        Some(n) => serial_view(*final(s)) == serial_view(*old(s)) && (act matches SerialAction::TryConnect(
                            p,
                        ) && p@ == n),
                        None => serial_view(*final(s)) == SerialView {
                            mode: SerialMode::Reconnecting,
                            ..serial_view(*old(s))
                        } && act is Wait,
                    }
                },
                SerialEvent::ReadOk(bytes) => {
                    &&& serial_view(*final(s)) == serial_view(*old(s))
                    &&& act matches SerialAction::Emit(lines) && (line_views(lines@), final(line).pending()) == assembled(
                        old(line).pending(),
                        bytes@,
                    )
                },
                SerialEvent::ReadTimedOut => {
                    &&& serial_view(*final(s)) == serial_view(*old(s))
                    &&& final(line).pending() == old(line).pending()
                    &&& act is Wait
                },
                SerialEvent::ReadLost => {
                    &&& serial_view(*final(s)) == SerialView { mode: SerialMode::Reconnecting, ..serial_view(*old(s)) }
                    &&& final(line).pending() == old(line).pending()
                    &&& act == SerialAction::Close { announce: old(s).mode == SerialMode::Connected }
                },
                SerialEvent::LineTimeout => {
                    &&& serial_view(*final(s)) == serial_view(*old(s))
                    &&& final(line).pending().len() == 0
                    &&& act matches SerialAction::Emit(lines) && line_views(lines@) == if old(line).pending().len() > 0 {
                        seq![old(line).pending()]
                    } else {
                        Seq::empty()
                    }
                },
            },
    {
        match ev {
            SerialEvent::Tick => match s.mode {
                SerialMode::DoNotConnect => SerialAction::Wait,
                SerialMode::Reconnecting => if reconnect_due {
                    SerialAction::TryConnect(s.port.clone())
                } else {
                    SerialAction::Wait
                },
                SerialMode::Connected => if port_open {
                    SerialAction::Read
                } else {
                    SerialAction::Wait
                },
            },
            SerialEvent::Command(cmd) => match cmd {
                SerialCommand::Connect => if s.mode == SerialMode::Connected {
                    SerialAction::Wait
                } else {
                    SerialAction::TryConnect(s.port.clone())
                },
                SerialCommand::Disconnect => {
                    let announce = s.mode == SerialMode::Connected;
                    s.mode = SerialMode::DoNotConnect;
                    SerialAction::Close { announce }
                },
                SerialCommand::Exit => SerialAction::Exit,
                SerialCommand::Setup(setup) => {
                    let announce = s.mode == SerialMode::Connected;
                    let (changed, _) = s.apply_setup(setup);
                    if changed {
                        s.mode = SerialMode::Reconnecting;
                        SerialAction::Close { announce }
                    } else {
                        SerialAction::Wait
                    }
                },
            },
            SerialEvent::Opened { port, ports } => {
                let moved = !str_eq(port.as_str(), s.port.as_str());
                let moved_from = if moved {
                    Some(s.port.clone())
                } else {
                    None
                };
                s.usb_id = Self::usb_info_for(port.as_str(), ports.as_slice());
                s.port = port;
                s.mode = SerialMode::Connected;
                SerialAction::Connected { moved_from }
            },
            SerialEvent::OpenFailed { port, ports } => {
                let ghost v = serial_view(*s);
                let mut next: Option<String> = None;
                if str_eq(port.as_str(), s.port.as_str()) {
                    match &s.usb_id {
                        Some(usb) => {
                            match Self::find_renamed_port(s.port.as_str(), usb, ports.as_slice()) {
                                Some(n) => {
                                    if !str_eq(n.as_str(), s.port.as_str()) {
                                        next = Some(n);
                                    }
                                },
                                None => {},
                            }
                        },
                        None => {},
                    }
                }
                match next {
                    Some(n) => SerialAction::TryConnect(n),
                    None => {
                        s.mode = SerialMode::Reconnecting;
                        SerialAction::Wait
                    },
                }
            },
            SerialEvent::ReadOk(bytes) => {
                let mut lines: Vec<Vec<u8>> = Vec::new();
                let mut i: usize = 0;
                assert(bytes@.take(0) =~= Seq::<u8>::empty());
                while i < bytes.len()
                    invariant
                        i <= bytes@.len(),
                        (line_views(lines@), line.pending()) == assembled(old(line).pending(), bytes@.take(i as int)),
                    decreases bytes.len() - i,
                {
                    assert(bytes@.take(i + 1).drop_last() =~= bytes@.take(i as int));
                    let ghost before = lines@;
                    match line.push_byte(bytes[i]) {
                        Some(l) => {
                            lines.push(l);
                            assert(line_views(lines@) =~= line_views(before).push(lines@.last()@));
                        },
                        None => {},
                    }
                    i += 1;
                }
                assert(bytes@.take(bytes@.len() as int) =~= bytes@);
                SerialAction::Emit(lines)
            },
            SerialEvent::ReadTimedOut => SerialAction::Wait,
            SerialEvent::ReadLost => {
                let announce = s.mode == SerialMode::Connected;
                s.mode = SerialMode::Reconnecting;
                SerialAction::Close { announce }
            },
            SerialEvent::LineTimeout => {
                let mut lines: Vec<Vec<u8>> = Vec::new();
                match line.flush() {
                    Some(l) => {
                        lines.push(l);
                        assert(line_views(lines@) =~= seq![old(line).pending()]);
                    },
                    None => {
                        assert(line_views(lines@) =~= Seq::<Seq<u8>>::empty());
                    },
                }
                SerialAction::Emit(lines)
            },
        }
    }
}

} // verus!
