//! The interfaces a session talks through: a serial port or an RTT probe.
use vstd::prelude::*;

pub mod file_transfer;
pub mod rtt_elf;
pub mod rtt_if;
pub mod serial_if;

use crate::interfaces::rtt_if::{RttCommand, RttMode, RttShared};
use crate::interfaces::serial_if::{FlowControl, SerialCommand, SerialMode, SerialShared};
use crate::text::{chars_of, decimal_chars, decimal_spec, extend_chars, string_of, zero_padded, zero_padded_chars};

verus! {

/// A command for the interface task, whichever the interface.
pub enum InterfaceCommand {
    Rtt(RttCommand),
    Serial(SerialCommand),
}

/// The settings the interface task shares with the front end.
pub enum InterfaceShared {
    Rtt(RttShared),
    Serial(SerialShared),
}

/// `s`, or `""` (two quotes) when it is empty.
pub open spec fn or_quotes(s: Seq<char>) -> Seq<char> {
    if s.len() == 0 {
        seq!['"', '"']
    } else {
        s
    }
}

/// The suffix that names a flow control.
pub open spec fn flow_suffix(flow: FlowControl) -> Seq<char> {
    match flow {
        FlowControl::Off => Seq::empty(),
        FlowControl::Software => seq![':', 'S', 'W'],
        FlowControl::Hardware => seq![':', 'H', 'W'],
    }
}

impl InterfaceShared {
    /// What the command bar says of the interface: `RTT target [channel]`,
    /// or `Serial port:baudratebps` (the rate on at least four digits) and
    /// the flow control.
    pub open spec fn title_spec(&self) -> Seq<char> {
        match self {
            InterfaceShared::Rtt(rtt) => seq!['R', 'T', 'T', ' '] + or_quotes(rtt.target@) + seq![' ', '['] + decimal_spec(
                rtt.channel as nat,
            ) + seq![']'],
            InterfaceShared::Serial(serial) => seq!['S', 'e', 'r', 'i', 'a', 'l', ' '] + or_quotes(serial.port@) + seq![':']
                + zero_padded(serial.baudrate as nat, 4) + seq!['b', 'p', 's'] + flow_suffix(serial.flow_control),
        }
    }

    pub fn title(&self) -> (r: String)
        ensures
            r@ == self.title_spec(),
    {
        let mut out: Vec<char> = Vec::new();
        match self {
            InterfaceShared::Rtt(rtt) => {
                out.push('R');
                out.push('T');
                out.push('T');
                out.push(' ');
                push_or_quotes(&mut out, rtt.target.as_str());
                out.push(' ');
                out.push('[');
                let digits = decimal_chars(rtt.channel as u64);
                extend_chars(&mut out, digits.as_slice());
                out.push(']');
            },
            InterfaceShared::Serial(serial) => {
                let word = ['S', 'e', 'r', 'i', 'a', 'l', ' '];
                extend_chars(&mut out, &word);
                push_or_quotes(&mut out, serial.port.as_str());
                out.push(':');
                let digits = zero_padded_chars(serial.baudrate as u64, 4);
                extend_chars(&mut out, digits.as_slice());
                out.push('b');
                out.push('p');
                out.push('s');
                match serial.flow_control {
                    FlowControl::Off => {},
                    FlowControl::Software => {
                        out.push(':');
                        out.push('S');
                        out.push('W');
                    },
                    FlowControl::Hardware => {
                        out.push(':');
                        out.push('H');
                        out.push('W');
                    },
                }
                assert(word@ =~= seq!['S', 'e', 'r', 'i', 'a', 'l', ' ']);
            },
        }
        assert(out@ =~= self.title_spec());
        string_of(out.as_slice())
    }

    /// Whether the interface is connected.
    pub fn is_connected(&self) -> (r: bool)
        ensures
            r == match self {
                InterfaceShared::Rtt(rtt) => rtt.mode == RttMode::Connected,
                InterfaceShared::Serial(serial) => serial.mode == SerialMode::Connected,
            },
    {
        match self {
            InterfaceShared::Rtt(rtt) => rtt.mode == RttMode::Connected,
            InterfaceShared::Serial(serial) => serial.mode == SerialMode::Connected,
        }
    }
}

fn push_or_quotes(out: &mut Vec<char>, s: &str)
    ensures
        final(out)@ == old(out)@ + or_quotes(s@),
{
    let cs = chars_of(s);
    if cs.len() == 0 {
        out.push('"');
        out.push('"');
        assert(out@ =~= old(out)@ + seq!['"', '"']);
    } else {
        extend_chars(out, cs.as_slice());
    }
}

/// The kind of interface a session uses.
#[derive(Clone, Copy, Debug, PartialEq, Eq, Structural)]
pub enum InterfaceType {
    Rtt,
    Serial,
}

} // verus!
