//! The RTT interface's settings and the choice of where to look for the
//! RTT control block on the target.
use vstd::prelude::*;
use std::ops::Range;

verus! {

/// Where to look for the RTT control block, as chosen by the user.
#[derive(Clone, Debug, Default, PartialEq)]
pub enum ControlBlock {
    /// Derive the scan windows from the target itself.
    #[default]
    Scan,
    /// Read the `_SEGGER_RTT` symbol from the ELF at this path and attach at
    /// that address; the file is read again on every attach.
    Elf(String),
    /// Attach at exactly this address.
    Exact(u64),
}

/// Where to look for the control block: the whole RAM, one address, or a
/// list of address ranges.
#[derive(Clone, Debug, PartialEq)]
pub enum ScanRegion {
    Ram,
    Exact(u64),
    Ranges(Vec<Range<u64>>),
}

/// The connection state of the RTT interface.
#[derive(Clone, Copy, Debug, PartialEq, Eq, Structural)]
pub enum RttMode {
    DoNotConnect,
    Reconnecting,
    Connected,
}

/// The RTT settings the interface task and the front end share.
pub struct RttShared {
    pub target: String,
    pub mode: RttMode,
    pub channel: usize,
    pub control_block: ControlBlock,
    /// Probe clock in kHz, set on every attach.
    pub probe_speed: u32,
}

/// Settings given on the command line or by a command; what is `None` keeps
/// its current (or default) value.
#[derive(Default)]
pub struct RttSetup {
    pub target: Option<String>,
    pub channel: Option<usize>,
    pub control_block: Option<ControlBlock>,
    pub probe_speed: Option<u32>,
}

/// Commands the RTT interface task accepts.
pub enum RttCommand {
    Connect,
    Disconnect,
    Exit,
    Setup(RttSetup),
    Read { address: u64, size: usize },
    PluginRead { plugin_name: String, method_id: u64, address: u64, size: usize },
    SendFile { path: String },
}

pub struct RttInterface;

/// How much of a RAM region is probed for the control block: 32 KiB.
pub open spec fn scan_window_size() -> int {
    32768int
}

/// The leading window of a region: at most `scan_window_size` bytes, and
/// never past the region's end.
pub open spec fn window_of(r: Range<u64>) -> Range<u64> {
    Range {
        start: r.start,
        end: if r.end - r.start <= scan_window_size() {
            r.end
        } else {
            (r.start + scan_window_size()) as u64
        },
    }
}

/// The leading windows of the non-empty regions, in order.
pub open spec fn scan_windows_spec(ranges: Seq<Range<u64>>) -> Seq<Range<u64>>
    decreases ranges.len(),
{
    if ranges.len() == 0 {
        Seq::empty()
    } else {
        let rest = scan_windows_spec(ranges.drop_last());
        if ranges.last().start < ranges.last().end {
            rest.push(window_of(ranges.last()))
        } else {
            rest
        }
    }
}

pub open spec fn default_probe_speed() -> u32 {
    4_000
}

impl RttShared {
    /// The settings `setup` gives, with defaults for what it leaves out: no
    /// target (then the interface does not connect), channel 0, scanning for
    /// the control block and the default probe speed.
    pub fn new(setup: RttSetup) -> (r: Self)
        ensures
            r.target@ == match setup.target {
                Some(t) => t@,
                None => Seq::<char>::empty(),
            },
            r.mode == if r.target@.len() > 0 {
                RttMode::Reconnecting
            } else {
                RttMode::DoNotConnect
            },
            r.channel == match setup.channel {
                Some(c) => c,
                None => 0,
            },
            r.control_block == match setup.control_block {
                Some(c) => c,
                None => ControlBlock::Scan,
            },
            r.probe_speed == match setup.probe_speed {
                Some(s) => s,
                None => default_probe_speed(),
            },
    {
        let target = match setup.target {
            Some(t) => t,
            None => String::new(),
        };
        let mode = if !target.as_str().is_empty() {
            RttMode::Reconnecting
        } else {
            RttMode::DoNotConnect
        };
        RttShared {
            target,
            channel: match setup.channel {
                Some(c) => c,
                None => 0,
            },
            mode,
            control_block: match setup.control_block {
                Some(c) => c,
                None => ControlBlock::Scan,
            },
            probe_speed: match setup.probe_speed {
                Some(s) => s,
                None => RttInterface::DEFAULT_PROBE_SPEED_KHZ,
            },
        }
    }

    /// Applies the settings `setup` gives. Returns whether anything was
    /// given (the session is then dropped and set up again) and the mode to
    /// switch to: reconnecting, unless already so or nothing changed.
    pub fn apply_setup(&mut self, setup: RttSetup) -> (r: (bool, Option<RttMode>))
        ensures
            r.0 == (setup.target is Some || setup.channel is Some || setup.control_block is Some
                || setup.probe_speed is Some),
            final(self).target == match setup.target {
                Some(t) => t,
                None => old(self).target,
            },
            final(self).channel == match setup.channel {
                Some(c) => c,
                None => old(self).channel,
            },
            final(self).control_block == match setup.control_block {
                Some(c) => c,
                None => old(self).control_block,
            },
            final(self).probe_speed == match setup.probe_speed {
                Some(s) => s,
                None => old(self).probe_speed,
            },
            final(self).mode == old(self).mode,
            r.1 == if r.0 && old(self).mode != RttMode::Reconnecting {
                Some(RttMode::Reconnecting)
            } else {
                None
            },
    {
        let mut changed = false;
        if let Some(target) = setup.target {
            self.target = target;
            changed = true;
        }
        if let Some(channel) = setup.channel {
            self.channel = channel;
            changed = true;
        }
        if let Some(control_block) = setup.control_block {
            self.control_block = control_block;
            changed = true;
        }
        if let Some(probe_speed) = setup.probe_speed {
            self.probe_speed = probe_speed;
            changed = true;
        }
        let next = if changed && self.mode != RttMode::Reconnecting {
            Some(RttMode::Reconnecting)
        } else {
            None
        };
        (changed, next)
    }
}

impl RttInterface {
    /// The probe clock used when none is given, in kHz.
    pub const DEFAULT_PROBE_SPEED_KHZ: u32 = 4_000;

    /// How much of a RAM region is probed for the control block.
    pub const SCAN_WINDOW: u64 = 32768;

    /// The leading window of each non-empty region of `ranges`, clamped so a
    /// region smaller than the window is never read past its end.
    pub fn scan_windows(ranges: &[Range<u64>]) -> (r: Vec<Range<u64>>)
        ensures
            r@ == scan_windows_spec(ranges@),
    {
        let mut windows: Vec<Range<u64>> = Vec::new();
        let mut i: usize = 0;
        while i < ranges.len()
            invariant
                i <= ranges@.len(),
                windows@ == scan_windows_spec(ranges@.take(i as int)),
            decreases ranges.len() - i,
        {
            assert(ranges@.take(i + 1).drop_last() =~= ranges@.take(i as int));
            let start = ranges[i].start;
            let end = ranges[i].end;
            if start < end {
                let window_end = if end - start <= Self::SCAN_WINDOW {
                    end
                } else {
                    start + Self::SCAN_WINDOW
                };
                windows.push(Range { start, end: window_end });
            }
            i += 1;
        }
        assert(ranges@.take(ranges@.len() as int) =~= ranges@);
        windows
    }

    /// Where to look for the control block on a fresh attach, in order of
    /// preference: an exact address given by the user, or read from the ELF
    /// they named (`elf_address`, `None` when the file could not be read);
    /// the scan regions the target description names; otherwise the leading
    /// window of each RAM region `ram`.
    pub fn scan_region_in(
        control_block: &ControlBlock,
        target_regions: &ScanRegion,
        ram: &[Range<u64>],
        elf_address: Option<u64>,
    ) -> (r: ScanRegion)
        ensures
            control_block matches ControlBlock::Exact(a) ==> r == ScanRegion::Exact(*a),
            control_block matches ControlBlock::Elf(_) && elf_address is Some ==> r
                == ScanRegion::Exact(elf_address->0),
            !(control_block matches ControlBlock::Exact(_)) && !(control_block matches ControlBlock::Elf(
                _,
            ) && elf_address is Some) ==> match target_regions {
                ScanRegion::Ranges(named) => if named@.len() > 0 {
                    r matches ScanRegion::Ranges(v) && v@ == named@
                } else {
                    r matches ScanRegion::Ranges(v) && v@ == scan_windows_spec(ram@)
                },
                _ => r matches ScanRegion::Ranges(v) && v@ == scan_windows_spec(ram@),
            },
    {
        match control_block {
            ControlBlock::Exact(address) => {
                return ScanRegion::Exact(*address);
            },
            ControlBlock::Elf(_) => {
                if let Some(address) = elf_address {
                    return ScanRegion::Exact(address);
                }
            },
            ControlBlock::Scan => {},
        }
        if let ScanRegion::Ranges(named) = target_regions {
            if named.len() > 0 {
                return ScanRegion::Ranges(copy_ranges(named.as_slice()));
            }
        }
        ScanRegion::Ranges(Self::scan_windows(ram))
    }
}

/// A copy of `ranges`.
fn copy_ranges(ranges: &[Range<u64>]) -> (r: Vec<Range<u64>>)
    ensures
        r@ == ranges@,
{
    let mut out: Vec<Range<u64>> = Vec::new();
    let mut i: usize = 0;
    while i < ranges.len()
        invariant
            i <= ranges@.len(),
            out@ == ranges@.take(i as int),
        decreases ranges.len() - i,
    {
        out.push(Range { start: ranges[i].start, end: ranges[i].end });
        i += 1;
        assert(out@ =~= ranges@.take(i as int));
    }
    assert(ranges@.take(ranges@.len() as int) =~= ranges@);
    out
}

/// Every scan window is non-empty, at most `scan_window_size` bytes long and
/// lies at the start of one of the regions it was made from, so a region is
/// never read past its end.
pub proof fn lemma_windows_within_regions(ranges: Seq<Range<u64>>)
    ensures
        forall|i: int|
            0 <= i < scan_windows_spec(ranges).len() ==> {
                let w = #[trigger] scan_windows_spec(ranges)[i];
                &&& w.start < w.end
                &&& w.end - w.start <= scan_window_size()
                &&& exists|j: int|
                    0 <= j < ranges.len() && ranges[j].start == w.start && w.end <= ranges[j].end
            },
    decreases ranges.len(),
{
    if ranges.len() > 0 {
        let rest = ranges.drop_last();
        lemma_windows_within_regions(rest);
        assert forall|i: int| 0 <= i < scan_windows_spec(ranges).len() implies {
            let w = #[trigger] scan_windows_spec(ranges)[i];
            &&& w.start < w.end
            &&& w.end - w.start <= scan_window_size()
            &&& exists|j: int|
                0 <= j < ranges.len() && ranges[j].start == w.start && w.end <= ranges[j].end
        } by {
            let w = scan_windows_spec(ranges)[i];
            if i < scan_windows_spec(rest).len() {
                assert(w == scan_windows_spec(rest)[i]);
                let j = choose|j: int|
                    0 <= j < rest.len() && rest[j].start == w.start && w.end <= rest[j].end;
                assert(ranges[j] == rest[j]);
            } else {
                assert(w == window_of(ranges.last()));
                assert(ranges[ranges.len() - 1] == ranges.last());
            }
        }
    }
}

/// A chunk read from the target cut at its line feeds: the complete lines,
/// each with its line feed, and the bytes after the last line feed.
pub open spec fn framed(chunk: Seq<u8>) -> (Seq<Seq<u8>>, Seq<u8>)
    decreases chunk.len(),
{
    if chunk.len() == 0 {
        (Seq::empty(), Seq::empty())
    } else {
        let (lines, tail) = framed(chunk.drop_last());
        if chunk.last() == 0x0a {
            (lines.push(tail.push(0x0au8)), Seq::empty())
        } else {
            (lines, tail.push(chunk.last()))
        }
    }
}

pub open spec fn byte_lines(v: Seq<Vec<u8>>) -> Seq<Seq<u8>> {
    v.map_values(|l: Vec<u8>| l@)
}

impl RttInterface {
    /// Cuts a chunk read from the target into its complete lines (each with
    /// its line feed) and the bytes after the last line feed, which wait for
    /// the rest of their line.
    pub fn split_received(chunk: &[u8]) -> (r: (Vec<Vec<u8>>, Vec<u8>))
        ensures
            (byte_lines(r.0@), r.1@) == framed(chunk@),
    {
        let mut lines: Vec<Vec<u8>> = Vec::new();
        let mut current: Vec<u8> = Vec::new();
        let mut i: usize = 0;
        while i < chunk.len()
            invariant
                i <= chunk@.len(),
                (byte_lines(lines@), current@) == framed(chunk@.take(i as int)),
            decreases chunk.len() - i,
        {
            assert(chunk@.take(i + 1).drop_last() =~= chunk@.take(i as int));
            let b = chunk[i];
            current.push(b);
            if b == 0x0a {
                let mut done: Vec<u8> = Vec::new();
                std::mem::swap(&mut done, &mut current);
                let ghost before = lines@;
                lines.push(done);
                assert(byte_lines(lines@) =~= byte_lines(before).push(done@));
            }
            i += 1;
        }
        assert(chunk@.take(chunk@.len() as int) =~= chunk@);
        (lines, current)
    }

    /// A read of `chunk` while the bytes `held` wait for the rest of their
    /// line: the held bytes continue with the chunk, the complete lines are
    /// sent, and what follows the last line feed is held (see
    /// `rtt_read_step`).
    pub fn receive_chunk(held: &mut Vec<u8>, chunk: &[u8]) -> (r: Vec<Vec<u8>>)
        ensures
            (byte_lines(r@), final(held)@) == rtt_read_step(old(held)@, chunk@),
    {
        let mut all: Vec<u8> = Vec::new();
        std::mem::swap(&mut all, held);
        let mut i: usize = 0;
        let ghost start = all@;
        while i < chunk.len()
            invariant
                i <= chunk@.len(),
                all@ == start + chunk@.take(i as int),
            decreases chunk.len() - i,
        {
            all.push(chunk[i]);
            i += 1;
            assert(all@ =~= start + chunk@.take(i as int));
        }
        assert(chunk@.take(chunk@.len() as int) =~= chunk@);
        let (lines, rest) = Self::split_received(all.as_slice());
        *held = rest;
        lines
    }

    /// When the line-end timeout has passed (`timed_out`): the held bytes
    /// are sent as one line, if there are any, and nothing stays held.
    /// Otherwise nothing changes.
    pub fn flush_held(held: &mut Vec<u8>, timed_out: bool) -> (r: Option<Vec<u8>>)
        ensures
            timed_out && old(held)@.len() > 0 ==> (r matches Some(l) && l@ == old(held)@) && final(held)@.len()
                == 0,
            !(timed_out && old(held)@.len() > 0) ==> r is None && final(held)@ == old(held)@,
    {
        if timed_out && held.len() > 0 {
            let mut done: Vec<u8> = Vec::new();
            std::mem::swap(&mut done, held);
            Some(done)
        } else {
            None
        }
    }
}

/// What a read of `chunk` gives when the bytes `held` wait: the held bytes
/// followed by the chunk, cut into complete lines and what is left (see
/// `framed`).
pub open spec fn rtt_read_step(held: Seq<u8>, chunk: Seq<u8>) -> (Seq<Seq<u8>>, Seq<u8>) {
    framed(held + chunk)
}

/// The pieces one after the other.
pub open spec fn joined(pieces: Seq<Seq<u8>>) -> Seq<u8>
    decreases pieces.len(),
{
    if pieces.len() == 0 {
        Seq::empty()
    } else {
        joined(pieces.drop_last()) + pieces.last()
    }
}

/// The lines sent and the bytes held after the reads `chunks`, one after
/// the other, starting with nothing held.
pub open spec fn rtt_run(chunks: Seq<Seq<u8>>) -> (Seq<Seq<u8>>, Seq<u8>)
    decreases chunks.len(),
{
    if chunks.len() == 0 {
        (Seq::empty(), Seq::empty())
    } else {
        let (lines, held) = rtt_run(chunks.drop_last());
        let (more, rest) = rtt_read_step(held, chunks.last());
        (lines + more, rest)
    }
}

proof fn lemma_joined_append(a: Seq<Seq<u8>>, b: Seq<Seq<u8>>)
    ensures
        joined(a + b) == joined(a) + joined(b),
    decreases b.len(),
{
    if b.len() == 0 {
        assert(a + b =~= a);
        assert(joined(b) =~= Seq::<u8>::empty());
        assert(joined(a) + joined(b) =~= joined(a));
    } else {
        lemma_joined_append(a, b.drop_last());
        assert((a + b).drop_last() =~= a + b.drop_last());
        assert((a + b).last() == b.last());
        assert(joined(a + b) =~= joined(a) + joined(b));
    }
}

/// Framing loses and adds nothing: the lines, then the rest, give back the
/// bytes, and each line ends with its line feed.
pub proof fn lemma_framed(c: Seq<u8>)
    ensures
        joined(framed(c).0) + framed(c).1 == c,
        forall|k: int|
            0 <= k < framed(c).0.len() ==> #[trigger] framed(c).0[k].len() > 0 && framed(c).0[k].last() == 0x0a,
    decreases c.len(),
{
    if c.len() > 0 {
        lemma_framed(c.drop_last());
        let (lines, tail) = framed(c.drop_last());
        assert(c =~= c.drop_last().push(c.last()));
        assert(c.drop_last() == joined(lines) + tail);
        if c.last() == 0x0a {
            let x = tail.push(0x0au8);
            assert(framed(c).0 == lines.push(x));
            assert(framed(c).1 == Seq::<u8>::empty());
            assert(lines.push(x).drop_last() =~= lines);
            assert(joined(lines.push(x)) == joined(lines) + x);
            assert(joined(lines) + x + Seq::<u8>::empty() =~= (joined(lines) + tail).push(0x0au8));
        } else {
            assert(framed(c).0 == lines);
            assert(framed(c).1 == tail.push(c.last()));
            assert(joined(lines) + tail.push(c.last()) =~= (joined(lines) + tail).push(c.last()));
        }
    }
}

/// Over a run of reads, the lines sent and then the bytes held are exactly
/// the bytes read, in order: nothing is lost, repeated or reordered, and
/// each line sent ends with its line feed.
pub proof fn lemma_rtt_run(chunks: Seq<Seq<u8>>)
    ensures
        joined(rtt_run(chunks).0) + rtt_run(chunks).1 == joined(chunks),
        forall|k: int|
            0 <= k < rtt_run(chunks).0.len() ==> #[trigger] rtt_run(chunks).0[k].len() > 0 && rtt_run(
                chunks,
            ).0[k].last() == 0x0a,
    decreases chunks.len(),
{
    if chunks.len() > 0 {
        let prev = chunks.drop_last();
        lemma_rtt_run(prev);
        let (lines, held) = rtt_run(prev);
        let c = chunks.last();
        lemma_framed(held + c);
        let (more, rest) = framed(held + c);
        lemma_joined_append(lines, more);
        assert(joined(lines + more) + rest =~= joined(lines) + (joined(more) + rest));
        assert(joined(chunks) =~= joined(prev) + c);
        assert(joined(lines) + (held + c) =~= (joined(lines) + held) + c);
        assert forall|k: int| 0 <= k < (lines + more).len() implies #[trigger] (lines + more)[k].len() > 0 && (lines
            + more)[k].last() == 0x0a by {
            if k < lines.len() {
                assert((lines + more)[k] == lines[k]);
            } else {
                assert((lines + more)[k] == more[k - lines.len()]);
            }
        }
    }
}


/// What happened since the last step of the RTT task.
pub enum RttEvent {
    /// Nothing new: the task decides what to do next.
    Tick,
    /// A command from the rest of the program.
    Command(RttCommand),
    /// Whether attaching to the target and finding the RTT block succeeded.
    Attached(bool),
    /// The probe's core could not be reached: the target is lost.
    CoreLost,
    /// Bytes were read from the up channel.
    ReadOk(Vec<u8>),
    /// No line end came in time.
    LineTimeout,
}

/// Why a file transfer is refused.
#[derive(Clone, Copy, Debug, PartialEq, Eq, Structural)]
pub enum TransferRefusal {
    NotConnected,
    Busy,
}

/// What the RTT task is to do next.
pub enum RttAction {
    /// Sleep for one latency period.
    Wait,
    /// Attach to the target with the current settings and report it.
    TryAttach,
    /// Write what waits to be sent (data and file chunks) to the down
    /// channel and read the up channel.
    Exchange,
    /// Show these received lines (or raw chunks, headless; maybe none).
    Emit(Vec<Vec<u8>>),
    /// The target was attached: announce it.
    Attached,
    /// Detach, announcing the disconnection when asked.
    Close { announce: bool },
    /// The running file transfer ends: the target is not connected.
    AbortTransfer,
    /// Start sending the file at this path.
    StartTransfer(String),
    /// Refuse to send the file at this path.
    RefuseTransfer { path: String, why: TransferRefusal },
    /// Read target memory and report it.
    ReadMemory { address: u64, size: usize },
    /// End the task.
    Exit,
}

/// The RTT settings, but the mode, are those of `b`.
pub open spec fn rtt_same_settings(a: RttShared, b: RttShared) -> bool {
    &&& a.target == b.target
    &&& a.channel == b.channel
    &&& a.control_block == b.control_block
    &&& a.probe_speed == b.probe_speed
}

impl RttInterface {
    /// One step of the RTT task: the settings `s`, the bytes `held` of a
    /// line not yet ended, whether the target is attached and whether a file
    /// transfer runs, whether the display is headless, and what happened
    /// (`ev`), give the new settings and what to do. A lost target is
    /// attached again on every step until it comes back; a file transfer
    /// needs a connection and none running, and ends when the connection
    /// does.
    pub fn rtt_step(
        s: &mut RttShared,
        held: &mut Vec<u8>,
        attached: bool,
        transferring: bool,
        headless: bool,
        ev: RttEvent,
    ) -> (act: RttAction)
        ensures
            match ev {
                RttEvent::Tick => {
                    &&& *final(s) == *old(s)
                    &&& final(held)@ == old(held)@
                    &&& if old(s).mode != RttMode::Connected && transferring {
                        act is AbortTransfer
                    } else {
                        match old(s).mode {
                            RttMode::DoNotConnect => act is Wait,
                            RttMode::Reconnecting => act is TryAttach,
                            RttMode::Connected => if attached {
                                act is Exchange
                            } else {
                                act is Wait
                            },
                        }
                    }
                },
                RttEvent::Command(RttCommand::Connect) => {
                    &&& *final(s) == *old(s)
                    &&& final(held)@ == old(held)@
                    &&& if old(s).mode == RttMode::Connected {
                        act is Wait
                    } else {
                        act is TryAttach
                    }
                },
                RttEvent::Command(RttCommand::Disconnect) => {
                    &&& rtt_same_settings(*final(s), *old(s))
                    &&& final(s).mode == RttMode::DoNotConnect
                    &&& final(held)@ == old(held)@
                    &&& act == RttAction::Close { announce: old(s).mode == RttMode::Connected }
                },
                RttEvent::Command(RttCommand::Exit) => {
                    &&& *final(s) == *old(s)
                    &&& act is Exit
                },
                RttEvent::Command(RttCommand::Setup(setup)) => {
                    &&& final(held)@ == old(held)@
                    &&& final(s).target == match setup.target {
                        Some(t) => t,
                        None => old(s).target,
                    }
                    &&& final(s).channel == match setup.channel {
                        Some(c) => c,
                        None => old(s).channel,
                    }
                    &&& final(s).control_block == match setup.control_block {
                        Some(c) => c,
                        None => old(s).control_block,
                    }
                    &&& final(s).probe_speed == match setup.probe_speed {
                        Some(p) => p,
                        None => old(s).probe_speed,
                    }
                    &&& if setup.target is Some || setup.channel is Some || setup.control_block is Some
                        || setup.probe_speed is Some {
                        &&& final(s).mode == RttMode::Reconnecting
                        &&& act == RttAction::Close { announce: old(s).mode == RttMode::Connected }
                    } else {
                        &&& final(s).mode == old(s).mode
                        &&& act is Wait
                    }
                },
                RttEvent::Command(RttCommand::Read { address, size }) => {
                    &&& *final(s) == *old(s)
                    &&& final(held)@ == old(held)@
                    &&& act == RttAction::ReadMemory { address, size }
                },
                RttEvent::Command(RttCommand::PluginRead { .. }) => {
                    &&& *final(s) == *old(s)
                    &&& final(held)@ == old(held)@
                    &&& act is Wait
                },
                RttEvent::Command(RttCommand::SendFile { path }) => {
                    &&& *final(s) == *old(s)
                    &&& final(held)@ == old(held)@
                    &&& if old(s).mode != RttMode::Connected {
                        act matches RttAction::RefuseTransfer { path: p, why } && p == path && why
                            == TransferRefusal::NotConnected
                    } else if transferring {
                        act matches RttAction::RefuseTransfer { path: p, why } && p == path && why
                            == TransferRefusal::Busy
                    } else {
                        act matches RttAction::StartTransfer(p) && p == path
                    }
                },
                RttEvent::Attached(ok) => {
                    &&& rtt_same_settings(*final(s), *old(s))
                    &&& final(held)@ == old(held)@
                    &&& if ok {
                        final(s).mode == RttMode::Connected && act is Attached
                    } else {
                        final(s).mode == RttMode::Reconnecting && act is Wait
                    }
                },
                RttEvent::CoreLost => {
                    &&& rtt_same_settings(*final(s), *old(s))
                    &&& final(s).mode == RttMode::Reconnecting
                    &&& final(held)@ == old(held)@
                    &&& act == RttAction::Close { announce: old(s).mode == RttMode::Connected }
                },
                RttEvent::ReadOk(bytes) => {
                    &&& *final(s) == *old(s)
                    &&& act matches RttAction::Emit(lines) && if headless {
                        byte_lines(lines@) == seq![bytes@] && final(held)@ == old(held)@
                    } else {
                        (byte_lines(lines@), final(held)@) == rtt_read_step(old(held)@, bytes@)
                    }
                },
                RttEvent::LineTimeout => {
                    &&& *final(s) == *old(s)
                    &&& final(held)@.len() == 0
                    &&& act matches RttAction::Emit(lines) && byte_lines(lines@) == if old(held)@.len() > 0 {
                        seq![old(held)@]
                    } else {
                        Seq::empty()
                    }
                },
            },
    {
        match ev {
            RttEvent::Tick => {
                if s.mode != RttMode::Connected && transferring {
                    RttAction::AbortTransfer
                } else {
                    match s.mode {
                        RttMode::DoNotConnect => RttAction::Wait,
                        RttMode::Reconnecting => RttAction::TryAttach,
                        RttMode::Connected => if attached {
                            RttAction::Exchange
                        } else {
                            RttAction::Wait
                        },
                    }
                }
            },
            RttEvent::Command(cmd) => match cmd {
                RttCommand::Connect => if s.mode == RttMode::Connected {
                    RttAction::Wait
                } else {
                    RttAction::TryAttach
                },
                RttCommand::Disconnect => {
                    let announce = s.mode == RttMode::Connected;
                    s.mode = RttMode::DoNotConnect;
                    RttAction::Close { announce }
                },
                RttCommand::Exit => RttAction::Exit,
                RttCommand::Setup(setup) => {
                    let announce = s.mode == RttMode::Connected;
                    let (changed, _) = s.apply_setup(setup);
                    if changed {
                        s.mode = RttMode::Reconnecting;
                        RttAction::Close { announce }
                    } else {
                        RttAction::Wait
                    }
                },
                RttCommand::Read { address, size } => RttAction::ReadMemory { address, size },
                RttCommand::PluginRead { .. } => RttAction::Wait,
                RttCommand::SendFile { path } => {
                    if s.mode != RttMode::Connected {
                        RttAction::RefuseTransfer { path, why: TransferRefusal::NotConnected }
                    } else if transferring {
                        RttAction::RefuseTransfer { path, why: TransferRefusal::Busy }
                    } else {
                        RttAction::StartTransfer(path)
                    }
                },
            },
            RttEvent::Attached(ok) => {
                if ok {
                    s.mode = RttMode::Connected;
                    RttAction::Attached
                } else {
                    s.mode = RttMode::Reconnecting;
                    RttAction::Wait
                }
            },
            RttEvent::CoreLost => {
                let announce = s.mode == RttMode::Connected;
                s.mode = RttMode::Reconnecting;
                RttAction::Close { announce }
            },
            RttEvent::ReadOk(bytes) => {
                if headless {
                    let mut lines: Vec<Vec<u8>> = Vec::new();
                    lines.push(bytes);
                    assert(byte_lines(lines@) =~= seq![lines@[0]@]);
                    RttAction::Emit(lines)
                } else {
                    let lines = Self::receive_chunk(held, bytes.as_slice());
                    RttAction::Emit(lines)
                }
            },
            RttEvent::LineTimeout => {
                let mut lines: Vec<Vec<u8>> = Vec::new();
                match Self::flush_held(held, true) {
                    Some(l) => {
                        lines.push(l);
                        assert(byte_lines(lines@) =~= seq![old(held)@]);
                    },
                    None => {
                        assert(byte_lines(lines@) =~= Seq::<Seq<u8>>::empty());
                    },
                }
                RttAction::Emit(lines)
            },
        }
    }
}

} // verus!
