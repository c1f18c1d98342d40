# scope_monitor

A serial monitor for the terminal, written as a verified library with a thin
program around it.

- `src/` is the library, proved with Verus: the command bar and its key
  handling, `!` commands, tags and `$` hex input, the history and its
  search, filtering and rendering of received lines, session and backup
  naming, the serial and RTT tasks' decisions (`serial_step`, `rtt_step`), RTT
  framing, the headless bridge's output, and `!ipsum`.
- `app/` is the program: command line, configuration file, serial port,
  terminal drawing, files and threads. It performs what the library decides.
- `tests/` runs the library on concrete values.

Verify the library with `verus` on `src/lib.rs`; the outside crates it calls
(regex, chrono, serde_yaml, nucleo, object, lipsum, rand, dirs) are reached
through small trusted wrappers whose contracts are documented beside them.

Not in this build: reading RTT channels through a debug probe (the probe
library is not available here; the RTT task's decisions,
`RttInterface::rtt_step`, and its line framing are in the library), Lua plugins, BLE, and copying to the clipboard. The program
reports each of these as unavailable when asked for it.
