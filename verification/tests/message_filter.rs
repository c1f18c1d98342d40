use scope_monitor::graphics::buffer::{BufferLine, LineIds};
use scope_monitor::graphics::message_filter::MessageFilter;
use scope_monitor::graphics::screen::ScreenDecoder;
use scope_monitor::infra::logger::LogLevel;

fn rx(message: &str) -> BufferLine<Vec<u8>> {
    BufferLine::new_rx(&mut LineIds::new(), 0, message.as_bytes().to_vec())
}

fn tx(message: &str) -> BufferLine<Vec<u8>> {
    BufferLine::new_tx(&mut LineIds::new(), 0, message.as_bytes().to_vec())
}

fn log(message: &str) -> BufferLine<Vec<u8>> {
    BufferLine::new_log(&mut LineIds::new(), 0, LogLevel::Error, message.as_bytes().to_vec())
}

#[test]
fn default_pattern_allows_every_line() {
    let filter = MessageFilter::default();

    assert_eq!(filter.label(), ".*");
    assert_eq!(MessageFilter::DEFAULT_PATTERN, ".*");
    assert!(filter.allows(&rx("anything at all"), ScreenDecoder::Ascii));
    assert!(filter.allows(&rx(""), ScreenDecoder::Ascii));
}

#[test]
fn allow_mode_keeps_only_matching_lines() {
    let filter = MessageFilter::new("sensor", false).unwrap();

    assert!(filter.allows(&rx("sensor: 42"), ScreenDecoder::Ascii));
    assert!(!filter.allows(&rx("dbg: heartbeat"), ScreenDecoder::Ascii));
}

#[test]
fn exclude_mode_hides_matching_lines() {
    let filter = MessageFilter::new("dbg", true).unwrap();

    assert_eq!(filter.label(), "mute dbg");
    assert!(!filter.allows(&rx("dbg: heartbeat"), ScreenDecoder::Ascii));
    assert!(filter.allows(&rx("sensor: 42"), ScreenDecoder::Ascii));
}

#[test]
fn mute_all_hides_every_received_line() {
    let filter = MessageFilter::mute_all();

    assert_eq!(filter.label(), "mute .*");
    assert!(!filter.allows(&rx("anything at all"), ScreenDecoder::Ascii));
    assert!(!filter.allows(&rx(""), ScreenDecoder::Ascii));
    assert!(filter.allows(&tx("a command I sent"), ScreenDecoder::Ascii));
    assert!(filter.allows(&log("all messages are muted"), ScreenDecoder::Ascii));
}

#[test]
fn is_match_is_unanchored_use_caret_for_line_start() {
    let anywhere = MessageFilter::new("dbg", true).unwrap();
    assert!(!anywhere.allows(&rx("late dbg here"), ScreenDecoder::Ascii));

    let at_start = MessageFilter::new("^dbg", true).unwrap();
    assert!(!at_start.allows(&rx("dbg: tick"), ScreenDecoder::Ascii));
    assert!(at_start.allows(&rx("late dbg here"), ScreenDecoder::Ascii));
}

#[test]
fn exclude_lines_starting_with_bracket() {
    let filter = MessageFilter::new(r"^\[", true).unwrap();

    assert!(!filter.allows(&rx("[00:00:35] clock init"), ScreenDecoder::Ascii));
    assert!(filter.allows(&rx("Die temperature: 27 C"), ScreenDecoder::Ascii));
}

#[test]
fn filter_ignores_ansi_when_matching() {
    let filter = MessageFilter::new(r"^\[", true).unwrap();

    assert!(!filter.allows(&rx("\x1b[0m[00:00:35] init\x1b[0m"), ScreenDecoder::Ascii));
    assert!(filter.allows(&rx("\x1b[1;31m--- dropped ---"), ScreenDecoder::Ascii));
}

#[test]
fn tx_and_log_lines_are_always_allowed() {
    let filter = MessageFilter::new("dbg", true).unwrap();

    assert!(filter.allows(&tx("dbg: a command I sent"), ScreenDecoder::Ascii));
    assert!(filter.allows(&log("dbg in a log message"), ScreenDecoder::Ascii));
    assert!(!filter.allows(&rx("dbg: received noise"), ScreenDecoder::Ascii));
}

#[test]
fn invalid_pattern_is_rejected() {
    assert!(MessageFilter::new("(unclosed", false).is_err());
    assert!(MessageFilter::new("(unclosed", true).is_err());
}
