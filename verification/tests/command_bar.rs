use scope_monitor::graphics::ansi::Color;
use scope_monitor::graphics::graphics_task::{
    autocomplete_area, autocomplete_lines, autocomplete_window, command_spans, latency_text,
    normal_bar_title, search_bar_title, SaveStats,
};
use scope_monitor::graphics::screen::ScreenRect;
use scope_monitor::infra::tags::TagList;
use scope_monitor::interfaces::rtt_if::{RttSetup, RttShared};
use scope_monitor::interfaces::serial_if::{FlowControl, SerialSetup, SerialShared};
use scope_monitor::interfaces::InterfaceShared;

#[test]
fn latency_is_shown_in_the_largest_whole_unit() {
    assert_eq!(latency_text(0), "---");
    assert_eq!(latency_text(250), "250us");
    assert_eq!(latency_text(2500), "2ms");
}

#[test]
fn the_normal_title_pads_the_history_length() {
    assert_eq!(normal_bar_title(5, 0, "Serial COM1:9600bps"), "[005][---] Serial COM1:9600bps");
}

#[test]
fn the_search_title_counts_hits_from_one() {
    assert_eq!(search_bar_title(true, false, (0, 3)), "[Aa][  ][1/3] Search Mode");
    assert_eq!(search_bar_title(false, true, (0, 0)), "[--][.*][--/--] Search Mode");
}

#[test]
fn interfaces_describe_themselves() {
    let serial = SerialShared::new(SerialSetup {
        port: Some("/dev/ttyUSB0".to_string()),
        baudrate: Some(115200),
        data_bits: None,
        flow_control: Some(FlowControl::Hardware),
        parity: None,
        stop_bits: None,
    });
    let shared = InterfaceShared::Serial(serial);
    assert_eq!(shared.title(), "Serial /dev/ttyUSB0:115200bps:HW");
    assert!(!shared.is_connected());

    let slow = InterfaceShared::Serial(SerialShared::new(SerialSetup {
        port: None,
        baudrate: Some(300),
        data_bits: None,
        flow_control: None,
        parity: None,
        stop_bits: None,
    }));
    assert_eq!(slow.title(), "Serial \"\":0300bps");

    let rtt = InterfaceShared::Rtt(RttShared::new(RttSetup {
        target: Some("nrf52".to_string()),
        channel: Some(1),
        control_block: None,
        probe_speed: None,
    }));
    assert_eq!(rtt.title(), "RTT nrf52 [1]");
}

#[test]
fn invoked_tags_are_shown_in_cyan() {
    let tags = TagList::new("tags.yml".to_string(), Some("hi: \"hello\"\n".to_string())).unwrap();
    let spans = command_spans("say @hi now", &tags);
    let texts: Vec<&str> = spans.iter().map(|s| s.content.as_str()).collect();
    assert_eq!(texts, vec![" say ", "@hi", " now"]);
    assert_eq!(spans[1].style.fg, Some(Color::Cyan));
    assert_eq!(spans[0].style.fg, None);
}

#[test]
fn the_suggestion_window_keeps_the_selection_in_view() {
    // Ten suggestions on a 10-row screen: five fit.
    assert_eq!(autocomplete_window(10, 0, 10), (0, 5, true));
    assert_eq!(autocomplete_window(10, 7, 10), (3, 5, true));
    assert_eq!(autocomplete_window(10, 9, 10), (5, 5, false));
    // A tiny screen still shows one.
    assert_eq!(autocomplete_window(3, 2, 1), (2, 1, false));
}

#[test]
fn the_suggestion_box_sits_under_the_last_tag_being_typed() {
    let frame = ScreenRect { x: 0, y: 0, width: 80, height: 24 };
    let entries = vec!["@alpha".to_string(), "@beta".to_string()];
    let area = autocomplete_area(frame, &entries, true, "go @al and @b", 13, 21);
    assert_eq!(area, ScreenRect { x: 11, y: 16, width: 11, height: 5 });
    let start = autocomplete_area(frame, &entries, false, "@a", 2, 21);
    assert_eq!(start.x, 2);
}

#[test]
fn suggestion_rows_show_the_pattern_then_the_rest() {
    let window = vec!["@alpha".to_string(), "@alps".to_string()];
    let rows = autocomplete_lines(&window, 0, 1, "@al", 10, true);
    assert_eq!(rows.len(), 3);
    let first: Vec<&str> = rows[0].iter().map(|s| s.content.as_str()).collect();
    assert_eq!(first, vec![" @al", "lpha"]);
    assert_eq!(rows[1][0].content, " @allps   ");
    assert!(rows[1][0].style.bold);
    assert_eq!(rows[2][0].content, " ...");
}

#[test]
fn save_status_follows_the_blinks() {
    let mut stats = SaveStats::new(0, "a.txt".to_string(), Color::Reset);
    stats.refresh(false, Some(Color::Black), Some(Color::Green));
    assert!(stats.is_saving());
    assert_eq!(stats.save_color(), Color::Black);
    stats.refresh(true, None, Some(Color::Green));
    assert_eq!(stats.save_color(), Color::Green);
    assert!(stats.is_recording());
    stats.refresh(false, None, None);
    assert!(!stats.is_saving());
    assert_eq!(stats.save_color(), Color::Reset);
}
