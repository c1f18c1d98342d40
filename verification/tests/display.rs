use scope_monitor::graphics::buffer::{BufferLine, LineIds};
use scope_monitor::graphics::display::{sort_by_timestamp, Display, FilterChange};
use scope_monitor::graphics::graphics_task::{log_message_lines, GraphicsCommand};
use scope_monitor::graphics::screen::{ScreenMode, ScreenRect};
use scope_monitor::infra::logger::LogLevel;

fn rx(ids: &mut LineIds, ts: i64, text: &str) -> BufferLine<Vec<u8>> {
    BufferLine::new_rx(ids, ts, text.as_bytes().to_vec())
}

fn shown(display: &Display) -> Vec<String> {
    display
        .buffer
        .iter()
        .iter()
        .map(|line| String::from_utf8_lossy(&line.message).to_string())
        .collect()
}

#[test]
fn log_messages_are_split_indented_and_cleaned() {
    assert_eq!(log_message_lines("a\nb"), vec!["a\r\n".to_string(), "  b".to_string()]);
    assert_eq!(
        log_message_lines("x\r\ty\n\nz\n"),
        vec!["x    y\r\n".to_string(), "  z\r\n".to_string()]
    );
    assert!(log_message_lines("\n\n").is_empty());
}

#[test]
fn sorting_orders_by_time_and_keeps_ties_in_order() {
    let mut ids = LineIds::new();
    let lines = vec![rx(&mut ids, 3, "c"), rx(&mut ids, 1, "a1"), rx(&mut ids, 2, "b"), rx(&mut ids, 1, "a2")];
    let sorted = sort_by_timestamp(lines);
    let texts: Vec<&[u8]> = sorted.iter().map(|l| l.message.as_slice()).collect();
    assert_eq!(texts, vec![&b"a1"[..], b"a2", b"b", b"c"]);
}

#[test]
fn ingesting_fills_both_histories_in_time_order() {
    let mut ids = LineIds::new();
    let mut display = Display::new(10);
    let saved = display.ingest(vec![rx(&mut ids, 20, "second"), rx(&mut ids, 10, "first")], "", true, false);
    assert_eq!(saved.len(), 2);
    assert!(saved[0].ends_with("[ <=] first"));
    assert!(saved[1].ends_with("[ <=] second"));
    assert_eq!(shown(&display), vec!["first", "second"]);
    assert_eq!(display.full_buffer.len(), 2);
}

#[test]
fn a_filter_hides_lines_and_clearing_it_brings_them_back() {
    let mut ids = LineIds::new();
    let mut display = Display::new(10);
    display.ingest(
        vec![rx(&mut ids, 1, "ok 1"), rx(&mut ids, 2, "error 2"), rx(&mut ids, 3, "ok 3")],
        "",
        true,
        false,
    );

    assert_eq!(display.set_filter("error", false, "", true, false), FilterChange::Showing);
    assert_eq!(shown(&display), vec!["error 2"]);

    assert_eq!(display.set_filter("error", true, "", true, false), FilterChange::Muting);
    assert_eq!(shown(&display), vec!["ok 1", "ok 3"]);

    assert_eq!(display.set_filter("", true, "", true, false), FilterChange::MutedAll);
    assert!(shown(&display).is_empty());

    assert_eq!(display.set_filter("", false, "", true, false), FilterChange::Cleared);
    assert_eq!(shown(&display), vec!["ok 1", "error 2", "ok 3"]);
    assert_eq!(display.full_buffer.len(), 3);
}

#[test]
fn an_invalid_filter_changes_nothing() {
    let mut ids = LineIds::new();
    let mut display = Display::new(10);
    display.ingest(vec![rx(&mut ids, 1, "a")], "", true, false);
    match display.set_filter("(", false, "", true, false) {
        FilterChange::Invalid(message) => assert!(!message.is_empty()),
        other => panic!("unexpected {other:?}"),
    }
    assert_eq!(shown(&display), vec!["a"]);
}

#[test]
fn new_lines_are_searched_and_the_first_hit_shown() {
    let mut ids = LineIds::new();
    let mut display = Display::new(50);
    display.screen.set_size(ScreenRect { x: 0, y: 0, width: 80, height: 10 }, 0);
    display.screen.change_mode_to_search("hit".to_string(), true, false);
    let mut lines = Vec::new();
    for i in 0..30 {
        let text = if i == 20 { "a hit here".to_string() } else { format!("line {i}") };
        lines.push(rx(&mut ids, i, &text));
    }
    display.ingest(lines, "hit", true, false);
    assert_eq!(display.screen.search_indexes(), Some((0, 1)));
    // The hit is on line 20: centred, 4 rows below the top of the view.
    assert_eq!(display.screen.position.line, 16);
    assert_eq!(display.screen.position.column, 0);
    assert!(!display.screen.auto_scroll);
    if let ScreenMode::Search { entries, .. } = &display.screen.mode {
        assert_eq!(entries[0].position.line, 20);
        assert_eq!(entries[0].position.column, 2);
    } else {
        panic!("not searching");
    }
}

#[test]
fn scrolling_up_stops_following_and_jumping_to_the_end_resumes() {
    let mut ids = LineIds::new();
    let mut display = Display::new(50);
    display.screen.set_size(ScreenRect { x: 0, y: 0, width: 80, height: 10 }, 0);
    let lines = (0..30).map(|i| rx(&mut ids, i, "x")).collect();
    display.ingest(lines, "", true, false);
    assert_eq!(display.max_main_axis(), 22);
    assert_eq!(display.screen.position.line, 22);
    assert!(display.screen.auto_scroll);

    assert!(display.handle_view_command(&GraphicsCommand::ScrollUp));
    assert_eq!(display.screen.position.line, 19);
    assert!(!display.screen.auto_scroll);

    assert!(display.handle_view_command(&GraphicsCommand::PageUp));
    assert_eq!(display.screen.position.line, 14);

    assert!(display.handle_view_command(&GraphicsCommand::JumpToEnd));
    assert_eq!(display.screen.position.line, 22);
    assert!(display.screen.auto_scroll);

    assert!(display.handle_view_command(&GraphicsCommand::JumpToStart));
    assert_eq!(display.screen.position.line, 0);
    assert!(!display.screen.auto_scroll);
}

#[test]
fn commands_that_need_files_are_left_to_the_caller() {
    let mut display = Display::new(5);
    assert!(!display.handle_view_command(&GraphicsCommand::SaveData));
    assert!(!display.handle_view_command(&GraphicsCommand::Exit));
    assert!(display.handle_view_command(&GraphicsCommand::SetLogLevel(LogLevel::Error)));
    assert_eq!(display.system_log_level, LogLevel::Error);
}

#[test]
fn clearing_empties_both_histories() {
    let mut ids = LineIds::new();
    let mut display = Display::new(5);
    display.ingest(vec![rx(&mut ids, 1, "a")], "", true, false);
    assert!(display.handle_view_command(&GraphicsCommand::Clear));
    assert_eq!(display.buffer.len(), 0);
    assert_eq!(display.full_buffer.len(), 0);
}
