use scope_monitor::infra::typewriter::{rename_plan, RenamePlan, TypeWriter};
use scope_monitor::settings::{effective_capacity, effective_latency, effective_tag_file};
use scope_monitor::inputs::user_command::command_line_overflows;
use scope_monitor::interfaces::InterfaceType;
use scope_monitor::infra::backup::{backups_to_prune, MAX_BACKUP_FILES};
use scope_monitor::command_list::CommandList;
use scope_monitor::error_pop_up::ErrorPopUp;
use scope_monitor::graphics::ansi::Color;
use scope_monitor::graphics::headless::{level_visible, log_sgr, HeadlessState};
use scope_monitor::graphics::palette::Palette;
use scope_monitor::infra::blink::Blink;
use scope_monitor::infra::logger::{level_index, LogLevel};
use scope_monitor::infra::mpmc::Channel;
use scope_monitor::infra::timer::Timer;
use scope_monitor::list::{squash_serial_number, Alignment, Column, Table};
use std::sync::Arc;
use std::time::{Duration, Instant};

fn wait(d: Duration) {
    let start = Instant::now();
    while start.elapsed() < d {}
}

#[test]
fn columns_pad_to_their_widest_cell() {
    let mut column = Column::new("PID".to_string());
    column.add_field("1".to_string());
    column.add_field("12345".to_string());
    assert_eq!(column.max_size(), 5);
    assert_eq!(column.title(), "  PID");
    assert_eq!(column.get_field(0).as_deref(), Some("    1"));
    assert_eq!(column.get_field(2), None);
    column.set_alignment(Alignment::Left);
    assert_eq!(column.title(), "PID");
    assert_eq!(column.get_field(0).as_deref(), Some("1"));
}

#[test]
fn a_table_renders_its_title_row_then_every_row() {
    let mut table = Table::new(vec!["Port".to_string(), "Maker".to_string()]);
    table.add_row(vec!["/dev/ttyACM0".to_string(), "ACME".to_string()]);
    table.add_row(vec!["COM3".to_string(), "???".to_string()]);
    assert_eq!(table.number_of_rows(), 2);
    assert_eq!(
        table.render(),
        "\x1b[1;30m        Port | Maker\x1b[0m\r\n/dev/ttyACM0 | ACME\r\n        COM3 | ???\r\n"
    );
}

#[test]
fn long_serial_numbers_keep_their_tail() {
    assert_eq!(squash_serial_number("ABCDEF1234567890".to_string(), 13), "...1234567890");
    assert_eq!(squash_serial_number("short".to_string(), 13), "short");
    assert_eq!(squash_serial_number("0123456789".to_string(), 13), "0123456789");
}

#[test]
fn command_list_takes_the_new_parameters() {
    let mut list = CommandList::new();
    list.update_params(vec!["connect".to_string()], "co".to_string());
    list.clear();
}

#[test]
fn an_error_pop_up_keeps_its_message_and_is_fresh() {
    let pop = ErrorPopUp::new("boom".to_string());
    assert_eq!(pop.message(), "boom");
    assert!(!pop.is_timeout());
    assert_eq!(ErrorPopUp::TIMEOUT_MS, 5000);
}

#[test]
fn palette_picks_a_readable_foreground() {
    assert_eq!(Palette::fg(Color::Black), Color::White);
    assert_eq!(Palette::fg(Color::Yellow), Color::Black);
    assert_eq!(Palette::fg(Color::Reset), Color::Reset);
    assert_eq!(Palette::ascent_fg(Color::Reset, Color::Yellow), Color::Magenta);
    assert_eq!(Palette::ascent_fg(Color::Reset, Color::White), Color::Yellow);
    assert_eq!(Palette::ascent_fg(Color::Red, Color::White), Color::Blue);
}

#[test]
fn log_levels_are_ordered_by_severity() {
    assert_eq!(level_index(LogLevel::Error), 0);
    assert_eq!(level_index(LogLevel::Debug), 4);
    assert!(level_visible(LogLevel::Error, LogLevel::Warning));
    assert!(level_visible(LogLevel::Warning, LogLevel::Warning));
    assert!(!level_visible(LogLevel::Info, LogLevel::Warning));
    assert_eq!(log_sgr(LogLevel::Error), "\x1b[97;41m");
    assert_eq!(log_sgr(LogLevel::Debug), "\x1b[30;100m");
}

#[test]
fn headless_output_passes_through_in_raw_mode() {
    let mut state = HeadlessState::new(3_600_000);
    let out = state.step(
        true,
        "",
        0,
        &[b"abc".to_vec()],
        &[(LogLevel::Info, "note".to_string()), (LogLevel::Debug, "dbg".to_string())],
    );
    assert_eq!(out, b"abc\x1b[30;46mnote\x1b[0m\r\n\x1b[30;100mdbg\x1b[0m\r\n".to_vec());

    state.set_log_level(LogLevel::Warning);
    let out = state.step(true, "", 0, &[], &[(LogLevel::Info, "hidden".to_string())]);
    assert!(out.is_empty());
    assert_eq!(state.finish(), b"\r\n".to_vec());
}

#[test]
fn headless_holds_output_while_the_prompt_is_open() {
    let mut state = HeadlessState::new(3_600_000);
    let prompt = state.step(false, "ls", 2, &[b"late".to_vec()], &[]);
    assert_eq!(prompt, b"\r\x1b[2K\x1b[30;43m> ls\x1b[0m\r\x1b[5G".to_vec());
    let again = state.step(false, "ls", 2, &[b"more".to_vec()], &[]);
    assert!(again.is_empty());
    let released = state.step(true, "", 0, &[], &[]);
    assert_eq!(released, b"\r\x1b[2Klatemore".to_vec());
}

#[test]
fn a_timer_fires_once_after_its_period() {
    let mut timer = Timer::new(0);
    assert!(!timer.is_active());
    assert!(!timer.tick());
    timer.start();
    assert!(timer.is_active());
    wait(Duration::from_millis(2));
    assert!(timer.tick());
    assert!(!timer.is_active());
    assert!(!timer.tick());
}

#[test]
fn a_blink_starts_on_and_ends_off() {
    let mut blink = Blink::new(3, 2, 'X', ' ');
    assert_eq!(blink.get_current(), 'X');
    blink.start();
    let mut seen_off = false;
    for _ in 0..60 {
        wait(Duration::from_millis(1));
        blink.tick();
        seen_off |= blink.get_current() == ' ';
    }
    assert!(seen_off);
    assert_eq!(blink.get_current(), 'X');
}

#[test]
fn producers_reach_every_consumer_but_the_excluded_one() {
    let mut channel: Channel<u32> = Channel::new();
    let a = channel.new_consumer();
    let b = channel.new_consumer();
    assert_ne!(a.id(), b.id());
    let producer = Channel::new_producer(Arc::new(channel));
    producer.produce(7);
    assert_eq!(a.try_recv().ok(), Some(7));
    assert_eq!(b.try_recv().ok(), Some(7));
    producer.produce_without_loopback(8, a.id());
    assert!(a.try_recv().is_err());
    assert_eq!(b.recv().ok(), Some(8));
}

#[test]
fn the_oldest_backups_beyond_the_limit_are_pruned() {
    let others = vec![("a".to_string(), 5u64), ("b".to_string(), 1), ("c".to_string(), 3)];
    assert_eq!(backups_to_prune(others.clone(), 2), vec![("b".to_string(), 1), ("c".to_string(), 3)]);
    assert!(backups_to_prune(others, MAX_BACKUP_FILES).is_empty());
}

#[test]
fn flags_win_over_the_configuration_which_wins_over_defaults() {
    assert_eq!(effective_capacity(Some(5), Some(7)), 5);
    assert_eq!(effective_capacity(None, Some(7)), 7);
    assert_eq!(effective_capacity(None, None), 2000);
    assert_eq!(effective_tag_file(None, Some("x.yml".to_string())), "x.yml");
    assert_eq!(effective_tag_file(None, None), "tags.yml");
    assert_eq!(effective_latency(None), 100);
    assert_eq!(effective_latency(Some(500_000)), 100_000);
    assert_eq!(effective_latency(Some(0)), 0);
}

#[test]
fn a_baud_rate_that_does_not_fit_is_caught_before_parsing() {
    assert!(command_line_overflows("serial connect 99999999999", InterfaceType::Serial));
    assert!(command_line_overflows("connect COM1 99999999999", InterfaceType::Serial));
    assert!(!command_line_overflows("connect COM1 99999999999", InterfaceType::Rtt));
    assert!(!command_line_overflows("serial connect COM1 115200", InterfaceType::Serial));
}

fn expected_backup_dir() -> std::path::PathBuf {
    dirs::config_dir()
        .map(|dir| dir.join("scope").join("backup"))
        .unwrap_or_else(|| std::path::PathBuf::from("scope").join("backup"))
}

#[test]
fn backup_path_lives_under_the_config_dir() {
    let path = scope_monitor::infra::backup::backup_path("session.txt.bkp");
    let path = std::path::Path::new(&path);
    assert!(path.ends_with(std::path::Path::new("scope").join("backup").join("session.txt.bkp")));
}

#[test]
fn backup_path_cannot_escape_the_backup_dir() {
    let base = expected_backup_dir();
    for name in ["../../etc/evil.bkp", "/tmp/evil.bkp", "sub/dir/evil.bkp"] {
        let path = scope_monitor::infra::backup::backup_path(name);
        assert_eq!(std::path::Path::new(&path), base.join("evil.bkp"));
    }
}

#[test]
fn backup_path_in_a_given_config_dir() {
    let path = scope_monitor::infra::backup::backup_path_in(Some("/home/u/.config".to_string()), "../x/s.bkp");
    assert_eq!(std::path::Path::new(&path), std::path::Path::new("/home/u/.config/scope/backup/s.bkp"));
    let path = scope_monitor::infra::backup::backup_path_in(None, "s.bkp");
    assert_eq!(std::path::Path::new(&path), std::path::Path::new("scope/backup/s.bkp"));
}

#[test]
fn values_reach_every_consumer_but_the_skipped_one() {
    let mut ch: Channel<u32> = Channel::new();
    let c1 = ch.new_consumer();
    let c2 = ch.new_consumer();
    let c3 = ch.new_consumer();
    assert_eq!((c1.id(), c2.id(), c3.id()), (1, 2, 3));
    let p = Channel::new_producer(Arc::new(ch));
    assert_eq!(p.recipients(None), vec![0, 1, 2]);
    assert_eq!(p.recipients(Some(2)), vec![0, 2]);
    p.produce(7);
    p.produce(8);
    p.produce_without_loopback(9, 2);
    assert_eq!(c1.try_recv().ok(), Some(7));
    assert_eq!(c1.try_recv().ok(), Some(8));
    assert_eq!(c1.try_recv().ok(), Some(9));
    assert_eq!(c2.try_recv().ok(), Some(7));
    assert_eq!(c2.try_recv().ok(), Some(8));
    assert!(c2.try_recv().is_err());
    assert_eq!(c3.recv().ok(), Some(7));
    assert_eq!(c3.recv().ok(), Some(8));
    assert_eq!(c3.recv().ok(), Some(9));
}

#[test]
fn a_rename_never_overwrites_an_existing_file() {
    assert_eq!(rename_plan("a.txt", "a.txt", true, true), RenamePlan::Same);
    assert_eq!(rename_plan("a.txt", "b.txt", true, true), RenamePlan::Refuse);
    assert_eq!(rename_plan("a.txt", "b.txt", false, true), RenamePlan::Move);
    assert_eq!(rename_plan("a.txt", "b.txt", false, false), RenamePlan::Adopt);
}

#[test]
fn backup_lines_get_crlf_unless_they_end_a_line() {
    let mut backup = TypeWriter::new("s.txt.bkp".to_string());
    backup.add_lines(vec!["hello".to_string(), "already\n".to_string()]);
    assert_eq!(backup.take_contents(), "hello\r\nalready\n");
}

#[test]
fn a_timer_fires_exactly_when_its_period_has_passed() {
    let mut timer = Timer::new(100);
    assert!(!timer.tick_after(1000));
    timer.start();
    assert!(!timer.tick_after(99));
    assert!(timer.is_active());
    assert!(timer.tick_after(100));
    assert!(!timer.is_active());
    assert!(!timer.tick_after(100));
}

#[test]
fn a_pop_up_times_out_after_five_seconds() {
    assert!(!ErrorPopUp::timed_out(4999));
    assert!(ErrorPopUp::timed_out(5000));
    assert!(ErrorPopUp::timed_out(60_000));
    let p = ErrorPopUp::new("boom".to_string());
    assert!(!p.is_timeout());
}

#[test]
fn the_mouse_scrolls_clicks_and_drags() {
    use_mouse();
}

fn use_mouse() {
    let up = scope_monitor::inputs::inputs_task::mouse_command(
        scope_monitor::inputs::inputs_task::MouseKind::ScrollUp,
        false,
        0,
        0,
    );
    assert!(matches!(up, Some(scope_monitor::graphics::graphics_task::GraphicsCommand::ScrollUp)));
    let left = scope_monitor::inputs::inputs_task::mouse_command(
        scope_monitor::inputs::inputs_task::MouseKind::ScrollUp,
        true,
        0,
        0,
    );
    assert!(matches!(left, Some(scope_monitor::graphics::graphics_task::GraphicsCommand::ScrollLeft)));
    match scope_monitor::inputs::inputs_task::mouse_command(
        scope_monitor::inputs::inputs_task::MouseKind::LeftDrag,
        false,
        7,
        3,
    ) {
        Some(scope_monitor::graphics::graphics_task::GraphicsCommand::Move(p)) => assert_eq!((p.x, p.y), (7, 3)),
        _ => panic!("expected a move"),
    }
    assert!(scope_monitor::inputs::inputs_task::mouse_command(
        scope_monitor::inputs::inputs_task::MouseKind::Other,
        false,
        1,
        1
    )
    .is_none());
}
