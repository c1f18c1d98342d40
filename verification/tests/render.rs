use scope_monitor::graphics::ansi::Color;
use scope_monitor::graphics::buffer::{Buffer, BufferLine, BufferPosition, LineIds};
use scope_monitor::graphics::graphics_task::SaveStats;
use scope_monitor::graphics::palette::Palette;
use scope_monitor::graphics::render::{
    block_title, crop, highlight_special_characters, render_screen_lines, reverse_backward_span,
    reverse_content, reverse_forward_span, reversed_middle_span, search_line, timestamp_line, Span, Style,
};
use scope_monitor::graphics::screen::{Screen, ScreenMode, ScreenRect, SearchHit};
use scope_monitor::graphics::selection::Selection;
use scope_monitor::infra::logger::LogLevel;

fn span(text: &str, style: Style) -> Span {
    Span { content: text.to_string(), style }
}

fn parts(spans: &[Span]) -> Vec<(String, bool)> {
    spans.iter().map(|s| (s.content.clone(), s.style.reversed)).collect()
}

fn texts(spans: &[Span]) -> Vec<String> {
    spans.iter().map(|s| s.content.clone()).collect()
}

#[test]
fn reversing_from_a_column_splits_the_span() {
    let out = reverse_forward_span(span("abcdef", Style::plain()), 0, 2);
    assert_eq!(parts(&out), vec![("ab".to_string(), false), ("cdef".to_string(), true)]);
    let out = reverse_forward_span(span("abc", Style::plain()), 5, 2);
    assert_eq!(parts(&out), vec![("abc".to_string(), true)]);
}

#[test]
fn reversing_up_to_a_column_splits_the_span() {
    let out = reverse_backward_span(span("abcdef", Style::plain()), 0, 2);
    assert_eq!(parts(&out), vec![("ab".to_string(), true), ("cdef".to_string(), false)]);
    let out = reverse_backward_span(span("abc", Style::plain()), 0, 9);
    assert_eq!(parts(&out), vec![("abc".to_string(), true)]);
}

#[test]
fn reversing_a_middle_part_splits_the_span_in_three() {
    let out = reversed_middle_span(span("abcdef", Style::plain()), 0, 1, 3);
    assert_eq!(
        parts(&out),
        vec![("a".to_string(), false), ("bc".to_string(), true), ("def".to_string(), false)]
    );
    let out = reversed_middle_span(span("abc", Style::plain()), 10, 1, 3);
    assert_eq!(parts(&out), vec![("abc".to_string(), false)]);
}

#[test]
fn a_one_line_selection_reverses_across_spans_and_keeps_the_text() {
    let content = vec![span("abc", Style::plain()), span("def", Style::plain())];
    let selection = Selection::new(BufferPosition { line: 4, column: 2 }, BufferPosition { line: 4, column: 4 });
    let out = reverse_content(content, Some(selection), 4);
    assert_eq!(texts(&out).concat(), "abcdef");
    let reversed: String = out.iter().filter(|s| s.style.reversed).map(|s| s.content.clone()).collect();
    assert_eq!(reversed, "cd");
    let untouched = reverse_content(vec![span("abc", Style::plain())], Some(selection), 7);
    assert_eq!(parts(&untouched), vec![("abc".to_string(), false)]);
}

#[test]
fn escaped_control_bytes_are_set_off() {
    let out = highlight_special_characters(span("a\\nb\\x1Fc\\xZZ", Style::plain()));
    assert_eq!(texts(&out), vec!["a", "\\n", "b", "\\x1F", "c\\xZZ"]);
    let accent = Palette::ascent_fg(Color::Reset, Color::Reset);
    assert_eq!(out[1].style.fg, Some(accent));
    assert_eq!(out[0].style.fg, None);
    // A plus sign reads as the sign of a hexadecimal byte.
    let out = highlight_special_characters(span("\\x+f", Style::plain()));
    assert_eq!(texts(&out), vec!["\\x+f"]);
    assert_eq!(out[0].style.fg, Some(accent));
}

#[test]
fn current_bookmark_is_highlighted_apart_from_other_bookmarks() {
    let style_of = |is_bookmarked, is_current| timestamp_line(0, false, is_bookmarked, is_current)[0].style;

    let plain = style_of(false, false);
    assert_eq!(plain.bg, None);
    assert_eq!(plain.fg, Some(Color::DarkGray));

    let other = style_of(true, false);
    assert_eq!(other.bg, None);
    assert_eq!(other.fg, Some(Color::Yellow));

    let current = style_of(true, true);
    assert_eq!(current.bg, Some(Color::Yellow));
    assert_eq!(current.fg, Some(Color::Black));
}

#[test]
fn a_selected_line_has_a_reversed_timestamp() {
    let line = timestamp_line(0, true, false, false);
    assert_eq!(line[0].style.bg, Some(Color::White));
    assert_eq!(line[0].content.chars().count(), 12);
    assert_eq!(line[1].content, " ");
}

#[test]
fn search_hits_are_highlighted_and_the_rest_dimmed() {
    let mut screen = Screen::default();
    screen.change_mode_to_search("ab".to_string(), true, false);
    let out = search_line(&screen.mode, "xxabyy".to_string(), 7);
    assert_eq!(texts(&out), vec!["xx", "ab", "yy"]);
    assert_eq!(out[0].style.fg, Some(Color::DarkGray));
    assert_eq!(out[1].style.fg, Some(Color::Yellow));

    screen.mode.add_entry(SearchHit { position: BufferPosition { line: 0, column: 2 }, line_id: 7 });
    let chosen = search_line(&screen.mode, "xxabyy".to_string(), 7);
    assert_eq!(chosen[1].style.bg, Some(Color::Yellow));
    assert_eq!(chosen[1].style.fg, Some(Color::Black));

    let none = search_line(&screen.mode, "nothing".to_string(), 7);
    assert_eq!(texts(&none), vec!["nothing"]);
    assert!(matches!(screen.mode, ScreenMode::Search { .. }));
}

#[test]
fn cropping_keeps_the_timestamp_and_cuts_the_text() {
    let line = vec![
        span("12:00:00.000", Style::plain()),
        span(" ", Style::plain()),
        span("hello ", Style::plain()),
        span("world!", Style::plain()),
    ];
    // 21 columns less the timestamp and four more leave five.
    let out = crop(line, 6, 21);
    assert_eq!(texts(&out), vec!["12:00:00.000", " ", "world"]);
}

#[test]
fn the_title_pads_the_line_count() {
    let mut stats = SaveStats::new(0, "session.txt".to_string(), Color::Reset);
    assert_eq!(block_title(7, scope_monitor::graphics::screen::ScreenDecoder::Ascii, &stats), "[007][ASCII] session.txt");
    stats.refresh(true, None, None);
    assert_eq!(block_title(1234, scope_monitor::graphics::screen::ScreenDecoder::Utf8, &stats), "[1234][UTF-8] ◉ session.txt");
}

#[test]
fn the_screen_draws_the_lines_in_view_at_the_log_level() {
    let mut ids = LineIds::new();
    let mut buffer = Buffer::new(10);
    buffer.push_line(BufferLine::new_rx(&mut ids, 0, b"first".to_vec()));
    buffer.push_line(BufferLine::new_log(&mut ids, 0, LogLevel::Debug, b"debug".to_vec()));
    buffer.push_line(BufferLine::new_tx(&mut ids, 0, b"sent".to_vec()));
    let mut screen = Screen::default();
    screen.set_size(ScreenRect { x: 0, y: 0, width: 80, height: 10 }, buffer.len());

    let all = render_screen_lines(&screen, &buffer, LogLevel::Debug);
    assert_eq!(all.len(), 3);
    assert_eq!(all[2][2].content, "sent");
    assert_eq!(all[2][2].style.bg, Some(Color::White));

    let quiet = render_screen_lines(&screen, &buffer, LogLevel::Info);
    assert_eq!(quiet.len(), 2);
    assert_eq!(quiet[1][2].content, "sent");
}
