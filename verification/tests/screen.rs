use scope_monitor::graphics::buffer::{Buffer, BufferLine, BufferPosition, LineIds};
use scope_monitor::graphics::screen::{
    regex_columns_exec, Screen, ScreenMode, ScreenPosition, ScreenRect, SearchHit, SearchMatcher,
};
use scope_monitor::graphics::selection::Selection;

/// A full buffer of `n` lines labelled `L000`, `L001`, ...
fn full_buffer(ids: &mut LineIds, n: usize) -> Buffer {
    let mut buffer = Buffer::new(n.max(1));
    for i in 0..n {
        buffer.push_line(BufferLine::new_rx(ids, 0, format!("L{i:03}").into_bytes()));
    }
    buffer
}

fn push(ids: &mut LineIds, buffer: &mut Buffer, text: &str) {
    buffer.push_line(BufferLine::new_rx(ids, 0, text.as_bytes().to_vec()));
}

fn line_ids(buffer: &Buffer) -> Vec<u64> {
    buffer.iter().iter().map(|line| line.id).collect()
}

fn sized_screen(buffer: &Buffer, height: u16) -> Screen {
    let mut screen = Screen::default();
    screen.set_size(ScreenRect { x: 0, y: 0, width: 80, height }, buffer.len());
    screen
}

fn screen_on(buffer: &Buffer, height: u16) -> Screen {
    let mut screen = sized_screen(buffer, height);
    screen.update_after_new_lines(buffer);
    screen
}

fn visible(screen: &Screen, buffer: &Buffer) -> Vec<String> {
    let start = screen.position.line;
    let rows = screen.size.height.saturating_sub(2) as usize;
    buffer
        .get_range(start, start + rows)
        .iter()
        .map(|line| String::from_utf8_lossy(&line.message).to_string())
        .collect()
}

fn hit(line: usize, line_id: u64) -> SearchHit {
    SearchHit { position: BufferPosition { line, column: 0 }, line_id }
}

fn searching_on(current: usize, hits: &[SearchHit]) -> Screen {
    let mut screen = Screen::default();
    screen.change_mode_to_search("x".to_string(), true, false);
    for hit in hits {
        screen.mode_mut().add_entry(*hit);
    }
    if let ScreenMode::Search { current: c, .. } = screen.mode_mut() {
        *c = current;
    }
    screen
}

#[test]
fn plain_case_sensitive_finds_all_occurrences() {
    let matcher = SearchMatcher::build("ab", true, false);
    assert_eq!(matcher.matches("ab_ab_AB"), vec![(0, 2), (3, 2)]);
}

#[test]
fn plain_case_insensitive_matches_regardless_of_case() {
    let matcher = SearchMatcher::build("ab", false, false);
    assert_eq!(matcher.matches("ab_ab_AB"), vec![(0, 2), (3, 2), (6, 2)]);
}

#[test]
fn columns_are_character_offsets_not_bytes() {
    let matcher = SearchMatcher::build("X", true, false);
    assert_eq!(matcher.matches("áXbX"), vec![(1, 1), (3, 1)]);
}

#[test]
fn regex_matches_pattern_with_char_columns_and_lengths() {
    let matcher = SearchMatcher::build(r"\d+", true, true);
    assert_eq!(matcher.matches("ab12cde345"), vec![(2, 2), (7, 3)]);
}

#[test]
fn regex_case_insensitive_flag_is_honored() {
    let sensitive = SearchMatcher::build("ERR", true, true);
    assert!(sensitive.matches("an err happened").is_empty());

    let insensitive = SearchMatcher::build("ERR", false, true);
    assert_eq!(insensitive.matches("an err happened"), vec![(3, 3)]);
}

#[test]
fn regex_anchor_matches_only_at_line_start() {
    let matcher = SearchMatcher::build("^ab", true, true);
    assert_eq!(matcher.matches("abcab"), vec![(0, 2)]);
    assert!(matcher.matches("xabcab").is_empty());
}

#[test]
fn regex_zero_width_matches_are_skipped() {
    let matcher = SearchMatcher::build("a*", true, true);
    assert_eq!(matcher.matches("baa"), vec![(1, 2)]);
}

#[test]
fn invalid_regex_matches_nothing() {
    let matcher = SearchMatcher::build("(unclosed", true, true);
    assert!(matcher.is_empty());
    assert!(matcher.matches("(unclosed group here").is_empty());
}

#[test]
fn empty_query_matches_nothing() {
    assert!(SearchMatcher::build("", false, false).is_empty());
    assert!(SearchMatcher::build("", false, true).is_empty());
}

#[test]
fn regex_columns_count_characters_of_multibyte_text() {
    // "é" takes two bytes and "€" three: the byte spans (2, 3) and (6, 7)
    // fall on the characters at columns 1 and 3.
    let line: Vec<char> = "éx€y".chars().collect();
    assert_eq!(regex_columns_exec(&line, &[(2, 3), (6, 7), (4, 4)]), vec![(1, 1), (3, 1)]);
    let matcher = SearchMatcher::build("[xy]", true, true);
    assert_eq!(matcher.matches("éx€y"), vec![(1, 1), (3, 1)]);
}

#[test]
fn a_frozen_viewport_keeps_showing_the_same_lines() {
    let mut ids = LineIds::new();
    let mut buffer = full_buffer(&mut ids, 20);
    let mut screen = screen_on(&buffer, 9);
    assert!(screen.auto_scroll);

    screen.scroll_vertical(-8, 13);
    assert!(!screen.auto_scroll);
    let frozen = visible(&screen, &buffer);
    assert_eq!(frozen.first().unwrap(), "L005");

    for text in ["N1", "N2", "N3"] {
        push(&mut ids, &mut buffer, text);
    }
    screen.update_after_new_lines(&buffer);

    assert_eq!(visible(&screen, &buffer), frozen);
    assert_eq!(screen.position.line, 2);
}

#[test]
fn auto_scroll_still_follows_the_bottom_through_evictions() {
    let mut ids = LineIds::new();
    let mut buffer = full_buffer(&mut ids, 20);
    let mut screen = screen_on(&buffer, 9);

    push(&mut ids, &mut buffer, "N1");
    screen.update_after_new_lines(&buffer);

    assert!(screen.auto_scroll);
    assert_eq!(visible(&screen, &buffer).last().unwrap(), "N1");
}

#[test]
fn the_top_of_the_history_is_the_floor() {
    let mut ids = LineIds::new();
    let mut buffer = full_buffer(&mut ids, 20);
    let mut screen = screen_on(&buffer, 9);
    screen.disable_auto_scroll();
    screen.jump_to_start();

    push(&mut ids, &mut buffer, "N1");
    screen.update_after_new_lines(&buffer);

    assert_eq!(screen.position.line, 0);
    assert_eq!(visible(&screen, &buffer).first().unwrap(), "L001");
}

#[test]
fn a_selection_slides_with_the_content() {
    let mut ids = LineIds::new();
    let mut buffer = full_buffer(&mut ids, 20);
    let mut screen = screen_on(&buffer, 9);
    screen.selection = Some(Selection::new(
        BufferPosition { line: 10, column: 1 },
        BufferPosition { line: 12, column: 4 },
    ));

    push(&mut ids, &mut buffer, "N1");
    screen.update_after_new_lines(&buffer);

    let selection = screen.selection.expect("the selection is still valid");
    assert_eq!(selection.start, BufferPosition { line: 9, column: 1 });
    assert_eq!(selection.end, BufferPosition { line: 11, column: 4 });
}

#[test]
fn a_selection_whose_lines_are_all_evicted_is_dropped() {
    let mut ids = LineIds::new();
    let mut buffer = full_buffer(&mut ids, 20);
    let mut screen = screen_on(&buffer, 9);
    screen.selection = Some(Selection::new(
        BufferPosition { line: 0, column: 0 },
        BufferPosition { line: 1, column: 2 },
    ));

    for text in ["N1", "N2", "N3"] {
        push(&mut ids, &mut buffer, text);
    }
    screen.update_after_new_lines(&buffer);

    assert!(screen.selection.is_none());
}

#[test]
fn clearing_resets_the_eviction_bookkeeping() {
    let mut ids = LineIds::new();
    let mut buffer = full_buffer(&mut ids, 20);
    let mut screen = screen_on(&buffer, 9);
    push(&mut ids, &mut buffer, "N1");
    screen.update_after_new_lines(&buffer);
    assert_eq!(screen.evicted_seen, 1);

    buffer.clear();
    screen.clear();

    assert_eq!(screen.evicted_seen, 0);
    assert_eq!(buffer.evicted(), 0);
}

#[test]
fn a_rescan_stays_on_the_same_hit_after_the_lines_slid_up() {
    let mut screen = searching_on(1, &[hit(4, 104), hit(9, 109), hit(15, 115)]);

    let previous = screen.mode_mut().take_hits_for_rescan();
    assert_eq!(screen.search_indexes(), Some((1, 0)));

    for h in [hit(1, 104), hit(6, 109), hit(12, 115)] {
        screen.mode_mut().add_entry(h);
    }
    screen.mode_mut().restore_current(previous);

    assert_eq!(screen.search_indexes(), Some((1, 3)));
}

#[test]
fn new_hits_appended_below_do_not_move_the_position() {
    let mut screen = searching_on(1, &[hit(4, 104), hit(9, 109)]);

    let previous = screen.mode_mut().take_hits_for_rescan();
    for h in [hit(4, 104), hit(9, 109), hit(20, 130)] {
        screen.mode_mut().add_entry(h);
    }
    screen.mode_mut().restore_current(previous);

    assert_eq!(screen.search_indexes(), Some((1, 3)));
}

#[test]
fn a_hit_scrolled_out_of_the_history_falls_to_the_next_one_in_time() {
    let mut screen = searching_on(0, &[hit(0, 104), hit(5, 109)]);

    let previous = screen.mode_mut().take_hits_for_rescan();
    for h in [hit(2, 109), hit(8, 115)] {
        screen.mode_mut().add_entry(h);
    }
    screen.mode_mut().restore_current(previous);

    assert_eq!(screen.search_indexes(), Some((0, 2)));
}

#[test]
fn a_hit_past_the_end_of_the_new_list_falls_back_to_the_first() {
    let mut screen = searching_on(1, &[hit(0, 104), hit(5, 109)]);

    let previous = screen.mode_mut().take_hits_for_rescan();
    screen.mode_mut().add_entry(hit(0, 100));
    screen.mode_mut().restore_current(previous);

    assert_eq!(screen.search_indexes(), Some((0, 1)));
}

#[test]
fn a_rescan_that_finds_nothing_leaves_a_valid_position() {
    let mut screen = searching_on(1, &[hit(0, 104), hit(5, 109)]);

    let previous = screen.mode_mut().take_hits_for_rescan();
    screen.mode_mut().restore_current(previous);

    assert_eq!(screen.search_indexes(), Some((0, 0)));
}

#[test]
fn an_empty_query_is_not_worth_rescanning() {
    let mut screen = Screen::default();
    assert!(!screen.is_searching());

    screen.change_mode_to_search(String::new(), true, false);
    assert!(!screen.is_searching());

    screen.change_mode_to_search("x".to_string(), true, false);
    assert!(screen.is_searching());
}

#[test]
fn an_invalid_regex_query_is_not_searching() {
    let mut screen = Screen::default();
    screen.change_mode_to_search("(".to_string(), true, true);
    assert!(!screen.is_searching());
    screen.change_mode_to_search("(a)".to_string(), true, true);
    assert!(screen.is_searching());
}

#[test]
fn right_click_toggles_the_line_under_the_cursor() {
    let mut line_ids_gen = LineIds::new();
    let buffer = full_buffer(&mut line_ids_gen, 5);
    let ids = line_ids(&buffer);
    let mut screen = sized_screen(&buffer, 10);

    screen.toggle_bookmark(&buffer, ScreenPosition { x: 0, y: 3 });
    assert!(screen.bookmarks.contains(&ids[2]));

    screen.toggle_bookmark(&buffer, ScreenPosition { x: 0, y: 3 });
    assert!(!screen.bookmarks.contains(&ids[2]));
}

#[test]
fn clicks_off_the_content_are_ignored() {
    let mut line_ids_gen = LineIds::new();
    let buffer = full_buffer(&mut line_ids_gen, 5);
    let mut screen = sized_screen(&buffer, 10);

    screen.toggle_bookmark(&buffer, ScreenPosition { x: 0, y: 0 });
    screen.toggle_bookmark(&buffer, ScreenPosition { x: 0, y: 50 });

    assert!(screen.bookmarks.is_empty());
}

#[test]
fn removing_the_current_bookmark_forgets_it() {
    let mut line_ids_gen = LineIds::new();
    let buffer = full_buffer(&mut line_ids_gen, 5);
    let ids = line_ids(&buffer);
    let mut screen = sized_screen(&buffer, 10);

    screen.toggle_bookmark(&buffer, ScreenPosition { x: 0, y: 3 });
    screen.current_bookmark = Some(ids[2]);

    screen.toggle_bookmark(&buffer, ScreenPosition { x: 0, y: 3 });
    assert_eq!(screen.current_bookmark, None);
}

#[test]
fn clear_drops_all_bookmarks() {
    let mut line_ids_gen = LineIds::new();
    let buffer = full_buffer(&mut line_ids_gen, 5);
    let mut screen = sized_screen(&buffer, 10);
    screen.toggle_bookmark(&buffer, ScreenPosition { x: 0, y: 3 });
    screen.current_bookmark = Some(0);

    screen.clear();

    assert!(screen.bookmarks.is_empty());
    assert_eq!(screen.current_bookmark, None);
}

#[test]
fn a_rebuilt_buffer_keeps_bookmarks_but_re_anchors_the_viewport() {
    let mut line_ids_gen = LineIds::new();
    let buffer = full_buffer(&mut line_ids_gen, 5);
    let ids = line_ids(&buffer);
    let mut screen = sized_screen(&buffer, 10);
    screen.toggle_bookmark(&buffer, ScreenPosition { x: 0, y: 3 });
    screen.current_bookmark = Some(ids[2]);
    screen.disable_auto_scroll();
    screen.selection = Some(Selection::new(
        BufferPosition { line: 1, column: 0 },
        BufferPosition { line: 2, column: 1 },
    ));
    screen.evicted_seen = 7;

    screen.rebase_on_rebuilt_buffer();

    assert!(screen.bookmarks.contains(&ids[2]));
    assert_eq!(screen.current_bookmark, Some(ids[2]));
    assert!(screen.auto_scroll);
    assert!(screen.selection.is_none());
    assert_eq!(screen.evicted_seen, 0);
}

#[test]
fn next_index_without_current_anchors_to_the_viewport() {
    let positions = [(2, 100), (10, 101), (18, 102)];

    assert_eq!(Screen::next_bookmark_index(&positions, None, 4, true), Some(1));
    assert_eq!(Screen::next_bookmark_index(&positions, None, 4, false), Some(0));
    assert_eq!(Screen::next_bookmark_index(&positions, None, 100, true), Some(0));
    assert_eq!(Screen::next_bookmark_index(&positions, None, 0, false), Some(2));
}

#[test]
fn next_index_steps_and_wraps_from_the_current_bookmark() {
    let positions = [(2, 100), (10, 101), (18, 102)];

    assert_eq!(Screen::next_bookmark_index(&positions, Some(101), 999, true), Some(2));
    assert_eq!(Screen::next_bookmark_index(&positions, Some(102), 999, true), Some(0));
    assert_eq!(Screen::next_bookmark_index(&positions, Some(100), 999, false), Some(2));
}

#[test]
fn next_index_falls_back_to_anchor_when_current_is_gone() {
    let positions = [(2, 100), (10, 101), (18, 102)];
    assert_eq!(Screen::next_bookmark_index(&positions, Some(999), 4, true), Some(1));
}

#[test]
fn next_index_is_none_when_there_are_no_bookmarks() {
    assert_eq!(Screen::next_bookmark_index(&[], None, 4, true), None);
    assert_eq!(Screen::next_bookmark_index(&[], Some(1), 4, false), None);
}

#[test]
fn navigation_cycles_through_bookmarks_by_id() {
    let mut line_ids_gen = LineIds::new();
    let buffer = full_buffer(&mut line_ids_gen, 20);
    let ids = line_ids(&buffer);
    let mut screen = sized_screen(&buffer, 10);
    for line in [2usize, 10, 18] {
        screen.add_bookmark(ids[line]);
    }
    let max_main_axis = buffer.len().saturating_sub(8);

    screen.jump_to_next_bookmark(&buffer, max_main_axis);
    assert_eq!(screen.current_bookmark, Some(ids[10]));

    screen.jump_to_next_bookmark(&buffer, max_main_axis);
    assert_eq!(screen.current_bookmark, Some(ids[18]));

    screen.jump_to_next_bookmark(&buffer, max_main_axis);
    assert_eq!(screen.current_bookmark, Some(ids[2]));

    screen.jump_to_previous_bookmark(&buffer, max_main_axis);
    assert_eq!(screen.current_bookmark, Some(ids[18]));
}

#[test]
fn navigation_is_a_no_op_without_bookmarks() {
    let mut line_ids_gen = LineIds::new();
    let buffer = full_buffer(&mut line_ids_gen, 20);
    let mut screen = sized_screen(&buffer, 10);
    let max_main_axis = buffer.len().saturating_sub(8);

    screen.jump_to_next_bookmark(&buffer, max_main_axis);
    assert_eq!(screen.current_bookmark, None);
}

#[test]
fn a_bookmark_jump_centres_its_line_and_stops_following() {
    let mut line_ids_gen = LineIds::new();
    let buffer = full_buffer(&mut line_ids_gen, 20);
    let ids = line_ids(&buffer);
    let mut screen = sized_screen(&buffer, 10);
    screen.add_bookmark(ids[10]);
    assert_eq!(screen.bookmark_positions(&buffer), vec![(10, ids[10])]);

    screen.jump_to_next_bookmark(&buffer, 12);
    // 8 content rows: the centre row is 4, so line 10 shows from line 6.
    assert_eq!(screen.position.line, 6);
    assert_eq!(screen.position.column, 0);
    assert!(!screen.auto_scroll);
}

#[test]
fn search_navigation_wraps_around_the_hits() {
    let mut screen = searching_on(0, &[hit(4, 104), hit(30, 130)]);
    screen.set_size(ScreenRect { x: 0, y: 0, width: 80, height: 10 }, 40);
    screen.jump_to_next_search(32);
    assert_eq!(screen.search_indexes(), Some((1, 2)));
    assert_eq!(screen.position.line, 26);
    screen.jump_to_next_search(32);
    assert_eq!(screen.search_indexes(), Some((0, 2)));
    assert_eq!(screen.position.line, 0);
    screen.jump_to_previous_search(32);
    assert_eq!(screen.search_indexes(), Some((1, 2)));
}

#[test]
fn scrolling_sideways_never_goes_before_the_first_column() {
    let mut screen = Screen::default();
    screen.scroll_horizontal(5, 0);
    assert_eq!(screen.position.column, 5);
    assert!(!screen.auto_scroll);
    screen.scroll_horizontal(-9, 0);
    assert_eq!(screen.position.column, 0);
    assert!(screen.auto_scroll);
}

#[test]
fn a_selection_maps_screen_cells_to_buffer_positions() {
    let mut screen = Screen::default();
    screen.set_selection(ScreenPosition { x: 16, y: 3 });
    screen.set_selection_end(ScreenPosition { x: 20, y: 5 });
    let selection = screen.selection().unwrap();
    assert_eq!(selection.start, BufferPosition { line: 2, column: 2 });
    assert_eq!(selection.end, BufferPosition { line: 4, column: 6 });
}
