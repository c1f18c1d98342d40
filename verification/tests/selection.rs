use scope_monitor::graphics::buffer::BufferPosition;
use scope_monitor::graphics::selection::{Selection, SelectionPosition};

fn pos(line: usize, column: usize) -> BufferPosition {
    BufferPosition { line, column }
}

#[test]
fn shift_up_moves_both_endpoints() {
    let mut selection = Selection::new(pos(10, 3), pos(12, 7));

    assert!(selection.shift_up(4));

    assert_eq!(selection.start, pos(6, 3));
    assert_eq!(selection.end, pos(8, 7));
}

#[test]
fn shift_up_by_zero_is_a_noop() {
    let mut selection = Selection::new(pos(10, 3), pos(12, 7));

    assert!(selection.shift_up(0));

    assert_eq!(selection.start, pos(10, 3));
    assert_eq!(selection.end, pos(12, 7));
}

#[test]
fn a_fully_evicted_selection_is_rejected() {
    let mut selection = Selection::new(pos(1, 0), pos(3, 4));

    assert!(!selection.shift_up(4));
}

#[test]
fn a_partially_evicted_selection_starts_at_the_oldest_line() {
    let mut selection = Selection::new(pos(1, 5), pos(6, 2));

    assert!(selection.shift_up(3));

    assert_eq!(selection.start, pos(0, 0));
    assert_eq!(selection.end, pos(3, 2));
}

#[test]
fn a_backwards_selection_truncates_its_earlier_endpoint() {
    let mut selection = Selection::new(pos(6, 2), pos(1, 5));

    assert!(selection.shift_up(3));

    assert_eq!(selection.start, pos(3, 2));
    assert_eq!(selection.end, pos(0, 0));
}

#[test]
fn shifting_twice_lands_where_shifting_once_by_the_sum_does() {
    let mut twice = Selection::new(pos(9, 1), pos(14, 4));
    let mut once = twice;
    assert!(twice.shift_up(2));
    assert!(twice.shift_up(3));
    assert!(once.shift_up(5));
    assert_eq!(twice.start.line, once.start.line);
    assert_eq!(twice.end.line, once.end.line);
}

#[test]
fn a_rejected_shift_leaves_the_selection_alone() {
    let mut selection = Selection::new(pos(1, 2), pos(2, 3));
    assert!(!selection.shift_up(3));
    assert_eq!(selection.start, pos(1, 2));
    assert_eq!(selection.end, pos(2, 3));
}

#[test]
fn ordered_positions_sort_by_line_then_column() {
    let selection = Selection::new(pos(4, 9), pos(4, 2));
    assert_eq!(selection.ordered_positions(), (pos(4, 2), pos(4, 9)));
    let selection = Selection::new(pos(2, 9), pos(5, 0));
    assert_eq!(selection.ordered_positions(), (pos(2, 9), pos(5, 0)));
}

#[test]
fn selection_position_per_line() {
    let selection = Selection::new(pos(5, 3), pos(2, 7));
    assert!(matches!(selection.selection_position(1), SelectionPosition::Outside));
    assert!(matches!(selection.selection_position(2), SelectionPosition::Top { column: 7 }));
    assert!(matches!(selection.selection_position(3), SelectionPosition::Middle));
    assert!(matches!(selection.selection_position(5), SelectionPosition::Bottom { column: 3 }));
    assert!(matches!(selection.selection_position(6), SelectionPosition::Outside));

    let one = Selection::new(pos(1, 4), pos(1, 1));
    assert!(matches!(
        one.selection_position(1),
        SelectionPosition::OneLine { start_column: 1, end_column: 4 }
    ));
    assert!(one.is_inside(1));
    assert!(!one.is_inside(0));
}

#[test]
fn update_moves_only_the_end() {
    let mut selection = Selection::new(pos(1, 1), pos(2, 2));
    selection.update(pos(7, 0));
    assert_eq!(selection.start, pos(1, 1));
    assert_eq!(selection.end, pos(7, 0));
}
