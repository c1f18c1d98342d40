use scope_monitor::graphics::buffer::{Buffer, BufferLine, BufferPosition, LineIds};
use scope_monitor::graphics::screen::ScreenDecoder;
use scope_monitor::graphics::selection::Selection;
use scope_monitor::graphics::Serialize;
use scope_monitor::infra::logger::LogLevel;

fn buffer_from(lines: &[&[u8]]) -> Buffer {
    let mut ids = LineIds::new();
    let mut buffer = Buffer::new(lines.len().max(1));
    for bytes in lines {
        buffer.push_line(BufferLine::new_rx(&mut ids, 0, bytes.to_vec()));
    }
    buffer
}

fn pos(line: usize, column: usize) -> BufferPosition {
    BufferPosition { line, column }
}

#[test]
fn cloning_a_line_shares_the_payload_without_copying() {
    let mut ids = LineIds::new();
    let line = BufferLine::new_rx(&mut ids, 7, b"a shared payload".to_vec());
    let clone = line.clone();
    assert_eq!(clone.message, line.message);
    assert_eq!(clone.id, line.id);
    assert_eq!(clone.timestamp(), 7);
}

#[test]
fn one_line_selection_strips_ansi_and_aligns_columns() {
    let buffer = buffer_from(&[b"Hello \x1b[31mRed\x1b[0m World"]);
    let selection = Selection::new(pos(0, 6), pos(0, 9));

    let content = buffer.get_selection_content(&selection, ScreenDecoder::Ascii);

    assert_eq!(content, "Red");
}

#[test]
fn selection_copies_bytes_in_the_display_format() {
    // Shown as `id\xa5\xa6`: the bytes past the ASCII range are escaped,
    // and the selection columns count the escaped form.
    let buffer = buffer_from(&[b"id\xa5\xa6"]);
    let selection = Selection::new(pos(0, 2), pos(0, 10));

    let content = buffer.get_selection_content(&selection, ScreenDecoder::Ascii);

    assert_eq!(content, "\\xa5\\xa6");
}

#[test]
fn selection_from_line_start_skips_leading_ansi() {
    let buffer = buffer_from(&[b"\x1b[32mgreen\x1b[0m"]);
    let selection = Selection::new(pos(0, 0), pos(0, 5));

    let content = buffer.get_selection_content(&selection, ScreenDecoder::Ascii);

    assert_eq!(content, "green");
}

#[test]
fn nothing_is_evicted_below_capacity() {
    let mut ids = LineIds::new();
    let mut buffer = Buffer::new(4);
    for _ in 0..4 {
        buffer.push_line(BufferLine::new_rx(&mut ids, 0, b"x".to_vec()));
    }

    assert_eq!(buffer.len(), 4);
    assert_eq!(buffer.evicted(), 0);
}

#[test]
fn one_line_is_evicted_per_line_past_capacity() {
    let mut ids = LineIds::new();
    let mut buffer = Buffer::new(4);
    for _ in 0..7 {
        buffer.push_line(BufferLine::new_rx(&mut ids, 0, b"x".to_vec()));
    }

    assert_eq!(buffer.len(), 4);
    assert_eq!(buffer.evicted(), 3);
}

#[test]
fn the_oldest_line_is_the_one_dropped_and_the_rest_are_reindexed() {
    let mut ids = LineIds::new();
    let mut buffer = Buffer::new(3);
    for i in 0..4 {
        buffer.push_line(BufferLine::new_rx(&mut ids, 0, format!("L{i}").into_bytes()));
    }

    let lines = buffer
        .iter()
        .into_iter()
        .map(|line| (line.line, String::from_utf8_lossy(&line.message).to_string()))
        .collect::<Vec<_>>();

    assert_eq!(
        lines,
        vec![
            (0, "L1".to_string()),
            (1, "L2".to_string()),
            (2, "L3".to_string())
        ]
    );
}

#[test]
fn clear_resets_the_eviction_count() {
    let mut ids = LineIds::new();
    let mut buffer = Buffer::new(2);
    for _ in 0..5 {
        buffer.push_line(BufferLine::new_rx(&mut ids, 0, b"x".to_vec()));
    }
    assert_eq!(buffer.evicted(), 3);

    buffer.clear();

    assert_eq!(buffer.evicted(), 0);
    assert_eq!(buffer.len(), 0);
}

#[test]
fn multi_line_selection_strips_ansi_on_every_line() {
    let buffer = buffer_from(&[b"\x1b[31mfoo", b"bar\x1b[0m"]);
    let selection = Selection::new(pos(0, 1), pos(1, 2));

    let content = buffer.get_selection_content(&selection, ScreenDecoder::Ascii);

    assert_eq!(content, "ooba");
}

#[test]
fn escaped_line_ends_are_copied_as_line_ends() {
    let buffer = buffer_from(&[b"ab\r\n"]);
    let selection = Selection::new(pos(0, 0), pos(0, 6));

    let content = buffer.get_selection_content(&selection, ScreenDecoder::Ascii);

    assert_eq!(content, "ab\r\n");
}

#[test]
fn a_backwards_selection_copies_the_same_text() {
    let buffer = buffer_from(&[b"first", b"second", b"third"]);
    let forward = Selection::new(pos(0, 2), pos(2, 3));
    let backward = Selection::new(pos(2, 3), pos(0, 2));
    let a = buffer.get_selection_content(&forward, ScreenDecoder::Ascii);
    let b = buffer.get_selection_content(&backward, ScreenDecoder::Ascii);
    assert_eq!(a, "rstsecondthi");
    assert_eq!(a, b);
}

#[test]
fn push_lines_pushes_in_order_and_counts_evictions() {
    let mut ids = LineIds::new();
    let mut buffer = Buffer::new(2);
    let lines: Vec<_> = (0..5)
        .map(|i| BufferLine::new_tx(&mut ids, i, vec![b'a' + i as u8]))
        .collect();
    buffer.push_lines(lines);
    assert_eq!(buffer.len(), 2);
    assert_eq!(buffer.evicted(), 3);
    let kept: Vec<_> = buffer.iter().into_iter().map(|l| (l.line, l.message.clone())).collect();
    assert_eq!(kept, vec![(0, b"d".to_vec()), (1, b"e".to_vec())]);
}

#[test]
fn get_range_is_clamped_to_the_buffer() {
    let buffer = buffer_from(&[b"a", b"b", b"c"]);
    assert_eq!(buffer.get_range(1, 10).len(), 2);
    assert_eq!(buffer.get_range(5, 10).len(), 0);
    assert_eq!(buffer.get_range(2, 1).len(), 0);
    assert_eq!(buffer.get_range(0, 2)[1].message, b"b".to_vec());
}

#[test]
fn line_ids_keep_growing_and_lines_keep_theirs() {
    let mut ids = LineIds::new();
    let mut buffer = Buffer::new(1);
    buffer.push_line(BufferLine::new_rx(&mut ids, 0, b"a".to_vec()));
    buffer.push_line(BufferLine::new_log(&mut ids, 0, LogLevel::Info, b"b".to_vec()));
    let line = buffer.iter()[0];
    assert_eq!(line.id, 1);
    assert_eq!(line.line, 0);
    assert_eq!(line.level, Some(LogLevel::Info));
}

#[test]
fn a_zero_capacity_holds_one_line() {
    let buffer = buffer_from(&[]);
    let mut ids = LineIds::new();
    let mut buffer2 = buffer;
    buffer2.push_line(BufferLine::new_rx(&mut ids, 0, b"a".to_vec()));
    buffer2.push_line(BufferLine::new_rx(&mut ids, 0, b"b".to_vec()));
    assert_eq!(buffer2.len(), 1);
    assert_eq!(buffer2.evicted(), 1);
}

#[test]
fn serialized_lines_carry_their_tag() {
    let mut ids = LineIds::new();
    let rx = BufferLine::new_rx(&mut ids, 0, b"hi\n".to_vec());
    let tx = BufferLine::new_tx(&mut ids, 0, b"cmd".to_vec());
    let err = BufferLine::new_log(&mut ids, 0, LogLevel::Error, b"boom".to_vec());
    let ok = BufferLine::new_log(&mut ids, 0, LogLevel::Success, b"done".to_vec());

    assert_eq!(rx.serialize_with("12:00:00.000"), "[12:00:00.000][ <=] hi\\n");
    assert_eq!(tx.serialize_with("12:00:00.000"), "[12:00:00.000][ =>] cmd");
    assert_eq!(err.serialize_with("t"), "[t][ERR] boom");
    assert_eq!(ok.serialize_with("t"), "[t][ OK] done");

    let full = rx.serialize();
    assert_eq!(full.chars().count(), 1 + 12 + 7 + 4);
    assert!(full.ends_with("][ <=] hi\\n"));
}

#[test]
fn positions_order_by_line_then_column() {
    assert!(pos(1, 9) < pos(2, 0));
    assert!(pos(2, 1) < pos(2, 3));
    assert!(!(pos(2, 3) < pos(2, 3)));
    assert_eq!(pos(3, 3).partial_cmp(&pos(3, 3)), Some(std::cmp::Ordering::Equal));
}

#[test]
fn decode_keeps_the_line_metadata() {
    let mut ids = LineIds::new();
    let line = BufferLine::new_tx(&mut ids, 42, b"a\tb".to_vec());
    let text = line.decode(ScreenDecoder::Ascii);
    assert_eq!(text.message, "a    b");
    assert_eq!(text.timestamp, 42);
    assert!(text.is_tx);
}
