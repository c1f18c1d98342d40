use scope_monitor::infra::typewriter::TypeWriter;
use scope_monitor::interfaces::file_transfer::{
    FileTransfer, TransferProgress, CHUNK_SIZE, MAX_FILE_SIZE,
};

#[test]
fn load_reads_file_and_announces_it() {
    let t = FileTransfer::new("load.bin".to_string(), b"abcdef".to_vec())
        .expect("a non-empty file is sent");
    assert_eq!(t.name(), "load.bin");
    assert_eq!(t.next_chunk(CHUNK_SIZE), b"abcdef");
}

#[test]
fn load_rejects_empty_file() {
    assert!(FileTransfer::new("empty.bin".to_string(), Vec::new()).is_none());
}

#[test]
fn next_chunk_is_bounded_and_advances() {
    let mut t = FileTransfer::new("chunk.bin".to_string(), vec![0u8; CHUNK_SIZE * 2 + 5]).unwrap();

    assert_eq!(t.next_chunk(CHUNK_SIZE).len(), CHUNK_SIZE);
    t.advance(CHUNK_SIZE);
    assert_eq!(t.next_chunk(CHUNK_SIZE).len(), CHUNK_SIZE);
    t.advance(CHUNK_SIZE);
    assert_eq!(t.next_chunk(CHUNK_SIZE).len(), 5);
}

#[test]
fn advance_completes_and_reports_success() {
    let mut t = FileTransfer::new("done.bin".to_string(), b"hello".to_vec()).unwrap();

    let chunk = t.next_chunk(CHUNK_SIZE).len();
    assert_eq!(t.advance(chunk), TransferProgress::Done, "small file done in one step");
}

#[test]
fn advance_throttles_progress_to_ten_percent_steps() {
    let mut t = FileTransfer::new("progress.bin".to_string(), vec![7u8; 100]).unwrap();

    let mut reports = vec![];
    for _ in 0..95 {
        match t.advance(1) {
            TransferProgress::Progress(p) => reports.push(p),
            TransferProgress::Pending => {}
            TransferProgress::Done => panic!("not done yet"),
        }
    }
    assert_eq!(reports, vec![10, 20, 30, 40, 50, 60, 70, 80, 90]);
}

#[test]
fn advance_handles_partial_writes() {
    let mut t = FileTransfer::new("partial.bin".to_string(), b"abcd".to_vec()).unwrap();

    assert_ne!(t.advance(0), TransferProgress::Done);
    assert_ne!(t.advance(1), TransferProgress::Done);
    assert_ne!(t.advance(2), TransferProgress::Done);
    assert_eq!(t.advance(1), TransferProgress::Done, "final byte completes the transfer");
}

#[test]
fn an_overlong_write_stops_at_the_end() {
    let mut t = FileTransfer::new("x".to_string(), b"abc".to_vec()).unwrap();
    assert_eq!(t.advance(10), TransferProgress::Done);
    assert!(t.next_chunk(CHUNK_SIZE).is_empty());
    assert_eq!(MAX_FILE_SIZE, 256 * 1024 * 1024);
}

#[test]
fn rename_before_any_flush_only_updates_name() {
    let mut tw = TypeWriter::new("nf_old.txt".to_string());
    tw.set_filename("nf_new.txt".to_string());
    assert_eq!(tw.get_filename(), "nf_new.txt");
    assert_eq!(tw.get_size(), 0);
}

#[test]
fn recorded_lines_end_with_crlf_unless_they_end_a_line() {
    let mut tw = TypeWriter::new("rec.txt".to_string());
    tw.add_lines(vec!["hello".to_string(), "done\n".to_string()]);
    assert_eq!(tw.get_size(), 12);
    assert_eq!(tw.take_contents(), "hello\r\ndone\n");
    assert_eq!(tw.take_contents(), "");
    assert_eq!(tw.get_size(), 12);
}
