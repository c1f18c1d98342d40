use scope_monitor::infra::recorder::Recorder;

#[test]
fn new_strips_directory_and_extension() {
    let recorder = Recorder::new("logs/session.txt".to_string()).unwrap();
    assert_eq!(recorder.get_filename(), "session_rec1.txt");
}

#[test]
fn rename_changes_base_for_future_records() {
    let mut recorder = Recorder::new("foo.txt".to_string()).unwrap();
    assert_eq!(recorder.get_filename(), "foo_rec1.txt");

    recorder.rename("bar").unwrap();
    assert_eq!(recorder.get_filename(), "bar_rec1.txt");

    recorder.rename("baz.txt").unwrap();
    assert_eq!(recorder.get_filename(), "baz_rec1.txt");
}

#[test]
fn recordings_are_numbered_and_lines_end_with_crlf() {
    let mut recorder = Recorder::new("s.txt".to_string()).unwrap();
    assert_eq!(recorder.record_line("x"), Err("No file recording now".to_string()));
    recorder.start_record();
    assert!(recorder.is_recording());
    let line = recorder.record_line("hello").unwrap();
    assert_eq!(line, "hello\r\n");
    assert_eq!(recorder.record_line("ok\n").unwrap(), "ok\n");
    recorder.add_written(&line);
    assert_eq!(recorder.get_size(), 7);
    recorder.stop_record();
    assert!(!recorder.is_recording());
    assert_eq!(recorder.get_size(), 0);
    assert_eq!(recorder.get_filename(), "s_rec2.txt");
}

#[test]
fn a_name_without_a_file_part_is_refused() {
    assert_eq!(
        Recorder::new("..".to_string()).err(),
        Some("Cannot get filename to record".to_string())
    );
}
