use scope_monitor::infra::session::{record_filename, sanitize_name};

#[test]
fn sanitize_strips_trailing_txt() {
    assert_eq!(sanitize_name("capture.txt").unwrap(), "capture");
    assert_eq!(sanitize_name("capture").unwrap(), "capture");
    assert_eq!(sanitize_name("capture.txt.txt").unwrap(), "capture");
}

#[test]
fn sanitize_keeps_inner_dots() {
    assert_eq!(sanitize_name("foo.bar").unwrap(), "foo.bar");
    assert_eq!(sanitize_name("foo.bar.txt").unwrap(), "foo.bar");
}

#[test]
fn sanitize_trims_whitespace() {
    assert_eq!(sanitize_name("  log  ").unwrap(), "log");
    assert_eq!(sanitize_name("foo .txt").unwrap(), "foo");
}

#[test]
fn sanitize_rejects_windows_invalid_chars_and_trailing_dot() {
    for bad in ["a:b", "a*b", "a?b", "a\"b", "a|b", "a<b", "a>b"] {
        assert!(sanitize_name(bad).is_err(), "{bad} should be rejected");
    }
    assert!(sanitize_name("trailing.").is_err());
}

#[test]
fn sanitize_rejects_reserved_device_names() {
    assert!(sanitize_name("CON").is_err());
    assert!(sanitize_name("nul").is_err());
    assert!(sanitize_name("CON.txt").is_err());
    assert!(sanitize_name("com1").is_err());
    assert_eq!(sanitize_name("data.con").unwrap(), "data.con");
}

#[test]
fn sanitize_rejects_empty_and_dotonly() {
    assert!(sanitize_name("").is_err());
    assert!(sanitize_name("   ").is_err());
    assert!(sanitize_name(".txt").is_err());
    assert!(sanitize_name(".").is_err());
    assert!(sanitize_name("..").is_err());
}

#[test]
fn sanitize_rejects_path_separators() {
    assert!(sanitize_name("../escape").is_err());
    assert!(sanitize_name("dir/name").is_err());
    assert!(sanitize_name("dir\\name").is_err());
}

#[test]
fn record_filename_named_and_timestamped() {
    assert_eq!(record_filename(Some("capture")), "capture.txt");

    let timestamped = record_filename(None);
    assert!(timestamped.ends_with(".txt"));
    assert_eq!(timestamped.len(), "YYYYMMDD_HHMMSS.txt".len());
}

#[test]
fn sanitizing_twice_changes_nothing() {
    for raw in ["capture.txt", "  a b .txt ", "x.y.z", "data.con"] {
        let once = sanitize_name(raw).unwrap();
        assert_eq!(sanitize_name(&once).unwrap(), once);
    }
}

#[test]
fn sanitize_rejects_control_characters() {
    assert!(sanitize_name("a\u{7}b").is_err());
}
