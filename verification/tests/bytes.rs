use scope_monitor::graphics::bytes::{match_indices, SliceExt};

#[test]
fn bytes_test_replace_from_start() {
    let expected = b"Hello".to_vec();
    let res = b"\x1b[mHello".to_vec().replace(b"\x1b[m", b"");

    assert_eq!(expected, res);
}

#[test]
fn bytes_test_replace_from_end() {
    let expected = b"Hello ".to_vec();
    let res = b"Hello \x1b[m".to_vec().replace(b"\x1b[m", b"");

    assert_eq!(expected, res);
}

#[test]
fn bytes_test_replace_seq_eq() {
    let expected = b"Hello ".to_vec();
    let res = b"Hello\x1b[m \x1b[m".to_vec().replace(b"\x1b[m", b"");

    assert_eq!(expected, res);
}

#[test]
fn bytes_test_replace_seq_diff() {
    let expected = b"Hello\x1b[8D".to_vec();
    let res = b"Hello\x1b[m\x1b[8D".to_vec().replace(b"\x1b[m", b"");

    assert_eq!(expected, res);
}

#[test]
fn bytes_test_long_string() {
    let expected = b"uart:~$ uart:~$ ".to_vec();
    let res = b"uart:~$ \x1b[m\x1b[8D\x1b[Juart:~$ \x1b[m"
        .to_vec()
        .replace(b"\x1b[m", b"")
        .replace(b"\x1b[8D", b"")
        .replace(b"\x1b[J", b"");

    assert_eq!(expected, res);
}

#[test]
fn test_long_string_out_of_order() {
    let expected = b"uart:~$ uart:~$ ".to_vec();
    let res = b"uart:~$ \x1b[m\x1b[8D\x1b[Juart:~$ \x1b[m"
        .to_vec()
        .replace(b"\x1b[m", b"")
        .replace(b"\x1b[J", b"")
        .replace(b"\x1b[8D", b"");
    let res2 = b"uart:~$ \x1b[m\x1b[8D\x1b[Juart:~$ \x1b[m"
        .to_vec()
        .replace(b"\x1b[J", b"")
        .replace(b"\x1b[8D", b"")
        .replace(b"\x1b[m", b"");
    let res3 = b"uart:~$ \x1b[m\x1b[8D\x1b[Juart:~$ \x1b[m"
        .to_vec()
        .replace(b"\x1b[8D", b"")
        .replace(b"\x1b[m", b"")
        .replace(b"\x1b[J", b"");

    assert_eq!(expected, res);
    assert_eq!(expected, res2);
    assert_eq!(expected, res3);
}

#[test]
fn replacing_something_absent_changes_nothing() {
    let data = b"plain text".to_vec();
    assert_eq!(data.replace(b"\x1b", b"X"), data);
}

#[test]
fn replacing_a_pattern_by_itself_changes_nothing() {
    let data = b"abcabcab".to_vec();
    assert_eq!(data.replace(b"abc", b"abc"), data);
}

#[test]
fn occurrences_do_not_overlap() {
    assert_eq!(b"aaaa".to_vec().replace(b"aa", b"b"), b"bb".to_vec());
    assert_eq!(b"aaa".to_vec().replace(b"aa", b"XY"), b"XYa".to_vec());
}

#[test]
fn contains_finds_a_pattern() {
    let data = b"hello world".to_vec();
    assert!(data.contains(b"o w"));
    assert!(!data.contains(b"xyz"));
    assert!(!data.contains(b""));
}

#[test]
fn match_indices_walks_every_occurrence() {
    let data = b"ab--ab-ab".to_vec();
    let mut it = match_indices(&data, b"ab");
    let mut found = vec![];
    while let Some((i, m)) = it.next_match() {
        assert_eq!(m, b"ab");
        found.push(i);
    }
    assert_eq!(found, vec![0, 4, 7]);
}
