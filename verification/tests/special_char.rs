use scope_monitor::graphics::special_char::{
    SpecialChar, SpecialCharItem, SpecialCharPosition, ToSpecialChar,
};

fn find(string: &str, pattern: &str) -> Option<usize> {
    string.find(pattern).map(|byte| string[..byte].chars().count())
}

fn earliest(string: &str, patterns: &[(&str, usize)]) -> Option<SpecialCharPosition> {
    let mut min_pos = usize::MAX;
    let mut result = None;
    for (pattern, length) in patterns.iter() {
        if let Some(start) = find(string, pattern) {
            if start < min_pos {
                min_pos = start;
                result = Some((start, *length).into());
            }
        }
    }
    result
}

fn assert_items(result: Vec<SpecialCharItem>, expected: &[SpecialCharItem]) {
    for (a, b) in result.iter().zip(expected.iter()) {
        assert_eq!(a, b);
    }
}

#[test]
fn test_basic() {
    let content = "Hello \n World\\x03!".to_string();
    let iter = content.to_special_char(|string| {
        if let Some(start) = find(string, "\n") {
            Some((start, 1).into())
        } else {
            find(string, "\\x03").map(|start| (start, 4).into())
        }
    });
    let expected = [
        SpecialCharItem::Plain("Hello ".to_string()),
        SpecialCharItem::Special("\n".to_string(), 6),
        SpecialCharItem::Plain(" World".to_string()),
        SpecialCharItem::Special("\\x03".to_string(), 13),
        SpecialCharItem::Plain("!".to_string()),
    ];
    let result = iter.into_items();
    assert_eq!(result.len(), expected.len());
    assert_items(result, &expected);
}

#[test]
fn special_char_test_replace_from_start() {
    let content = "\x1b[mHello".to_string();
    let iter = content.to_special_char(|string| find(string, "\x1b[m").map(|start| (start, 3).into()));
    assert_items(
        iter.into_items(),
        &[
            SpecialCharItem::Special("\x1b[m".to_string(), 0),
            SpecialCharItem::Plain("Hello".to_string()),
        ],
    );
}

#[test]
fn special_char_test_replace_from_end() {
    let content = "Hello \x1b[m".to_string();
    let iter = content.to_special_char(|string| find(string, "\x1b[m").map(|start| (start, 3).into()));
    assert_items(
        iter.into_items(),
        &[
            SpecialCharItem::Plain("Hello ".to_string()),
            SpecialCharItem::Special("\x1b[m".to_string(), 6),
        ],
    );
}

#[test]
fn special_char_test_replace_seq_eq() {
    let content = "Hello \x1b[m \x1b[m".to_string();
    let iter = content.to_special_char(|string| find(string, "\x1b[m").map(|start| (start, 3).into()));
    assert_items(
        iter.into_items(),
        &[
            SpecialCharItem::Plain("Hello ".to_string()),
            SpecialCharItem::Special("\x1b[m".to_string(), 6),
            SpecialCharItem::Plain(" ".to_string()),
            SpecialCharItem::Special("\x1b[m".to_string(), 10),
        ],
    );
}

#[test]
fn special_char_test_replace_seq_diff() {
    let content = "Hello \x1b[m\x1b[8D".to_string();
    let iter = content.to_special_char(|string| {
        if let Some(start) = find(string, "\x1b[m") {
            Some((start, 3).into())
        } else {
            find(string, "\x1b[8D").map(|start| (start, 4).into())
        }
    });
    assert_items(
        iter.into_items(),
        &[
            SpecialCharItem::Plain("Hello ".to_string()),
            SpecialCharItem::Special("\x1b[m".to_string(), 6),
            SpecialCharItem::Special("\x1b[8D".to_string(), 9),
        ],
    );
}

#[test]
fn special_char_test_long_string() {
    let content = "uart:~$ \x1b[m\x1b[8D\x1b[Juart:~$ \x1b[m".to_string();
    let iter = content
        .to_special_char(|string| earliest(string, &[("\x1b[m", 3), ("\x1b[8D", 4), ("\x1b[J", 3)]));
    assert_items(
        iter.into_items(),
        &[
            SpecialCharItem::Plain("uart:~$ ".to_string()),
            SpecialCharItem::Special("\x1b[m".to_string(), 8),
            SpecialCharItem::Special("\x1b[8D".to_string(), 11),
            SpecialCharItem::Special("\x1b[J".to_string(), 15),
            SpecialCharItem::Plain("uart:~$ ".to_string()),
            SpecialCharItem::Special("\x1b[m".to_string(), 26),
        ],
    );
}

#[test]
fn test_ansi() {
    let content = "Lorem ipsum dolor sit \\x1b[35mamet, consectetur adipiscing elit, sed do eiusm\\x1b[0mod tem\\r\\n".to_string();
    let iter = content.to_special_char(|string| {
        earliest(string, &[("\\r", 2), ("\\n", 2), ("\\x1b[35m", 8), ("\\x1b[0m", 7)])
    });
    assert_items(
        iter.into_items(),
        &[
            SpecialCharItem::Plain("Lorem ipsum dolor sit ".to_string()),
            SpecialCharItem::Special("\\x1b[35m".to_string(), 22),
            SpecialCharItem::Plain("amet, consectetur adipiscing elit, sed do eiusm".to_string()),
            SpecialCharItem::Special("\\x1b[0m".to_string(), 77),
            SpecialCharItem::Plain("od tem".to_string()),
            SpecialCharItem::Special("\\r".to_string(), 90),
            SpecialCharItem::Special("\\n".to_string(), 92),
        ],
    );
}

#[test]
fn test_floating_letter() {
    let content1 = "{ectetur adipiscingelnit, sed d\\r\\n".to_string();
    let content2 = "{ectetur adipiscingelntt, sed d\\r\\n".to_string();
    let content3 = "{ectetur adipiscing elit, sed d\\r\\n".to_string();
    let filter = |string: &str| -> Option<SpecialCharPosition> {
        if let Some(start) = find(string, "\\r") {
            Some((start, 2).into())
        } else {
            find(string, "\\n").map(|start| (start, 2).into())
        }
    };

    let results = [
        content1.to_special_char(filter).into_items(),
        content2.to_special_char(filter).into_items(),
        content3.to_special_char(filter).into_items(),
    ];
    let expected = [
        vec![
            SpecialCharItem::Plain("{ectetur adipiscingelnit, sed d".to_string()),
            SpecialCharItem::Special("\\r".to_string(), 31),
            SpecialCharItem::Special("\\n".to_string(), 33),
        ],
        vec![
            SpecialCharItem::Plain("{ectetur adipiscingelntt, sed d".to_string()),
            SpecialCharItem::Special("\\r".to_string(), 31),
            SpecialCharItem::Special("\\n".to_string(), 33),
        ],
        vec![
            SpecialCharItem::Plain("{ectetur adipiscing elit, sed d".to_string()),
            SpecialCharItem::Special("\\r".to_string(), 31),
            SpecialCharItem::Special("\\n".to_string(), 33),
        ],
    ];
    for (result, expected) in results.into_iter().zip(expected.iter()) {
        assert_items(result, expected);
    }
}

#[test]
fn test_query() {
    let content =
        "Lorem ipsum dolor sit amet, consectetur adipiscing elit, sed do eiusmod tem\\r\\n".to_string();
    let iter = content.to_special_char(|string| {
        if let Some(start) = find(string, "dolor") {
            Some((start, 5).into())
        } else {
            find(string, "sed").map(|start| (start, 3).into())
        }
    });
    assert_items(
        iter.into_items(),
        &[
            SpecialCharItem::Plain("Lorem ipsum ".to_string()),
            SpecialCharItem::Special("dolor".to_string(), 12),
            SpecialCharItem::Plain(" sit amet, consectetur adipiscing elit, ".to_string()),
            SpecialCharItem::Special("sed".to_string(), 57),
            SpecialCharItem::Plain(" do eiusmod tem\\r\\n".to_string()),
        ],
    );
}

#[test]
fn test_no_special() {
    let content =
        "Lorem ipsum dolor sit amet, consectetur adipiscing elit, sed do eiusmod tem".to_string();
    let iter = content.clone().to_special_char(|_| None);
    let result = iter.into_items();
    assert_eq!(result, vec![SpecialCharItem::Plain(content)]);
}

#[test]
fn next_item_hands_out_pieces_one_at_a_time() {
    let mut splitter = SpecialChar::new("a-b".to_string(), |s: &str| {
        find(s, "-").map(|start| SpecialCharPosition { start, length: 1 })
    });
    assert_eq!(splitter.next_item(), Some(SpecialCharItem::Plain("a".to_string())));
    assert_eq!(splitter.next_item(), Some(SpecialCharItem::Special("-".to_string(), 1)));
    assert_eq!(splitter.next_item(), Some(SpecialCharItem::Plain("b".to_string())));
    assert_eq!(splitter.next_item(), None);
}

#[test]
fn columns_count_characters_not_bytes() {
    let content = "é-x".to_string();
    let items = content
        .to_special_char(|s| find(s, "-").map(|start| (start, 1).into()))
        .into_items();
    assert_eq!(items[1], SpecialCharItem::Special("-".to_string(), 1));
}
