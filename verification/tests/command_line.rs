use scope_monitor::infra::tags::TagList;
use scope_monitor::inputs::command_line::{
    parse_address_argument, replace_hex_sequence, replace_range_chars, replace_tag_sequence,
};

#[test]
fn test_rhs_one() {
    let res = replace_hex_sequence("$61");

    assert_eq!(&res, b"a");
}

#[test]
fn test_rhs_two_no_sep() {
    let res = replace_hex_sequence("$6161");

    assert_eq!(&res, b"aa");
}

#[test]
fn test_rhs_two_comma() {
    let res = replace_hex_sequence("$61,61");

    assert_eq!(&res, b"aa");
}

#[test]
fn test_all_bytes() {
    let mut command_line = "$".to_string();
    let mut expected = vec![];
    for b in 0u8..=0xff {
        command_line.push_str(&format!("{:02x},", b));
        expected.push(b);
    }
    for b in 0u8..=0xff {
        command_line.push_str(&format!("{:02X},", b));
        expected.push(b);
    }

    let res = replace_hex_sequence(&command_line);
    let mut it = res.iter().enumerate();

    for (i, b) in &mut it {
        assert_eq!(*b, i as u8);
    }
    for (i, b) in it {
        assert_eq!(*b, i as u8);
    }

    assert_eq!(&res, &expected);
}

#[test]
fn hex_sequences_end_at_other_characters() {
    assert_eq!(replace_hex_sequence("ab$0d0a!x"), b"ab\r\n!x".to_vec());
    assert_eq!(replace_hex_sequence("$4 $"), vec![4]);
    assert_eq!(replace_hex_sequence("$,"), vec![0]);
    assert_eq!(replace_hex_sequence("$4g"), b"g".to_vec());
    assert_eq!(replace_hex_sequence("$4"), Vec::<u8>::new());
    assert_eq!(replace_hex_sequence("é"), vec![0xe9]);
}

#[test]
fn replace_range_chars_counts_characters() {
    assert_eq!(replace_range_chars("héllo", 1, 3, "EE"), "hEElo");
    assert_eq!(replace_range_chars("abc", 1, 10, ""), "a");
    assert_eq!(replace_range_chars("abc", 3, 3, "!"), "abc!");
}

#[test]
fn tags_expand_to_their_values() {
    let tags = TagList::new(
        "tags.yml".to_string(),
        Some("reset: \"AT+RST\"\nq: \"quit\"\n".to_string()),
    )
    .unwrap();
    assert_eq!(replace_tag_sequence("send @reset now", &tags), "send AT+RST now");
    assert_eq!(replace_tag_sequence("@q@reset", &tags), "quitAT+RST");
    assert_eq!(replace_tag_sequence("@unknown @", &tags), "@unknown @");
    assert_eq!(replace_tag_sequence("\"@q\"", &tags), "\"quit\"");
}

#[test]
fn addresses_are_hex_or_decimal_with_underscores() {
    assert_eq!(parse_address_argument("0x2020_0410"), Some(0x2020_0410));
    assert_eq!(parse_address_argument("0XFF"), Some(255));
    assert_eq!(parse_address_argument("1_000"), Some(1000));
    assert_eq!(parse_address_argument("+12"), Some(12));
    assert_eq!(parse_address_argument("0x"), None);
    assert_eq!(parse_address_argument("12a"), None);
    assert_eq!(parse_address_argument("0xffffffffffffffff"), Some(u64::MAX));
    assert_eq!(parse_address_argument("0x1_0000_0000_0000_0000"), None);
    assert_eq!(parse_address_argument("18446744073709551616"), None);
    assert_eq!(parse_address_argument(""), None);
}

#[test]
fn a_new_dollar_starts_another_sequence() {
    assert_eq!(replace_hex_sequence("$48 65 6c 6c 6f"), b"Hello".to_vec());
    assert_eq!(replace_hex_sequence("$48,65,6c,6c,6f"), b"Hello".to_vec());
    assert_eq!(replace_hex_sequence("$48$65$6c$6c$6f"), b"Hello".to_vec());
    assert_eq!(replace_hex_sequence("$4$41"), b"A".to_vec());
}
