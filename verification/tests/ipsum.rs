use scope_monitor::infra::logger::LogLevel;
use scope_monitor::inputs::ipsum::{
    chunk_chars, color_line, color_lines, has_word, ipsum_lines, ipsum_pieces, ipsum_target, join_lines,
    split_lines, sprinkle, IpsumTarget,
};

fn words(s: &str) -> Vec<String> {
    s.split_whitespace().map(|w| w.to_string()).collect()
}

#[test]
fn text_is_cut_into_pieces_of_the_given_width() {
    assert_eq!(chunk_chars("abcdefg", 3), vec!["abc", "def", "g"]);
    assert_eq!(chunk_chars("abcdef", 3), vec!["abc", "def"]);
    assert!(chunk_chars("", 3).is_empty());
    assert_eq!(chunk_chars("héllo", 2), vec!["hé", "ll", "o"]);
}

#[test]
fn pieces_are_joined_split_and_sprinkled() {
    let pieces = vec!["ab".to_string(), "cd".to_string()];
    assert_eq!(join_lines(&pieces), "ab\r\ncd");
    assert_eq!(ipsum_lines(&pieces, &[]), vec!["ab", "cd"]);
    assert_eq!(sprinkle("abcd", &[None, Some('X'), None]), "aXcd");
    assert_eq!(ipsum_lines(&pieces, &[None, Some('\n')]), vec!["a", "", "cd"]);
    assert_eq!(split_lines("foo\r\nbar\n\nbaz\r"), vec!["foo", "bar", "", "baz\r"]);
}

#[test]
fn a_stretch_is_coloured() {
    assert_eq!(color_line("hello", 1, 3, 0), "h\x1b[31mel\x1b[0mlo");
    assert_eq!(color_line("x", 0, 0, 0), "x");
    let out = color_lines(vec!["hello".to_string(), "y".to_string()]);
    assert_eq!(out[1], "y");
    assert!(out[0].contains("\x1b[0m"));
    assert_eq!(out[0].replace("\x1b[0m", "").chars().filter(|c| c.is_alphabetic()).count(), 5 + 1);
}

#[test]
fn ipsum_modes_pick_the_target() {
    assert_eq!(ipsum_target(&words("ipsum")), Ok(IpsumTarget::Rx));
    assert_eq!(ipsum_target(&words("ipsum tx --ansi")), Ok(IpsumTarget::Tx));
    assert_eq!(ipsum_target(&words("ipsum warn")), Ok(IpsumTarget::Log(LogLevel::Warning)));
    assert_eq!(
        ipsum_target(&words("ipsum loud")),
        Err("Invalid mode for \"!ipsum\" command. Valid modes are: rx, tx, dbg, inf, ok, warn, err".to_string())
    );
    assert!(has_word(&words("ipsum rx --sp"), "--sp"));
    assert!(!has_word(&words("ipsum rx"), "--ansi"));
}

#[test]
fn random_pieces_have_a_width_between_twenty_and_eighty() {
    let pieces = ipsum_pieces();
    assert!(!pieces.is_empty());
    let w = pieces[0].chars().count();
    assert!((20..=80).contains(&w) || pieces.len() == 1);
    for p in &pieces[..pieces.len() - 1] {
        assert_eq!(p.chars().count(), w);
    }
    assert!(pieces.concat().starts_with("Lorem ipsum"));
}
