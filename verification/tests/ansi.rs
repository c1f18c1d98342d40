use scope_monitor::graphics::ansi::{Color, ANSI};

fn runs(input: &str) -> Vec<(String, Color)> {
    ANSI::decode(input, None)
        .into_iter()
        .map(|run| (run.content, run.fg))
        .collect()
}

#[test]
fn test_decode() {
    let spans = runs("Hello \\x1b[31mRed\\x1b[0m World");

    assert_eq!(spans.len(), 3);
    assert_eq!(spans[0], ("Hello ".to_string(), Color::Reset));
    assert_eq!(spans[1], ("Red".to_string(), Color::Red));
    assert_eq!(spans[2], (" World".to_string(), Color::Reset));
}

#[test]
fn test_remove_encoding() {
    let input = "Hello \\x1b[31mRed\\x1b[0m World".to_string();
    let output = ANSI::remove_encoding(input);

    assert_eq!(output, "Hello Red World");
}

#[test]
fn test_decode_dyn() {
    let spans = runs("Hello \\x1b[15CRed Wo\\x1b[Crld\\x1b[");

    assert_eq!(spans.len(), 3);
    assert_eq!(spans[0], ("Hello ".to_string(), Color::Reset));
    assert_eq!(spans[1], ("Red Wo".to_string(), Color::Reset));
    assert_eq!(spans[2], ("rld\\x1b[".to_string(), Color::Reset));
}

#[test]
fn test_remove_dyn() {
    let input = "Hello \\x1b[15CRed Wo\\x1b[Crld\\x1b[".to_string();
    let output = ANSI::remove_encoding(input);

    assert_eq!(output, "Hello Red World\\x1b[");
}

#[test]
fn test_decode_default_fg_resets_color() {
    let spans = runs("\\x1b[1;32muart:~$\\x1b[39m done");

    assert_eq!(spans.len(), 2);
    assert_eq!(spans[0], ("uart:~$".to_string(), Color::Green));
    assert_eq!(spans[1], (" done".to_string(), Color::Reset));
}

#[test]
fn test_decode_zero_semicolon_color() {
    let spans = runs("\\x1b[0;32mfoo\\x1b[0mbar");

    assert_eq!(spans.len(), 2);
    assert_eq!(spans[0], ("foo".to_string(), Color::Green));
    assert_eq!(spans[1], ("bar".to_string(), Color::Reset));
}

#[test]
fn test_decode_multi_parameter_with_background() {
    let spans = runs("\\x1b[1;32;40mok\\x1b[0m");

    assert_eq!(spans.len(), 1);
    assert_eq!(spans[0], ("ok".to_string(), Color::Green));
}

#[test]
fn test_decode_extended_colors() {
    let indexed = runs("\\x1b[38;5;201mx");
    assert_eq!(indexed[0], ("x".to_string(), Color::Indexed(201)));

    let rgb = runs("\\x1b[38;2;10;20;30my");
    assert_eq!(rgb[0], ("y".to_string(), Color::Rgb(10, 20, 30)));
}

#[test]
fn test_remove_encoding_strips_unknown_sgr() {
    let input = "\\x1b[1;32muart:~$\\x1b[39m".to_string();
    assert_eq!(ANSI::remove_encoding(input), "uart:~$");
}

#[test]
fn decode_starts_from_the_given_colour() {
    let spans = ANSI::decode("abc\\x1b[0mdef", Some(Color::Blue));

    assert_eq!(spans.len(), 2);
    assert_eq!(spans[0].content, "abc");
    assert_eq!(spans[0].fg, Color::Blue);
    assert_eq!(spans[1].fg, Color::Reset);
}

#[test]
fn decoded_runs_spell_the_text_without_escapes() {
    let input = "a\\x1b[31mb\\x1b[2Kc\\x1b[0md";
    let joined: String = ANSI::decode(input, None).into_iter().map(|r| r.content).collect();

    assert_eq!(joined, ANSI::remove_encoding(input.to_string()));
    assert_eq!(joined, "abcd");
}

#[test]
fn next_csi_finds_the_first_sequence() {
    let found = ANSI::next_csi("ab\\x1b[31mc").unwrap();
    assert_eq!(found.start, 2);
    assert_eq!(found.length, 8);
    assert!(ANSI::next_csi("no escapes here").is_none());
}
