use sol_os::text::{
    append_decimal, append_hex, append_padded_decimal, arguments_after_command, is_whitespace,
    next_word, same_text, trim, TextSink,
};

fn words_of(text: &str) -> Vec<&str> {
    let mut rest = text;
    let mut words = Vec::new();
    while let Some((word, more)) = next_word(rest) {
        words.push(word);
        rest = more;
    }
    words
}

#[test]
fn whitespace_is_that_of_unicode() {
    for code in 0u32..0x11_0000 {
        if let Some(c) = char::from_u32(code) {
            assert_eq!(is_whitespace(c), c.is_whitespace());
        }
    }
}

#[test]
fn texts_are_compared_by_character() {
    assert!(same_text("ls", "ls"));
    assert!(same_text("", ""));
    assert!(same_text("aé—", "aé—"));
    assert!(!same_text("ls", "lsx"));
    assert!(!same_text("lx", "ls"));
    assert!(!same_text("é", "e"));
}

#[test]
fn strings_take_text() {
    let mut text = String::from("a");
    text.write_char('é');
    text.write_str("—b");
    assert_eq!(text, "aé—b");
}

#[test]
fn words_are_cut_at_white_space() {
    assert_eq!(words_of("  cat\tDOCS/ABOUT.TXT \u{3000}x\n"), vec!["cat", "DOCS/ABOUT.TXT", "x"]);
    assert_eq!(words_of("   "), Vec::<&str>::new());
    assert_eq!(words_of(""), Vec::<&str>::new());
    for text in ["a b", " a  b ", "one", "\u{a0}x\u{2003}y z\r\n"] {
        let expected: Vec<&str> = text.split_whitespace().collect();
        assert_eq!(words_of(text), expected);
    }
}

#[test]
fn trimming_takes_the_ends_off() {
    for text in ["", "  ", "a", " a b ", "\t\u{85}x y\u{2029}"] {
        assert_eq!(trim(text), text.trim());
    }
}

#[test]
fn arguments_follow_the_command() {
    assert_eq!(arguments_after_command("echo  a  b"), "a  b");
    assert_eq!(arguments_after_command("echo"), "");
    assert_eq!(
        words_of(arguments_after_command("echo a b c")),
        vec!["a", "b", "c"]
    );
}

#[test]
fn numbers_are_decimal() {
    for number in [0, 7, 10, 99, 100, 1_234_567, u64::MAX] {
        let mut text = String::from("n=");
        append_decimal(&mut text, number);
        assert_eq!(text, format!("n={number}"));
    }
}

#[test]
fn padding_aligns_to_the_right() {
    for (number, width) in [(0, 7), (12, 7), (1_234_567, 7), (12_345_678, 7), (5, 0), (u64::MAX, 25)]
    {
        let mut padded = String::from("|");
        append_padded_decimal(&mut padded, number, width);
        assert_eq!(padded, format!("|{number:>width$}"));
    }
}

#[test]
fn bytes_are_two_hexadecimal_digits() {
    for byte in 0..=255u8 {
        let mut text = String::new();
        append_hex(&mut text, byte);
        assert_eq!(text, format!("{byte:02x}"));
    }
}

#[test]
fn trimming_keeps_the_words() {
    for text in ["  a b ", "x", "   ", "\u{2003}one two\t"] {
        assert_eq!(words_of(trim(text)), words_of(text));
        assert!(words_of(text)
            .iter()
            .all(|word| !word.is_empty() && !word.contains(char::is_whitespace)));
    }
}
