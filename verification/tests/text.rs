use sbir::text::{
    is_whitespace, is_word, parse_integer, push_decimal, push_signed, starts_with, to_chars,
    to_text, trim,
};

fn chars(text: &str) -> Vec<char> {
    text.chars().collect()
}

#[test]
fn characters_of_a_string() {
    assert_eq!(to_chars(""), Vec::<char>::new());
    assert_eq!(to_chars("a\u{3bb}\u{1f600}b"), vec!['a', '\u{3bb}', '\u{1f600}', 'b']);
    assert_eq!(to_text(&[]), "");
    assert_eq!(to_text(&['a', '\u{3bb}', '\u{1f600}', 'b']), "a\u{3bb}\u{1f600}b");
}

#[test]
fn whitespace_is_what_the_standard_library_takes_for_it() {
    for code in 0..=0x10ffffu32 {
        if let Some(c) = char::from_u32(code) {
            assert_eq!(is_whitespace(c), c.is_whitespace(), "U+{:04X}", code);
        }
    }
}

#[test]
fn trimming_is_what_the_standard_library_does() {
    for text in [
        "", " ", "   ", "a", " a", "a ", "  a b  ", "\t\n a \r\n", "\u{a0}x\u{3000}", "a\u{200b} ",
        "\u{2028}\u{2029}", " \u{3bb} ",
    ] {
        assert_eq!(trim(&chars(text)).to_vec(), chars(text.trim()), "{:?}", text);
    }
}

#[test]
fn integers_are_read_as_the_standard_library_reads_them() {
    for text in [
        "", "0", "-0", "+0", "1", "-1", "+1", "42", "0042", "-", "+", "--1", "+-1", "1-", " 1",
        "1 ", "1a", "a1", "1_0", "0x1", "9223372036854775807", "9223372036854775808",
        "-9223372036854775808", "-9223372036854775809", "+9223372036854775807",
        "18446744073709551616", "-18446744073709551616",
        "340282366920938463463374607431768211456",
        "00000000000000000000000000000000000000000000000000000000000000000000001",
        "123456789012345678901234567890123456789012345678901234567890", "\u{663}", "1\u{663}",
    ] {
        assert_eq!(parse_integer(&chars(text)), text.parse::<i64>().ok(), "{:?}", text);
    }
}

#[test]
fn decimal_numbers_are_written_as_the_standard_library_writes_them() {
    for n in [0u128, 1, 9, 10, 11, 99, 100, 101, 1234567890, u64::MAX as u128, u128::MAX] {
        let mut out = String::from("r");
        push_decimal(&mut out, n);
        assert_eq!(out, format!("r{}", n));
    }
    for v in [0i64, 1, -1, 9, -9, 10, -10, 2000001, -2000001, i64::MAX, i64::MIN] {
        let mut out = String::from("=");
        push_signed(&mut out, v);
        assert_eq!(out, format!("={}", v));
    }
}

#[test]
fn what_is_written_can_be_read_again() {
    for v in [0i64, 5, -5, 1000, -1000, i64::MAX, i64::MIN, i64::MAX - 1, i64::MIN + 1] {
        let mut out = String::new();
        push_signed(&mut out, v);
        assert_eq!(parse_integer(&chars(&out)), Some(v));
    }
}

#[test]
fn words_and_prefixes() {
    assert!(starts_with(&chars("push 1"), "push"));
    assert!(starts_with(&chars("push"), "push"));
    assert!(starts_with(&chars("push"), ""));
    assert!(!starts_with(&chars("pus"), "push"));
    assert!(!starts_with(&chars(" push"), "push"));
    assert!(!starts_with(&chars("pusH 1"), "push"));
    assert!(is_word(&chars("add"), "add"));
    assert!(is_word(&chars(""), ""));
    assert!(!is_word(&chars("add "), "add"));
    assert!(!is_word(&chars("ad"), "add"));
    assert!(!is_word(&chars("adx"), "add"));
}
