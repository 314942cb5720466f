use rs_cinic_10_index::text::{chars_of, find, is_whitespace, skip, str_eq, trim};

#[test]
fn white_space_is_what_std_calls_white_space() {
    for code in 0..=0x10_ffffu32 {
        if let Some(c) = char::from_u32(code) {
            assert_eq!(is_whitespace(c), c.is_whitespace(), "U+{:04X}", code);
        }
    }
}

#[test]
fn trimming_is_what_std_trims() {
    for s in [
        "",
        " ",
        "a",
        "  a b  ",
        "\t\r\n x \u{a0}\u{2003}",
        "\u{3000}\u{1680}",
        "x\u{85}",
        "\u{200b}y\u{200b}",
        " \u{feff} ",
    ] {
        let chars: Vec<char> = s.chars().collect();
        let trimmed: String = trim(&chars).iter().collect();
        assert_eq!(trimmed, s.trim(), "{s:?}");
    }
}

#[test]
fn characters_come_in_order() {
    assert_eq!(chars_of("a\u{e9}\u{4e2d}\u{1f600}z"), vec!['a', '\u{e9}', '\u{4e2d}', '\u{1f600}', 'z']);
    assert_eq!(chars_of(""), Vec::<char>::new());
}

#[test]
fn strings_are_equal_by_their_characters() {
    assert!(str_eq("", ""));
    assert!(str_eq("caf\u{e9}", "caf\u{e9}"));
    assert!(!str_eq("cafe", "caf\u{e9}"));
    assert!(!str_eq("abc", "abd"));
    assert!(!str_eq("abc", "ab"));
    assert!(!str_eq("ab", "abc"));
}

#[test]
fn finding_and_skipping_stop_at_the_end() {
    let s: Vec<char> = "--ab:c:".chars().collect();
    assert_eq!(skip(&s, 0, '-'), 2);
    assert_eq!(skip(&s, 2, '-'), 2);
    assert_eq!(find(&s, 0, ':'), 4);
    assert_eq!(find(&s, 5, ':'), 6);
    assert_eq!(find(&s, 7, ':'), 7);
    assert_eq!(find(&s, 0, 'z'), 7);
    assert_eq!(skip(&['-', '-'], 0, '-'), 2);
    assert_eq!(find(&[], 0, 'a'), 0);
}
