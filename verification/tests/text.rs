use complex_code_spotter::text::{
    decode_source, encode_to_utf8, source_lines, str_equals, text_of_lines,
};

#[test]
fn lines_of_a_source() {
    assert_eq!(source_lines("a\nbc\n"), vec!["a", "bc", ""]);
    assert_eq!(source_lines(""), vec![""]);
    assert_eq!(source_lines("x"), vec!["x"]);
    assert_eq!(source_lines("\n\n"), vec!["", "", ""]);
}

#[test]
fn text_of_a_line_range() {
    let lines = source_lines("one\ntwo\nthree\nfour");
    assert_eq!(text_of_lines(&lines, 2, 3), "two\nthree");
    assert_eq!(text_of_lines(&lines, 1, 1), "one");
    assert_eq!(text_of_lines(&lines, 3, 10), "three\nfour");
    assert_eq!(text_of_lines(&lines, 0, 2), "one\ntwo");
    assert_eq!(text_of_lines(&lines, 4, 2), "");
    assert_eq!(text_of_lines(&lines, 1, 4), "one\ntwo\nthree\nfour");
}

#[test]
fn decoding_sources() {
    assert_eq!(decode_source("fn é() {}".as_bytes()), "fn é() {}");
    // 0xE9 alone is not UTF-8: every byte becomes one character.
    assert_eq!(decode_source(&[b'a', 0xE9, b'b']), "a\u{e9}b");
    assert_eq!(encode_to_utf8(&[0x41, 0xFF]), "A\u{ff}");
    assert_eq!(decode_source(&[0xC3, 0xA9]), "é");
    assert_eq!(decode_source(&[0xC3]), "\u{c3}");
}

#[test]
fn string_helpers() {
    assert!(str_equals("x", "x"));
    assert!(!str_equals("x", "y"));
}
