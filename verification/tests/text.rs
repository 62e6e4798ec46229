use tori::text::{
    char_width, is_whitespace, line_end, parse_seconds, push_chars, push_decimal, range_to_string,
    starts_with, to_chars, trim_bounds,
};

fn chars(s: &str) -> Vec<char> {
    s.chars().collect()
}

#[test]
fn white_space_is_what_the_standard_library_trims() {
    for code in 0..=0x10FFFFu32 {
        if let Some(c) = char::from_u32(code) {
            assert_eq!(is_whitespace(c), c.is_whitespace(), "U+{:04X}", code);
        }
    }
}

#[test]
fn widths_are_those_of_utf8() {
    for code in 0..=0x10FFFFu32 {
        if let Some(c) = char::from_u32(code) {
            assert_eq!(char_width(c), c.len_utf8(), "U+{:04X}", code);
        }
    }
}

#[test]
fn trim_bounds_agree_with_trim() {
    for text in ["", " ", "a", "  a b \t", "\u{a0}x\u{3000}", "\r\n", "x  ", "  x"] {
        let v = chars(text);
        let (a, b) = trim_bounds(&v, 0, v.len());
        assert_eq!(range_to_string(&v, a, b), text.trim(), "{:?}", text);
    }
    let v = chars("ab  cd  ef");
    assert_eq!(trim_bounds(&v, 2, 8), (4, 6));
    assert_eq!(trim_bounds(&v, 2, 4), (4, 4));
}

#[test]
fn line_end_finds_the_line_feed() {
    let v = chars("ab\ncd\n\nef");
    assert_eq!(line_end(&v, 0), 2);
    assert_eq!(line_end(&v, 2), 2);
    assert_eq!(line_end(&v, 3), 5);
    assert_eq!(line_end(&v, 6), 6);
    assert_eq!(line_end(&v, 7), 9);
    assert_eq!(line_end(&v, 9), 9);
}

#[test]
fn starts_with_compares_the_start_of_a_range() {
    let v = chars("xx#EXTM3U8 rest");
    assert!(starts_with(&v, 2, v.len(), &chars("#EXTM3U")));
    assert!(starts_with(&v, 2, 9, &chars("#EXTM3U")));
    assert!(!starts_with(&v, 2, 8, &chars("#EXTM3U")));
    assert!(!starts_with(&v, 0, v.len(), &chars("#EXTM3U")));
    assert!(starts_with(&v, 5, 5, &chars("")));
}

#[test]
fn seconds_are_read_from_decimal_text() {
    let cases: [(&str, Option<u64>); 14] = [
        ("0", Some(0)),
        ("007", Some(7)),
        ("125", Some(125)),
        ("125.", Some(125)),
        ("125.999", Some(125)),
        ("18446744073709551615", Some(u64::MAX)),
        ("18446744073709551616", None),
        ("99999999999999999999999", None),
        ("", None),
        (".5", None),
        ("-1", None),
        ("1.5.2", None),
        ("12a", None),
        ("１２", None),
    ];
    for (text, expected) in cases {
        let v = chars(text);
        assert_eq!(parse_seconds(&v, 0, v.len()), expected, "{:?}", text);
    }
    let v = chars("ab12.5cd");
    assert_eq!(parse_seconds(&v, 2, 6), Some(12));
    assert_eq!(parse_seconds(&v, 2, 7), None);
}

#[test]
fn decimals_are_written_as_the_standard_library_writes_them() {
    for n in [0u64, 1, 9, 10, 11, 99, 100, 101, 12345, 1 << 32, u64::MAX - 1, u64::MAX] {
        let mut out = String::from("n=");
        push_decimal(&mut out, n);
        assert_eq!(out, format!("n={}", n));
    }
}

#[test]
fn characters_are_copied_out_and_in() {
    let text = "a€𝄞\n";
    let v = to_chars(text);
    assert_eq!(v, chars(text));
    let mut out = String::from(">");
    push_chars(&mut out, &v, 1, 3);
    assert_eq!(out, ">€𝄞");
    assert_eq!(range_to_string(&v, 0, v.len()), text);
    assert_eq!(range_to_string(&v, 2, 2), "");
}
