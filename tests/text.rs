use srt_translate::text::{arrow_line, blank_line, index_line, is_space_char, trim};

#[test]
fn blank_lines_are_empty_or_white_space() {
    assert!(blank_line(""));
    assert!(blank_line("   \t"));
    assert!(blank_line("\u{a0}\u{3000}"));
    assert!(!blank_line(" a "));
}

#[test]
fn index_lines_parse_as_u32() {
    assert!(index_line("1"));
    assert!(index_line("0007"));
    assert!(index_line("+12"));
    assert!(index_line("4294967295"));
    assert!(!index_line("4294967296"));
    assert!(!index_line("99999999999"));
    assert!(!index_line(""));
    assert!(!index_line("+"));
    assert!(!index_line("-1"));
    assert!(!index_line("1 "));
    assert!(!index_line("12a"));
}

#[test]
fn index_line_agrees_with_std_parse() {
    for s in ["0", "+0", "-0", "++1", "123456", "4294967295", "4294967296", " 1", "१"] {
        assert_eq!(index_line(s), s.parse::<u32>().is_ok(), "{}", s);
    }
}

#[test]
fn arrow_lines_hold_the_arrow() {
    assert!(arrow_line("00:00:01,000 --> 00:00:02,000"));
    assert!(arrow_line("-->"));
    assert!(!arrow_line("->"));
    assert!(!arrow_line("-- >"));
    assert!(!arrow_line(""));
}

#[test]
fn trim_removes_edge_white_space() {
    assert_eq!(trim("  Bonjour le monde\n"), "Bonjour le monde");
    assert_eq!(trim("a\nb\n"), "a\nb");
    assert_eq!(trim(" \t\n "), "");
    assert_eq!(trim(""), "");
    assert_eq!(trim("\u{3000}x y\u{2003}"), "x y");
}

#[test]
fn white_space_agrees_with_std() {
    for c in ['\t', '\n', '\r', ' ', '\u{85}', '\u{a0}', '\u{2028}', '\u{200b}', 'a', '\u{180e}', '\u{3000}', '\u{feff}'] {
        assert_eq!(is_space_char(c), c.is_whitespace(), "{:?}", c);
    }
}
