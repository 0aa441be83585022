use argus::text::{
    after_last_str, contains_str, lines_str, parse_u16_str, replace_str, split_char_str,
    split_whitespace_str, str_eq, trim_str,
};

#[test]
fn replace_scans_left_to_right_without_overlap() {
    assert_eq!(replace_str("aaa", "aa", "b"), "ba");
    assert_eq!(replace_str("argus kill port", "argus", ""), " kill port");
    assert_eq!(replace_str("oh no oh", "oh", "0"), "0 no 0");
    assert_eq!(replace_str("nothing here", "xyz", "q"), "nothing here");
}

#[test]
fn trim_removes_unicode_whitespace_at_both_ends() {
    assert_eq!(trim_str("  hi there\t\n"), "hi there");
    assert_eq!(trim_str("\u{a0}x\u{3000}"), "x");
    assert_eq!(trim_str("   "), "");
    assert_eq!(trim_str(""), "");
}

#[test]
fn contains_finds_substrings() {
    assert!(contains_str("please kill port 80", "kill port"));
    assert!(!contains_str("kill por", "kill port"));
    assert!(contains_str("abc", ""));
}

#[test]
fn split_whitespace_yields_words() {
    assert_eq!(split_whitespace_str("  eighty \t eighty\none "), vec!["eighty", "eighty", "one"]);
    assert!(split_whitespace_str(" \n ").is_empty());
}

#[test]
fn split_char_keeps_empty_pieces() {
    assert_eq!(split_char_str("a,,b", ','), vec!["a", "", "b"]);
    assert_eq!(split_char_str("", ','), vec![""]);
    assert_eq!(split_char_str("a,", ','), vec!["a", ""]);
}

#[test]
fn lines_match_str_lines() {
    for s in ["a\r\nb\n", "", "\n", "a\r", "x\n\ny", "\r\n", "one"] {
        let expected: Vec<&str> = s.lines().collect();
        assert_eq!(lines_str(s), expected, "input {:?}", s);
    }
}

#[test]
fn parse_u16_matches_std() {
    for s in ["+80", "65535", "65536", "", "+", "0042", "12a", "-1", "99999999999"] {
        assert_eq!(parse_u16_str(s), s.parse::<u16>().ok(), "input {:?}", s);
    }
}

#[test]
fn after_last_matches_split_last() {
    for s in ["[::1]:5432", "*:8080", "no colon", "trailing:", ""] {
        assert_eq!(after_last_str(s, ':'), s.split(':').last().unwrap(), "input {:?}", s);
    }
}

#[test]
fn str_eq_compares_characters() {
    assert!(str_eq("eighty", "eighty"));
    assert!(!str_eq("eighty", "eight"));
    assert!(str_eq("", ""));
}

#[test]
fn decimal_matches_display() {
    for n in [0u16, 7, 10, 99, 100, 4200, 8080, 65535] {
        assert_eq!(argus::text::u16_to_decimal(n), n.to_string());
        assert_eq!(parse_u16_str(&argus::text::u16_to_decimal(n)), Some(n));
    }
}
