use tracy::text::{
    chars_of, contains_chars, decimal_chars, equals_str, find_char, join_strings, lex_less_chars,
    parse_signed_chars, parse_unsigned_chars, split_fields, split_lines, string_of, strip_ends,
    trim_chars,
};

fn chars(s: &str) -> Vec<char> {
    s.chars().collect()
}

fn strings(parts: Vec<Vec<char>>) -> Vec<String> {
    parts.into_iter().map(|p| p.into_iter().collect()).collect()
}

#[test]
fn chars_and_strings_convert_both_ways() {
    assert_eq!(chars_of("héllo"), vec!['h', 'é', 'l', 'l', 'o']);
    assert_eq!(string_of(&vec!['a', 'ß', '😀']), "aß😀");
    assert_eq!(string_of(&Vec::new()), "");
}

#[test]
fn lines_end_at_line_feeds() {
    assert_eq!(strings(split_lines(&chars("a\nb\r\nc"))), vec!["a", "b", "c"]);
    assert_eq!(strings(split_lines(&chars("a\n"))), vec!["a"]);
    assert_eq!(strings(split_lines(&chars("a\n\n"))), vec!["a", ""]);
    assert_eq!(strings(split_lines(&chars("\n"))), vec![""]);
    assert!(split_lines(&chars("")).is_empty());
    assert_eq!(strings(split_lines(&chars("a\rb\r"))), vec!["a\rb\r"]);
    assert_eq!(strings(split_lines(&chars("a\r\r\nb"))), vec!["a\r", "b"]);
}

#[test]
fn lines_agree_with_the_standard_library() {
    for text in ["", "x", "x\n", "\n\nx\r\n\r\n", "a\r", "\r\n", "a\nb\n\nc", "\r"] {
        let expected: Vec<String> = text.lines().map(|l| l.to_string()).collect();
        assert_eq!(strings(split_lines(&chars(text))), expected, "{:?}", text);
    }
}

#[test]
fn fields_are_runs_without_white_space() {
    assert_eq!(strings(split_fields(&chars("  a  bc\td\n"))), vec!["a", "bc", "d"]);
    assert!(split_fields(&chars(" \t ")).is_empty());
    assert_eq!(strings(split_fields(&chars("one"))), vec!["one"]);
    assert_eq!(strings(split_fields(&chars("a\u{3000}b\u{a0}c"))), vec!["a", "b", "c"]);
}

#[test]
fn fields_agree_with_the_standard_library() {
    for text in ["", " ", "a b", "  a\u{2028}b  ", "\u{85}x\u{1680}y", "a\u{200b}b"] {
        let expected: Vec<String> = text.split_whitespace().map(|l| l.to_string()).collect();
        assert_eq!(strings(split_fields(&chars(text))), expected, "{:?}", text);
    }
}

#[test]
fn trimming_and_stripping() {
    assert_eq!(trim_chars(&chars("  a b  ")), chars("a b"));
    assert_eq!(trim_chars(&chars("   ")), chars(""));
    assert_eq!(strip_ends(&chars("<<a<b>>"), '<', '>'), chars("a<b"));
    assert_eq!(strip_ends(&chars(">a<"), '<', '>'), chars(">a<"));
    assert_eq!(strip_ends(&chars("<<<"), '<', '>'), chars(""));
}

#[test]
fn unsigned_numbers() {
    assert_eq!(parse_unsigned_chars(&chars("0")), Some(0));
    assert_eq!(parse_unsigned_chars(&chars("007")), Some(7));
    assert_eq!(parse_unsigned_chars(&chars("+15")), Some(15));
    assert_eq!(parse_unsigned_chars(&chars("")), None);
    assert_eq!(parse_unsigned_chars(&chars("+")), None);
    assert_eq!(parse_unsigned_chars(&chars("-1")), None);
    assert_eq!(parse_unsigned_chars(&chars("1 ")), None);
    assert_eq!(parse_unsigned_chars(&chars("١٢")), None);
    assert_eq!(parse_unsigned_chars(&chars(&usize::MAX.to_string())), Some(usize::MAX));
    assert_eq!(parse_unsigned_chars(&chars(&format!("{}0", usize::MAX))), None);
    assert_eq!(parse_unsigned_chars(&chars("18446744073709551616")), None);
}

#[test]
fn signed_numbers() {
    assert_eq!(parse_signed_chars(&chars("-0")), Some(0));
    assert_eq!(parse_signed_chars(&chars("-12")), Some(-12));
    assert_eq!(parse_signed_chars(&chars("+12")), Some(12));
    assert_eq!(parse_signed_chars(&chars("--1")), None);
    assert_eq!(parse_signed_chars(&chars("-")), None);
    assert_eq!(parse_signed_chars(&chars("9223372036854775807")), Some(i64::MAX));
    assert_eq!(parse_signed_chars(&chars("9223372036854775808")), None);
    assert_eq!(parse_signed_chars(&chars("-9223372036854775808")), Some(i64::MIN));
    assert_eq!(parse_signed_chars(&chars("-9223372036854775809")), None);
}

#[test]
fn decimal_digits() {
    assert_eq!(decimal_chars(0), chars("0"));
    assert_eq!(decimal_chars(9), chars("9"));
    assert_eq!(decimal_chars(10), chars("10"));
    assert_eq!(decimal_chars(1234567890), chars("1234567890"));
    assert_eq!(decimal_chars(usize::MAX), chars(&usize::MAX.to_string()));
}

#[test]
fn searching() {
    assert!(contains_chars(&chars("line_comment"), &chars("comment")));
    assert!(contains_chars(&chars("abc"), &chars("")));
    assert!(contains_chars(&chars(""), &chars("")));
    assert!(!contains_chars(&chars("ab"), &chars("abc")));
    assert!(!contains_chars(&chars("commen_t"), &chars("comment")));
    assert_eq!(find_char(&chars("a b c"), ' '), Some(1));
    assert_eq!(find_char(&chars("abc"), ' '), None);
    assert!(equals_str(&chars("author"), "author"));
    assert!(!equals_str(&chars("author"), "author-mail"));
    assert!(!equals_str(&chars("author-mail"), "author"));
    assert!(equals_str(&chars(""), ""));
}

#[test]
fn order_of_strings() {
    assert!(lex_less_chars(&chars("REQ-1"), &chars("REQ-10")));
    assert!(lex_less_chars(&chars("REQ-10"), &chars("REQ-2")));
    assert!(lex_less_chars(&chars(""), &chars("a")));
    assert!(!lex_less_chars(&chars("a"), &chars("a")));
    assert!(!lex_less_chars(&chars("b"), &chars("a")));
    assert!(lex_less_chars(&chars("Z"), &chars("a")));
    for (a, b) in [("a", "é"), ("é", "😀"), ("z", "\u{ffff}"), ("\u{ffff}", "\u{10000}")] {
        assert_eq!(lex_less_chars(&chars(a), &chars(b)), a.to_string() < b.to_string());
        assert_eq!(lex_less_chars(&chars(b), &chars(a)), b.to_string() < a.to_string());
    }
}

#[test]
fn joining() {
    assert_eq!(join_strings(&vec!["a".to_string(), "b".to_string(), String::new()], ", "), "a, b, ");
    assert_eq!(join_strings(&Vec::new(), ","), "");
    assert_eq!(join_strings(&vec!["x".to_string()], "\n"), "x");
    assert_eq!(join_strings(&vec!["x".to_string(), "y".to_string()], "\n"), "x\ny");
}
