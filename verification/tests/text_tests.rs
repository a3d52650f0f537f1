use mcbbs::numbers::{decimal, decimal_pad2, parse_i32, parse_u32, parse_u64};
use mcbbs::text::{
    chars_of, contains_str, find_chars, replace_str, skip_bytes, split_lines, split_once,
    trim_chars, utf8_width, whitespace,
};

fn s(v: &Vec<char>) -> String {
    v.iter().collect()
}

#[test]
fn contains_finds_substrings() {
    assert!(contains_str("<span class=\"xg1\">回复:</span>", "<span class=\"xg1\">回复"));
    assert!(contains_str("abc", ""));
    assert!(!contains_str("abc", "abcd"));
    assert!(!contains_str("", "a"));
    assert!(contains_str("金粒 10", "金粒"));
}

#[test]
fn find_gives_first_char_index() {
    let hay = chars_of("金粒\"xw1\">5\"xw1\">6");
    let needle = chars_of("\"xw1\">");
    assert_eq!(find_chars(&hay, &needle), Some(2));
    assert_eq!(find_chars(&hay, &chars_of("zz")), None);
    assert_eq!(find_chars(&hay, &chars_of("")), Some(0));
}

#[test]
fn replace_matches_std() {
    for (t, f, r) in [
        ("a&amp;b&amp;&amp;c", "&amp;", "&"),
        ("3&nbsp;分钟前</span>", "&nbsp;", " "),
        ("x</span></span>", "</span>", ""),
        ("aaaa", "aa", "b"),
        ("ab", "", "x"),
        ("", "", "x"),
        ("", "a", "x"),
    ] {
        assert_eq!(replace_str(t, f, r), t.replace(f, r));
    }
}

#[test]
fn trim_matches_std() {
    for t in ["  listen 1 2\r\n", "\u{3000}x\u{a0}", "", "   ", "a b"] {
        let got = trim_chars(&chars_of(t));
        assert_eq!(s(&got), t.trim());
    }
}

#[test]
fn whitespace_matches_std() {
    for c in [' ', '\t', '\n', '\u{85}', '\u{a0}', '\u{2009}', '\u{3000}', 'a', '\u{200b}', '0'] {
        assert_eq!(whitespace(c), c.is_whitespace());
    }
}

#[test]
fn split_once_matches_splitn() {
    for t in ["listen 1 2", "listen", "", " a", "a "] {
        let (a, b) = split_once(&chars_of(t), ' ');
        let parts: Vec<&str> = t.splitn(2, ' ').collect();
        assert_eq!(s(&a), parts[0]);
        assert_eq!(b.map(|v| s(&v)), parts.get(1).map(|x| x.to_string()));
    }
}

#[test]
fn split_lines_matches_std() {
    for t in ["a\nb\r\nc", "a\n", "", "\n\n", "a\rb\n", "x\r", "\r\n"] {
        let got = split_lines(t);
        let want: Vec<String> = t.lines().map(|l| l.to_string()).collect();
        assert_eq!(got, want);
    }
}

#[test]
fn skip_bytes_matches_slicing() {
    assert_eq!(skip_bytes(&chars_of("abcdefg"), 5).map(|v| s(&v)), Some("fg".to_string()));
    assert_eq!(skip_bytes(&chars_of("abcde"), 5).map(|v| s(&v)), Some("".to_string()));
    assert_eq!(skip_bytes(&chars_of("abcd"), 5), None);
    // "ab金" is 5 bytes; "a金" leaves byte 5 inside the second character
    assert_eq!(skip_bytes(&chars_of("ab金c"), 5).map(|v| s(&v)), Some("c".to_string()));
    assert_eq!(skip_bytes(&chars_of("a金金"), 5), None);
    assert_eq!(utf8_width('a'), 1);
    assert_eq!(utf8_width('é'), 2);
    assert_eq!(utf8_width('金'), 3);
    assert_eq!(utf8_width('😀'), 4);
}

#[test]
fn parse_u64_matches_std() {
    for t in ["0", "42", "+7", "", "+", "-1", "18446744073709551615", "18446744073709551616", "1a", "٣", "007"] {
        assert_eq!(parse_u64(t), t.parse::<u64>().ok(), "{}", t);
    }
}

#[test]
fn parse_u32_matches_std() {
    for t in ["4294967295", "4294967296", "12", "x"] {
        assert_eq!(parse_u32(t), t.parse::<u32>().ok(), "{}", t);
    }
}

#[test]
fn parse_i32_matches_std() {
    for t in ["-2147483648", "-2147483649", "2147483647", "2147483648", "-0", "+5", "-", "1000001"] {
        assert_eq!(parse_i32(t), t.parse::<i32>().ok(), "{}", t);
    }
}

#[test]
fn decimal_matches_format() {
    for n in [0u64, 7, 10, 99, 100, 12345, u64::MAX] {
        assert_eq!(decimal(n), n.to_string());
        assert_eq!(decimal_pad2(n), format!("{:02}", n));
    }
}

#[test]
fn decimal_parses_back() {
    for n in [0u64, 9, 10, 4096, u64::MAX] {
        assert_eq!(parse_u64(&decimal(n)), Some(n));
    }
}
