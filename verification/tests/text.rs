use ntep_launcher::text::{find, rfind_char, same_ignoring_ascii_case};
use ntep_launcher::text::{
    chars_of, lines_of, parse_unsigned_chars, push_decimal, string_from, trim_bounds, words_of,
};

fn chars(s: &str) -> Vec<char> {
    s.chars().collect()
}

fn strings(v: Vec<Vec<char>>) -> Vec<String> {
    v.into_iter().map(|w| w.into_iter().collect()).collect()
}

#[test]
fn lines_match_str_lines() {
    for s in ["", "a", "a\n", "a\nb", "a\r\nb\r\n", "\n\n", "x\r", "a\r\r\nb", "\r\n"] {
        let expected: Vec<String> = s.lines().map(|l| l.to_string()).collect();
        assert_eq!(strings(lines_of(&chars(s))), expected, "{:?}", s);
    }
}

#[test]
fn words_match_split_whitespace() {
    for s in ["", "  a  b ", "a\u{a0}b\u{3000}c", "\tx\ny\r", "one", "   "] {
        let expected: Vec<String> = s.split_whitespace().map(|w| w.to_string()).collect();
        assert_eq!(strings(words_of(&chars(s))), expected, "{:?}", s);
    }
}

#[test]
fn trim_matches_str_trim() {
    for s in ["", "  a b  ", "\u{2003}x\u{85}", "   ", "abc"] {
        let cs = chars(s);
        let (a, b) = trim_bounds(&cs);
        let got: String = cs[a..b].iter().collect();
        assert_eq!(got, s.trim());
    }
}

#[test]
fn parse_matches_str_parse() {
    for s in ["", "+", "-", "0", "+7", "-7", "65535", "65536", "007", "1a", "++1", "4294967295", "4294967296"] {
        let cs = chars(s);
        assert_eq!(parse_unsigned_chars(&cs, u16::MAX as u32), s.parse::<u16>().ok().map(|v| v as u32), "{:?}", s);
        assert_eq!(parse_unsigned_chars(&cs, u32::MAX), s.parse::<u32>().ok(), "{:?}", s);
    }
}

#[test]
fn decimal_matches_display() {
    for n in [0u64, 9, 10, 99, 100, 12345, u64::MAX] {
        let mut cs = Vec::new();
        push_decimal(n, &mut cs);
        assert_eq!(string_from(&cs), n.to_string());
    }
}

#[test]
fn chars_and_strings_round_trip() {
    let s = "héllo, wörld ✓";
    assert_eq!(string_from(&chars_of(s)), s);
}

#[test]
fn whitespace_matches_char_is_whitespace() {
    for c in (0u32..=0x10FFFF).filter_map(char::from_u32) {
        assert_eq!(ntep_launcher::text::char_is_whitespace(c), c.is_whitespace(), "{:?}", c);
    }
}

#[test]
fn ascii_lower_matches_char_to_ascii_lowercase() {
    for c in (0u32..=0x3000).filter_map(char::from_u32) {
        assert_eq!(ntep_launcher::text::char_ascii_lower(c), c.to_ascii_lowercase());
    }
    assert_eq!(
        ntep_launcher::text::lowercase_ascii(&chars("PyYAML-Ä")),
        chars("pyyaml-Ä")
    );
}

#[test]
fn ignoring_ascii_case_compares_letters_only() {
    assert!(same_ignoring_ascii_case(&chars("Listening"), &chars("LISTENING")));
    assert!(!same_ignoring_ascii_case(&chars("LISTENIN"), &chars("LISTENING")));
    assert!(!same_ignoring_ascii_case(&chars("UDP"), &chars("TCP")));
}

#[test]
fn find_and_rfind() {
    assert_eq!(find(&chars("a==b==c"), &chars("==")), Some(1));
    assert_eq!(find(&chars("abc"), &chars("x")), None);
    assert_eq!(find(&chars("ab"), &chars("abc")), None);
    assert_eq!(rfind_char(&chars("[::1]:80"), ':'), Some(5));
    assert_eq!(rfind_char(&chars("abc"), ':'), None);
}
