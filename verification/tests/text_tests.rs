use open_kernel::text::{
    chars_eq, chars_of, find_char, is_whitespace, parse_digits, parse_i64, parse_usize,
    split_words, str_eq_chars, string_from_chars, sub_chars, trim_chars,
};

fn cs(s: &str) -> Vec<char> {
    s.chars().collect()
}

#[test]
fn chars_round_trip() {
    assert_eq!(chars_of("añb"), vec!['a', 'ñ', 'b']);
    assert_eq!(string_from_chars(&['x', 'y']), "xy");
    assert!(chars_eq(&['a'], &['a']));
    assert!(!chars_eq(&['a'], &['a', 'b']));
    assert!(str_eq_chars("ab", &['a', 'b']));
    assert!(!str_eq_chars("ab", &['a', 'c']));
}

#[test]
fn whitespace_matches_std() {
    for c in ['\t', '\n', ' ', '\u{85}', '\u{a0}', '\u{2003}', '\u{3000}', 'a', '0', '\u{200b}'] {
        assert_eq!(is_whitespace(c), c.is_whitespace(), "{:?}", c);
    }
}

#[test]
fn trim_and_words_match_std() {
    let s = "  \u{a0}hello   big\tworld \n";
    let t: String = trim_chars(&cs(s)).into_iter().collect();
    assert_eq!(t, s.trim());
    let w: Vec<String> = split_words(&cs(s)).into_iter().map(|v| v.into_iter().collect()).collect();
    assert_eq!(w, vec!["hello", "big", "world"]);
    assert!(split_words(&cs("   ")).is_empty());
}

#[test]
fn find_and_sub() {
    assert_eq!(find_char(&cs("ab cd ef"), ' '), Some(2));
    assert_eq!(find_char(&cs("abc"), ' '), None);
    assert_eq!(sub_chars(&cs("abcdef"), 1, 4), cs("bcd"));
}

#[test]
fn parse_i64_follows_std() {
    for s in ["0", "42", "+7", "-13", "-0", "9223372036854775807", "-9223372036854775808",
              "9223372036854775808", "-9223372036854775809", "", "+", "-", "1a", " 1", "1 ", "--1",
              "99999999999999999999999"] {
        assert_eq!(parse_i64(&cs(s)), s.parse::<i64>().ok(), "{:?}", s);
    }
}

#[test]
fn parse_usize_follows_std() {
    for s in ["0", "12", "+3", "-1", "-0", "", "+", "18446744073709551615", "18446744073709551616", "x"] {
        assert_eq!(parse_usize(&cs(s)), s.parse::<usize>().ok(), "{:?}", s);
    }
}

#[test]
fn parse_digits_limit() {
    assert_eq!(parse_digits(&cs("255"), 255), Some(255));
    assert_eq!(parse_digits(&cs("256"), 255), None);
    assert_eq!(parse_digits(&cs(""), 255), None);
    assert_eq!(parse_digits(&cs("9"), 5), None);
}
