use zeddy::text::{decimal_string, equals_text, join_path, parse_unsigned, split_words, trim_chars};

fn chars(s: &str) -> Vec<char> {
    s.chars().collect()
}

#[test]
fn unsigned_numbers_parse_like_std() {
    assert_eq!(parse_unsigned(&chars("255"), 0, 255), Some(255));
    assert_eq!(parse_unsigned(&chars("256"), 0, 255), None);
    assert_eq!(parse_unsigned(&chars("+7"), 0, 255), Some(7));
    assert_eq!(parse_unsigned(&chars("+"), 0, 255), None);
    assert_eq!(parse_unsigned(&chars(""), 0, 255), None);
    assert_eq!(parse_unsigned(&chars("-1"), 0, 255), None);
    assert_eq!(parse_unsigned(&chars("x:8080"), 2, 65535), Some(8080));
    assert_eq!(parse_unsigned(&chars("18446744073709551615"), 0, u64::MAX), Some(u64::MAX));
    assert_eq!(parse_unsigned(&chars("18446744073709551616"), 0, u64::MAX), None);
}

#[test]
fn whitespace_is_trimmed_and_split_like_std() {
    let trimmed: String = trim_chars(&chars("\u{a0} a b \u{3000}")).into_iter().collect();
    assert_eq!(trimmed, "a b");
    let words: Vec<String> = split_words(&chars("  one\ttwo\n three ")).into_iter().map(|w| w.into_iter().collect()).collect();
    assert_eq!(words, vec!["one", "two", "three"]);
}

#[test]
fn numbers_are_written_in_decimal() {
    assert_eq!(decimal_string(0), "0");
    assert_eq!(decimal_string(4_000), "4000");
    assert_eq!(decimal_string(u64::MAX), "18446744073709551615");
}

#[test]
fn paths_join_like_unix_paths() {
    assert_eq!(join_path("/a", "b"), "/a/b");
    assert_eq!(join_path("/a/", "b"), "/a/b");
    assert_eq!(join_path("/a", "/b"), "/b");
    assert_eq!(join_path("", "b"), "b");
    assert!(equals_text(&chars("abc"), "abc"));
    assert!(!equals_text(&chars("abc"), "abd"));
}
