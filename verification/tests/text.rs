use tracey::paths::{
    file_name_chars, join, parent_chars, relative_chars, rfind_char, under,
};
use tracey::text::{
    chars_of, contains, ends_with, find_from, has_at, parse_unsigned, push_decimal, starts_with,
    str_le, string_of, substring, trim_chars,
};

fn chars(s: &str) -> Vec<char> {
    s.chars().collect()
}

#[test]
fn strings_become_characters_and_back() {
    assert_eq!(chars_of("aé➜"), vec!['a', 'é', '➜']);
    assert_eq!(string_of(&['a', 'é', '➜']), "aé➜");
    assert_eq!(string_of(&chars_of("round trip")), "round trip");
    assert!(chars_of("").is_empty());
}

#[test]
fn searching() {
    let s = chars("abcabc");
    assert!(has_at(&s, &chars("bc"), 1));
    assert!(!has_at(&s, &chars("bc"), 2));
    assert!(!has_at(&s, &chars("bc"), 5));
    assert!(has_at(&s, &[], 6));
    assert!(!has_at(&s, &[], 7));
    assert_eq!(find_from(&s, &chars("bc"), 0), Some(1));
    assert_eq!(find_from(&s, &chars("bc"), 2), Some(4));
    assert_eq!(find_from(&s, &chars("bc"), 5), None);
    assert_eq!(find_from(&s, &chars("x"), 0), None);
    assert_eq!(find_from(&s, &[], 6), Some(6));
    assert_eq!(find_from(&[], &chars("a"), 0), None);
    assert!(contains(&s, &chars("cab")));
    assert!(!contains(&s, &chars("cba")));
    assert!(starts_with(&s, &chars("abc")) && !starts_with(&s, &chars("bc")));
    assert!(ends_with(&s, &chars("abc")) && !ends_with(&s, &chars("ab")));
    assert!(ends_with(&s, &[]) && starts_with(&[], &[]));
}

#[test]
fn numbers() {
    let parse = |s: &str, limit: u64| parse_unsigned(&chars(s), limit);
    assert_eq!(parse("0", 10), Some(0));
    assert_eq!(parse("10", 10), Some(10));
    assert_eq!(parse("11", 10), None);
    assert_eq!(parse("+7", 10), Some(7));
    assert_eq!(parse("007", 10), Some(7));
    assert_eq!(parse("", 10), None);
    assert_eq!(parse("+", 10), None);
    assert_eq!(parse("-1", 10), None);
    assert_eq!(parse("1a", 10), None);
    assert_eq!(parse("18446744073709551615", u64::MAX), Some(u64::MAX));
    assert_eq!(parse("18446744073709551616", u64::MAX), None);
    let mut out = Vec::new();
    push_decimal(&mut out, 0);
    push_decimal(&mut out, 907);
    push_decimal(&mut out, u64::MAX);
    assert_eq!(string_of(&out), "090718446744073709551615");
}

#[test]
fn ordering_and_trimming() {
    assert!(str_le("", ""));
    assert!(str_le("", "a"));
    assert!(!str_le("a", ""));
    assert!(str_le("a", "a"));
    assert!(str_le("a", "ab"));
    assert!(!str_le("ab", "a"));
    assert!(str_le("ab", "b"));
    assert!(str_le("Z", "a"));
    assert!(str_le("z", "é"));
    for (a, b) in [("auth.login", "auth.logout"), ("a.b", "a.b+2"), ("x", "a")] {
        assert_eq!(str_le(a, b), a <= b);
    }
    assert_eq!(string_of(&trim_chars(&chars("  a b \t\n"))), "a b");
    assert_eq!(string_of(&trim_chars(&chars(" \u{a0} "))), "");
    assert_eq!(string_of(&trim_chars(&chars("x"))), "x");
}

#[test]
fn substrings_respect_characters() {
    assert_eq!(substring("aé➜b", 1, 3), Some("é"));
    assert_eq!(substring("aé➜b", 0, 7), Some("aé➜b"));
    assert_eq!(substring("aé➜b", 3, 3), Some(""));
    assert_eq!(substring("aé➜b", 2, 3), None);
    assert_eq!(substring("aé➜b", 1, 4), None);
    assert_eq!(substring("aé➜b", 3, 1), None);
    assert_eq!(substring("aé➜b", 0, 8), None);
}

#[test]
fn paths() {
    assert_eq!(join("/a", "b"), "/a/b");
    assert_eq!(join("/a/", "b"), "/a/b");
    assert_eq!(join("/a", "/b"), "/b");
    assert_eq!(join("", "b"), "b");
    assert_eq!(join("/a", ""), "/a/");
    let name = |p: &str| file_name_chars(&chars(p)).map(|n| string_of(&n));
    assert_eq!(name("/a/b.rs"), Some("b.rs".to_string()));
    assert_eq!(name("b.rs"), Some("b.rs".to_string()));
    assert_eq!(name("/a/"), None);
    assert_eq!(name("/a/.."), None);
    assert_eq!(name(""), None);
    let parent = |p: &str| parent_chars(&chars(p)).map(|n| string_of(&n));
    assert_eq!(parent("/a/b"), Some("/a".to_string()));
    assert_eq!(parent("/a"), Some("/".to_string()));
    assert_eq!(parent("a"), Some(String::new()));
    assert_eq!(parent("/"), None);
    assert_eq!(parent(""), None);
    assert!(under(&chars("/a/b"), &chars("/a")));
    assert!(under(&chars("/a/b"), &chars("/a/")));
    assert!(under(&chars("/a"), &chars("/a")));
    assert!(under(&chars("/a"), &chars("")));
    assert!(!under(&chars("/ab"), &chars("/a")));
    assert!(!under(&chars("/a"), &chars("/a/b")));
    let relative = |p: &str, root: &str| relative_chars(&chars(p), &chars(root)).map(|n| string_of(&n));
    assert_eq!(relative("/a/b/c", "/a"), Some("b/c".to_string()));
    assert_eq!(relative("/a/b/c", "/a/"), Some("b/c".to_string()));
    assert_eq!(relative("/a", "/a"), Some(String::new()));
    assert_eq!(relative("/ab", "/a"), None);
    assert_eq!(rfind_char(&chars("a/b/c"), '/'), Some(3));
    assert_eq!(rfind_char(&chars("abc"), '/'), None);
}
