use wiki_store::text::{
    characters, contains_chars, contains_text, decimal_text, mentions, parse_decimal, same_text,
    starts_with,
};
use wiki_store::{AppConfig, AppState};

#[test]
fn decimal_text_writes_integers() {
    assert_eq!(decimal_text(0), "0");
    assert_eq!(decimal_text(7), "7");
    assert_eq!(decimal_text(10), "10");
    assert_eq!(decimal_text(1234567890), "1234567890");
    assert_eq!(decimal_text(-1), "-1");
    assert_eq!(decimal_text(-120), "-120");
    assert_eq!(decimal_text(i64::MAX), "9223372036854775807");
    assert_eq!(decimal_text(i64::MIN), "-9223372036854775808");
}

#[test]
fn decimal_text_agrees_with_the_standard_formatting() {
    let mut n: i64 = 1;
    for _ in 0..62 {
        assert_eq!(decimal_text(n), n.to_string());
        assert_eq!(decimal_text(-n), (-n).to_string());
        assert_eq!(decimal_text(n - 1), (n - 1).to_string());
        n *= 2;
    }
}

#[test]
fn characters_of_a_text() {
    assert_eq!(characters(""), Vec::<char>::new());
    assert_eq!(characters("aé→"), vec!['a', 'é', '→']);
}

#[test]
fn contains_text_finds_runs() {
    assert!(contains_text("hello world", "hello"));
    assert!(contains_text("hello world", "o w"));
    assert!(contains_text("hello world", "world"));
    assert!(contains_text("hello world", "hello world"));
    assert!(contains_text("hello world", ""));
    assert!(contains_text("", ""));
    assert!(!contains_text("", "a"));
    assert!(!contains_text("hello world", "hello world!"));
    assert!(!contains_text("hello world", "wordl"));
    assert!(!contains_text("aab", "abb"));
    assert!(contains_text("aaab", "aab"));
    assert!(contains_text("día→noche", "→n"));
}

#[test]
fn contains_chars_agrees_with_contains_text() {
    let hay: Vec<char> = "abcabd".chars().collect();
    let yes: Vec<char> = "cab".chars().collect();
    let no: Vec<char> = "cad".chars().collect();
    assert!(contains_chars(&hay, &yes));
    assert!(!contains_chars(&hay, &no));
}

#[test]
fn mentions_folds_the_hay_only() {
    assert!(mentions("Hello World", "hello"));
    assert!(mentions("HELLO", "ell"));
    assert!(!mentions("Hello World", "Hello"));
    assert!(!mentions("hello", "help"));
}

#[test]
fn state_at_start() {
    let state = AppState::new();
    assert!(state.reminders.is_empty());
    assert_eq!(state.next_id, 1);
    assert!(state.config.debug_mode);
    assert!(AppConfig::default().debug_mode);
}

#[test]
fn parse_decimal_reads_what_decimal_text_writes() {
    for n in [0, 1, -1, 9, 10, -10, 1234567890, i64::MAX, i64::MIN, i64::MAX - 1, i64::MIN + 1] {
        assert_eq!(parse_decimal(&decimal_text(n)), Some(n));
    }
    assert_eq!(parse_decimal("42"), Some(42));
    assert_eq!(parse_decimal("-9223372036854775808"), Some(i64::MIN));
    assert_eq!(parse_decimal("9223372036854775807"), Some(i64::MAX));
}

#[test]
fn parse_decimal_reads_nothing_else() {
    for text in [
        "",
        "-",
        "+5",
        "05",
        "00",
        "-0",
        "-05",
        " 5",
        "5 ",
        "5a",
        "a5",
        "1_000",
        "--5",
        "5-",
        "٥",
        "9223372036854775808",
        "-9223372036854775809",
        "18446744073709551616",
        "99999999999999999999999999",
        "1.0",
    ] {
        assert_eq!(parse_decimal(text), None);
    }
}

#[test]
fn same_text_and_starts_with() {
    assert!(same_text("abc", "abc"));
    assert!(same_text("", ""));
    assert!(!same_text("abc", "abd"));
    assert!(!same_text("abc", "ab"));
    assert!(starts_with("http://x", "http"));
    assert!(starts_with("http", "http"));
    assert!(starts_with("anything", ""));
    assert!(!starts_with("htt", "http"));
    assert!(!starts_with("xhttp", "http"));
}
