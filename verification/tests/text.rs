use log_style::text::{find_char, find_text, matches_at, to_chars, trim_bounds, CharClass};

fn chars(s: &str) -> Vec<char> {
    s.chars().collect()
}

#[test]
fn to_chars_keeps_every_character() {
    assert_eq!(to_chars(""), Vec::<char>::new());
    assert_eq!(to_chars("aé→b"), vec!['a', 'é', '→', 'b']);
}

#[test]
fn find_text_gives_first_occurrence() {
    assert_eq!(find_text(&chars("abcabc"), &chars("bc")), Some(1));
    assert_eq!(find_text(&chars("abcabc"), &chars("abcabc")), Some(0));
    assert_eq!(find_text(&chars("abcabc"), &chars("cb")), None);
    assert_eq!(find_text(&chars("ab"), &chars("abc")), None);
    assert_eq!(find_text(&chars("aab"), &chars("ab")), Some(1));
    assert_eq!(find_text(&chars("xyz"), &chars("z")), Some(2));
}

#[test]
fn empty_pattern_stands_at_the_start() {
    assert_eq!(find_text(&chars("abc"), &chars("")), Some(0));
    assert_eq!(find_text(&chars(""), &chars("")), Some(0));
}

#[test]
fn matches_at_compares_in_place() {
    assert!(matches_at(&chars("hello"), &chars("ll"), 2));
    assert!(!matches_at(&chars("hello"), &chars("ll"), 1));
    assert!(matches_at(&chars("hello"), &chars(""), 5));
}

#[test]
fn find_char_gives_first_position() {
    assert_eq!(find_char(&chars("a(b(c"), '('), Some(1));
    assert_eq!(find_char(&chars("abc"), '('), None);
    assert_eq!(find_char(&chars(""), '('), None);
}

#[test]
fn trim_quotes_from_both_ends() {
    assert_eq!(trim_bounds(&chars("\"'`ab`'\""), CharClass::Quote), (3, 5));
    assert_eq!(trim_bounds(&chars("a\"b"), CharClass::Quote), (0, 3));
    assert_eq!(trim_bounds(&chars(" \"a\""), CharClass::Quote), (0, 3));
}

#[test]
fn trim_of_nothing_but_class_is_empty() {
    let (a, b) = trim_bounds(&chars("\"\"\""), CharClass::Quote);
    assert_eq!(a, b);
    let (c, d) = trim_bounds(&chars(" \t\n"), CharClass::Whitespace);
    assert_eq!(c, d);
    assert_eq!(trim_bounds(&chars(""), CharClass::Whitespace), (0, 0));
}

#[test]
fn trim_whitespace_from_both_ends() {
    assert_eq!(trim_bounds(&chars(" \ta b\r\n"), CharClass::Whitespace), (2, 5));
    assert_eq!(trim_bounds(&chars("\u{3000}x\u{a0}"), CharClass::Whitespace), (1, 2));
    assert_eq!(trim_bounds(&chars("\"x\""), CharClass::Whitespace), (0, 3));
}

#[test]
fn character_classes() {
    assert!(CharClass::Quote.has('"'));
    assert!(CharClass::Quote.has('\''));
    assert!(CharClass::Quote.has('`'));
    assert!(!CharClass::Quote.has(' '));
    assert!(!CharClass::Quote.has('a'));
    assert!(CharClass::Whitespace.has(' '));
    assert!(CharClass::Whitespace.has('\u{2028}'));
    assert!(!CharClass::Whitespace.has('"'));
    assert!(!CharClass::Whitespace.has('_'));
}
