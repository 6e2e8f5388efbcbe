//! The patterns match what the library takes them to match.

use dota_tools::pattern::{
    get_group, CONDUCT_PATTERN, LIBRARY_PATH_PATTERN, PERSONA_NAME_PATTERN,
    PROFILE_AVATAR_PATTERN, PROFILE_NAME_PATTERN,
};
use regex::Regex;

/// The characters that `\s` is taken to match.
fn is_space(c: char) -> bool {
    matches!(
        c,
        '\t'..='\r' | ' ' | '\u{85}' | '\u{a0}' | '\u{1680}' | '\u{2000}'..='\u{200a}'
            | '\u{2028}' | '\u{2029}' | '\u{202f}' | '\u{205f}' | '\u{3000}'
    )
}

#[test]
fn patterns_are_valid() {
    for p in [
        CONDUCT_PATTERN,
        LIBRARY_PATH_PATTERN,
        PERSONA_NAME_PATTERN,
        PROFILE_NAME_PATTERN,
        PROFILE_AVATAR_PATTERN,
    ] {
        assert!(Regex::new(p).is_ok(), "{}", p);
    }
    assert_eq!(CONDUCT_PATTERN, r"(\w+):\s*(\S+)");
    assert_eq!(LIBRARY_PATH_PATTERN, r#""path"\s+"([^"]+)""#);
    assert_eq!(PERSONA_NAME_PATTERN, r#""PersonaName"\s+"([^"]+)""#);
    assert_eq!(PROFILE_NAME_PATTERN, r"<steamID><!\[CDATA\[(.*?)\]\]></steamID>");
    assert_eq!(PROFILE_AVATAR_PATTERN, r"<avatarMedium><!\[CDATA\[(.*?)\]\]></avatarMedium>");
}

#[test]
fn white_space_is_white_space() {
    let space = Regex::new(r"^\s$").unwrap();
    let other = Regex::new(r"^\S$").unwrap();
    for c in '\0'..='\u{ffff}' {
        let text = c.to_string();
        if c != '\n' {
            assert_eq!(space.is_match(&text), is_space(c), "{:?}", c);
            assert_eq!(other.is_match(&text), !is_space(c), "{:?}", c);
        }
    }
}

#[test]
fn ascii_words_are_letters_digits_and_underscores() {
    let word = Regex::new(r"^\w$").unwrap();
    for c in '\0'..='\u{7f}' {
        let expected = c.is_ascii_alphanumeric() || c == '_';
        assert_eq!(word.is_match(&c.to_string()), expected, "{:?}", c);
    }
}

#[test]
fn groups_are_counted_from_the_whole_match() {
    let groups = vec![Some("a".to_string()), None];
    assert_eq!(get_group(&groups, 0), Some("a".to_string()));
    assert_eq!(get_group(&groups, 1), None);
    assert_eq!(get_group(&groups, 2), None);
}

#[test]
fn ascii_digits_are_the_numeric_ascii_characters() {
    for c in '\0'..='\u{7f}' {
        assert_eq!(c.is_numeric(), c.is_ascii_digit(), "{:?}", c);
    }
}
