use dota_tools::text::{chars_of, contains_text, same_text, text_not_after};

#[test]
fn texts_are_taken_apart_by_characters() {
    assert_eq!(chars_of("aé漢"), vec!['a', 'é', '漢']);
    assert_eq!(chars_of(""), Vec::<char>::new());
}

#[test]
fn same_texts_hold_the_same_characters() {
    assert!(same_text("", ""));
    assert!(same_text("Dota ✓", "Dota ✓"));
    assert!(!same_text("dota", "Dota"));
    assert!(!same_text("dota", "dota2"));
}

#[test]
fn a_piece_is_found_wherever_it_stands() {
    assert!(contains_text("abcabd", "abd"));
    assert!(contains_text("abc", "abc"));
    assert!(contains_text("abc", ""));
    assert!(contains_text("", ""));
    assert!(!contains_text("abc", "abcd"));
    assert!(!contains_text("abc", "ac"));
    assert!(contains_text("größe", "öß"));
}

#[test]
fn order_goes_by_code_points() {
    let words = ["", "A", "B", "Z", "a", "aa", "ab", "b", "é", "漢", "😀"];
    for (i, a) in words.iter().enumerate() {
        for (j, b) in words.iter().enumerate() {
            assert_eq!(text_not_after(a, b), i <= j, "{} {}", a, b);
            assert_eq!(text_not_after(a, b), a <= b, "{} {}", a, b);
        }
    }
}
