use epub_reader::text::{chars_of, ends_with, find_char, same_text, string_of, trim};

#[test]
fn trim_removes_white_space_at_both_ends() {
    assert_eq!(trim("  a b \t\n"), "a b");
    assert_eq!(trim("a"), "a");
    assert_eq!(trim(""), "");
    assert_eq!(trim(" \n "), "");
    assert_eq!(trim("\u{2028}é \u{a0}"), "é");
}

#[test]
fn trim_agrees_with_the_standard_library() {
    for s in ["", " ", "x", " x", "x ", "\t x y \r\n", "\u{85}x\u{1680}", "\u{200b}x"] {
        assert_eq!(trim(s), s.trim());
    }
}

#[test]
fn chars_of_lists_every_character() {
    assert_eq!(chars_of("aé☃"), vec!['a', 'é', '☃']);
    assert!(chars_of("").is_empty());
}

#[test]
fn string_of_takes_a_range_of_characters() {
    let chars = chars_of("hello");
    assert_eq!(string_of(&chars, 1, 4), "ell");
    assert_eq!(string_of(&chars, 0, 5), "hello");
    assert_eq!(string_of(&chars, 2, 2), "");
}

#[test]
fn find_char_gives_the_first_position_or_the_length() {
    assert_eq!(find_char(&chars_of("a#b#"), '#'), 1);
    assert_eq!(find_char(&chars_of("abc"), '#'), 3);
    assert_eq!(find_char(&chars_of(""), '#'), 0);
    assert_eq!(find_char(&chars_of("é#"), '#'), 1);
}

#[test]
fn same_text_compares_character_by_character() {
    assert!(same_text("pre", "pre"));
    assert!(same_text("", ""));
    assert!(!same_text("pre", "pro"));
    assert!(!same_text("pre", "pre "));
    assert!(!same_text("Pre", "pre"));
}

#[test]
fn ends_with_compares_the_tail() {
    assert!(ends_with("content.opf", ".opf"));
    assert!(ends_with(".opf", ".opf"));
    assert!(ends_with("anything", ""));
    assert!(!ends_with("opf", ".opf"));
    assert!(!ends_with("content.opf ", ".opf"));
    assert!(!ends_with("content.opx", ".opf"));
}
