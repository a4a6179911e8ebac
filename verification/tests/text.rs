use kana_practice::text::{char_is_whitespace, same_text, starts_with, trim, trim_start_matches};

#[test]
fn whitespace_agrees_with_the_standard_library_on_every_character() {
    let mut code: u32 = 0;
    while code <= 0x10FFFF {
        if let Some(c) = char::from_u32(code) {
            assert_eq!(char_is_whitespace(c), c.is_whitespace(), "U+{:04X}", code);
        }
        code += 1;
    }
}

#[test]
fn trim_removes_white_space_at_both_ends_only() {
    assert_eq!(trim("  shi \t\n"), "shi");
    assert_eq!(trim("shi"), "shi");
    assert_eq!(trim(" k a "), "k a");
    assert_eq!(trim(""), "");
    assert_eq!(trim(" \u{3000}\u{A0} "), "");
    assert_eq!(trim("\u{3000}し\u{2003}"), "し");
    assert_eq!(trim("x "), "x");
    assert_eq!(trim(" x"), "x");
}

#[test]
fn trim_agrees_with_the_standard_library() {
    for s in ["", " ", "a", " a", "a ", "  a  b  ", "\t\r\n", "\u{85}é\u{1680}", "あ い", "   -- "] {
        assert_eq!(trim(s), s.trim());
    }
}

#[test]
fn leading_dashes_are_stripped() {
    assert_eq!(trim_start_matches("--hiragana", '-'), "hiragana");
    assert_eq!(trim_start_matches("-h", '-'), "h");
    assert_eq!(trim_start_matches("main", '-'), "main");
    assert_eq!(trim_start_matches("---", '-'), "");
    assert_eq!(trim_start_matches("", '-'), "");
    assert_eq!(trim_start_matches("-a-b-", '-'), "a-b-");
    assert_eq!(trim_start_matches("ああい", 'あ'), "い");
}

#[test]
fn prefixes() {
    assert!(starts_with("hiragana", "hira"));
    assert!(starts_with("hiragana", ""));
    assert!(starts_with("hiragana", "hiragana"));
    assert!(!starts_with("hiragana", "hiraganas"));
    assert!(!starts_with("hiragana", "k"));
    assert!(starts_with("きゃ", "き"));
    assert!(!starts_with("", "a"));
    assert!(starts_with("", ""));
}

#[test]
fn same_text_compares_characters() {
    assert!(same_text("shi", "shi"));
    assert!(!same_text("shi", "Shi"));
    assert!(!same_text("shi", "sh"));
    assert!(same_text("", ""));
    assert!(same_text("し", "し"));
}
